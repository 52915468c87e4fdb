//! Armor and homes: what the countries can muster at the outbreak, and where new armor appears.

use std::collections::BTreeMap;
use vstd::prelude::*;
use crate::economy::EconomyState;
use crate::numbers::{N_100, N_50, N_50000, N_8};
use crate::production::{ProductionCity, ProductionCountry};
use crate::runtime::enlistment::{find_entry, first_entry};
use crate::runtime::error::RuntimeError;
use crate::runtime::recruitment::{
    cell_center, center_supplied, dominated, is_dominated, recruit_cell_center,
};
use crate::runtime::world::TerritoryControl;
use crate::scalar::{real_of, Real};
use crate::tables::{ascending, ordered_countries};
use crate::units::{CombatUnit, SimulationUnit, UnitKind};
use crate::worksheet::{integer, number_at, product, quotient, sum, Operation, Reader};

verus! {

/// Vehicles of a country and their quality, weighted by their number.
#[derive(Clone, Copy, Debug, PartialEq, Eq, Structural)]
pub struct ArmorMuster {
    pub vehicles: u64,
    pub weighted_quality: Real,
}

pub open spec fn tally_of(tallies: Map<u16, ArmorMuster>, country: u16) -> ArmorMuster {
    if tallies.contains_key(country) {
        tallies[country]
    } else {
        ArmorMuster { vehicles: 0, weighted_quality: real_of(0) }
    }
}

/// Vehicles that a formation has or can have.
pub open spec fn vehicle_room(unit: CombatUnit) -> u64 {
    if unit.max_equipment > unit.equipment {
        unit.max_equipment
    } else {
        unit.equipment
    }
}

/// The armor of the first formations by country.
pub open spec fn armor_tallies(
    results: Map<Operation, u64>,
    units: Seq<SimulationUnit>,
    count: nat,
) -> Result<Map<u16, ArmorMuster>, RuntimeError>
    decreases count,
{
    if count == 0 {
        Ok(Map::empty())
    } else {
        match armor_tallies(results, units, (count - 1) as nat) {
            Err(error) => Err(error),
            Ok(rest) => {
                let unit = units[count - 1].combat;
                let country = unit.sovereign as u16;
                let room = vehicle_room(unit);
                let present = tally_of(rest, country);
                if unit.kind is Army {
                    Ok(rest)
                } else if unit.sovereign > u16::MAX {
                    Err(RuntimeError::InvalidCheckpoint("invalid armor sovereign"))
                } else if present.vehicles + room > u64::MAX {
                    Err(RuntimeError::InvalidCheckpoint("armor capacity overflowed"))
                } else {
                    Ok(
                        rest.insert(
                            country,
                            ArmorMuster {
                                vehicles: (present.vehicles + room) as u64,
                                weighted_quality: sum(
                                    results,
                                    present.weighted_quality,
                                    product(results, unit.quality, integer(results, room)),
                                ),
                            },
                        ),
                    )
                }
            },
        }
    }
}

proof fn lemma_tallies_fail(
    results: Map<Operation, u64>,
    units: Seq<SimulationUnit>,
    count: nat,
    whole: nat,
)
    requires
        count <= whole,
        armor_tallies(results, units, count) is Err,
    ensures
        armor_tallies(results, units, whole) == armor_tallies(results, units, count),
    decreases whole,
{
    if count < whole {
        lemma_tallies_fail(results, units, count, (whole - 1) as nat);
    }
}

/// How many vehicles a country of a given size and wealth maintains.
pub open spec fn expected_vehicles(
    results: Map<Operation, u64>,
    country: ProductionCountry,
    economy: EconomyState,
) -> u64 {
    let scale = product(
        results,
        country.expected_army_units.max_of(real_of(0)),
        economy.economic_strength.max_of(real_of(0)),
    );
    let vehicles = product(results, number_at(results, Operation::Root(scale)), real_of(N_8));
    results[Operation::Whole(
        number_at(results, Operation::Round(vehicles)).clamp_of(real_of(0), real_of(N_50000)),
    )]
}

/// Room for vehicles and their quality in one country.
pub open spec fn armor_profile(
    results: Map<Operation, u64>,
    country: ProductionCountry,
    economy: EconomyState,
    tally: ArmorMuster,
) -> (u64, Real) {
    let expected = expected_vehicles(results, country, economy);
    (
        if expected > tally.vehicles {
            expected
        } else {
            tally.vehicles
        },
        (if tally.vehicles > 0 {
            quotient(results, tally.weighted_quality, integer(results, tally.vehicles))
        } else {
            real_of(N_50)
        }).clamp_of(real_of(0), real_of(N_100)),
    )
}

/// The profiles of the first countries.
pub open spec fn armor_profiles_of(
    results: Map<Operation, u64>,
    countries: Seq<ProductionCountry>,
    economies: Map<u16, EconomyState>,
    tallies: Map<u16, ArmorMuster>,
    keys: Seq<u16>,
    count: nat,
) -> Result<Map<u16, (u64, Real)>, RuntimeError>
    decreases count,
{
    if count == 0 {
        Ok(Map::empty())
    } else {
        match armor_profiles_of(
            results,
            countries,
            economies,
            tallies,
            keys,
            (count - 1) as nat,
        ) {
            Err(error) => Err(error),
            Ok(rest) => {
                let id = keys[count - 1];
                match first_entry(countries, id, 0) {
                    None => Err(
                        RuntimeError::InvalidCheckpoint(
                            "material country is absent from production",
                        ),
                    ),
                    Some(country) => if !economies.contains_key(id) {
                        Err(RuntimeError::InvalidCheckpoint("material country has no economy"))
                    } else {
                        Ok(
                            rest.insert(
                                id,
                                armor_profile(
                                    results,
                                    country,
                                    economies[id],
                                    tally_of(tallies, id),
                                ),
                            ),
                        )
                    },
                }
            },
        }
    }
}

proof fn lemma_profiles_fail(
    results: Map<Operation, u64>,
    countries: Seq<ProductionCountry>,
    economies: Map<u16, EconomyState>,
    tallies: Map<u16, ArmorMuster>,
    keys: Seq<u16>,
    count: nat,
    whole: nat,
)
    requires
        count <= whole,
        armor_profiles_of(results, countries, economies, tallies, keys, count) is Err,
    ensures
        armor_profiles_of(results, countries, economies, tallies, keys, whole)
            == armor_profiles_of(results, countries, economies, tallies, keys, count),
    decreases whole,
{
    if count < whole {
        lemma_profiles_fail(
            results,
            countries,
            economies,
            tallies,
            keys,
            count,
            (whole - 1) as nat,
        );
    }
}

/// The profiles of all countries.
pub open spec fn armor_profiles(
    results: Map<Operation, u64>,
    units: Seq<SimulationUnit>,
    countries: Seq<ProductionCountry>,
    economies: Map<u16, EconomyState>,
    country_to_side: Map<u16, usize>,
) -> Result<Map<u16, (u64, Real)>, RuntimeError> {
    match armor_tallies(results, units, units.len()) {
        Err(error) => Err(error),
        Ok(tallies) => armor_profiles_of(
            results,
            countries,
            economies,
            tallies,
            ascending(country_to_side.dom()),
            ascending(country_to_side.dom()).len(),
        ),
    }
}

/// Whether a worksheet holds all that a muster of armor takes.
pub open spec fn armor_muster_supplied(
    results: Map<Operation, u64>,
    units: Seq<SimulationUnit>,
) -> bool {
    forall|k: int|
        0 <= k < units.len() && (#[trigger] units[k]).combat.kind is Armor ==> (armor_tallies(
            results,
            units,
            k as nat,
        ) matches Ok(rest) ==> ({
            let unit = units[k].combat;
            let weight = integer(results, vehicle_room(unit));
            &&& results.contains_key(Operation::Integer(vehicle_room(unit)))
            &&& results.contains_key(Operation::Product(unit.quality, weight))
            &&& results.contains_key(
                Operation::Sum(
                    tally_of(rest, unit.sovereign as u16).weighted_quality,
                    product(results, unit.quality, weight),
                ),
            )
        }))
}

fn tally_armor_by_country(units: &Vec<SimulationUnit>, reader: &mut Reader<'_>) -> (outcome: Result<
    BTreeMap<u16, ArmorMuster>,
    RuntimeError,
>)
    requires
        old(reader).sound(),
    ensures
        final(reader)@ == old(reader)@,
        final(reader).sound(),
        final(reader).complete() ==> old(reader).complete() && (match outcome {
            Ok(tallies) => armor_tallies(old(reader)@, units@, units@.len()) == Ok::<
                Map<u16, ArmorMuster>,
                RuntimeError,
            >(tallies@),
            Err(error) => armor_tallies(old(reader)@, units@, units@.len()) == Err::<
                Map<u16, ArmorMuster>,
                RuntimeError,
            >(error),
        }),
        old(reader).complete() && armor_muster_supplied(old(reader)@, units@) ==>
            final(reader).complete(),
{
    broadcast use vstd::std_specs::btree::group_btree_axioms;

    let ghost results = reader@;
    let ghost untouched = reader.complete();
    let mut tallies: BTreeMap<u16, ArmorMuster> = BTreeMap::new();
    let mut at: usize = 0;
    while at < units.len()
        invariant
            at <= units@.len(),
            results == old(reader)@,
            untouched == old(reader).complete(),
            reader@ == results,
            reader.sound(),
            reader.complete() ==> untouched && armor_tallies(results, units@, at as nat) == Ok::<
                Map<u16, ArmorMuster>,
                RuntimeError,
            >(tallies@),
            untouched && armor_muster_supplied(results, units@) ==> reader.complete(),
        decreases units@.len() - at,
    {
        broadcast use vstd::std_specs::btree::group_btree_axioms;

        let unit = units[at].combat;
        if unit.kind == UnitKind::Armor {
            if unit.sovereign > 0xffff {
                proof {
                    if reader.complete() {
                        lemma_tallies_fail(results, units@, (at + 1) as nat, units@.len());
                    }
                }
                return Err(RuntimeError::InvalidCheckpoint("invalid armor sovereign"));
            }
            let country: u16 = unit.sovereign as u16;
            let room: u64 = if unit.max_equipment > unit.equipment {
                unit.max_equipment
            } else {
                unit.equipment
            };
            let present: ArmorMuster = match tallies.get(&country) {
                Some(tally) => *tally,
                None => ArmorMuster { vehicles: 0, weighted_quality: Real::zero() },
            };
            let vehicles: u64 = match present.vehicles.checked_add(room) {
                Some(vehicles) => vehicles,
                None => {
                    proof {
                        if reader.complete() {
                            lemma_tallies_fail(results, units@, (at + 1) as nat, units@.len());
                        }
                    }
                    return Err(RuntimeError::InvalidCheckpoint("armor capacity overflowed"));
                },
            };
            let weight = reader.integer(room);
            let weighed = reader.product(unit.quality, weight);
            let weighted_quality = reader.sum(present.weighted_quality, weighed);
            tallies.insert(country, ArmorMuster { vehicles, weighted_quality });
        }
        at = at + 1;
    }
    Ok(tallies)
}

/// Whether a worksheet holds all that a profile of armor takes.
pub open spec fn profile_supplied(
    results: Map<Operation, u64>,
    country: ProductionCountry,
    economy: EconomyState,
    tally: ArmorMuster,
) -> bool {
    let expected_units = country.expected_army_units.max_of(real_of(0));
    let strength = economy.economic_strength.max_of(real_of(0));
    let scale = product(results, expected_units, strength);
    let root = number_at(results, Operation::Root(scale));
    let vehicles = product(results, root, real_of(N_8));
    let rounded = number_at(results, Operation::Round(vehicles));
    let bounded = rounded.clamp_of(real_of(0), real_of(N_50000));
    &&& results.contains_key(Operation::Product(expected_units, strength))
    &&& results.contains_key(Operation::Root(scale))
    &&& results.contains_key(Operation::Product(root, real_of(N_8)))
    &&& results.contains_key(Operation::Round(vehicles))
    &&& results.contains_key(Operation::Whole(bounded))
    &&& tally.vehicles > 0 ==> results.contains_key(Operation::Integer(tally.vehicles))
        && results.contains_key(
        Operation::Quotient(tally.weighted_quality, integer(results, tally.vehicles)),
    )
}

fn profile_armor(
    country: &ProductionCountry,
    economy: &EconomyState,
    tally: ArmorMuster,
    reader: &mut Reader<'_>,
) -> (profile: (u64, Real))
    requires
        old(reader).sound(),
    ensures
        final(reader)@ == old(reader)@,
        final(reader).sound(),
        final(reader).complete() ==> old(reader).complete() && profile == armor_profile(
            old(reader)@,
            *country,
            *economy,
            tally,
        ),
        old(reader).complete() && profile_supplied(old(reader)@, *country, *economy, tally) ==>
            final(reader).complete(),
{
    let scale = reader.product(
        country.expected_army_units.larger(Real::zero()),
        economy.economic_strength.larger(Real::zero()),
    );
    let root = reader.gather_number(Operation::Root(scale));
    let vehicles = reader.product(root, Real::from_bits(N_8));
    let rounded = reader.gather_number(Operation::Round(vehicles));
    let bounded = rounded.clamped(Real::zero(), Real::from_bits(N_50000));
    let expected: u64 = reader.gather(Operation::Whole(bounded));
    let quality = if tally.vehicles > 0 {
        let weight = reader.integer(tally.vehicles);
        reader.quotient(tally.weighted_quality, weight)
    } else {
        Real::from_bits(N_50)
    };
    (
        if expected > tally.vehicles {
            expected
        } else {
            tally.vehicles
        },
        quality.clamped(Real::zero(), Real::from_bits(N_100)),
    )
}

/// Whether a worksheet holds all that profiles of armor takes.
pub open spec fn profiles_supplied(
    results: Map<Operation, u64>,
    units: Seq<SimulationUnit>,
    countries: Seq<ProductionCountry>,
    economies: Map<u16, EconomyState>,
    keys: Seq<u16>,
) -> bool {
    &&& armor_muster_supplied(results, units)
    &&& armor_tallies(results, units, units.len()) matches Ok(tallies) ==> table_supplied(
        results,
        countries,
        economies,
        tallies,
        keys,
    )
}

/// Whether a worksheet holds all that a table of profiles takes.
pub open spec fn table_supplied(
    results: Map<Operation, u64>,
    countries: Seq<ProductionCountry>,
    economies: Map<u16, EconomyState>,
    tallies: Map<u16, ArmorMuster>,
    keys: Seq<u16>,
) -> bool {
    forall|k: int|
        0 <= k < keys.len() && economies.contains_key(#[trigger] keys[k]) ==> (first_entry(
            countries,
            keys[k],
            0,
        ) matches Some(country) ==> profile_supplied(
            results,
            country,
            economies[keys[k]],
            tally_of(tallies, keys[k]),
        ))
}

/// Room for vehicles and their quality in every country: what it has in the field, or what a
/// country of its size and wealth maintains, whichever is more.
pub fn material_armor_profiles(
    units: &Vec<SimulationUnit>,
    countries: &Vec<ProductionCountry>,
    economies: &BTreeMap<u16, EconomyState>,
    country_to_side: &BTreeMap<u16, usize>,
    reader: &mut Reader<'_>,
) -> (outcome: Result<BTreeMap<u16, (u64, Real)>, RuntimeError>)
    requires
        old(reader).sound(),
    ensures
        final(reader)@ == old(reader)@,
        final(reader).sound(),
        final(reader).complete() ==> old(reader).complete() && ({
            let expected = armor_profiles(
                old(reader)@,
                units@,
                countries@,
                economies@,
                country_to_side@,
            );
            match outcome {
                Ok(profiles) => expected == Ok::<Map<u16, (u64, Real)>, RuntimeError>(profiles@),
                Err(error) => expected == Err::<Map<u16, (u64, Real)>, RuntimeError>(error),
            }
        }),
        old(reader).complete() && profiles_supplied(
            old(reader)@,
            units@,
            countries@,
            economies@,
            ascending(country_to_side@.dom()),
        ) ==> final(reader).complete(),
{
    broadcast use vstd::std_specs::btree::group_btree_axioms;

    let ghost results = reader@;
    let ghost untouched = reader.complete();
    let tallies: BTreeMap<u16, ArmorMuster> = match tally_armor_by_country(units, reader) {
        Ok(tallies) => tallies,
        Err(error) => {
            return Err(error);
        },
    };
    let keys = ordered_countries(country_to_side);
    let mut profiles: BTreeMap<u16, (u64, Real)> = BTreeMap::new();
    let mut at: usize = 0;
    while at < keys.len()
        invariant
            at <= keys@.len(),
            results == old(reader)@,
            untouched == old(reader).complete(),
            keys@ == ascending(country_to_side@.dom()),
            reader@ == results,
            reader.sound(),
            reader.complete() ==> untouched && armor_tallies(results, units@, units@.len())
                == Ok::<Map<u16, ArmorMuster>, RuntimeError>(tallies@) && armor_profiles_of(
                results,
                countries@,
                economies@,
                tallies@,
                keys@,
                at as nat,
            ) == Ok::<Map<u16, (u64, Real)>, RuntimeError>(profiles@),
            untouched && profiles_supplied(
                results,
                units@,
                countries@,
                economies@,
                ascending(country_to_side@.dom()),
            ) ==> reader.complete() && table_supplied(
                results,
                countries@,
                economies@,
                tallies@,
                keys@,
            ),
        decreases keys@.len() - at,
    {
        broadcast use vstd::std_specs::btree::group_btree_axioms;

        let country: u16 = keys[at];
        let place: usize = match find_entry(countries, country) {
            Some(place) => place,
            None => {
                proof {
                    if reader.complete() {
                        lemma_profiles_fail(
                            results,
                            countries@,
                            economies@,
                            tallies@,
                            keys@,
                            (at + 1) as nat,
                            keys@.len(),
                        );
                    }
                }
                return Err(
                    RuntimeError::InvalidCheckpoint("material country is absent from production"),
                );
            },
        };
        let economy: EconomyState = match economies.get(&country) {
            Some(economy) => *economy,
            None => {
                proof {
                    if reader.complete() {
                        lemma_profiles_fail(
                            results,
                            countries@,
                            economies@,
                            tallies@,
                            keys@,
                            (at + 1) as nat,
                            keys@.len(),
                        );
                    }
                }
                return Err(RuntimeError::InvalidCheckpoint("material country has no economy"));
            },
        };
        let tally: ArmorMuster = match tallies.get(&country) {
            Some(tally) => *tally,
            None => ArmorMuster { vehicles: 0, weighted_quality: Real::zero() },
        };
        let profile = profile_armor(&countries[place], &economy, tally, reader);
        profiles.insert(country, profile);
        at = at + 1;
    }
    Ok(profiles)
}

/// Whether a city is a capital that its country still holds.
pub open spec fn held_capital(
    territory: TerritoryControl,
    city: ProductionCity,
    country_id: u16,
    side: usize,
) -> bool {
    &&& city.owner_id == country_id
    &&& city.capital
    &&& city.cell < territory.land@.len()
    &&& territory.world_control@[city.cell as int] == country_id
    &&& dominated(territory, city.cell as int, side)
}

/// The first capital from a place on that a country still holds.
pub open spec fn first_capital(
    territory: TerritoryControl,
    cities: Seq<ProductionCity>,
    country_id: u16,
    side: usize,
    from: int,
) -> Option<ProductionCity>
    decreases cities.len() - from,
{
    if from < 0 || from >= cities.len() {
        None
    } else if held_capital(territory, cities[from], country_id, side) {
        Some(cities[from])
    } else {
        first_capital(territory, cities, country_id, side, from + 1)
    }
}

/// The first formation of a country from a place on that is not at sea.
pub open spec fn first_ashore(units: Seq<SimulationUnit>, country_id: u16, from: int) -> Option<
    SimulationUnit,
>
    decreases units.len() - from,
{
    if from < 0 || from >= units.len() {
        None
    } else if units[from].combat.sovereign == country_id && !units[from].combat.at_sea {
        Some(units[from])
    } else {
        first_ashore(units, country_id, from + 1)
    }
}

/// The first cell from one on that a country holds.
pub open spec fn first_held_cell(
    territory: TerritoryControl,
    country_id: u16,
    side: usize,
    from: int,
) -> Option<usize>
    decreases territory.land@.len() - from,
{
    if from < 0 || from >= territory.land@.len() {
        None
    } else if territory.world_control@[from] == country_id && dominated(territory, from, side) {
        Some(from as usize)
    } else {
        first_held_cell(territory, country_id, side, from + 1)
    }
}

/// Where a country is at home: in its capital, else with its first formation ashore, else in its
/// first cell.
pub open spec fn home_of(
    results: Map<Operation, u64>,
    units: Seq<SimulationUnit>,
    cities: Seq<ProductionCity>,
    territory: TerritoryControl,
    country_id: u16,
    side: usize,
) -> Option<(Real, Real)> {
    match first_capital(territory, cities, country_id, side, 0) {
        Some(city) => Some((city.lat, city.lng)),
        None => match first_ashore(units, country_id, 0) {
            Some(unit) => Some((unit.combat.lat, unit.combat.lng)),
            None => match first_held_cell(territory, country_id, side, 0) {
                Some(cell) => Some(cell_center(results, cell, territory.grid)),
                None => None,
            },
        },
    }
}

/// The homes of the first countries.
pub open spec fn homes_of(
    results: Map<Operation, u64>,
    units: Seq<SimulationUnit>,
    cities: Seq<ProductionCity>,
    territory: TerritoryControl,
    keys: Seq<u16>,
    count: nat,
) -> Map<u16, (Real, Real)>
    decreases count,
{
    if count == 0 {
        Map::empty()
    } else {
        let rest = homes_of(results, units, cities, territory, keys, (count - 1) as nat);
        let country = keys[count - 1];
        match home_of(
            results,
            units,
            cities,
            territory,
            country,
            territory.country_to_side@[country],
        ) {
            Some(home) => rest.insert(country, home),
            None => rest,
        }
    }
}

/// Whether a worksheet holds all that finding a home takes.
pub open spec fn home_supplied(
    results: Map<Operation, u64>,
    units: Seq<SimulationUnit>,
    cities: Seq<ProductionCity>,
    territory: TerritoryControl,
    country_id: u16,
    side: usize,
) -> bool {
    first_capital(territory, cities, country_id, side, 0) is None && first_ashore(
        units,
        country_id,
        0,
    ) is None ==> (first_held_cell(territory, country_id, side, 0) matches Some(cell)
        ==> center_supplied(results, cell, territory.grid))
}

/// Whether a worksheet holds all that finding homes takes.
pub open spec fn homes_supplied(
    results: Map<Operation, u64>,
    units: Seq<SimulationUnit>,
    cities: Seq<ProductionCity>,
    territory: TerritoryControl,
    keys: Seq<u16>,
) -> bool {
    forall|k: int|
        0 <= k < keys.len() ==> home_supplied(
            results,
            units,
            cities,
            territory,
            #[trigger] keys[k],
            territory.country_to_side@[keys[k]],
        )
}

fn find_home(
    units: &Vec<SimulationUnit>,
    cities: &Vec<ProductionCity>,
    territory: &TerritoryControl,
    country_id: u16,
    side: usize,
    reader: &mut Reader<'_>,
) -> (home: Option<(Real, Real)>)
    requires
        old(reader).sound(),
        territory.well_formed(),
    ensures
        final(reader)@ == old(reader)@,
        final(reader).sound(),
        final(reader).complete() ==> old(reader).complete() && home == home_of(
            old(reader)@,
            units@,
            cities@,
            *territory,
            country_id,
            side,
        ),
        old(reader).complete() && home_supplied(
            old(reader)@,
            units@,
            cities@,
            *territory,
            country_id,
            side,
        ) ==> final(reader).complete(),
{
    let mut at: usize = 0;
    while at < cities.len()
        invariant
            at <= cities@.len(),
            territory.well_formed(),
            reader@ == old(reader)@,
            reader.sound(),
            reader.complete() == old(reader).complete(),
            first_capital(*territory, cities@, country_id, side, 0) == first_capital(
                *territory,
                cities@,
                country_id,
                side,
                at as int,
            ),
        decreases cities@.len() - at,
    {
        let city = &cities[at];
        if city.owner_id == country_id && city.capital && city.cell < territory.land.len()
            && territory.world_control[city.cell] == country_id && is_dominated(
            territory,
            city.cell,
            side,
        ) {
            return Some((city.lat, city.lng));
        }
        at = at + 1;
    }
    let mut place: usize = 0;
    while place < units.len()
        invariant
            place <= units@.len(),
            territory.well_formed(),
            reader@ == old(reader)@,
            reader.sound(),
            reader.complete() == old(reader).complete(),
            first_capital(*territory, cities@, country_id, side, 0) is None,
            first_ashore(units@, country_id, 0) == first_ashore(
                units@,
                country_id,
                place as int,
            ),
        decreases units@.len() - place,
    {
        let unit = units[place];
        if unit.combat.sovereign == country_id as u64 && !unit.combat.at_sea {
            return Some((unit.combat.lat, unit.combat.lng));
        }
        place = place + 1;
    }
    let mut cell: usize = 0;
    while cell < territory.land.len()
        invariant
            cell <= territory.land@.len(),
            territory.well_formed(),
            reader@ == old(reader)@,
            reader.sound(),
            reader.complete() == old(reader).complete(),
            first_capital(*territory, cities@, country_id, side, 0) is None,
            first_ashore(units@, country_id, 0) is None,
            first_held_cell(*territory, country_id, side, 0) == first_held_cell(
                *territory,
                country_id,
                side,
                cell as int,
            ),
        decreases territory.land@.len() - cell,
    {
        if territory.world_control[cell] == country_id && is_dominated(territory, cell, side) {
            proof {
                if territory.grid.width == 0 {
                    assert(territory.grid.area() == 0) by (nonlinear_arith)
                        requires
                            territory.grid.width == 0,
                            territory.grid.area() == territory.grid.width * territory.grid.height,
                    ;
                }
            }
            return Some(recruit_cell_center(cell, territory.grid, reader));
        }
        cell = cell + 1;
    }
    None
}

/// Where every country is at home, as far as it has a home.
pub fn material_home_positions(
    units: &Vec<SimulationUnit>,
    cities: &Vec<ProductionCity>,
    territory: &TerritoryControl,
    reader: &mut Reader<'_>,
) -> (homes: BTreeMap<u16, (Real, Real)>)
    requires
        old(reader).sound(),
        territory.well_formed(),
    ensures
        final(reader)@ == old(reader)@,
        final(reader).sound(),
        final(reader).complete() ==> old(reader).complete() && homes@ == homes_of(
            old(reader)@,
            units@,
            cities@,
            *territory,
            ascending(territory.country_to_side@.dom()),
            ascending(territory.country_to_side@.dom()).len(),
        ),
        old(reader).complete() && homes_supplied(
            old(reader)@,
            units@,
            cities@,
            *territory,
            ascending(territory.country_to_side@.dom()),
        ) ==> final(reader).complete(),
{
    broadcast use vstd::std_specs::btree::group_btree_axioms;

    let ghost results = reader@;
    let ghost untouched = reader.complete();
    let keys = ordered_countries(&territory.country_to_side);
    let mut homes: BTreeMap<u16, (Real, Real)> = BTreeMap::new();
    let mut at: usize = 0;
    while at < keys.len()
        invariant
            at <= keys@.len(),
            territory.well_formed(),
            forall|i: int|
                0 <= i < keys@.len() ==> territory.country_to_side@.contains_key(
                    #[trigger] keys@[i],
                ),
            reader@ == results,
            reader.sound(),
            reader.complete() ==> untouched && homes@ == homes_of(
                results,
                units@,
                cities@,
                *territory,
                keys@,
                at as nat,
            ),
            untouched && homes_supplied(
                results,
                units@,
                cities@,
                *territory,
                keys@,
            ) ==> reader.complete(),
        decreases keys@.len() - at,
    {
        broadcast use vstd::std_specs::btree::group_btree_axioms;

        let country: u16 = keys[at];
        let side: usize = *territory.country_to_side.get(&country).unwrap();
        if let Some(home) = find_home(units, cities, territory, country, side, reader) {
            homes.insert(country, home);
        }
        at = at + 1;
    }
    homes
}

} // verus!
