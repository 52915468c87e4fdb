//! Territory, diplomacy and economies as the runtime reads them.

use std::collections::{BTreeMap, BTreeSet};
use vstd::prelude::*;
use crate::air::{AirPowerState, Airfield};
use crate::economy::EconomyState;
use crate::operations::OperationalPoint;
use crate::production::{cell_at, cell_supplied, grid_index, ScenarioProduction};
use crate::runtime::error::RuntimeError;
use crate::scalar::{real_of, Real, SIGN_BIT};
use crate::scenario::GridSpec;
use crate::strategic::{
    hostile_pairs, hostility_flags, CountryAggregate, OccupationState, TerritorySnapshot,
};
use crate::tables::{ascending, ordered_countries};
use crate::worksheet::{integer, sum, Operation, Reader};

verus! {

/// The committed maps of the territory and the topology of countries and sides.
#[derive(Clone, Debug)]
pub struct TerritoryControl {
    pub grid: GridSpec,
    pub land: Vec<u8>,
    pub world_control: Vec<u16>,
    pub de_jure: Vec<u16>,
    pub primary_occupier: Vec<u16>,
    /// The side that dominates each cell; negative where none does.
    pub dominant_side: Vec<i16>,
    pub country_to_side: BTreeMap<u16, usize>,
    pub max_sides: usize,
    pub hostility: Vec<u8>,
    /// Whether influence spreads through the territory kernel's own queues.
    pub influence_runtime: bool,
}

impl TerritoryControl {
    /// Every map covers the grid, and the hostility table is square.
    pub open spec fn well_formed(self) -> bool {
        &&& self.grid.area() <= usize::MAX
        &&& self.land@.len() == self.grid.area()
        &&& self.world_control@.len() == self.grid.area()
        &&& self.de_jure@.len() == self.grid.area()
        &&& self.primary_occupier@.len() == self.grid.area()
        &&& self.dominant_side@.len() == self.grid.area()
        &&& self.hostility@.len() == self.max_sides * self.max_sides
    }

    /// How many cells the grid has.
    pub fn total_cells(&self) -> (cells: usize)
        requires
            self.well_formed(),
        ensures
            cells == self.grid.area(),
    {
        self.land.len()
    }
}

/// Who is at war, as the scenario or its controller declared it.
#[derive(Debug)]
pub struct RuntimeDiplomacy {
    /// Row by row, one where the side of the row is hostile to that of the column.
    pub hostility: Vec<u8>,
    pub active_sides: Vec<u16>,
}

impl Clone for RuntimeDiplomacy {
    fn clone(&self) -> (copy: Self)
        ensures
            copy.hostility@ == self.hostility@,
            copy.active_sides@ == self.active_sides@,
    {
        RuntimeDiplomacy {
            hostility: crate::order::copy_all(self.hostility.as_slice()),
            active_sides: crate::order::copy_all(self.active_sides.as_slice()),
        }
    }
}

pub open spec fn distinct_sides(sides: Seq<u16>, side_count: int) -> bool {
    &&& forall|i: int| 0 <= i < sides.len() ==> (#[trigger] sides[i] as int) < side_count
    &&& forall|i: int, j: int|
        #![trigger sides[i], sides[j]]
        0 <= i < j < sides.len() ==> sides[i] != sides[j]
}

/// What is wrong with the declared diplomacy.
pub open spec fn diplomacy_fault(
    diplomacy: RuntimeDiplomacy,
    territory: TerritoryControl,
) -> Option<RuntimeError> {
    if diplomacy.hostility@.len() != territory.max_sides * territory.max_sides
        || diplomacy.hostility@ != territory.hostility@ {
        Some(RuntimeError::InvalidCheckpoint("runtime and territory hostility matrices differ"))
    } else if !hostility_flags(diplomacy.hostility@, territory.max_sides as int) {
        Some(
            RuntimeError::InvalidCheckpoint("hostility must be binary and have a zero diagonal"),
        )
    } else if !distinct_sides(diplomacy.active_sides@, territory.max_sides as int) {
        Some(RuntimeError::InvalidCheckpoint("active sides must be unique and in range"))
    } else {
        None
    }
}

fn same_bytes(left: &Vec<u8>, right: &Vec<u8>) -> (answer: bool)
    ensures
        answer == (left@ == right@),
{
    if left.len() != right.len() {
        return false;
    }
    let mut at: usize = 0;
    while at < left.len()
        invariant
            at <= left@.len(),
            left@.len() == right@.len(),
            forall|i: int| 0 <= i < at ==> left@[i] == right@[i],
        decreases left@.len() - at,
    {
        if left[at] != right[at] {
            return false;
        }
        at = at + 1;
    }
    assert(left@ =~= right@);
    true
}

fn check_sides(sides: &Vec<u16>, side_count: usize) -> (answer: bool)
    ensures
        answer == distinct_sides(sides@, side_count as int),
{
    broadcast use vstd::std_specs::btree::group_btree_axioms;

    let mut seen: BTreeSet<u16> = BTreeSet::new();
    let mut at: usize = 0;
    while at < sides.len()
        invariant
            at <= sides@.len(),
            forall|i: int| 0 <= i < at ==> (#[trigger] sides@[i] as int) < side_count,
            forall|i: int, j: int|
                #![trigger sides@[i], sides@[j]]
                0 <= i < j < at ==> sides@[i] != sides@[j],
            forall|side: u16|
                #[trigger] seen@.contains(side) <==> exists|i: int|
                    0 <= i < at && sides@[i] == side,
        decreases sides@.len() - at,
    {
        broadcast use vstd::std_specs::btree::group_btree_axioms;

        let side: u16 = sides[at];
        if side as usize >= side_count {
            assert(!((sides@[at as int] as int) < side_count));
            return false;
        }
        if seen.contains(&side) {
            let ghost i = choose|i: int| 0 <= i < at && sides@[i] == side;
            assert(sides@[i] == sides@[at as int]);
            return false;
        }
        let ghost before = seen@;
        seen.insert(side);
        proof {
            assert forall|other: u16| #[trigger] seen@.contains(other) <==> exists|i: int|
                0 <= i < at + 1 && sides@[i] == other by {
                if before.contains(other) {
                    let i = choose|i: int| 0 <= i < at && sides@[i] == other;
                    assert(0 <= i < at + 1 && sides@[i] == other);
                }
                if other == side {
                    assert(sides@[at as int] == other);
                }
                if exists|i: int| 0 <= i < at + 1 && sides@[i] == other {
                    let i = choose|i: int| 0 <= i < at + 1 && sides@[i] == other;
                    if i < at {
                        assert(before.contains(other));
                    }
                }
            }
        }
        at = at + 1;
    }
    true
}

pub fn validate_diplomacy(
    diplomacy: &RuntimeDiplomacy,
    territory: &TerritoryControl,
) -> (verdict: Result<(), RuntimeError>)
    ensures
        verdict is Ok <==> diplomacy_fault(*diplomacy, *territory) is None,
        verdict matches Err(error) ==> diplomacy_fault(*diplomacy, *territory) == Some(error),
{
    let side_count: usize = territory.max_sides;
    assert(diplomacy.hostility@.len() == diplomacy.hostility.len());
    match side_count.checked_mul(side_count) {
        Some(size) => {
            if diplomacy.hostility.len() != size || !same_bytes(
                &diplomacy.hostility,
                &territory.hostility,
            ) {
                return Err(
                    RuntimeError::InvalidCheckpoint(
                        "runtime and territory hostility matrices differ",
                    ),
                );
            }
        },
        None => {
            return Err(
                RuntimeError::InvalidCheckpoint("runtime and territory hostility matrices differ"),
            );
        },
    }
    if !crate::strategic::check_flags(diplomacy.hostility.as_slice(), side_count) {
        return Err(
            RuntimeError::InvalidCheckpoint("hostility must be binary and have a zero diagonal"),
        );
    }
    if !check_sides(&diplomacy.active_sides, side_count) {
        return Err(RuntimeError::InvalidCheckpoint("active sides must be unique and in range"));
    }
    Ok(())
}

pub fn validate_scenario_grid(
    scenario: &ScenarioProduction,
    territory: &TerritoryControl,
) -> (verdict: Result<(), RuntimeError>)
    ensures
        verdict is Ok <==> scenario.grid.same(territory.grid) && territory.de_jure@.len()
            == territory.land@.len(),
        verdict matches Err(error) ==> error == RuntimeError::InvalidCheckpoint(
            "scenario production grid does not match territory",
        ),
{
    if !scenario.grid.equals(territory.grid) || territory.de_jure.len() != territory.land.len() {
        return Err(
            RuntimeError::InvalidCheckpoint("scenario production grid does not match territory"),
        );
    }
    Ok(())
}

/// Economies and occupations as the strategic kernel last left them.
#[derive(Debug)]
pub struct StrategicState {
    pub cycle: u64,
    pub economies: BTreeMap<u16, EconomyState>,
    pub occupations: BTreeMap<u16, OccupationState>,
}

/// Economies and occupations by country.
pub ghost struct StrategicModel {
    pub cycle: u64,
    pub economies: Map<u16, EconomyState>,
    pub occupations: Map<u16, OccupationState>,
}

impl View for StrategicState {
    type V = StrategicModel;

    open spec fn view(&self) -> StrategicModel {
        StrategicModel {
            cycle: self.cycle,
            economies: self.economies@,
            occupations: self.occupations@,
        }
    }
}

impl Clone for StrategicState {
    fn clone(&self) -> (copy: Self)
        ensures
            copy@ == self@,
    {
        StrategicState {
            cycle: self.cycle,
            economies: self.economies.clone(),
            occupations: self.occupations.clone(),
        }
    }
}

/// The side that holds a place: the one that dominates its cell, else that of the country that
/// stands there, else that of the country that owns it.
pub open spec fn holder_of(
    results: Map<Operation, u64>,
    territory: TerritoryControl,
    point: OperationalPoint,
) -> Option<usize> {
    match cell_at(results, territory.grid, point.lat, point.lng) {
        None => None,
        Some(cell) => {
            let dominant = territory.dominant_side@[cell];
            let country = if territory.primary_occupier@[cell] != 0 {
                territory.primary_occupier@[cell]
            } else {
                territory.world_control@[cell]
            };
            if dominant >= 0 {
                Some(dominant as usize)
            } else if territory.country_to_side@.contains_key(country) {
                Some(territory.country_to_side@[country])
            } else {
                None
            }
        },
    }
}

pub fn controlled_side_at_point(
    territory: &TerritoryControl,
    point: OperationalPoint,
    reader: &mut Reader<'_>,
) -> (side: Option<usize>)
    requires
        territory.well_formed(),
        old(reader).sound(),
    ensures
        final(reader)@ == old(reader)@,
        final(reader).sound(),
        final(reader).complete() ==> old(reader).complete() && side == holder_of(
            old(reader)@,
            *territory,
            point,
        ),
        old(reader).complete() && cell_supplied(
            old(reader)@,
            territory.grid,
            point.lat,
            point.lng,
        ) ==> final(reader).complete(),
{
    broadcast use vstd::std_specs::btree::group_btree_axioms;

    let cell: usize = match grid_index(territory.grid, point.lat, point.lng, reader) {
        Some(cell) => cell,
        None => {
            return None;
        },
    };
    let dominant: i16 = territory.dominant_side[cell];
    if dominant >= 0 {
        return Some(dominant as usize);
    }
    let country: u16 = if territory.primary_occupier[cell] != 0 {
        territory.primary_occupier[cell]
    } else {
        territory.world_control[cell]
    };
    match territory.country_to_side.get(&country) {
        Some(side) => Some(*side),
        None => None,
    }
}

/// Who holds an airfield now.
#[derive(Clone, Copy, Debug, PartialEq, Eq, Structural)]
pub struct AirfieldController {
    pub side: usize,
    pub controller_country_id: u16,
}

/// The first country of a side.
pub open spec fn first_country_of(
    country_to_side: Map<u16, usize>,
    keys: Seq<u16>,
    side: usize,
    from: int,
) -> Option<u16>
    decreases keys.len() - from,
{
    if from < 0 || from >= keys.len() {
        None
    } else if country_to_side[keys[from]] == side {
        Some(keys[from])
    } else {
        first_country_of(country_to_side, keys, side, from + 1)
    }
}

/// Whom an airfield has fallen to, if it has.
pub open spec fn captor_of(
    results: Map<Operation, u64>,
    territory: TerritoryControl,
    lat: Real,
    lng: Real,
    side: usize,
    controller: u16,
) -> Option<AirfieldController> {
    match cell_at(results, territory.grid, lat, lng) {
        None => None,
        Some(cell) => {
            let dominant = territory.dominant_side@[cell];
            let occupier = territory.primary_occupier@[cell];
            if dominant < 0 || dominant >= territory.max_sides || dominant == side {
                None
            } else {
                let taker = dominant as usize;
                Some(
                    AirfieldController {
                        side: taker,
                        controller_country_id: if territory.country_to_side@.contains_key(occupier)
                            && territory.country_to_side@[occupier] == taker {
                            occupier
                        } else {
                            match first_country_of(
                                territory.country_to_side@,
                                ascending(territory.country_to_side@.dom()),
                                taker,
                                0,
                            ) {
                                Some(country) => country,
                                None => controller,
                            }
                        },
                    },
                )
            }
        },
    }
}

/// Whom the first airfields have fallen to.
pub open spec fn captures(
    results: Map<Operation, u64>,
    air: AirPowerState,
    territory: TerritoryControl,
    count: nat,
) -> Map<u64, AirfieldController>
    decreases count,
{
    if count == 0 {
        Map::empty()
    } else {
        let rest = captures(results, air, territory, (count - 1) as nat);
        let field = air.airfields@[count - 1];
        match captor_of(
            results,
            territory,
            field.lat,
            field.lng,
            field.side,
            field.controller_country_id,
        ) {
            Some(controller) => rest.insert(field.id, controller),
            None => rest,
        }
    }
}

fn find_country_of(country_to_side: &BTreeMap<u16, usize>, side: usize) -> (country: Option<u16>)
    ensures
        country == first_country_of(
            country_to_side@,
            ascending(country_to_side@.dom()),
            side,
            0,
        ),
{
    broadcast use vstd::std_specs::btree::group_btree_axioms;

    let keys = ordered_countries(country_to_side);
    let mut at: usize = 0;
    while at < keys.len()
        invariant
            at <= keys@.len(),
            keys@ == ascending(country_to_side@.dom()),
            forall|i: int|
                0 <= i < keys@.len() ==> country_to_side@.contains_key(#[trigger] keys@[i]),
            first_country_of(country_to_side@, keys@, side, 0) == first_country_of(
                country_to_side@,
                keys@,
                side,
                at as int,
            ),
        decreases keys@.len() - at,
    {
        broadcast use vstd::std_specs::btree::group_btree_axioms;

        if *country_to_side.get(&keys[at]).unwrap() == side {
            return Some(keys[at]);
        }
        at = at + 1;
    }
    None
}

/// Whether a worksheet holds all that placing airfields takes.
pub open spec fn fields_supplied(
    results: Map<Operation, u64>,
    fields: Seq<Airfield>,
    grid: GridSpec,
) -> bool {
    forall|k: int|
        0 <= k < fields.len() ==> cell_supplied(
            results,
            grid,
            (#[trigger] fields[k]).lat,
            fields[k].lng,
        )
}

/// Whom the airfields have fallen to. Those that are still held do not occur.
pub fn airfield_controllers(
    air_power: &AirPowerState,
    territory: &TerritoryControl,
    reader: &mut Reader<'_>,
) -> (controllers: BTreeMap<u64, AirfieldController>)
    requires
        territory.well_formed(),
        old(reader).sound(),
    ensures
        final(reader)@ == old(reader)@,
        final(reader).sound(),
        final(reader).complete() ==> old(reader).complete() && controllers@ == captures(
            old(reader)@,
            *air_power,
            *territory,
            air_power.airfields@.len(),
        ),
        old(reader).complete() && fields_supplied(
            old(reader)@,
            air_power.airfields@,
            territory.grid,
        ) ==> final(reader).complete(),
{
    broadcast use vstd::std_specs::btree::group_btree_axioms;

    let ghost results = reader@;
    let ghost untouched = reader.complete();
    let mut controllers: BTreeMap<u64, AirfieldController> = BTreeMap::new();
    let mut at: usize = 0;
    while at < air_power.airfields.len()
        invariant
            at <= air_power.airfields@.len(),
            territory.well_formed(),
            reader@ == results,
            reader.sound(),
            reader.complete() ==> untouched && controllers@ == captures(
                results,
                *air_power,
                *territory,
                at as nat,
            ),
            untouched && fields_supplied(results, air_power.airfields@, territory.grid)
                ==> reader.complete(),
        decreases air_power.airfields@.len() - at,
    {
        broadcast use vstd::std_specs::btree::group_btree_axioms;

        let field = &air_power.airfields[at];
        if let Some(cell) = grid_index(territory.grid, field.lat, field.lng, reader) {
            let dominant: i16 = territory.dominant_side[cell];
            if dominant >= 0 {
                let side: usize = dominant as usize;
                if side < territory.max_sides && side != field.side {
                    let occupier: u16 = territory.primary_occupier[cell];
                    let at_hand = match territory.country_to_side.get(&occupier) {
                        Some(own) => *own == side,
                        None => false,
                    };
                    let country: u16 = if at_hand {
                        occupier
                    } else {
                        match find_country_of(&territory.country_to_side, side) {
                            Some(country) => country,
                            None => field.controller_country_id,
                        }
                    };
                    controllers.insert(
                        field.id,
                        AirfieldController { side, controller_country_id: country },
                    );
                }
            }
        }
        at = at + 1;
    }
    controllers
}

/// Land that each side controls, over the first counts.
pub open spec fn controlled_land(
    results: Map<Operation, u64>,
    countries: Seq<CountryAggregate>,
    country_to_side: Map<u16, usize>,
    side: usize,
    count: nat,
) -> Real
    decreases count,
{
    if count == 0 {
        real_of(0)
    } else {
        let rest = controlled_land(results, countries, country_to_side, side, (count - 1) as nat);
        let country = countries[count - 1];
        if country_to_side.contains_key(country.country_id)
            && country_to_side[country.country_id] == side {
            sum(results, rest, integer(results, country.controlled))
        } else {
            rest
        }
    }
}

/// Land that the enemies of a side control, over the first sides.
pub open spec fn enemy_land(
    results: Map<Operation, u64>,
    countries: Seq<CountryAggregate>,
    country_to_side: Map<u16, usize>,
    hostility: Seq<u8>,
    side_count: usize,
    side: int,
    count: nat,
) -> Real
    decreases count,
{
    if count == 0 {
        real_of(SIGN_BIT)
    } else {
        let rest = enemy_land(
            results,
            countries,
            country_to_side,
            hostility,
            side_count,
            side,
            (count - 1) as nat,
        );
        if hostility[side * side_count + (count - 1)] == 1 {
            sum(
                results,
                rest,
                controlled_land(
                    results,
                    countries,
                    country_to_side,
                    (count - 1) as usize,
                    countries.len(),
                ),
            )
        } else {
            rest
        }
    }
}

/// Whether a worksheet holds all that adding up controlled land takes.
pub open spec fn land_supplied(
    results: Map<Operation, u64>,
    countries: Seq<CountryAggregate>,
    country_to_side: Map<u16, usize>,
    side_count: usize,
) -> bool {
    forall|k: int|
        0 <= k < countries.len() && country_to_side.contains_key(
            (#[trigger] countries[k]).country_id,
        ) && country_to_side[countries[k].country_id] < side_count ==> results.contains_key(
            Operation::Integer(countries[k].controlled),
        ) && results.contains_key(
            Operation::Sum(
                controlled_land(
                    results,
                    countries,
                    country_to_side,
                    country_to_side[countries[k].country_id],
                    k as nat,
                ),
                integer(results, countries[k].controlled),
            ),
        )
}

/// Whether a worksheet holds all that adding up the land of enemies takes.
pub open spec fn enemy_land_supplied(
    results: Map<Operation, u64>,
    countries: Seq<CountryAggregate>,
    country_to_side: Map<u16, usize>,
    hostility: Seq<u8>,
    side_count: usize,
) -> bool {
    &&& land_supplied(results, countries, country_to_side, side_count)
    &&& forall|side: int, other: int|
        #![trigger hostility[side * side_count + other]]
        0 <= side < side_count && 0 <= other < side_count && hostility[side * side_count + other]
            == 1 ==> results.contains_key(
            Operation::Sum(
                enemy_land(
                    results,
                    countries,
                    country_to_side,
                    hostility,
                    side_count,
                    side,
                    other as nat,
                ),
                controlled_land(
                    results,
                    countries,
                    country_to_side,
                    other as usize,
                    countries.len(),
                ),
            ),
        )
}

fn sum_controlled_land(
    snapshot: &TerritorySnapshot,
    country_to_side: &BTreeMap<u16, usize>,
    side_count: usize,
    reader: &mut Reader<'_>,
) -> (controlled: Vec<Real>)
    requires
        old(reader).sound(),
    ensures
        final(reader)@ == old(reader)@,
        final(reader).sound(),
        controlled@.len() == side_count,
        final(reader).complete() ==> old(reader).complete() && forall|side: int|
            0 <= side < side_count ==> #[trigger] controlled@[side] == controlled_land(
                old(reader)@,
                snapshot.countries@,
                country_to_side@,
                side as usize,
                snapshot.countries@.len(),
            ),
        old(reader).complete() && land_supplied(old(reader)@, snapshot.countries@, country_to_side@, side_count) ==>
            final(reader).complete(),
{
    broadcast use vstd::std_specs::btree::group_btree_axioms;

    let ghost results = reader@;
    let ghost untouched = reader.complete();
    let countries = &snapshot.countries;
    let mut controlled: Vec<Real> = Vec::new();
    let mut fill: usize = 0;
    while fill < side_count
        invariant
            fill <= side_count,
            controlled@.len() == fill,
            forall|side: int| 0 <= side < fill ==> #[trigger] controlled@[side] == real_of(0),
        decreases side_count - fill,
    {
        controlled.push(Real::zero());
        fill = fill + 1;
    }
    let mut at: usize = 0;
    while at < countries.len()
        invariant
            at <= countries@.len(),
            countries@ == snapshot.countries@,
            reader@ == results,
            reader.sound(),
            controlled@.len() == side_count,
            reader.complete() ==> untouched && forall|side: int|
                0 <= side < side_count ==> #[trigger] controlled@[side] == controlled_land(
                    results,
                    countries@,
                    country_to_side@,
                    side as usize,
                    at as nat,
                ),
            untouched && land_supplied(results, countries@, country_to_side@, side_count) ==>
                reader.complete(),
        decreases countries@.len() - at,
    {
        broadcast use vstd::std_specs::btree::group_btree_axioms;

        if let Some(found) = country_to_side.get(&countries[at].country_id) {
            let side: usize = *found;
            if side < side_count {
                let cells = reader.integer(countries[at].controlled);
                let total = reader.sum(controlled[side], cells);
                controlled[side] = total;
            }
        }
        at = at + 1;
    }
    controlled
}

/// The land that the enemies of each side control.
pub fn hostile_controlled_land_by_side(
    snapshot: &TerritorySnapshot,
    country_to_side: &BTreeMap<u16, usize>,
    hostility: &Vec<u8>,
    side_count: usize,
    reader: &mut Reader<'_>,
) -> (land: Vec<Real>)
    requires
        old(reader).sound(),
        hostility@.len() == side_count * side_count,
    ensures
        final(reader)@ == old(reader)@,
        final(reader).sound(),
        land@.len() == side_count,
        final(reader).complete() ==> old(reader).complete() && forall|side: int|
            0 <= side < side_count ==> #[trigger] land@[side] == enemy_land(
                old(reader)@,
                snapshot.countries@,
                country_to_side@,
                hostility@,
                side_count,
                side,
                side_count as nat,
            ),
        old(reader).complete() && enemy_land_supplied(
            old(reader)@,
            snapshot.countries@,
            country_to_side@,
            hostility@,
            side_count,
        ) ==> final(reader).complete(),
{
    let ghost results = reader@;
    let ghost untouched = reader.complete();
    let controlled = sum_controlled_land(snapshot, country_to_side, side_count, reader);
    assert(hostility@.len() == hostility.len());
    let mut land: Vec<Real> = Vec::new();
    let mut side: usize = 0;
    while side < side_count
        invariant
            side <= side_count,
            hostility@.len() == side_count * side_count,
            hostility@.len() <= usize::MAX,
            controlled@.len() == side_count,
            reader@ == results,
            reader.sound(),
            land@.len() == side,
            reader.complete() ==> untouched && (forall|other: int|
                0 <= other < side_count ==> #[trigger] controlled@[other] == controlled_land(
                    results,
                    snapshot.countries@,
                    country_to_side@,
                    other as usize,
                    snapshot.countries@.len(),
                )) && forall|i: int|
                0 <= i < side ==> #[trigger] land@[i] == enemy_land(
                    results,
                    snapshot.countries@,
                    country_to_side@,
                    hostility@,
                    side_count,
                    i,
                    side_count as nat,
                ),
            untouched && enemy_land_supplied(
                results,
                snapshot.countries@,
                country_to_side@,
                hostility@,
                side_count,
            ) ==> reader.complete(),
        decreases side_count - side,
    {
        let mut total = Real::from_bits(SIGN_BIT);
        let mut other: usize = 0;
        while other < side_count
            invariant
                side < side_count,
                other <= side_count,
                hostility@.len() == side_count * side_count,
                hostility@.len() <= usize::MAX,
                controlled@.len() == side_count,
                reader@ == results,
                reader.sound(),
                land@.len() == side,
                reader.complete() ==> untouched && (forall|o: int|
                    0 <= o < side_count ==> #[trigger] controlled@[o] == controlled_land(
                        results,
                        snapshot.countries@,
                        country_to_side@,
                        o as usize,
                        snapshot.countries@.len(),
                    )) && (forall|i: int|
                    0 <= i < side ==> #[trigger] land@[i] == enemy_land(
                        results,
                        snapshot.countries@,
                        country_to_side@,
                        hostility@,
                        side_count,
                        i,
                        side_count as nat,
                    )) && total == enemy_land(
                    results,
                    snapshot.countries@,
                    country_to_side@,
                    hostility@,
                    side_count,
                    side as int,
                    other as nat,
                ),
                untouched && enemy_land_supplied(
                    results,
                    snapshot.countries@,
                    country_to_side@,
                    hostility@,
                    side_count,
                ) ==> reader.complete(),
            decreases side_count - other,
        {
            proof {
                crate::strategic::lemma_square(side as int, other as int, side_count as int);
                assert(0 <= side * side_count) by (nonlinear_arith)
                    requires
                        0 <= side,
                        0 <= side_count,
                ;
            }
            if hostility[side * side_count + other] == 1 {
                let part = controlled[other];
                total = reader.sum(total, part);
            }
            other = other + 1;
        }
        land.push(total);
        side = side + 1;
    }
    land
}

/// The pairs of active sides that are hostile in either direction, each once.
pub fn canonical_hostile_pairs(
    active_sides: &Vec<u16>,
    hostility: &Vec<u8>,
    side_count: usize,
) -> (pairs: Vec<(u16, u16)>)
    requires
        hostility@.len() == side_count * side_count,
        forall|i: int|
            0 <= i < active_sides@.len() ==> (#[trigger] active_sides@[i] as int) < side_count,
    ensures
        ({
            let active = ascending(active_sides@.to_set());
            pairs@ == hostile_pairs(hostility@, side_count as int, active, active.len())
        }),
{
    broadcast use vstd::std_specs::btree::group_btree_axioms;

    let mut unique: BTreeMap<u16, bool> = BTreeMap::new();
    let mut at: usize = 0;
    assert(unique@.dom() =~= active_sides@.take(0).to_set());
    while at < active_sides.len()
        invariant
            at <= active_sides@.len(),
            unique@.dom() == active_sides@.take(at as int).to_set(),
        decreases active_sides@.len() - at,
    {
        broadcast use vstd::std_specs::btree::group_btree_axioms;

        let side: u16 = active_sides[at];
        let ghost before = unique@;
        unique.insert(side, true);
        proof {
            let shorter = active_sides@.take(at as int);
            let longer = active_sides@.take(at + 1);
            assert(longer =~= shorter.push(side));
            assert forall|other: u16| unique@.dom().contains(other) == longer.to_set().contains(
                other,
            ) by {
                crate::order::lemma_push_contains(shorter, side, other);
                assert(before.dom().contains(other) == shorter.to_set().contains(other));
            }
            assert(unique@.dom() =~= longer.to_set());
        }
        at = at + 1;
    }
    assert(active_sides@.take(active_sides@.len() as int) =~= active_sides@);
    let active = ordered_countries(&unique);
    proof {
        assert forall|i: int| 0 <= i < active@.len() implies (#[trigger] active@[i] as int)
            < side_count by {
            assert(unique@.contains_key(active@[i]));
            assert(active_sides@.to_set().contains(active@[i]));
            let k = choose|k: int| 0 <= k < active_sides@.len() && active_sides@[k] == active@[i];
            assert((active_sides@[k] as int) < side_count);
        }
    }
    crate::strategic::find_pairs(hostility.as_slice(), side_count, &active)
}

} // verus!
