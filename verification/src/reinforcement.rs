//! Deterministic reinforcement and logistics state.
//!
//! This module owns the persisted replacement reserves and id allocators: what makes them valid
//! against the live world, and how they start.

use std::collections::BTreeMap;
use vstd::prelude::*;
use crate::air::{AirModel, AirPowerState, AirRole, AirWing, AirWingState, HUNDRED_BITS};
use crate::economy::EconomyState;
use crate::order::{
    lemma_strictly_sorted_unique, lemma_total_prefix, lemma_total_push, strictly_sorted, total,
    Keyed,
};
use crate::scalar::{real_of, Real, ONE_BITS};
use crate::tables::{country_keys, equal_ids, same_countries, side_keys};
use crate::units::{KernelFault, SimulationUnit, UnitKind};

verus! {

pub const REINFORCEMENT_SCHEMA_VERSION: &'static str = "native-reinforcement-v1";

pub const MATERIAL_LOGISTICS_SCHEMA_VERSION: &'static str = "native-material-logistics-v1";

pub const MAX_ARMOR_CAPACITY: u64 = 50_000;

#[derive(Clone, Copy, Debug, PartialEq, Eq, Structural)]
pub struct MaterialLogisticsCountry {
    pub country_id: u16,
    pub armor_capacity: u64,
    pub reserve_armor: u64,
    pub armor_quality: Real,
    pub armor_replacement_spent: Real,
    pub airfield_repair_spent: Real,
}

#[derive(Clone, Debug)]
pub struct MaterialLogisticsState {
    pub schema: String,
    /// Strictly ordered, complete stable-country records.
    pub countries: Vec<MaterialLogisticsCountry>,
}

#[derive(Clone, Copy, Debug, PartialEq, Eq, Structural)]
pub struct ReinforcementCountry {
    pub country_id: u16,
    pub fighter_capacity: u32,
    pub strike_capacity: u32,
    pub reserve_fighters: u32,
    pub reserve_strike: u32,
    pub air_operations_due: Real,
    pub operations_coverage: Real,
    pub replacement_spent: Real,
}

#[derive(Clone, Debug)]
pub struct ReinforcementState {
    pub schema: String,
    /// The next never-issued land-unit id. Air settlement does not consume it.
    pub next_unit_id: u64,
    /// The next never-issued air-wing id.
    pub next_air_wing_id: u64,
    /// Strictly ordered, complete stable-country records.
    pub countries: Vec<ReinforcementCountry>,
}

#[derive(Clone, Copy, Debug, PartialEq, Eq)]
pub enum ReinforcementError {
    InvalidState(&'static str),
    InvalidWorld(&'static str),
    Overflow(&'static str),
    Air(&'static str),
}

// ---------------------------------------------------------------------------------------------
// Topology, air and funding checks
// ---------------------------------------------------------------------------------------------

/// At least one side and one country, every country named by a positive id and on a real side.
pub open spec fn topology_valid(country_to_side: Map<u16, usize>, side_count: usize) -> bool {
    &&& side_count > 0
    &&& country_to_side.dom() != Set::<u16>::empty()
    &&& forall|country: u16| #[trigger]
        country_to_side.contains_key(country) ==> country != 0 && country_to_side[country]
            < side_count
}

pub fn validate_topology(country_to_side: &BTreeMap<u16, usize>, side_count: usize) -> (outcome:
    Result<(), ReinforcementError>)
    ensures
        outcome is Ok <==> topology_valid(country_to_side@, side_count),
        outcome matches Err(error) ==> error == ReinforcementError::InvalidWorld(
            "country/side topology",
        ),
{
    broadcast use vstd::std_specs::btree::group_btree_axioms;

    let keys = country_keys(country_to_side);
    if side_count == 0 || keys.len() == 0 {
        proof {
            if keys@.len() == 0 {
                assert(country_to_side@.dom() =~= Set::<u16>::empty());
            }
        }
        return Err(ReinforcementError::InvalidWorld("country/side topology"));
    }
    let mut index: usize = 0;
    while index < keys.len()
        invariant
            index <= keys@.len(),
            keys@.to_set() == country_to_side@.dom(),
            forall|i: int|
                0 <= i < index ==> (#[trigger] keys@[i]) != 0 && country_to_side@[keys@[i]]
                    < side_count,
        decreases keys@.len() - index,
    {
        broadcast use vstd::std_specs::btree::group_btree_axioms;

        let country: u16 = keys[index];
        assert(keys@.to_set().contains(country));
        match country_to_side.get(&country) {
            Some(side) => {
                if country == 0 || *side >= side_count {
                    assert(country_to_side@.contains_key(country));
                    return Err(ReinforcementError::InvalidWorld("country/side topology"));
                }
            },
            None => {
                assert(false);
            },
        }
        index = index + 1;
    }
    proof {
        assert(keys@.to_set().contains(keys@[0]));
        assert forall|country: u16| #[trigger]
            country_to_side@.contains_key(country) implies country != 0 && country_to_side@[country]
            < side_count by {
            assert(keys@.to_set().contains(country));
            let i = choose|i: int| 0 <= i < keys@.len() && keys@[i] == country;
            assert(keys@[i] == country);
        }
    }
    Ok(())
}

/// Every value comes after the one before it.
pub fn strictly_ordered(values: &[u16]) -> (answer: bool)
    ensures
        answer == strictly_sorted(values@),
{
    if values.len() == 0 {
        return true;
    }
    let mut index: usize = 1;
    while index < values.len()
        invariant
            1 <= index <= values@.len(),
            forall|i: int, j: int|
                #![trigger values@[i], values@[j]]
                0 <= i < j < index ==> values@[i] < values@[j],
        decreases values@.len() - index,
    {
        if values[index - 1] >= values[index] {
            assert(values@[index - 1].sort_key() >= values@[index as int].sort_key());
            return false;
        }
        index = index + 1;
    }
    true
}

/// The countries whose air operations have a funding entry.
pub open spec fn covered_countries(air: AirModel) -> Set<u16> {
    air.country_coverage.map_values(
        |entry: crate::air::AirCountryCoverage| entry.country_id,
    ).to_set()
}

/// Coverage names exactly the countries; fields and wings lie on the sides of their countries.
pub open spec fn air_topology_valid(
    air: AirModel,
    country_to_side: Map<u16, usize>,
    side_count: usize,
) -> bool {
    &&& covered_countries(air) == country_to_side.dom()
    &&& forall|i: int|
        #![trigger air.airfields[i]]
        0 <= i < air.airfields.len() ==> {
            let field = air.airfields[i];
            &&& field.side < side_count
            &&& country_to_side.contains_key(field.owner_country_id)
            &&& country_to_side.contains_key(field.controller_country_id)
            &&& country_to_side[field.controller_country_id] == field.side
        }
    &&& forall|i: int|
        #![trigger air.wings[i]]
        0 <= i < air.wings.len() ==> {
            let wing = air.wings[i];
            &&& wing.side < side_count
            &&& country_to_side.contains_key(wing.sovereign_country_id)
            &&& country_to_side[wing.sovereign_country_id] == wing.side
        }
}

/// Whether a country is mapped to exactly this side.
pub fn is_on_side(country_to_side: &BTreeMap<u16, usize>, country: u16, side: usize) -> (answer:
    bool)
    ensures
        answer == (country_to_side@.contains_key(country) && country_to_side@[country] == side),
{
    broadcast use vstd::std_specs::btree::group_btree_axioms;

    match country_to_side.get(&country) {
        Some(mapped) => *mapped == side,
        None => false,
    }
}

fn coverage_matches(air: &AirPowerState, country_to_side: &BTreeMap<u16, usize>) -> (answer: bool)
    ensures
        answer == (covered_countries(air@) == country_to_side@.dom()),
{
    broadcast use vstd::std_specs::btree::group_btree_axioms;

    let ghost ids = air.country_coverage@.map_values(
        |entry: crate::air::AirCountryCoverage| entry.country_id,
    );
    let mut index: usize = 0;
    while index < air.country_coverage.len()
        invariant
            index <= air.country_coverage@.len(),
            ids == air.country_coverage@.map_values(
                |entry: crate::air::AirCountryCoverage| entry.country_id,
            ),
            forall|i: int| 0 <= i < index ==> country_to_side@.contains_key(#[trigger] ids[i]),
        decreases air.country_coverage@.len() - index,
    {
        broadcast use vstd::std_specs::btree::group_btree_axioms;

        let country: u16 = air.country_coverage[index].country_id;
        if !country_to_side.contains_key(&country) {
            assert(ids[index as int] == country);
            assert(ids.to_set().contains(country));
            return false;
        }
        index = index + 1;
    }
    let keys = country_keys(country_to_side);
    let mut position: usize = 0;
    while position < keys.len()
        invariant
            position <= keys@.len(),
            keys@.to_set() == country_to_side@.dom(),
            ids == air.country_coverage@.map_values(
                |entry: crate::air::AirCountryCoverage| entry.country_id,
            ),
            forall|i: int| 0 <= i < position ==> ids.contains(#[trigger] keys@[i]),
        decreases keys@.len() - position,
    {
        let country: u16 = keys[position];
        let mut found: bool = false;
        let mut search: usize = 0;
        while search < air.country_coverage.len()
            invariant
                search <= air.country_coverage@.len(),
                ids == air.country_coverage@.map_values(
                    |entry: crate::air::AirCountryCoverage| entry.country_id,
                ),
                found <==> ids.take(search as int).contains(country),
            decreases air.country_coverage@.len() - search,
        {
            proof {
                assert(ids.take(search + 1) =~= ids.take(search as int).push(ids[search as int]));
                crate::order::lemma_push_contains(
                    ids.take(search as int),
                    ids[search as int],
                    country,
                );
            }
            if air.country_coverage[search].country_id == country {
                found = true;
            }
            search = search + 1;
        }
        assert(ids.take(ids.len() as int) =~= ids);
        if !found {
            assert(keys@.to_set().contains(country));
            assert(!ids.to_set().contains(country));
            return false;
        }
        position = position + 1;
    }
    proof {
        assert(ids.to_set() =~= country_to_side@.dom()) by {
            assert forall|country: u16|
                ids.to_set().contains(country) <==> country_to_side@.dom().contains(country) by {
                if ids.contains(country) {
                    let i = choose|i: int| 0 <= i < ids.len() && ids[i] == country;
                    assert(country_to_side@.contains_key(ids[i]));
                }
                if country_to_side@.contains_key(country) {
                    assert(keys@.to_set().contains(country));
                    let i = choose|i: int| 0 <= i < keys@.len() && keys@[i] == country;
                    assert(ids.contains(keys@[i]));
                }
            }
        }
    }
    true
}

pub fn validate_air_topology(
    air: &AirPowerState,
    country_to_side: &BTreeMap<u16, usize>,
    side_count: usize,
) -> (outcome: Result<(), ReinforcementError>)
    ensures
        outcome is Ok <==> air_topology_valid(air@, country_to_side@, side_count),
        outcome matches Err(error) ==> error == ReinforcementError::InvalidWorld("air topology"),
{
    broadcast use vstd::std_specs::btree::group_btree_axioms;

    if !coverage_matches(air, country_to_side) {
        return Err(ReinforcementError::InvalidWorld("air topology"));
    }
    let mut index: usize = 0;
    while index < air.airfields.len()
        invariant
            index <= air.airfields@.len(),
            forall|i: int|
                #![trigger air.airfields@[i]]
                0 <= i < index ==> {
                    let field = air.airfields@[i];
                    &&& field.side < side_count
                    &&& country_to_side@.contains_key(field.owner_country_id)
                    &&& country_to_side@.contains_key(field.controller_country_id)
                    &&& country_to_side@[field.controller_country_id] == field.side
                },
        decreases air.airfields@.len() - index,
    {
        broadcast use vstd::std_specs::btree::group_btree_axioms;

        let field = air.airfields[index];
        if field.side >= side_count || !country_to_side.contains_key(&field.owner_country_id)
            || !is_on_side(country_to_side, field.controller_country_id, field.side) {
            assert(air@.airfields[index as int] == field);
            return Err(ReinforcementError::InvalidWorld("air topology"));
        }
        index = index + 1;
    }
    let mut position: usize = 0;
    while position < air.wings.len()
        invariant
            position <= air.wings@.len(),
            forall|i: int|
                #![trigger air.wings@[i]]
                0 <= i < position ==> {
                    let wing = air.wings@[i];
                    &&& wing.side < side_count
                    &&& country_to_side@.contains_key(wing.sovereign_country_id)
                    &&& country_to_side@[wing.sovereign_country_id] == wing.side
                },
        decreases air.wings@.len() - position,
    {
        let wing = air.wings[position];
        if wing.side >= side_count || !is_on_side(
            country_to_side,
            wing.sovereign_country_id,
            wing.side,
        ) {
            assert(air@.wings[position as int] == wing);
            return Err(ReinforcementError::InvalidWorld("air topology"));
        }
        position = position + 1;
    }
    Ok(())
}

/// Funding numbers that settlement can work with.
pub open spec fn economy_valid(country: u16, economy: EconomyState) -> bool {
    &&& economy.country_id == country
    &&& economy.treasury.finite_nonnegative()
    &&& economy.payroll_coverage.unit_interval()
    &&& economy.occupation_coverage.unit_interval()
    &&& economy.arrears_cycles.finite_nonnegative()
}

/// Exactly one valid economy per country.
pub open spec fn economies_valid(
    economies: Map<u16, EconomyState>,
    country_to_side: Map<u16, usize>,
) -> bool {
    &&& economies.dom() == country_to_side.dom()
    &&& forall|country: u16| #[trigger]
        economies.contains_key(country) ==> economy_valid(country, economies[country])
}

pub fn validate_economies(
    economies: &BTreeMap<u16, EconomyState>,
    country_to_side: &BTreeMap<u16, usize>,
) -> (outcome: Result<(), ReinforcementError>)
    ensures
        outcome is Ok <==> economies_valid(economies@, country_to_side@),
        outcome matches Err(error) ==> error == ReinforcementError::InvalidWorld("economy funding"),
{
    broadcast use vstd::std_specs::btree::group_btree_axioms;

    if !same_countries(economies, country_to_side) {
        return Err(ReinforcementError::InvalidWorld("economy funding"));
    }
    let keys = country_keys(economies);
    let mut index: usize = 0;
    while index < keys.len()
        invariant
            index <= keys@.len(),
            keys@.to_set() == economies@.dom(),
            forall|i: int|
                0 <= i < index ==> economy_valid(#[trigger] keys@[i], economies@[keys@[i]]),
        decreases keys@.len() - index,
    {
        broadcast use vstd::std_specs::btree::group_btree_axioms;

        let country: u16 = keys[index];
        assert(keys@.to_set().contains(country));
        if let Some(economy) = economies.get(&country) {
            if !(economy.country_id == country && economy.treasury.is_finite_nonnegative()
                && economy.payroll_coverage.in_unit_interval()
                && economy.occupation_coverage.in_unit_interval()
                && economy.arrears_cycles.is_finite_nonnegative()) {
                assert(economies@.contains_key(country));
                return Err(ReinforcementError::InvalidWorld("economy funding"));
            }
        }
        index = index + 1;
    }
    proof {
        assert forall|country: u16| #[trigger] economies@.contains_key(country) implies
            economy_valid(country, economies@[country]) by {
            assert(keys@.to_set().contains(country));
            let i = choose|i: int| 0 <= i < keys@.len() && keys@[i] == country;
            assert(keys@[i] == country);
        }
    }
    Ok(())
}

/// One finite, non-negative reserve for every side and for nothing else.
pub open spec fn reserves_valid(reserves: Map<usize, Real>, side_count: usize) -> bool {
    &&& forall|side: usize| reserves.contains_key(side) <==> side < side_count
    &&& forall|side: usize| #[trigger]
        reserves.contains_key(side) ==> reserves[side].finite_nonnegative()
}

pub fn validate_personnel_reserves(
    reserves: &BTreeMap<usize, Real>,
    side_count: usize,
) -> (outcome: Result<(), ReinforcementError>)
    ensures
        outcome is Ok <==> reserves_valid(reserves@, side_count),
        outcome matches Err(error) ==> error == ReinforcementError::InvalidWorld(
            "personnel reserves",
        ),
{
    if reserves_cover(reserves, side_count) {
        Ok(())
    } else {
        Err(ReinforcementError::InvalidWorld("personnel reserves"))
    }
}

/// Whether there is one finite, non-negative reserve for every side and for nothing else.
pub fn reserves_cover(reserves: &BTreeMap<usize, Real>, side_count: usize) -> (answer: bool)
    ensures
        answer == reserves_valid(reserves@, side_count),
{
    broadcast use vstd::std_specs::btree::group_btree_axioms;

    let keys = side_keys(reserves);
    let mut index: usize = 0;
    while index < keys.len()
        invariant
            index <= keys@.len(),
            keys@.to_set() == reserves@.dom(),
            forall|i: int|
                0 <= i < index ==> (#[trigger] keys@[i]) < side_count
                    && reserves@[keys@[i]].finite_nonnegative(),
        decreases keys@.len() - index,
    {
        broadcast use vstd::std_specs::btree::group_btree_axioms;

        let side: usize = keys[index];
        assert(keys@.to_set().contains(side));
        assert(reserves@.contains_key(side));
        if side >= side_count {
            return false;
        }
        if let Some(reserve) = reserves.get(&side) {
            if !reserve.is_finite_nonnegative() {
                return false;
            }
        }
        index = index + 1;
    }
    let mut side: usize = 0;
    while side < side_count
        invariant
            side <= side_count,
            forall|s: usize| s < side ==> reserves@.contains_key(s),
        decreases side_count - side,
    {
        broadcast use vstd::std_specs::btree::group_btree_axioms;

        if !reserves.contains_key(&side) {
            return false;
        }
        side = side + 1;
    }
    proof {
        assert forall|s: usize| #[trigger] reserves@.contains_key(s) implies s < side_count
            && reserves@[s].finite_nonnegative() by {
            assert(keys@.to_set().contains(s));
            let i = choose|i: int| 0 <= i < keys@.len() && keys@[i] == s;
            assert(keys@[i] == s);
        }
    }
    true
}

// ---------------------------------------------------------------------------------------------
// Inventories
// ---------------------------------------------------------------------------------------------

/// Aircraft that a country has in wings of one role.
pub open spec fn aircraft_in_wings(wings: Seq<AirWing>, country: u16, role: AirRole) -> int {
    total(
        wings,
        |wing: AirWing| wing.sovereign_country_id == country && wing.role == role,
        |wing: AirWing| wing.count as int,
    )
}

/// Aircraft that a country can fly: those whose wing has not been evacuated.
pub open spec fn flying_aircraft(wings: Seq<AirWing>, country: u16, role: AirRole) -> int {
    total(
        wings,
        |wing: AirWing|
            wing.sovereign_country_id == country && wing.role == role && wing.state
                != AirWingState::Evacuated,
        |wing: AirWing| wing.count as int,
    )
}

/// Aircraft that a country's wings of one role can hold.
pub open spec fn wing_room(wings: Seq<AirWing>, country: u16, role: AirRole) -> int {
    total(
        wings,
        |wing: AirWing| wing.sovereign_country_id == country && wing.role == role,
        |wing: AirWing| wing.max_count as int,
    )
}

/// Armored vehicles that a country has in formations.
pub open spec fn armor_in_formations(units: Seq<SimulationUnit>, country: u64) -> int {
    total(
        units,
        |unit: SimulationUnit|
            unit.combat.kind == UnitKind::Armor && unit.combat.sovereign == country,
        |unit: SimulationUnit| unit.combat.equipment as int,
    )
}

/// The larger of what a formation has and what it may have.
pub open spec fn formation_room(unit: SimulationUnit) -> int {
    if unit.combat.max_equipment >= unit.combat.equipment {
        unit.combat.max_equipment as int
    } else {
        unit.combat.equipment as int
    }
}

/// Armored vehicles that a country's formations can hold.
pub open spec fn armor_room(units: Seq<SimulationUnit>, country: u64) -> int {
    total(
        units,
        |unit: SimulationUnit|
            unit.combat.kind == UnitKind::Armor && unit.combat.sovereign == country,
        |unit: SimulationUnit| formation_room(unit),
    )
}

/// Which number of a wing is added up.
#[derive(Clone, Copy, Debug, PartialEq, Eq, Structural)]
pub enum WingTally {
    /// Aircraft of every wing.
    Present,
    /// Aircraft of wings that have not been evacuated.
    Flying,
    /// What the wing can hold.
    Room,
}

pub open spec fn tally(wings: Seq<AirWing>, country: u16, role: AirRole, what: WingTally) -> int {
    match what {
        WingTally::Present => aircraft_in_wings(wings, country, role),
        WingTally::Flying => flying_aircraft(wings, country, role),
        WingTally::Room => wing_room(wings, country, role),
    }
}

proof fn lemma_tally_push(
    wings: Seq<AirWing>,
    wing: AirWing,
    country: u16,
    role: AirRole,
    what: WingTally,
)
    ensures
        tally(wings.push(wing), country, role, what) == tally(wings, country, role, what) + (
        if wing.sovereign_country_id == country && wing.role == role && (what
            == WingTally::Flying ==> wing.state != AirWingState::Evacuated) {
            if what == WingTally::Room {
                wing.max_count as int
            } else {
                wing.count as int
            }
        } else {
            0
        }),
{
    match what {
        WingTally::Present => lemma_total_push(
            wings,
            wing,
            |wing: AirWing| wing.sovereign_country_id == country && wing.role == role,
            |wing: AirWing| wing.count as int,
        ),
        WingTally::Flying => lemma_total_push(
            wings,
            wing,
            |wing: AirWing|
                wing.sovereign_country_id == country && wing.role == role && wing.state
                    != AirWingState::Evacuated,
            |wing: AirWing| wing.count as int,
        ),
        WingTally::Room => lemma_total_push(
            wings,
            wing,
            |wing: AirWing| wing.sovereign_country_id == country && wing.role == role,
            |wing: AirWing| wing.max_count as int,
        ),
    }
}

proof fn lemma_tally_prefix(
    wings: Seq<AirWing>,
    country: u16,
    role: AirRole,
    what: WingTally,
    length: int,
)
    requires
        0 <= length <= wings.len(),
    ensures
        0 <= tally(wings.take(length), country, role, what) <= tally(wings, country, role, what),
{
    match what {
        WingTally::Present => lemma_total_prefix(
            wings,
            |wing: AirWing| wing.sovereign_country_id == country && wing.role == role,
            |wing: AirWing| wing.count as int,
            length,
        ),
        WingTally::Flying => lemma_total_prefix(
            wings,
            |wing: AirWing|
                wing.sovereign_country_id == country && wing.role == role && wing.state
                    != AirWingState::Evacuated,
            |wing: AirWing| wing.count as int,
            length,
        ),
        WingTally::Room => lemma_total_prefix(
            wings,
            |wing: AirWing| wing.sovereign_country_id == country && wing.role == role,
            |wing: AirWing| wing.max_count as int,
            length,
        ),
    }
}

/// Add up wings of one country and role on top of `start`; nothing if the sum is too large.
pub fn tally_wings(
    wings: &[AirWing],
    country: u16,
    role: AirRole,
    what: WingTally,
    start: u32,
) -> (sum: Option<u32>)
    ensures
        sum is Some <==> start + tally(wings@, country, role, what) <= u32::MAX,
        sum matches Some(value) ==> value == start + tally(wings@, country, role, what),
{
    let mut sum: u32 = start;
    let mut index: usize = 0;
    proof {
        assert(wings@.take(0) =~= Seq::<AirWing>::empty());
    }
    while index < wings.len()
        invariant
            index <= wings@.len(),
            sum == start + tally(wings@.take(index as int), country, role, what),
        decreases wings@.len() - index,
    {
        let wing = wings[index];
        proof {
            assert(wings@.take(index + 1) =~= wings@.take(index as int).push(wing));
            lemma_tally_push(wings@.take(index as int), wing, country, role, what);
            lemma_tally_prefix(wings@, country, role, what, index + 1);
        }
        if wing.sovereign_country_id == country && wing.role == role && (what != WingTally::Flying
            || wing.state != AirWingState::Evacuated) {
            let amount: u32 = if what == WingTally::Room {
                wing.max_count
            } else {
                wing.count
            };
            match sum.checked_add(amount) {
                Some(next) => {
                    sum = next;
                },
                None => {
                    return None;
                },
            }
        }
        index = index + 1;
    }
    assert(wings@.take(wings@.len() as int) =~= wings@);
    Some(sum)
}

/// Aircraft of both roles that a country can fly. Fails when a count leaves 32 bits.
pub fn operational_aircraft(wings: &[AirWing], country: u16) -> (outcome: Result<
    (u32, u32),
    ReinforcementError,
>)
    ensures
        outcome is Ok <==> flying_aircraft(wings@, country, AirRole::Fighter) <= u32::MAX
            && flying_aircraft(wings@, country, AirRole::Strike) <= u32::MAX,
        outcome matches Ok(counts) ==> counts.0 == flying_aircraft(
            wings@,
            country,
            AirRole::Fighter,
        ) && counts.1 == flying_aircraft(wings@, country, AirRole::Strike),
        outcome matches Err(error) ==> error == ReinforcementError::Overflow(
            "operational aircraft",
        ),
{
    match tally_wings(wings, country, AirRole::Fighter, WingTally::Flying, 0) {
        Some(fighters) => match tally_wings(wings, country, AirRole::Strike, WingTally::Flying, 0) {
            Some(strike) => Ok((fighters, strike)),
            None => Err(ReinforcementError::Overflow("operational aircraft")),
        },
        None => Err(ReinforcementError::Overflow("operational aircraft")),
    }
}

/// Aircraft of both roles that a country owns, in wings and in reserve.
pub fn total_aircraft(wings: &[AirWing], record: &ReinforcementCountry) -> (outcome: Result<
    (u32, u32),
    ReinforcementError,
>)
    ensures
        outcome is Ok <==> record.reserve_fighters + aircraft_in_wings(
            wings@,
            record.country_id,
            AirRole::Fighter,
        ) <= u32::MAX && record.reserve_strike + aircraft_in_wings(
            wings@,
            record.country_id,
            AirRole::Strike,
        ) <= u32::MAX,
        outcome matches Ok(counts) ==> counts.0 == record.reserve_fighters + aircraft_in_wings(
            wings@,
            record.country_id,
            AirRole::Fighter,
        ) && counts.1 == record.reserve_strike + aircraft_in_wings(
            wings@,
            record.country_id,
            AirRole::Strike,
        ),
        outcome matches Err(error) ==> error == ReinforcementError::Overflow("aircraft inventory"),
{
    let fighters = tally_wings(
        wings,
        record.country_id,
        AirRole::Fighter,
        WingTally::Present,
        record.reserve_fighters,
    );
    let strike = tally_wings(
        wings,
        record.country_id,
        AirRole::Strike,
        WingTally::Present,
        record.reserve_strike,
    );
    match fighters {
        Some(fighters) => match strike {
            Some(strike) => Ok((fighters, strike)),
            None => Err(ReinforcementError::Overflow("aircraft inventory")),
        },
        None => Err(ReinforcementError::Overflow("aircraft inventory")),
    }
}

proof fn lemma_armor_push(units: Seq<SimulationUnit>, unit: SimulationUnit, country: u64)
    ensures
        armor_in_formations(units.push(unit), country) == armor_in_formations(units, country) + (
        if unit.combat.kind == UnitKind::Armor && unit.combat.sovereign == country {
            unit.combat.equipment as int
        } else {
            0
        }),
        armor_room(units.push(unit), country) == armor_room(units, country) + (
        if unit.combat.kind == UnitKind::Armor && unit.combat.sovereign == country {
            formation_room(unit)
        } else {
            0
        }),
{
    lemma_total_push(
        units,
        unit,
        |unit: SimulationUnit|
            unit.combat.kind == UnitKind::Armor && unit.combat.sovereign == country,
        |unit: SimulationUnit| unit.combat.equipment as int,
    );
    lemma_total_push(
        units,
        unit,
        |unit: SimulationUnit|
            unit.combat.kind == UnitKind::Armor && unit.combat.sovereign == country,
        |unit: SimulationUnit| formation_room(unit),
    );
}

proof fn lemma_armor_prefix(units: Seq<SimulationUnit>, country: u64, length: int)
    requires
        0 <= length <= units.len(),
    ensures
        0 <= armor_in_formations(units.take(length), country) <= armor_in_formations(
            units,
            country,
        ),
        0 <= armor_room(units.take(length), country) <= armor_room(units, country),
{
    lemma_total_prefix(
        units,
        |unit: SimulationUnit|
            unit.combat.kind == UnitKind::Armor && unit.combat.sovereign == country,
        |unit: SimulationUnit| unit.combat.equipment as int,
        length,
    );
    lemma_total_prefix(
        units,
        |unit: SimulationUnit|
            unit.combat.kind == UnitKind::Armor && unit.combat.sovereign == country,
        |unit: SimulationUnit| formation_room(unit),
        length,
    );
}

/// Vehicles in formations on top of `start`; nothing if the sum leaves 64 bits.
pub fn tally_armor(units: &[SimulationUnit], country: u64, start: u64) -> (sum: Option<u64>)
    ensures
        sum is Some <==> start + armor_in_formations(units@, country) <= u64::MAX,
        sum matches Some(value) ==> value == start + armor_in_formations(units@, country),
{
    let mut sum: u64 = start;
    let mut index: usize = 0;
    proof {
        assert(units@.take(0) =~= Seq::<SimulationUnit>::empty());
    }
    while index < units.len()
        invariant
            index <= units@.len(),
            sum == start + armor_in_formations(units@.take(index as int), country),
        decreases units@.len() - index,
    {
        let unit = units[index];
        proof {
            assert(units@.take(index + 1) =~= units@.take(index as int).push(unit));
            lemma_armor_push(units@.take(index as int), unit, country);
            lemma_armor_prefix(units@, country, index + 1);
        }
        if unit.combat.kind == UnitKind::Armor && unit.combat.sovereign == country {
            match sum.checked_add(unit.combat.equipment) {
                Some(next) => {
                    sum = next;
                },
                None => {
                    return None;
                },
            }
        }
        index = index + 1;
    }
    assert(units@.take(units@.len() as int) =~= units@);
    Some(sum)
}

/// Vehicles that a country owns, in formations and in reserve.
pub fn total_armor(units: &[SimulationUnit], record: &MaterialLogisticsCountry) -> (outcome: Result<
    u64,
    ReinforcementError,
>)
    ensures
        outcome is Ok <==> record.reserve_armor + armor_in_formations(
            units@,
            record.country_id as u64,
        ) <= u64::MAX,
        outcome matches Ok(count) ==> count == record.reserve_armor + armor_in_formations(
            units@,
            record.country_id as u64,
        ),
        outcome matches Err(error) ==> error == ReinforcementError::Overflow("armor inventory"),
{
    match tally_armor(units, record.country_id as u64, record.reserve_armor) {
        Some(count) => Ok(count),
        None => Err(ReinforcementError::Overflow("armor inventory")),
    }
}

// ---------------------------------------------------------------------------------------------
// Air reserves
// ---------------------------------------------------------------------------------------------

/// The country ids of air records.
pub open spec fn record_ids(records: Seq<ReinforcementCountry>) -> Seq<u16> {
    records.map_values(|record: ReinforcementCountry| record.country_id)
}

/// The country ids of material records.
pub open spec fn stock_ids(records: Seq<MaterialLogisticsCountry>) -> Seq<u16> {
    records.map_values(|record: MaterialLogisticsCountry| record.country_id)
}

/// Ids list exactly the countries of a map in ascending order.
pub open spec fn lists_countries(ids: Seq<u16>, country_to_side: Map<u16, usize>) -> bool {
    strictly_sorted(ids) && ids.to_set() == country_to_side.dom()
}

fn ids_list_countries(ids: &Vec<u16>, country_to_side: &BTreeMap<u16, usize>) -> (answer: bool)
    ensures
        answer == lists_countries(ids@, country_to_side@),
{
    let keys = country_keys(country_to_side);
    let answer = equal_ids(ids, &keys);
    proof {
        if lists_countries(ids@, country_to_side@) {
            assert forall|id: u16| ids@.contains(id) <==> keys@.contains(id) by {
                assert(ids@.to_set().contains(id) <==> keys@.to_set().contains(id));
            }
            lemma_strictly_sorted_unique(ids@, keys@);
        }
    }
    answer
}

/// What is wrong with an air record, if anything.
pub open spec fn record_fault(record: ReinforcementCountry, wings: Seq<AirWing>) -> Option<
    ReinforcementError,
> {
    if !(record.country_id != 0 && record.air_operations_due.finite_nonnegative()
        && record.operations_coverage.unit_interval()
        && record.replacement_spent.finite_nonnegative()) {
        Some(ReinforcementError::InvalidState("country record"))
    } else if aircraft_in_wings(wings, record.country_id, AirRole::Fighter)
        + record.reserve_fighters > record.fighter_capacity || aircraft_in_wings(
        wings,
        record.country_id,
        AirRole::Strike,
    ) + record.reserve_strike > record.strike_capacity {
        Some(ReinforcementError::InvalidState("aircraft inventory exceeds capacity"))
    } else {
        None
    }
}

/// What the first faulty record at or behind `from` fails with.
pub open spec fn records_fault(
    records: Seq<ReinforcementCountry>,
    wings: Seq<AirWing>,
    from: int,
) -> Option<ReinforcementError>
    decreases records.len() - from,
{
    if from < 0 || from >= records.len() {
        None
    } else {
        match record_fault(records[from], wings) {
            Some(error) => Some(error),
            None => records_fault(records, wings, from + 1),
        }
    }
}

/// Every country's aircraft of each role fit in 32 bits.
pub open spec fn aircraft_countable(wings: Seq<AirWing>, ids: Seq<u16>) -> bool {
    forall|i: int|
        #![trigger ids[i]]
        0 <= i < ids.len() ==> aircraft_in_wings(wings, ids[i], AirRole::Fighter) <= u32::MAX
            && aircraft_in_wings(wings, ids[i], AirRole::Strike) <= u32::MAX
}

/// What air reserves fail validation with, in the order in which it is found.
pub open spec fn reserve_state_fault(
    schema: Seq<char>,
    next_unit_id: u64,
    next_air_wing_id: u64,
    records: Seq<ReinforcementCountry>,
    air: AirModel,
    air_accepted: bool,
    country_to_side: Map<u16, usize>,
    side_count: usize,
) -> Option<ReinforcementError> {
    if schema != REINFORCEMENT_SCHEMA_VERSION@ {
        Some(ReinforcementError::InvalidState("schema"))
    } else if next_unit_id == 0 || next_air_wing_id == 0 {
        Some(ReinforcementError::InvalidState("next IDs must be positive"))
    } else if air.wings.len() > 0 && air.wings.last().id >= next_air_wing_id {
        Some(ReinforcementError::InvalidState("next air-wing ID must exceed issued IDs"))
    } else if !topology_valid(country_to_side, side_count) {
        Some(ReinforcementError::InvalidWorld("country/side topology"))
    } else if !air_accepted {
        Some(ReinforcementError::Air("validation"))
    } else if !air_topology_valid(air, country_to_side, side_count) {
        Some(ReinforcementError::InvalidWorld("air topology"))
    } else if !lists_countries(record_ids(records), country_to_side) {
        Some(
            ReinforcementError::InvalidState(
                "countries must exactly cover stable topology in ID order",
            ),
        )
    } else if !aircraft_countable(air.wings, record_ids(records)) {
        Some(ReinforcementError::Overflow("aircraft inventory"))
    } else {
        records_fault(records, air.wings, 0)
    }
}

impl ReinforcementState {
    /// What the state fails validation with, in the order in which it is found. `air_verdict` is
    /// what the air kernel says about its own state.
    pub open spec fn fault(
        self,
        air: AirModel,
        air_verdict: Result<(), KernelFault>,
        country_to_side: Map<u16, usize>,
        side_count: usize,
    ) -> Option<ReinforcementError> {
        reserve_state_fault(
            self.schema@,
            self.next_unit_id,
            self.next_air_wing_id,
            self.countries@,
            air,
            air_verdict is Ok,
            country_to_side,
            side_count,
        )
    }

    fn country_ids(&self) -> (ids: Vec<u16>)
        ensures
            ids@ == record_ids(self.countries@),
    {
        let mut ids: Vec<u16> = Vec::new();
        let mut index: usize = 0;
        while index < self.countries.len()
            invariant
                index <= self.countries@.len(),
                ids@.len() == index,
                forall|i: int|
                    0 <= i < index ==> (#[trigger] ids@[i]) == self.countries@[i].country_id,
            decreases self.countries@.len() - index,
        {
            ids.push(self.countries[index].country_id);
            index = index + 1;
        }
        assert(ids@ =~= record_ids(self.countries@));
        ids
    }

    /// Validate the state against the live world.
    #[verifier::loop_isolation(false)]
    pub fn validate(
        &self,
        air: &AirPowerState,
        air_verdict: Result<(), KernelFault>,
        country_to_side: &BTreeMap<u16, usize>,
        side_count: usize,
    ) -> (outcome: Result<(), ReinforcementError>)
        ensures
            outcome is Ok <==> self.fault(air@, air_verdict, country_to_side@, side_count) is None,
            outcome matches Err(error) ==> self.fault(
                air@,
                air_verdict,
                country_to_side@,
                side_count,
            ) == Some(error),
    {
        if self.schema != REINFORCEMENT_SCHEMA_VERSION.to_owned() {
            return Err(ReinforcementError::InvalidState("schema"));
        }
        if self.next_unit_id == 0 || self.next_air_wing_id == 0 {
            return Err(ReinforcementError::InvalidState("next IDs must be positive"));
        }
        let wing_count: usize = air.wings.len();
        if wing_count > 0 && air.wings[wing_count - 1].id >= self.next_air_wing_id {
            return Err(ReinforcementError::InvalidState("next air-wing ID must exceed issued IDs"));
        }
        match validate_topology(country_to_side, side_count) {
            Err(error) => {
                return Err(error);
            },
            Ok(()) => {},
        }
        if air_verdict.is_err() {
            return Err(ReinforcementError::Air("validation"));
        }
        match validate_air_topology(air, country_to_side, side_count) {
            Err(error) => {
                return Err(error);
            },
            Ok(()) => {},
        }
        let ids = self.country_ids();
        if !ids_list_countries(&ids, country_to_side) {
            return Err(
                ReinforcementError::InvalidState(
                    "countries must exactly cover stable topology in ID order",
                ),
            );
        }
        let mut index: usize = 0;
        while index < ids.len()
            invariant
                index <= ids@.len(),
                forall|i: int|
                    #![trigger ids@[i]]
                    0 <= i < index ==> aircraft_in_wings(air.wings@, ids@[i], AirRole::Fighter)
                        <= u32::MAX && aircraft_in_wings(air.wings@, ids@[i], AirRole::Strike)
                        <= u32::MAX,
            decreases ids@.len() - index,
        {
            let country: u16 = ids[index];
            let fighters = tally_wings(
                &air.wings,
                country,
                AirRole::Fighter,
                WingTally::Present,
                0,
            );
            let strike = tally_wings(&air.wings, country, AirRole::Strike, WingTally::Present, 0);
            if fighters.is_none() || strike.is_none() {
                assert(ids@[index as int] == country);
                assert(!aircraft_countable(air.wings@, ids@));
                return Err(ReinforcementError::Overflow("aircraft inventory"));
            }
            index = index + 1;
        }
        assert(aircraft_countable(air.wings@, ids@));
        self.validate_records(air)
    }

    fn validate_records(&self, air: &AirPowerState) -> (outcome: Result<(), ReinforcementError>)
        ensures
            outcome is Ok <==> records_fault(self.countries@, air.wings@, 0) is None,
            outcome matches Err(error) ==> records_fault(self.countries@, air.wings@, 0) == Some(
                error,
            ),
    {
        let mut index: usize = 0;
        while index < self.countries.len()
            invariant
                index <= self.countries@.len(),
                records_fault(self.countries@, air.wings@, 0) == records_fault(
                    self.countries@,
                    air.wings@,
                    index as int,
                ),
            decreases self.countries@.len() - index,
        {
            let record = self.countries[index];
            if !(record.country_id != 0 && record.air_operations_due.is_finite_nonnegative()
                && record.operations_coverage.in_unit_interval()
                && record.replacement_spent.is_finite_nonnegative()) {
                return Err(ReinforcementError::InvalidState("country record"));
            }
            let fighters = tally_wings(
                &air.wings,
                record.country_id,
                AirRole::Fighter,
                WingTally::Present,
                record.reserve_fighters,
            );
            let strike = tally_wings(
                &air.wings,
                record.country_id,
                AirRole::Strike,
                WingTally::Present,
                record.reserve_strike,
            );
            let fighters_fit = match fighters {
                Some(count) => count <= record.fighter_capacity,
                None => false,
            };
            let strike_fit = match strike {
                Some(count) => count <= record.strike_capacity,
                None => false,
            };
            if !fighters_fit || !strike_fit {
                return Err(
                    ReinforcementError::InvalidState("aircraft inventory exceeds capacity"),
                );
            }
            index = index + 1;
        }
        Ok(())
    }

    /// Derive stable capacities from the sum of each country's wing maxima. Replacement reserves
    /// begin empty; current aircraft remain in wings.
    #[verifier::loop_isolation(false)]
    pub fn bootstrap(
        air: &AirPowerState,
        air_verdict: Result<(), KernelFault>,
        next_unit_id: u64,
        next_air_wing_id: u64,
        country_to_side: &BTreeMap<u16, usize>,
        side_count: usize,
    ) -> (outcome: Result<ReinforcementState, ReinforcementError>)
        ensures
            match outcome {
                Ok(state) => {
                    &&& bootstrap_inputs_fault(
                        air@,
                        air_verdict,
                        country_to_side@,
                        side_count,
                    ) is None
                    &&& rooms_countable(air.wings@, country_to_side@)
                    &&& first_reinforcement(
                        state,
                        air@,
                        next_unit_id,
                        next_air_wing_id,
                        country_to_side@,
                    )
                    &&& state.fault(air@, air_verdict, country_to_side@, side_count) is None
                },
                Err(error) => reinforcement_refused(
                    air@,
                    air_verdict,
                    next_unit_id,
                    next_air_wing_id,
                    country_to_side@,
                    side_count,
                    error,
                ),
            },
    {
        if air_verdict.is_err() {
            return Err(ReinforcementError::Air("validation"));
        }
        match validate_topology(country_to_side, side_count) {
            Err(error) => {
                return Err(error);
            },
            Ok(()) => {},
        }
        match validate_air_topology(air, country_to_side, side_count) {
            Err(error) => {
                return Err(error);
            },
            Ok(()) => {},
        }
        let keys = country_keys(country_to_side);
        let mut countries: Vec<ReinforcementCountry> = Vec::new();
        let mut index: usize = 0;
        while index < keys.len()
            invariant
                index <= keys@.len(),
                keys@.to_set() == country_to_side@.dom(),
                countries@.len() == index,
                forall|i: int|
                    #![trigger countries@[i]]
                    0 <= i < index ==> countries@[i] == starting_record(keys@[i], air.wings@),
                forall|i: int|
                    #![trigger keys@[i]]
                    0 <= i < index ==> wing_room(air.wings@, keys@[i], AirRole::Fighter) <= u32::MAX
                        && wing_room(air.wings@, keys@[i], AirRole::Strike) <= u32::MAX,
            decreases keys@.len() - index,
        {
            let country: u16 = keys[index];
            assert(keys@.to_set().contains(country));
            assert(country_to_side@.contains_key(country));
            let fighters = tally_wings(&air.wings, country, AirRole::Fighter, WingTally::Room, 0);
            let strike = tally_wings(&air.wings, country, AirRole::Strike, WingTally::Room, 0);
            match fighters {
                Some(fighter_capacity) => match strike {
                    Some(strike_capacity) => {
                        countries.push(
                            ReinforcementCountry {
                                country_id: country,
                                fighter_capacity,
                                strike_capacity,
                                reserve_fighters: 0,
                                reserve_strike: 0,
                                air_operations_due: Real::zero(),
                                operations_coverage: Real::one(),
                                replacement_spent: Real::zero(),
                            },
                        );
                    },
                    None => {
                        return Err(ReinforcementError::Overflow("aircraft capacity"));
                    },
                },
                None => {
                    return Err(ReinforcementError::Overflow("aircraft capacity"));
                },
            }
            index = index + 1;
        }
        proof {
            assert(rooms_countable(air.wings@, country_to_side@)) by {
                assert forall|country: u16| #[trigger]
                    country_to_side@.contains_key(country) implies wing_room(
                    air.wings@,
                    country,
                    AirRole::Fighter,
                ) <= u32::MAX && wing_room(air.wings@, country, AirRole::Strike) <= u32::MAX by {
                    assert(keys@.to_set().contains(country));
                    let i = choose|i: int| 0 <= i < keys@.len() && keys@[i] == country;
                    assert(keys@[i] == country);
                }
            }
            assert(record_ids(countries@) =~= keys@);
        }
        let state = ReinforcementState {
            schema: REINFORCEMENT_SCHEMA_VERSION.to_owned(),
            next_unit_id,
            next_air_wing_id,
            countries,
        };
        match state.validate(air, air_verdict, country_to_side, side_count) {
            Err(error) => Err(error),
            Ok(()) => Ok(state),
        }
    }
}

/// Every country's wing maxima of each role fit in 32 bits.
pub open spec fn rooms_countable(wings: Seq<AirWing>, country_to_side: Map<u16, usize>) -> bool {
    forall|country: u16| #[trigger]
        country_to_side.contains_key(country) ==> wing_room(wings, country, AirRole::Fighter)
            <= u32::MAX && wing_room(wings, country, AirRole::Strike) <= u32::MAX
}

/// What the world around a fresh reinforcement state fails with.
pub open spec fn bootstrap_inputs_fault(
    air: AirModel,
    air_verdict: Result<(), KernelFault>,
    country_to_side: Map<u16, usize>,
    side_count: usize,
) -> Option<ReinforcementError> {
    if air_verdict is Err {
        Some(ReinforcementError::Air("validation"))
    } else if !topology_valid(country_to_side, side_count) {
        Some(ReinforcementError::InvalidWorld("country/side topology"))
    } else if !air_topology_valid(air, country_to_side, side_count) {
        Some(ReinforcementError::InvalidWorld("air topology"))
    } else {
        None
    }
}

/// A country's record before its first cycle.
pub open spec fn starting_record(country: u16, wings: Seq<AirWing>) -> ReinforcementCountry {
    ReinforcementCountry {
        country_id: country,
        fighter_capacity: wing_room(wings, country, AirRole::Fighter) as u32,
        strike_capacity: wing_room(wings, country, AirRole::Strike) as u32,
        reserve_fighters: 0,
        reserve_strike: 0,
        air_operations_due: real_of(0),
        operations_coverage: real_of(ONE_BITS),
        replacement_spent: real_of(0),
    }
}

/// Convenience constructor for callers that prefer a free function.
/// Whether a state is the first reinforcement state of its world.
pub open spec fn first_reinforcement(
    state: ReinforcementState,
    air: AirModel,
    next_unit_id: u64,
    next_air_wing_id: u64,
    country_to_side: Map<u16, usize>,
) -> bool {
    &&& state.schema@ == REINFORCEMENT_SCHEMA_VERSION@
    &&& state.next_unit_id == next_unit_id
    &&& state.next_air_wing_id == next_air_wing_id
    &&& lists_countries(record_ids(state.countries@), country_to_side)
    &&& forall|i: int|
        #![trigger state.countries@[i]]
        0 <= i < state.countries@.len() ==> state.countries@[i] == starting_record(
            state.countries@[i].country_id,
            air.wings,
        )
}

/// Whether the first reinforcement state of a world is refused with an error.
pub open spec fn reinforcement_refused(
    air: AirModel,
    verdict: Result<(), KernelFault>,
    next_unit_id: u64,
    next_air_wing_id: u64,
    country_to_side: Map<u16, usize>,
    side_count: usize,
    error: ReinforcementError,
) -> bool {
    match bootstrap_inputs_fault(air, verdict, country_to_side, side_count) {
        Some(fault) => error == fault,
        None => if !rooms_countable(air.wings, country_to_side) {
            error == ReinforcementError::Overflow("aircraft capacity")
        } else {
            exists|state: ReinforcementState|
                first_reinforcement(
                    state,
                    air,
                    next_unit_id,
                    next_air_wing_id,
                    country_to_side,
                ) && #[trigger] state.fault(air, verdict, country_to_side, side_count) == Some(
                    error,
                )
        },
    }
}

pub fn bootstrap_reinforcement_state(
    air: &AirPowerState,
    air_verdict: Result<(), KernelFault>,
    next_unit_id: u64,
    next_air_wing_id: u64,
    country_to_side: &BTreeMap<u16, usize>,
    side_count: usize,
) -> (outcome: Result<ReinforcementState, ReinforcementError>)
    ensures
        match outcome {
            Ok(state) => {
                &&& bootstrap_inputs_fault(
                    air@,
                    air_verdict,
                    country_to_side@,
                    side_count,
                ) is None
                &&& rooms_countable(air.wings@, country_to_side@)
                &&& first_reinforcement(
                    state,
                    air@,
                    next_unit_id,
                    next_air_wing_id,
                    country_to_side@,
                )
                &&& state.fault(air@, air_verdict, country_to_side@, side_count) is None
            },
            Err(error) => reinforcement_refused(
                air@,
                air_verdict,
                next_unit_id,
                next_air_wing_id,
                country_to_side@,
                side_count,
                error,
            ),
        },
{
    ReinforcementState::bootstrap(
        air,
        air_verdict,
        next_unit_id,
        next_air_wing_id,
        country_to_side,
        side_count,
    )
}

// ---------------------------------------------------------------------------------------------
// Material reserves
// ---------------------------------------------------------------------------------------------

/// Which number of an armored formation is added up.
#[derive(Clone, Copy, Debug, PartialEq, Eq, Structural)]
pub enum ArmorTally {
    Present,
    Room,
}

pub open spec fn armor_tally(units: Seq<SimulationUnit>, country: u64, what: ArmorTally) -> int {
    match what {
        ArmorTally::Present => armor_in_formations(units, country),
        ArmorTally::Room => armor_room(units, country),
    }
}

/// What the unit at `position` fails with: a country outside the topology, a side that is not its
/// country's, or armor that overflows its country's sum up to and including it.
pub open spec fn land_unit_fault(
    units: Seq<SimulationUnit>,
    country_to_side: Map<u16, usize>,
    what: ArmorTally,
    position: int,
) -> Option<ReinforcementError> {
    let combat = units[position].combat;
    if combat.sovereign > u16::MAX || !country_to_side.contains_key(combat.sovereign as u16) {
        Some(ReinforcementError::InvalidWorld("unit country"))
    } else if combat.side as usize != country_to_side[combat.sovereign as u16] {
        Some(ReinforcementError::InvalidWorld("unit side"))
    } else if combat.kind == UnitKind::Armor && armor_tally(
        units.take(position + 1),
        combat.sovereign,
        what,
    ) > u64::MAX {
        Some(
            match what {
                ArmorTally::Present => ReinforcementError::Overflow("armor inventory"),
                ArmorTally::Room => ReinforcementError::Overflow("armor capacity"),
            },
        )
    } else {
        None
    }
}

/// What the first faulty unit at or behind `from` fails with.
pub open spec fn land_units_fault(
    units: Seq<SimulationUnit>,
    country_to_side: Map<u16, usize>,
    what: ArmorTally,
    from: int,
) -> Option<ReinforcementError>
    decreases units.len() - from,
{
    if from < 0 || from >= units.len() {
        None
    } else {
        match land_unit_fault(units, country_to_side, what, from) {
            Some(error) => Some(error),
            None => land_units_fault(units, country_to_side, what, from + 1),
        }
    }
}

/// Add up one number of a country's armored formations among the first `count` units.
fn tally_armor_prefix(units: &[SimulationUnit], country: u64, what: ArmorTally, count: usize) -> (sum:
    Option<u64>)
    requires
        count <= units@.len(),
    ensures
        sum is Some <==> armor_tally(units@.take(count as int), country, what) <= u64::MAX,
        sum matches Some(value) ==> value == armor_tally(units@.take(count as int), country, what),
{
    let mut sum: u64 = 0;
    let mut index: usize = 0;
    let ghost prefix = units@.take(count as int);
    proof {
        assert(prefix.take(0) =~= Seq::<SimulationUnit>::empty());
    }
    while index < count
        invariant
            index <= count <= units@.len(),
            prefix == units@.take(count as int),
            sum == armor_tally(prefix.take(index as int), country, what),
        decreases count - index,
    {
        let unit = units[index];
        proof {
            assert(prefix.take(index + 1) =~= prefix.take(index as int).push(unit));
            lemma_armor_push(prefix.take(index as int), unit, country);
            lemma_armor_prefix(prefix, country, index + 1);
        }
        if unit.combat.kind == UnitKind::Armor && unit.combat.sovereign == country {
            let amount: u64 = match what {
                ArmorTally::Present => unit.combat.equipment,
                ArmorTally::Room => if unit.combat.max_equipment >= unit.combat.equipment {
                    unit.combat.max_equipment
                } else {
                    unit.combat.equipment
                },
            };
            match sum.checked_add(amount) {
                Some(next) => {
                    sum = next;
                },
                None => {
                    return None;
                },
            }
        }
        index = index + 1;
    }
    assert(prefix.take(count as int) =~= prefix);
    Some(sum)
}

fn validate_land_units(
    units: &[SimulationUnit],
    country_to_side: &BTreeMap<u16, usize>,
    what: ArmorTally,
) -> (outcome: Result<(), ReinforcementError>)
    ensures
        outcome is Ok <==> land_units_fault(units@, country_to_side@, what, 0) is None,
        outcome matches Err(error) ==> land_units_fault(units@, country_to_side@, what, 0) == Some(
            error,
        ),
{
    broadcast use vstd::std_specs::btree::group_btree_axioms;

    let mut index: usize = 0;
    while index < units.len()
        invariant
            index <= units@.len(),
            land_units_fault(units@, country_to_side@, what, 0) == land_units_fault(
                units@,
                country_to_side@,
                what,
                index as int,
            ),
        decreases units@.len() - index,
    {
        broadcast use vstd::std_specs::btree::group_btree_axioms;

        let combat = units[index].combat;
        if combat.sovereign > u16::MAX as u64 {
            return Err(ReinforcementError::InvalidWorld("unit country"));
        }
        let country: u16 = combat.sovereign as u16;
        match country_to_side.get(&country) {
            None => {
                return Err(ReinforcementError::InvalidWorld("unit country"));
            },
            Some(side) => {
                if combat.side as usize != *side {
                    return Err(ReinforcementError::InvalidWorld("unit side"));
                }
            },
        }
        if combat.kind == UnitKind::Armor {
            let sum = tally_armor_prefix(units, combat.sovereign, what, index + 1);
            if sum.is_none() {
                return match what {
                    ArmorTally::Present => Err(ReinforcementError::Overflow("armor inventory")),
                    ArmorTally::Room => Err(ReinforcementError::Overflow("armor capacity")),
                };
            }
        }
        index = index + 1;
    }
    Ok(())
}

/// What is wrong with a material record, if anything.
pub open spec fn stock_fault(
    record: MaterialLogisticsCountry,
    units: Seq<SimulationUnit>,
) -> Option<ReinforcementError> {
    if record.country_id != 0 && record.armor_capacity <= MAX_ARMOR_CAPACITY
        && record.armor_quality.finite() && real_of(0).le(record.armor_quality)
        && record.armor_quality.le(real_of(HUNDRED_BITS))
        && record.armor_replacement_spent.finite_nonnegative()
        && record.airfield_repair_spent.finite_nonnegative() && armor_in_formations(
        units,
        record.country_id as u64,
    ) + record.reserve_armor <= record.armor_capacity {
        None
    } else {
        Some(ReinforcementError::InvalidState("material logistics country record"))
    }
}

pub open spec fn stocks_fault(
    records: Seq<MaterialLogisticsCountry>,
    units: Seq<SimulationUnit>,
    from: int,
) -> Option<ReinforcementError>
    decreases records.len() - from,
{
    if from < 0 || from >= records.len() {
        None
    } else {
        match stock_fault(records[from], units) {
            Some(error) => Some(error),
            None => stocks_fault(records, units, from + 1),
        }
    }
}

/// A country's material record before its first cycle: room for what its profile grants and for
/// what it already fields, within the cap, and an empty reserve.
pub open spec fn starting_stock(
    country: u16,
    profile: (u64, Real),
    units: Seq<SimulationUnit>,
) -> MaterialLogisticsCountry {
    let live = armor_room(units, country as u64);
    let wanted = if profile.0 >= live {
        profile.0 as int
    } else {
        live
    };
    MaterialLogisticsCountry {
        country_id: country,
        armor_capacity: if wanted <= MAX_ARMOR_CAPACITY {
            wanted as u64
        } else {
            MAX_ARMOR_CAPACITY
        },
        reserve_armor: 0,
        armor_quality: profile.1.clamp_of(real_of(0), real_of(HUNDRED_BITS)),
        armor_replacement_spent: real_of(0),
        airfield_repair_spent: real_of(0),
    }
}

/// What the world around a fresh material state fails with.
pub open spec fn stock_inputs_fault(
    units: Seq<SimulationUnit>,
    profiles: Map<u16, (u64, Real)>,
    country_to_side: Map<u16, usize>,
    side_count: usize,
) -> Option<ReinforcementError> {
    if !topology_valid(country_to_side, side_count) {
        Some(ReinforcementError::InvalidWorld("country/side topology"))
    } else if profiles.dom() != country_to_side.dom() {
        Some(ReinforcementError::InvalidWorld("armor profiles"))
    } else {
        land_units_fault(units, country_to_side, ArmorTally::Room, 0)
    }
}

/// What material reserves fail validation with, in the order in which it is found.
pub open spec fn material_state_fault(
    schema: Seq<char>,
    stocks: Seq<MaterialLogisticsCountry>,
    units: Seq<SimulationUnit>,
    country_to_side: Map<u16, usize>,
    side_count: usize,
) -> Option<ReinforcementError> {
    if schema != MATERIAL_LOGISTICS_SCHEMA_VERSION@ {
        Some(ReinforcementError::InvalidState("material logistics schema"))
    } else if !topology_valid(country_to_side, side_count) {
        Some(ReinforcementError::InvalidWorld("country/side topology"))
    } else if !lists_countries(stock_ids(stocks), country_to_side) {
        Some(
            ReinforcementError::InvalidState(
                "material countries must exactly cover stable topology in ID order",
            ),
        )
    } else {
        match land_units_fault(units, country_to_side, ArmorTally::Present, 0) {
            Some(error) => Some(error),
            None => stocks_fault(stocks, units, 0),
        }
    }
}

/// Whether a state is the first logistics state of its world.
pub open spec fn first_logistics(
    state: MaterialLogisticsState,
    units: Seq<SimulationUnit>,
    profiles: Map<u16, (u64, Real)>,
    country_to_side: Map<u16, usize>,
) -> bool {
    &&& state.schema@ == MATERIAL_LOGISTICS_SCHEMA_VERSION@
    &&& lists_countries(stock_ids(state.countries@), country_to_side)
    &&& forall|i: int|
        #![trigger state.countries@[i]]
        0 <= i < state.countries@.len() ==> state.countries@[i] == starting_stock(
            state.countries@[i].country_id,
            profiles[state.countries@[i].country_id],
            units,
        )
}

/// Whether the first logistics state of a world is refused with an error.
pub open spec fn logistics_refused(
    units: Seq<SimulationUnit>,
    profiles: Map<u16, (u64, Real)>,
    country_to_side: Map<u16, usize>,
    side_count: usize,
    error: ReinforcementError,
) -> bool {
    match stock_inputs_fault(units, profiles, country_to_side, side_count) {
        Some(fault) => error == fault,
        None => exists|state: MaterialLogisticsState|
            first_logistics(state, units, profiles, country_to_side) && #[trigger] state.fault(
                units,
                country_to_side,
                side_count,
            ) == Some(error),
    }
}

impl MaterialLogisticsState {
    /// What the state fails validation with, in the order in which it is found.
    pub open spec fn fault(
        self,
        units: Seq<SimulationUnit>,
        country_to_side: Map<u16, usize>,
        side_count: usize,
    ) -> Option<ReinforcementError> {
        material_state_fault(self.schema@, self.countries@, units, country_to_side, side_count)
    }

    fn country_ids(&self) -> (ids: Vec<u16>)
        ensures
            ids@ == stock_ids(self.countries@),
    {
        let mut ids: Vec<u16> = Vec::new();
        let mut index: usize = 0;
        while index < self.countries.len()
            invariant
                index <= self.countries@.len(),
                ids@.len() == index,
                forall|i: int|
                    0 <= i < index ==> (#[trigger] ids@[i]) == self.countries@[i].country_id,
            decreases self.countries@.len() - index,
        {
            ids.push(self.countries[index].country_id);
            index = index + 1;
        }
        assert(ids@ =~= stock_ids(self.countries@));
        ids
    }

    /// Validate the state against the live formations.
    #[verifier::loop_isolation(false)]
    pub fn validate(
        &self,
        units: &[SimulationUnit],
        country_to_side: &BTreeMap<u16, usize>,
        side_count: usize,
    ) -> (outcome: Result<(), ReinforcementError>)
        ensures
            outcome is Ok <==> self.fault(units@, country_to_side@, side_count) is None,
            outcome matches Err(error) ==> self.fault(units@, country_to_side@, side_count) == Some(
                error,
            ),
    {
        if self.schema != MATERIAL_LOGISTICS_SCHEMA_VERSION.to_owned() {
            return Err(ReinforcementError::InvalidState("material logistics schema"));
        }
        match validate_topology(country_to_side, side_count) {
            Err(error) => {
                return Err(error);
            },
            Ok(()) => {},
        }
        let ids = self.country_ids();
        if !ids_list_countries(&ids, country_to_side) {
            return Err(
                ReinforcementError::InvalidState(
                    "material countries must exactly cover stable topology in ID order",
                ),
            );
        }
        match validate_land_units(units, country_to_side, ArmorTally::Present) {
            Err(error) => {
                return Err(error);
            },
            Ok(()) => {},
        }
        let mut index: usize = 0;
        while index < self.countries.len()
            invariant
                index <= self.countries@.len(),
                stocks_fault(self.countries@, units@, 0) == stocks_fault(
                    self.countries@,
                    units@,
                    index as int,
                ),
            decreases self.countries@.len() - index,
        {
            let record = self.countries[index];
            let fits = match tally_armor(units, record.country_id as u64, record.reserve_armor) {
                Some(count) => count <= record.armor_capacity,
                None => false,
            };
            if !(record.country_id != 0 && record.armor_capacity <= MAX_ARMOR_CAPACITY
                && record.armor_quality.is_finite() && Real::zero().at_most(record.armor_quality)
                && record.armor_quality.at_most(Real::from_bits(HUNDRED_BITS))
                && record.armor_replacement_spent.is_finite_nonnegative()
                && record.airfield_repair_spent.is_finite_nonnegative() && fits) {
                return Err(ReinforcementError::InvalidState("material logistics country record"));
            }
            index = index + 1;
        }
        Ok(())
    }

    /// Construct a canonical material state from stable country profiles. Live armor stays
    /// deployed and replacement reserves start empty.
    #[verifier::loop_isolation(false)]
    pub fn bootstrap(
        units: &[SimulationUnit],
        armor_profiles: &BTreeMap<u16, (u64, Real)>,
        country_to_side: &BTreeMap<u16, usize>,
        side_count: usize,
    ) -> (outcome: Result<MaterialLogisticsState, ReinforcementError>)
        ensures
            match outcome {
                Ok(state) => {
                    &&& stock_inputs_fault(
                        units@,
                        armor_profiles@,
                        country_to_side@,
                        side_count,
                    ) is None
                    &&& first_logistics(state, units@, armor_profiles@, country_to_side@)
                    &&& state.fault(units@, country_to_side@, side_count) is None
                },
                Err(error) => logistics_refused(
                    units@,
                    armor_profiles@,
                    country_to_side@,
                    side_count,
                    error,
                ),
            },
    {
        broadcast use vstd::std_specs::btree::group_btree_axioms;

        match validate_topology(country_to_side, side_count) {
            Err(error) => {
                return Err(error);
            },
            Ok(()) => {},
        }
        if !same_countries(armor_profiles, country_to_side) {
            return Err(ReinforcementError::InvalidWorld("armor profiles"));
        }
        match validate_land_units(units, country_to_side, ArmorTally::Room) {
            Err(error) => {
                return Err(error);
            },
            Ok(()) => {},
        }
        let keys = country_keys(country_to_side);
        let mut countries: Vec<MaterialLogisticsCountry> = Vec::new();
        let mut index: usize = 0;
        while index < keys.len()
            invariant
                index <= keys@.len(),
                countries@.len() == index,
                forall|i: int|
                    #![trigger countries@[i]]
                    0 <= i < index ==> countries@[i] == starting_stock(
                        keys@[i],
                        armor_profiles@[keys@[i]],
                        units@,
                    ),
            decreases keys@.len() - index,
        {
            let country: u16 = keys[index];
            assert(keys@.to_set().contains(country));
            assert(country_to_side@.dom().contains(country));
            assert(armor_profiles@.dom().contains(country));
            let profile: (u64, Real) = match armor_profiles.get(&country) {
                Some(profile) => *profile,
                None => {
                    assert(false);
                    (0, Real::zero())
                },
            };
            let live: u64 = match tally_armor_prefix(
                units,
                country as u64,
                ArmorTally::Room,
                units.len(),
            ) {
                Some(live) => live,
                None => {
                    proof {
                        lemma_rooms_fit(units@, country_to_side@, country as u64);
                        assert(units@.take(units@.len() as int) =~= units@);
                    }
                    0
                },
            };
            assert(units@.take(units@.len() as int) =~= units@);
            let wanted: u64 = if profile.0 >= live {
                profile.0
            } else {
                live
            };
            countries.push(
                MaterialLogisticsCountry {
                    country_id: country,
                    armor_capacity: if wanted <= MAX_ARMOR_CAPACITY {
                        wanted
                    } else {
                        MAX_ARMOR_CAPACITY
                    },
                    reserve_armor: 0,
                    armor_quality: profile.1.clamped(Real::zero(), Real::from_bits(HUNDRED_BITS)),
                    armor_replacement_spent: Real::zero(),
                    airfield_repair_spent: Real::zero(),
                },
            );
            index = index + 1;
        }
        assert(stock_ids(countries@) =~= keys@);
        let state = MaterialLogisticsState {
            schema: MATERIAL_LOGISTICS_SCHEMA_VERSION.to_owned(),
            countries,
        };
        match state.validate(units, country_to_side, side_count) {
            Err(error) => Err(error),
            Ok(()) => Ok(state),
        }
    }
}

/// Formations that pass the unit check never overflow a country's sum.
proof fn lemma_rooms_fit(
    units: Seq<SimulationUnit>,
    country_to_side: Map<u16, usize>,
    country: u64,
)
    requires
        land_units_fault(units, country_to_side, ArmorTally::Room, 0) is None,
    ensures
        armor_room(units, country) <= u64::MAX,
{
    lemma_rooms_fit_below(units, country_to_side, country, units.len() as int);
    assert(units.take(units.len() as int) =~= units);
}

proof fn lemma_no_fault_at(
    units: Seq<SimulationUnit>,
    country_to_side: Map<u16, usize>,
    what: ArmorTally,
    from: int,
    position: int,
)
    requires
        0 <= from <= position < units.len(),
        land_units_fault(units, country_to_side, what, from) is None,
    ensures
        land_unit_fault(units, country_to_side, what, position) is None,
    decreases position - from,
{
    if from < position {
        lemma_no_fault_at(units, country_to_side, what, from + 1, position);
    }
}

proof fn lemma_rooms_fit_below(
    units: Seq<SimulationUnit>,
    country_to_side: Map<u16, usize>,
    country: u64,
    length: int,
)
    requires
        0 <= length <= units.len(),
        land_units_fault(units, country_to_side, ArmorTally::Room, 0) is None,
    ensures
        armor_room(units.take(length), country) <= u64::MAX,
    decreases length,
{
    if length > 0 {
        lemma_rooms_fit_below(units, country_to_side, country, length - 1);
        let unit = units[length - 1];
        assert(units.take(length) =~= units.take(length - 1).push(unit));
        lemma_armor_push(units.take(length - 1), unit, country);
        lemma_no_fault_at(units, country_to_side, ArmorTally::Room, 0, length - 1);
    } else {
        assert(units.take(0) =~= Seq::<SimulationUnit>::empty());
    }
}

} // verus!
