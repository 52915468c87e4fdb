//! Deterministic orchestration for one unit-simulation tick.
//!
//! Strategic planning remains outside this module. Callers resolve movement headings, scalar
//! speed factors, preferred targets and combat modifiers, then submit those immutable orders
//! here. A tick takes one tactical snapshot, executes units in reverse stable-storage order,
//! commits combat immediately, defers removal until the end and publishes an id-sorted snapshot.
//!
//! Distances, damage and movement are numeric kernels of the caller. A tick is therefore a
//! protocol: [`Simulation::step`] validates the whole boundary and opens a [`Tick`],
//! [`Simulation::next_action`] names the kernel call that is due, the matching `record_*` method
//! takes its result, and [`Simulation::finish`] removes the defeated and publishes.

use std::collections::BTreeMap;
use vstd::prelude::*;
use crate::order::{
    copy_all, distinct_keys, lemma_filter_contains, lemma_permutation_contains,
    lemma_sorted_distinct_is_strict, permutation, sort_by_key, sorted, strictly_sorted, Keyed,
};
use crate::numbers::N_0_8;
use crate::scalar::{real_of, Real, ONE_BITS};
use crate::units::{
    hold_order, hostile, is_hostile, CombatEvent, CombatUnit, HostilityMatrix, KernelFault,
    ResolvedCombatOrder, ResolvedUnitOrder, SideKey, SimulationUnit, UnitKind,
};
use crate::worksheet::{
    all_missing, difference, longitude_delta, number_at, product, quotient, sum, Operation,
    Reader, Worksheet,
};

verus! {

pub const NATIVE_TICK_SCHEMA_VERSION: &'static str = "native-tick-v1";

/// The usual size of a tactical cell: `0.6`.
pub const DEFAULT_TACTICAL_CELL_SIZE_BITS: u64 = 0x3fe3_3333_3333_3333;

/// Bit pattern of `180.0`.
pub const MAX_TACTICAL_CELL_SIZE_BITS: u64 = 0x4066_8000_0000_0000;

/// Scalars of the combat kernel that the tick validates or hands on.
#[derive(Clone, Copy, Debug, PartialEq, Eq, Structural)]
pub struct CombatConfig {
    pub combat_damage: Real,
    pub proximity_radius: Real,
    pub direct_radius: Real,
    pub target_jitter_scale: Real,
    pub unit_speed: Real,
    pub unit_naval_speed: Real,
    pub armor_crew_per_vehicle: u64,
}

#[derive(Clone, Copy, Debug, PartialEq, Eq, Structural)]
pub struct SimulationConfig {
    pub tactical_cell_size: Real,
    pub combat: CombatConfig,
}

#[derive(Clone, Copy, Debug, PartialEq, Eq, Structural)]
pub enum SimulationError {
    InvalidConfig,
    DuplicateUnit(u64),
    DuplicateOrder(u64),
    NonFiniteInput,
    InvalidHostility,
    InvalidSide(u64),
    World(KernelFault),
    Movement(KernelFault),
    Combat(KernelFault),
    Tactical(KernelFault),
}

/// Products that decide whether an order can be executed: the distance it covers and the two
/// coordinate steps.
#[derive(Clone, Copy, Debug, PartialEq, Eq, Structural)]
pub struct OrderReach {
    pub move_distance: Real,
    pub lat_step: Real,
    pub lng_step: Real,
}

/// Everything one tick reads besides the units.
#[derive(Clone, Copy, Debug)]
pub struct TickInput<'a> {
    pub tick: u64,
    pub frame: u64,
    pub war_grace_end: u64,
    /// What the world grid said about its own dimensions.
    pub world: Result<(), KernelFault>,
    pub hostility: HostilityMatrix<'a>,
    pub orders: &'a [ResolvedUnitOrder],
    /// One entry per order.
    pub reaches: &'a [OrderReach],
}

#[derive(Clone, Copy, Debug, PartialEq, Eq, Structural)]
pub struct UnitSnapshot {
    pub id: u64,
    pub side: SideKey,
    pub sovereign: u64,
    pub kind: UnitKind,
    pub lat: Real,
    pub lng: Real,
    pub health: Real,
    pub max_health: Real,
    /// What is left of the health, between none and all of it, in single precision.
    pub health_fraction: Real,
    pub personnel: u64,
    pub personnel_capacity: u64,
    pub equipment: u64,
    pub max_equipment: u64,
    pub dir_lat: Real,
    pub dir_lng: Real,
    pub coast_stuck_ticks: u32,
    pub last_combat_tick: u64,
    pub victory_boost_ticks: u64,
    pub landing_penalty_active: bool,
    pub transport: bool,
    pub at_sea: bool,
    pub armor_supported: bool,
    pub is_alpenjager: bool,
    pub encircled_ticks: u64,
    pub mountain_intensity: Real,
}

impl Keyed for UnitSnapshot {
    open spec fn sort_key(&self) -> int {
        self.id as int
    }

    fn key(&self) -> (key: u64) {
        self.id
    }
}

/// Immutable data that may safely outlive further simulation ticks.
#[derive(Debug)]
pub struct FrameSnapshot {
    pub schema_version: &'static str,
    pub tick: u64,
    pub frame: u64,
    pub units: Vec<UnitSnapshot>,
    pub events: Vec<CombatEvent>,
    pub removed_ids: Vec<u64>,
    pub abandoned_ids: Vec<u64>,
}

impl FrameSnapshot {
    /// Both snapshots show the same.
    pub open spec fn shows(self, other: FrameSnapshot) -> bool {
        &&& self.schema_version@ == other.schema_version@
        &&& self.tick == other.tick
        &&& self.frame == other.frame
        &&& self.units@ == other.units@
        &&& self.events@ == other.events@
        &&& self.removed_ids@ == other.removed_ids@
        &&& self.abandoned_ids@ == other.abandoned_ids@
    }
}

impl Clone for FrameSnapshot {
    fn clone(&self) -> (copied: Self)
        ensures
            copied.shows(*self),
    {
        FrameSnapshot {
            schema_version: self.schema_version,
            tick: self.tick,
            frame: self.frame,
            units: copy_all(&self.units),
            events: copy_all(&self.events),
            removed_ids: copy_all(&self.removed_ids),
            abandoned_ids: copy_all(&self.abandoned_ids),
        }
    }
}

#[derive(Clone, Copy, Debug, PartialEq, Eq, Structural)]
pub struct TickCounters {
    pub input_units: usize,
    pub tactical_cells: usize,
    pub candidate_contacts: usize,
    pub accepted_contacts: usize,
    pub proximity_events: usize,
    pub direct_events: usize,
    pub moved_units: usize,
    pub held_units: usize,
    pub removed_units: usize,
    pub abandoned_orders: usize,
}

pub open spec fn zero_tick_counters() -> TickCounters {
    TickCounters {
        input_units: 0,
        tactical_cells: 0,
        candidate_contacts: 0,
        accepted_contacts: 0,
        proximity_events: 0,
        direct_events: 0,
        moved_units: 0,
        held_units: 0,
        removed_units: 0,
        abandoned_orders: 0,
    }
}

impl Default for TickCounters {
    fn default() -> (counters: Self)
        ensures
            counters == zero_tick_counters(),
    {
        TickCounters {
            input_units: 0,
            tactical_cells: 0,
            candidate_contacts: 0,
            accepted_contacts: 0,
            proximity_events: 0,
            direct_events: 0,
            moved_units: 0,
            held_units: 0,
            removed_units: 0,
            abandoned_orders: 0,
        }
    }
}

// ---------------------------------------------------------------------------------------------
// Boundary validation
// ---------------------------------------------------------------------------------------------

/// A strictly positive finite number.
pub open spec fn positive(value: Real) -> bool {
    value.finite() && real_of(0).lt(value)
}

fn is_positive(value: Real) -> (answer: bool)
    ensures
        answer == positive(value),
{
    value.is_finite() && Real::zero().less(value)
}

pub open spec fn config_valid(config: SimulationConfig) -> bool {
    &&& positive(config.tactical_cell_size)
    &&& config.tactical_cell_size.le(real_of(MAX_TACTICAL_CELL_SIZE_BITS))
    &&& config.combat.combat_damage.finite_nonnegative()
    &&& positive(config.combat.proximity_radius)
    &&& positive(config.combat.direct_radius)
    &&& config.combat.target_jitter_scale.finite_nonnegative()
    &&& positive(config.combat.unit_speed)
    &&& positive(config.combat.unit_naval_speed)
}

pub fn validate_config(config: SimulationConfig) -> (outcome: Result<(), SimulationError>)
    ensures
        outcome is Ok <==> config_valid(config),
        outcome matches Err(error) ==> error == SimulationError::InvalidConfig,
{
    let combat = config.combat;
    if is_positive(config.tactical_cell_size) && config.tactical_cell_size.at_most(
        Real::from_bits(MAX_TACTICAL_CELL_SIZE_BITS),
    ) && combat.combat_damage.is_finite_nonnegative() && is_positive(combat.proximity_radius)
        && is_positive(combat.direct_radius) && combat.target_jitter_scale.is_finite_nonnegative()
        && is_positive(combat.unit_speed) && is_positive(combat.unit_naval_speed) {
        Ok(())
    } else {
        Err(SimulationError::InvalidConfig)
    }
}

/// At least one side, no more than side keys can name, and a complete square of relations.
pub open spec fn hostility_valid(hostility: HostilityMatrix<'_>) -> bool {
    &&& 0 < hostility.max_sides <= 65_536
    &&& hostility.max_sides * hostility.max_sides <= usize::MAX
    &&& hostility.well_formed()
}

pub fn validate_hostility(hostility: HostilityMatrix<'_>) -> (outcome: Result<(), SimulationError>)
    ensures
        outcome is Ok <==> hostility_valid(hostility),
        outcome matches Err(error) ==> error == SimulationError::InvalidHostility,
{
    let expected: usize = match hostility.max_sides.checked_mul(hostility.max_sides) {
        Some(expected) => expected,
        None => {
            return Err(SimulationError::InvalidHostility);
        },
    };
    if hostility.max_sides == 0 || hostility.max_sides > 65_536 {
        return Err(SimulationError::InvalidHostility);
    }
    if let Some(relations) = hostility.relations {
        if relations.len() != expected {
            return Err(SimulationError::InvalidHostility);
        }
    }
    Ok(())
}

/// How far an order moves its unit.
pub open spec fn reach_of(results: Map<Operation, u64>, order: ResolvedUnitOrder) -> OrderReach {
    let factors = order.factors;
    let fast = product(results, factors.base_speed, factors.speed_mult);
    let planned = product(results, fast, factors.plan_speed_mult);
    let allowed = product(results, planned, factors.neutral_penalty);
    let fleeing = product(results, allowed, factors.retreat_boost);
    let ready = product(results, fleeing, factors.push_readiness);
    let move_distance = product(results, ready, real_of(N_0_8));
    OrderReach {
        move_distance,
        lat_step: product(results, order.dir_lat, move_distance),
        lng_step: product(results, order.dir_lng, move_distance),
    }
}

/// Whether a worksheet holds all that the reach of an order takes.
pub open spec fn reach_supplied(
    results: Map<Operation, u64>,
    order: ResolvedUnitOrder,
) -> bool {
    let factors = order.factors;
    let fast = product(results, factors.base_speed, factors.speed_mult);
    let planned = product(results, fast, factors.plan_speed_mult);
    let allowed = product(results, planned, factors.neutral_penalty);
    let fleeing = product(results, allowed, factors.retreat_boost);
    let ready = product(results, fleeing, factors.push_readiness);
    let move_distance = product(results, ready, real_of(N_0_8));
    &&& results.contains_key(Operation::Product(factors.base_speed, factors.speed_mult))
    &&& results.contains_key(Operation::Product(fast, factors.plan_speed_mult))
    &&& results.contains_key(Operation::Product(planned, factors.neutral_penalty))
    &&& results.contains_key(Operation::Product(allowed, factors.retreat_boost))
    &&& results.contains_key(Operation::Product(fleeing, factors.push_readiness))
    &&& results.contains_key(Operation::Product(ready, real_of(N_0_8)))
    &&& results.contains_key(Operation::Product(order.dir_lat, move_distance))
    &&& results.contains_key(Operation::Product(order.dir_lng, move_distance))
}

/// How far every order moves its unit.
pub fn order_reaches(orders: &[ResolvedUnitOrder], sheet: &Worksheet) -> (outcome: Result<
    Vec<OrderReach>,
    Vec<Operation>,
>)
    ensures
        match outcome {
            Ok(reaches) => reaches@.len() == orders@.len() && forall|i: int|
                0 <= i < orders@.len() ==> #[trigger] reaches@[i] == reach_of(sheet@, orders@[i]),
            Err(missing) => {
            &&& missing@.len() > 0
            &&& all_missing(missing@, sheet@)
            &&& !(forall|i: int|
                    0 <= i < orders@.len() ==> reach_supplied(sheet@, #[trigger] orders@[i]))
        },
        },
{
    let mut reader = sheet.reader();
    let mut reaches: Vec<OrderReach> = Vec::new();
    let mut at: usize = 0;
    while at < orders.len()
        invariant
            at <= orders@.len(),
            reader@ == sheet@,
            reader.sound(),
            reaches@.len() == at,
            reader.complete() ==> forall|i: int|
                0 <= i < at ==> #[trigger] reaches@[i] == reach_of(sheet@, orders@[i]),
            (forall|i: int| 0 <= i < orders@.len() ==> reach_supplied(sheet@, #[trigger] orders@[i]))
                ==> reader.complete(),
        decreases orders@.len() - at,
    {
        let order = orders[at];
        let factors = order.factors;
        let fast = reader.product(factors.base_speed, factors.speed_mult);
        let planned = reader.product(fast, factors.plan_speed_mult);
        let allowed = reader.product(planned, factors.neutral_penalty);
        let fleeing = reader.product(allowed, factors.retreat_boost);
        let ready = reader.product(fleeing, factors.push_readiness);
        let move_distance = reader.product(ready, Real::from_bits(N_0_8));
        let lat_step = reader.product(order.dir_lat, move_distance);
        let lng_step = reader.product(order.dir_lng, move_distance);
        reaches.push(OrderReach { move_distance, lat_step, lng_step });
        at = at + 1;
    }
    if !reader.is_complete() {
        return Err(reader.into_missing());
    }
    Ok(reaches)
}

/// What is wrong with an order, if anything. An order that moves must also cover a finite
/// distance.
pub open spec fn order_fault(order: ResolvedUnitOrder, reach: OrderReach) -> Option<
    SimulationError,
> {
    if order.dir_lat.finite() && order.dir_lng.finite() && order.factors.base_speed.finite()
        && order.factors.speed_mult.finite() && order.factors.plan_speed_mult.finite()
        && order.factors.neutral_penalty.finite() && order.factors.retreat_boost.finite()
        && order.factors.push_readiness.finite() && order.combat.dealt_multiplier.finite()
        && order.combat.taken_multiplier.finite() && order.combat.defense_bonus.finite()
        && order.combat.long_war_defense.finite() && (order.movement_enabled ==> (
    reach.move_distance.finite() && reach.lat_step.finite() && reach.lng_step.finite())) {
        None
    } else {
        Some(SimulationError::NonFiniteInput)
    }
}

pub fn validate_order(order: ResolvedUnitOrder, reach: OrderReach) -> (outcome: Result<
    (),
    SimulationError,
>)
    ensures
        outcome matches Ok(_) ==> order_fault(order, reach) is None,
        outcome matches Err(error) ==> order_fault(order, reach) == Some(error),
{
    if !(order.dir_lat.is_finite() && order.dir_lng.is_finite()
        && order.factors.base_speed.is_finite() && order.factors.speed_mult.is_finite()
        && order.factors.plan_speed_mult.is_finite() && order.factors.neutral_penalty.is_finite()
        && order.factors.retreat_boost.is_finite() && order.factors.push_readiness.is_finite()
        && order.combat.dealt_multiplier.is_finite() && order.combat.taken_multiplier.is_finite()
        && order.combat.defense_bonus.is_finite() && order.combat.long_war_defense.is_finite()) {
        return Err(SimulationError::NonFiniteInput);
    }
    if order.movement_enabled && !(reach.move_distance.is_finite() && reach.lat_step.is_finite()
        && reach.lng_step.is_finite()) {
        return Err(SimulationError::NonFiniteInput);
    }
    Ok(())
}

/// What is wrong with a unit, if anything: its side first, then its numbers.
pub open spec fn unit_fault(unit: SimulationUnit, max_sides: Option<usize>) -> Option<
    SimulationError,
> {
    let combat = unit.combat;
    if combat.side > SideKey::MAX || (max_sides matches Some(count) && combat.side >= count) {
        Some(SimulationError::InvalidSide(combat.side))
    } else if combat.lat.finite() && combat.lng.finite() && combat.health.finite() && positive(
        combat.max_health,
    ) && combat.quality.finite() && unit.dir_lat.finite() && unit.dir_lng.finite()
        && unit.ally_weight.finite_nonnegative() {
        None
    } else {
        Some(SimulationError::NonFiniteInput)
    }
}

/// Every unit passes.
pub open spec fn units_valid(units: Seq<SimulationUnit>, max_sides: Option<usize>) -> bool {
    forall|i: int| 0 <= i < units.len() ==> unit_fault(#[trigger] units[i], max_sides) is None
}

/// `error` is what the first faulty unit in storage order fails with.
pub open spec fn first_unit_fault(
    units: Seq<SimulationUnit>,
    max_sides: Option<usize>,
    error: SimulationError,
) -> bool {
    exists|i: int|
        0 <= i < units.len() && unit_fault(#[trigger] units[i], max_sides) == Some(error)
            && units_valid(units.take(i), max_sides)
}

fn unit_is_numeric(unit: &SimulationUnit) -> (answer: bool)
    ensures
        answer == (unit.combat.lat.finite() && unit.combat.lng.finite()
            && unit.combat.health.finite() && positive(unit.combat.max_health)
            && unit.combat.quality.finite() && unit.dir_lat.finite() && unit.dir_lng.finite()
            && unit.ally_weight.finite_nonnegative()),
{
    unit.combat.lat.is_finite() && unit.combat.lng.is_finite() && unit.combat.health.is_finite()
        && is_positive(unit.combat.max_health) && unit.combat.quality.is_finite()
        && unit.dir_lat.is_finite() && unit.dir_lng.is_finite()
        && unit.ally_weight.is_finite_nonnegative()
}

pub fn validate_units(units: &[SimulationUnit], max_sides: Option<usize>) -> (outcome: Result<
    (),
    SimulationError,
>)
    ensures
        outcome is Ok <==> units_valid(units@, max_sides),
        outcome matches Err(error) ==> first_unit_fault(units@, max_sides, error),
{
    let mut index: usize = 0;
    while index < units.len()
        invariant
            index <= units@.len(),
            units_valid(units@.take(index as int), max_sides),
        decreases units@.len() - index,
    {
        let unit = &units[index];
        let side: u64 = unit.combat.side;
        let mut outside: bool = side > SideKey::MAX as u64;
        if let Some(count) = max_sides {
            if !outside && side as usize >= count {
                outside = true;
            }
        }
        if outside {
            assert(unit_fault(units@[index as int], max_sides) == Some(
                SimulationError::InvalidSide(side),
            ));
            return Err(SimulationError::InvalidSide(side));
        }
        if !unit_is_numeric(unit) {
            assert(unit_fault(units@[index as int], max_sides) == Some(
                SimulationError::NonFiniteInput,
            ));
            return Err(SimulationError::NonFiniteInput);
        }
        assert(unit_fault(units@[index as int], max_sides) is None);
        index = index + 1;
        assert(units@.take(index as int) =~= units@.take(index - 1).push(units@[index - 1]));
    }
    assert(units@.take(units@.len() as int) =~= units@);
    Ok(())
}

/// Where each unit stands in storage.
pub open spec fn indexes(map: Map<u64, usize>, units: Seq<SimulationUnit>) -> bool {
    &&& forall|i: int|
        0 <= i < units.len() ==> map.contains_key((#[trigger] units[i]).combat.id)
            && map[units[i].combat.id] == i
    &&& forall|id: u64| #[trigger]
        map.contains_key(id) ==> map[id] < units.len() && units[map[id] as int].combat.id == id
}

/// Index units by id. Fails on the first unit, in storage order, whose id an earlier one has.
pub fn rebuild_unit_index(units: &[SimulationUnit]) -> (outcome: Result<
    BTreeMap<u64, usize>,
    SimulationError,
>)
    ensures
        outcome is Ok <==> distinct_keys(units@),
        outcome matches Ok(map) ==> indexes(map@, units@),
        outcome matches Err(error) ==> exists|i: int, j: int|
            #![trigger units@[i], units@[j]]
            0 <= i < j < units@.len() && units@[i].combat.id == units@[j].combat.id && error
                == SimulationError::DuplicateUnit(units@[j].combat.id) && distinct_keys(
                units@.take(j),
            ),
{
    broadcast use vstd::std_specs::btree::group_btree_axioms;

    let mut map: BTreeMap<u64, usize> = BTreeMap::new();
    let mut index: usize = 0;
    while index < units.len()
        invariant
            index <= units@.len(),
            indexes(map@, units@.take(index as int)),
            distinct_keys(units@.take(index as int)),
        decreases units@.len() - index,
    {
        broadcast use vstd::std_specs::btree::group_btree_axioms;

        let id: u64 = units[index].combat.id;
        let ghost before = map@;
        let ghost seen = units@.take(index as int);
        if map.contains_key(&id) {
            proof {
                let earlier = before[id] as int;
                assert(seen[earlier].combat.id == id);
                assert(units@[earlier].combat.id == units@[index as int].combat.id);
            }
            return Err(SimulationError::DuplicateUnit(id));
        }
        map.insert(id, index);
        index = index + 1;
        proof {
            let now = units@.take(index as int);
            assert(now =~= seen.push(units@[index - 1]));
            assert forall|i: int| 0 <= i < now.len() implies map@.contains_key(
                (#[trigger] now[i]).combat.id,
            ) && map@[now[i].combat.id] == i by {
                if i < seen.len() {
                    assert(now[i] == seen[i]);
                    assert(before.contains_key(seen[i].combat.id));
                }
            }
            assert forall|i: int, j: int| #![trigger now[i], now[j]] 0 <= i < j
                < now.len() implies now[i].sort_key() != now[j].sort_key() by {
                if j < seen.len() {
                    assert(seen[i] == now[i] && seen[j] == now[j]);
                } else {
                    assert(before.contains_key(seen[i].combat.id));
                }
            }
        }
    }
    assert(units@.take(units@.len() as int) =~= units@);
    Ok(map)
}

/// The order that a list holds for a unit: the first one that names it.
pub open spec fn order_for(orders: Seq<ResolvedUnitOrder>, id: u64) -> Option<ResolvedUnitOrder>
    decreases orders.len(),
{
    if orders.len() == 0 {
        None
    } else {
        match order_for(orders.drop_last(), id) {
            Some(order) => Some(order),
            None => if orders.last().unit_id == id {
                Some(orders.last())
            } else {
                None
            },
        }
    }
}

/// What the order at `position` fails with: its own numbers, or an earlier order for the same
/// stored unit. Orders for units that no longer exist are stale and never clash.
pub open spec fn order_fault_at(
    units: Seq<SimulationUnit>,
    orders: Seq<ResolvedUnitOrder>,
    reaches: Seq<OrderReach>,
    position: int,
) -> Option<SimulationError> {
    match order_fault(orders[position], reaches[position]) {
        Some(error) => Some(error),
        None => if (exists|i: int|
            0 <= i < units.len() && (#[trigger] units[i]).combat.id == orders[position].unit_id)
            && order_for(orders.take(position), orders[position].unit_id) is Some {
            Some(SimulationError::DuplicateOrder(orders[position].unit_id))
        } else {
            None
        },
    }
}

pub open spec fn orders_valid(
    units: Seq<SimulationUnit>,
    orders: Seq<ResolvedUnitOrder>,
    reaches: Seq<OrderReach>,
    count: int,
) -> bool {
    forall|k: int|
        #![trigger orders[k]]
        0 <= k < count ==> order_fault_at(units, orders, reaches, k) is None
}

/// Attach orders to stored units. Fails on the first faulty order.
pub fn prepare_orders(
    units: &[SimulationUnit],
    index: &BTreeMap<u64, usize>,
    orders: &[ResolvedUnitOrder],
    reaches: &[OrderReach],
) -> (outcome: Result<Vec<Option<ResolvedUnitOrder>>, SimulationError>)
    requires
        indexes(index@, units@),
        reaches@.len() == orders@.len(),
    ensures
        outcome is Ok <==> orders_valid(units@, orders@, reaches@, orders@.len() as int),
        outcome matches Ok(attached) ==> attached@.len() == units@.len() && forall|i: int|
            #![trigger attached@[i]]
            0 <= i < units@.len() ==> attached@[i] == order_for(orders@, units@[i].combat.id),
        outcome matches Err(error) ==> exists|k: int|
            #![trigger orders@[k]]
            0 <= k < orders@.len() && order_fault_at(units@, orders@, reaches@, k) == Some(error)
                && orders_valid(units@, orders@, reaches@, k),
{
    broadcast use vstd::std_specs::btree::group_btree_axioms;

    let mut attached: Vec<Option<ResolvedUnitOrder>> = Vec::new();
    let mut filled: usize = 0;
    while filled < units.len()
        invariant
            filled <= units@.len(),
            attached@.len() == filled,
            forall|i: int| 0 <= i < filled ==> (#[trigger] attached@[i]) is None,
        decreases units@.len() - filled,
    {
        attached.push(None);
        filled = filled + 1;
    }
    let mut position: usize = 0;
    while position < orders.len()
        invariant
            position <= orders@.len(),
            reaches@.len() == orders@.len(),
            indexes(index@, units@),
            attached@.len() == units@.len(),
            forall|i: int|
                #![trigger attached@[i]]
                0 <= i < units@.len() ==> attached@[i] == order_for(
                    orders@.take(position as int),
                    units@[i].combat.id,
                ),
            orders_valid(units@, orders@, reaches@, position as int),
        decreases orders@.len() - position,
    {
        broadcast use vstd::std_specs::btree::group_btree_axioms;

        let order = orders[position];
        let ghost seen = orders@.take(position as int);
        match validate_order(order, reaches[position]) {
            Err(error) => {
                assert(order_fault_at(units@, orders@, reaches@, position as int) == Some(error));
                assert(orders@[position as int] == order);
                return Err(error);
            },
            Ok(()) => {},
        }
        proof {
            assert(orders@.take(position + 1) =~= seen.push(order));
            assert(seen.push(order).drop_last() =~= seen);
        }
        match index.get(&order.unit_id) {
            Some(slot) => {
                let at: usize = *slot;
                assert(units@[at as int].combat.id == order.unit_id);
                if attached[at].is_some() {
                    assert(order_fault_at(units@, orders@, reaches@, position as int) == Some(
                        SimulationError::DuplicateOrder(order.unit_id),
                    ));
                    assert(orders@[position as int] == order);
                    return Err(SimulationError::DuplicateOrder(order.unit_id));
                }
                let ghost before = attached@;
                attached.set(at, Some(order));
                proof {
                    assert forall|i: int| #![trigger attached@[i]] 0 <= i
                        < units@.len() implies attached@[i] == order_for(
                        seen.push(order),
                        units@[i].combat.id,
                    ) by {
                        if i != at {
                            assert(attached@[i] == before[i]);
                            if units@[i].combat.id == order.unit_id {
                                assert(index@[units@[i].combat.id] == i);
                            }
                        } else {
                            assert(before[i] is None);
                        }
                    }
                }
            },
            None => {
                proof {
                    assert forall|i: int| #![trigger attached@[i]] 0 <= i
                        < units@.len() implies attached@[i] == order_for(
                        seen.push(order),
                        units@[i].combat.id,
                    ) by {
                        assert(index@.contains_key(units@[i].combat.id));
                    }
                }
            },
        }
        assert(order_fault_at(units@, orders@, reaches@, position as int) is None) by {
            if exists|i: int|
                0 <= i < units@.len() && (#[trigger] units@[i]).combat.id == order.unit_id {
                let i = choose|i: int|
                    0 <= i < units@.len() && (#[trigger] units@[i]).combat.id == order.unit_id;
                assert(index@.contains_key(units@[i].combat.id));
            }
        }
        position = position + 1;
    }
    assert(orders@.take(orders@.len() as int) =~= orders@);
    Ok(attached)
}

// ---------------------------------------------------------------------------------------------
// Eligibility
// ---------------------------------------------------------------------------------------------

/// Alive and, for an army, manned.
pub open spec fn eligible(unit: CombatUnit) -> bool {
    real_of(0).lt(unit.health) && (unit.kind == UnitKind::Armor || unit.personnel > 0)
}

pub fn eligible_for_tactical_snapshot(unit: &CombatUnit) -> (answer: bool)
    ensures
        answer == eligible(*unit),
{
    Real::zero().less(unit.health) && (unit.kind == UnitKind::Armor || unit.personnel > 0)
}

pub fn eligible_at_loop_start(unit: &CombatUnit) -> (answer: bool)
    ensures
        answer == eligible(*unit),
{
    Real::zero().less(unit.health) && (unit.kind == UnitKind::Armor || unit.personnel > 0)
}

/// Dead, or without the men or vehicles that its kind fights with.
pub open spec fn is_defeated(unit: CombatUnit) -> bool {
    ||| unit.health.le(real_of(0))
    ||| unit.kind == UnitKind::Army && unit.personnel == 0
    ||| unit.kind == UnitKind::Armor && unit.equipment == 0
}

pub fn defeated(unit: &CombatUnit) -> (answer: bool)
    ensures
        answer == is_defeated(*unit),
{
    unit.health.at_most(Real::zero()) || (unit.kind == UnitKind::Army && unit.personnel == 0) || (
    unit.kind == UnitKind::Armor && unit.equipment == 0)
}

// ---------------------------------------------------------------------------------------------
// The tick protocol
// ---------------------------------------------------------------------------------------------

/// A formation as the contact index sees it for the whole tick. Formations that cannot fight
/// have no side.
#[derive(Clone, Copy, Debug, PartialEq, Eq, Structural)]
pub struct TacticalUnit {
    pub id: u64,
    pub side: Option<SideKey>,
    pub lat: Real,
    pub lng: Real,
    pub ally_weight: Real,
    pub is_armor: bool,
    pub is_support: bool,
}

pub open spec fn tactical_view(unit: SimulationUnit) -> TacticalUnit {
    TacticalUnit {
        id: unit.combat.id,
        side: if eligible(unit.combat) {
            Some(unit.combat.side as SideKey)
        } else {
            None
        },
        lat: unit.combat.lat,
        lng: unit.combat.lng,
        ally_weight: unit.ally_weight,
        is_armor: unit.combat.kind == UnitKind::Armor,
        is_support: unit.is_support,
    }
}

/// A formation in the cells around an attacker, and whether its start-of-tick position lies
/// within the proximity radius of the attacker's live position.
#[derive(Clone, Copy, Debug, PartialEq, Eq, Structural)]
pub struct NearUnit {
    pub index: usize,
    pub within: bool,
}

#[derive(Clone, Copy, Debug, PartialEq, Eq, Structural)]
pub enum TickStage {
    /// The contact index has not been built yet.
    Indexing,
    /// Units at `below` and above are done.
    Scanning { below: usize },
    /// Contacts of `attacker` before `position` are done.
    Contacting { attacker: usize, position: usize },
    /// The direct engagement of `attacker` came to nothing.
    Fought { attacker: usize },
}

/// The kernel call that is due.
#[derive(Clone, Copy, Debug, PartialEq, Eq, Structural)]
pub enum TickAction {
    IndexContacts,
    FindContacts { attacker: usize },
    Proximity { attacker: usize, target: usize },
    Direct { attacker: usize, target: usize },
    Move { attacker: usize },
    Hold { attacker: usize },
    Finish,
}

/// Numbers and flags that one exchange is fought under.
#[derive(Clone, Copy, Debug, PartialEq, Eq, Structural)]
pub struct CombatContext {
    pub sim_tick: u64,
    pub frame: u64,
    pub war_grace_end: u64,
    pub attacker_damage_dealt_multiplier: Real,
    pub attacker_damage_taken_multiplier: Real,
    pub defense_bonus: Real,
    pub long_war_defense: Real,
    pub mountain: bool,
    pub urban: bool,
}

/// Position, headings and stuck counter after one movement step.
#[derive(Clone, Copy, Debug, PartialEq, Eq, Structural)]
pub struct MovementOutput {
    pub lat: Real,
    pub lng: Real,
    pub coast_stuck_ticks: u32,
    pub applied_dir_lat: Real,
    pub applied_dir_lng: Real,
    pub abandon_target: bool,
}

/// One tick in progress.
pub struct Tick<'a> {
    pub tick: u64,
    pub frame: u64,
    pub war_grace_end: u64,
    pub hostility: HostilityMatrix<'a>,
    pub tactical: Vec<TacticalUnit>,
    pub orders: Vec<Option<ResolvedUnitOrder>>,
    pub stage: TickStage,
    pub accepted: Vec<usize>,
    pub selected: Option<usize>,
    pub events: Vec<CombatEvent>,
    pub abandoned: Vec<u64>,
    pub counters: TickCounters,
}

/// The last unit before `below` that can act.
pub open spec fn last_eligible(units: Seq<SimulationUnit>, below: int) -> Option<int>
    decreases below,
{
    if below <= 0 {
        None
    } else if eligible(units[below - 1].combat) {
        Some(below - 1)
    } else {
        last_eligible(units, below - 1)
    }
}

/// The first position at or behind `position` whose contact has not died yet.
pub open spec fn next_contact(
    units: Seq<SimulationUnit>,
    accepted: Seq<usize>,
    position: int,
) -> Option<int>
    decreases accepted.len() - position,
{
    if position < 0 || position >= accepted.len() {
        None
    } else if units[accepted[position] as int].combat.health.le(real_of(0)) {
        next_contact(units, accepted, position + 1)
    } else {
        Some(position)
    }
}

/// The first accepted contact with a given id.
pub open spec fn accepted_with_id(
    units: Seq<SimulationUnit>,
    accepted: Seq<usize>,
    id: u64,
    position: int,
) -> Option<usize>
    decreases accepted.len() - position,
{
    if position < 0 || position >= accepted.len() {
        None
    } else if units[accepted[position] as int].combat.id == id {
        Some(accepted[position])
    } else {
        accepted_with_id(units, accepted, id, position + 1)
    }
}

/// A preferred accepted target wins; otherwise the first contact in stable id order.
pub open spec fn selected_target(
    units: Seq<SimulationUnit>,
    accepted: Seq<usize>,
    preferred: Option<u64>,
) -> Option<usize> {
    let wished = match preferred {
        Some(id) => accepted_with_id(units, accepted, id, 0),
        None => None,
    };
    if wished is Some {
        wished
    } else if accepted.len() > 0 {
        Some(accepted[0])
    } else {
        None
    }
}

/// Whether a nearby formation counts as a candidate of `attacker`: its start-of-tick side is
/// hostile.
pub open spec fn candidate(
    tactical: Seq<TacticalUnit>,
    hostility: HostilityMatrix<'_>,
    attacker_side: u64,
    near: NearUnit,
) -> bool {
    tactical[near.index as int].side matches Some(side) && hostile(
        hostility,
        attacker_side as int,
        side as int,
    )
}

/// What is left of a unit's health.
pub open spec fn health_share(results: Map<Operation, u64>, unit: CombatUnit) -> Real {
    number_at(
        results,
        Operation::Single(
            quotient(results, unit.health, unit.max_health).clamp_of(
                real_of(0),
                real_of(ONE_BITS),
            ),
        ),
    )
}

pub open spec fn snapshot_of(
    results: Map<Operation, u64>,
    unit: SimulationUnit,
    tick: u64,
) -> UnitSnapshot {
    UnitSnapshot {
        id: unit.combat.id,
        side: unit.combat.side as SideKey,
        sovereign: unit.combat.sovereign,
        kind: unit.combat.kind,
        lat: unit.combat.lat,
        lng: unit.combat.lng,
        health: unit.combat.health,
        max_health: unit.combat.max_health,
        health_fraction: health_share(results, unit.combat),
        personnel: unit.combat.personnel,
        personnel_capacity: unit.combat.personnel_capacity,
        equipment: unit.combat.equipment,
        max_equipment: unit.combat.max_equipment,
        dir_lat: unit.dir_lat,
        dir_lng: unit.dir_lng,
        coast_stuck_ticks: unit.coast_stuck_ticks,
        last_combat_tick: unit.combat.last_combat_tick,
        victory_boost_ticks: unit.combat.victory_boost_ticks,
        landing_penalty_active: unit.armor_landing_penalty_until_tick > tick,
        transport: unit.combat.transport,
        at_sea: unit.combat.at_sea,
        armor_supported: unit.combat.armor_supported,
        is_alpenjager: false,
        encircled_ticks: 0,
        mountain_intensity: real_of(0),
    }
}

/// The snapshots of all units.
pub open spec fn snapshots_of(
    results: Map<Operation, u64>,
    units: Seq<SimulationUnit>,
    tick: u64,
) -> Seq<UnitSnapshot> {
    units.map_values(|unit: SimulationUnit| snapshot_of(results, unit, tick))
}

/// A unit with its landing penalty brought up to date.
pub open spec fn with_landing_flag(unit: SimulationUnit, tick: u64) -> SimulationUnit {
    SimulationUnit {
        combat: CombatUnit {
            landing_penalty_active: unit.armor_landing_penalty_until_tick > tick,
            ..unit.combat
        },
        ..unit
    }
}

/// A unit after combat. Its identity is not the kernel's to change.
pub open spec fn with_combat(unit: SimulationUnit, combat: CombatUnit) -> SimulationUnit {
    SimulationUnit { combat: CombatUnit { id: unit.combat.id, ..combat }, ..unit }
}

pub open spec fn with_movement(unit: SimulationUnit, output: MovementOutput) -> SimulationUnit {
    SimulationUnit {
        combat: CombatUnit { lat: output.lat, lng: output.lng, ..unit.combat },
        dir_lat: output.applied_dir_lat,
        dir_lng: output.applied_dir_lng,
        coast_stuck_ticks: output.coast_stuck_ticks,
        ..unit
    }
}

impl<'a> Tick<'a> {
    /// Units that have not been finished: all below the scan, and the attacker at work.
    pub open spec fn open_units(self) -> int {
        match self.stage {
            TickStage::Indexing => self.orders@.len() as int,
            TickStage::Scanning { below } => below as int,
            TickStage::Contacting { attacker, position: _ } => attacker + 1,
            TickStage::Fought { attacker } => attacker + 1,
        }
    }

    /// Units whose contacts have not been counted.
    pub open spec fn uncounted_units(self) -> int {
        match self.stage {
            TickStage::Indexing => self.orders@.len() as int,
            TickStage::Scanning { below } => below as int,
            TickStage::Contacting { attacker, position: _ } => attacker as int,
            TickStage::Fought { attacker } => attacker as int,
        }
    }

    /// Contacts of the current attacker that are still to be fought.
    pub open spec fn open_contacts(self) -> int {
        match self.stage {
            TickStage::Contacting { attacker: _, position } => self.accepted@.len() - position,
            _ => 0,
        }
    }

    pub open spec fn well_formed(self, units: Seq<SimulationUnit>) -> bool {
        let count = units.len();
        &&& self.hostility.well_formed()
        &&& self.tactical@.len() == count
        &&& self.orders@.len() == count
        &&& self.counters.input_units == count
        &&& forall|i: int|
            0 <= i < count ==> (#[trigger] self.tactical@[i]).id == units[i].combat.id
        &&& distinct_keys(units)
        &&& count * count <= usize::MAX
        &&& 0 <= self.uncounted_units() <= self.open_units() <= count
        &&& 0 <= self.open_contacts()
        &&& forall|k: int|
            0 <= k < self.accepted@.len() ==> (#[trigger] self.accepted@[k]) < count
        &&& (self.selected matches Some(target) ==> target < count)
        &&& self.counters.candidate_contacts + self.uncounted_units() * count <= count * count
        &&& self.counters.accepted_contacts <= self.counters.candidate_contacts
        &&& self.counters.proximity_events + self.open_contacts() <= self.counters.accepted_contacts
        &&& self.counters.direct_events + self.open_units() <= count
        &&& self.counters.moved_units + self.counters.held_units + self.open_units() <= count
        &&& self.counters.abandoned_orders <= self.counters.moved_units
    }

    /// The order that a unit acts under: its own, or holding.
    pub open spec fn order_of(self, units: Seq<SimulationUnit>, attacker: int) -> ResolvedUnitOrder {
        match self.orders@[attacker] {
            Some(order) => order,
            None => hold_order(units[attacker].combat.id),
        }
    }

    pub open spec fn move_or_hold(self, units: Seq<SimulationUnit>, attacker: usize) -> TickAction {
        if self.order_of(units, attacker as int).movement_enabled {
            TickAction::Move { attacker }
        } else {
            TickAction::Hold { attacker }
        }
    }

    /// The kernel call that is due: contacts of the next eligible unit in reverse storage order,
    /// then every surviving contact, then the selected target, then movement.
    pub open spec fn due(self, units: Seq<SimulationUnit>) -> TickAction {
        match self.stage {
            TickStage::Indexing => TickAction::IndexContacts,
            TickStage::Scanning { below } => match last_eligible(units, below as int) {
                Some(attacker) => TickAction::FindContacts { attacker: attacker as usize },
                None => TickAction::Finish,
            },
            TickStage::Contacting { attacker, position } => match next_contact(
                units,
                self.accepted@,
                position as int,
            ) {
                Some(next) => TickAction::Proximity { attacker, target: self.accepted@[next] },
                None => match self.selected {
                    Some(target) => if real_of(0).lt(units[target as int].combat.health) {
                        TickAction::Direct { attacker, target }
                    } else {
                        self.move_or_hold(units, attacker)
                    },
                    None => self.move_or_hold(units, attacker),
                },
            },
            TickStage::Fought { attacker } => self.move_or_hold(units, attacker),
        }
    }

    /// Everything but the stage and what contact search fills in is the same.
    pub open spec fn same_frame(self, other: Tick<'a>) -> bool {
        &&& self.tick == other.tick
        &&& self.frame == other.frame
        &&& self.war_grace_end == other.war_grace_end
        &&& self.hostility == other.hostility
        &&& self.tactical@ == other.tactical@
        &&& self.orders@ == other.orders@
    }
}

proof fn lemma_last_eligible(units: Seq<SimulationUnit>, below: int)
    requires
        0 <= below <= units.len(),
    ensures
        last_eligible(units, below) matches Some(found) ==> 0 <= found < below && eligible(
            units[found].combat,
        ) && forall|i: int| found < i < below ==> !eligible((#[trigger] units[i]).combat),
        last_eligible(units, below) is None ==> forall|i: int|
            0 <= i < below ==> !eligible((#[trigger] units[i]).combat),
    decreases below,
{
    if below > 0 && !eligible(units[below - 1].combat) {
        lemma_last_eligible(units, below - 1);
    }
}

proof fn lemma_next_contact(units: Seq<SimulationUnit>, accepted: Seq<usize>, position: int)
    requires
        0 <= position,
    ensures
        next_contact(units, accepted, position) matches Some(found) ==> position <= found
            < accepted.len(),
    decreases accepted.len() - position,
{
    if position < accepted.len() {
        lemma_next_contact(units, accepted, position + 1);
    }
}

proof fn lemma_accepted_with_id(
    units: Seq<SimulationUnit>,
    accepted: Seq<usize>,
    id: u64,
    position: int,
)
    requires
        0 <= position,
    ensures
        accepted_with_id(units, accepted, id, position) matches Some(found) ==> accepted.contains(
            found,
        ),
    decreases accepted.len() - position,
{
    if position < accepted.len() {
        lemma_accepted_with_id(units, accepted, id, position + 1);
        assert(accepted.contains(accepted[position]));
    }
}

/// A contact on its way into stable id order.
#[derive(Clone, Copy, Debug, PartialEq, Eq, Structural)]
pub struct RankedContact {
    pub index: usize,
    pub id: u64,
}

impl Keyed for RankedContact {
    open spec fn sort_key(&self) -> int {
        self.id as int
    }

    fn key(&self) -> (key: u64) {
        self.id
    }
}

/// A validated set of units and what the last tick published about them.
pub struct Simulation {
    pub config: SimulationConfig,
    pub units: Vec<SimulationUnit>,
    pub latest: Option<FrameSnapshot>,
}

/// Whether a worksheet holds all that showing a formation takes.
pub open spec fn showing_supplied(results: Map<Operation, u64>, unit: SimulationUnit) -> bool {
    let share = quotient(results, unit.combat.health, unit.combat.max_health);
    &&& results.contains_key(Operation::Quotient(unit.combat.health, unit.combat.max_health))
    &&& results.contains_key(
        Operation::Single(share.clamp_of(real_of(0), real_of(ONE_BITS))),
    )
}

/// Whether a worksheet holds all that showing some formations takes.
pub open spec fn snapshots_supplied(
    results: Map<Operation, u64>,
    units: Seq<SimulationUnit>,
) -> bool {
    forall|i: int| 0 <= i < units.len() ==> showing_supplied(results, #[trigger] units[i])
}

fn take_snapshots(units: &[SimulationUnit], tick: u64, reader: &mut Reader<'_>) -> (snapshots: Vec<
    UnitSnapshot,
>)
    requires
        old(reader).sound(),
    ensures
        final(reader)@ == old(reader)@,
        final(reader).sound(),
        final(reader).complete() ==> {
            &&& old(reader).complete()
            &&& sorted(snapshots@)
            &&& permutation(snapshots_of(old(reader)@, units@, tick), snapshots@)
            &&& distinct_keys(units@) ==> strictly_sorted(snapshots@)
        },
        old(reader).complete() && snapshots_supplied(old(reader)@, units@) ==>
            final(reader).complete(),
{
    let ghost results = reader@;
    let ghost untouched = reader.complete();
    let mut snapshots: Vec<UnitSnapshot> = Vec::new();
    let mut index: usize = 0;
    assert(snapshots@ =~= snapshots_of(results, units@.take(0), tick));
    while index < units.len()
        invariant
            index <= units@.len(),
            reader@ == results,
            reader.sound(),
            reader.complete() ==> untouched && snapshots@ == snapshots_of(
                results,
                units@.take(index as int),
                tick,
            ),
            untouched && snapshots_supplied(results, units@) ==> reader.complete(),
        decreases units@.len() - index,
    {
        let unit = units[index];
        let share = reader.quotient(unit.combat.health, unit.combat.max_health);
        let bounded = share.clamped(Real::zero(), Real::one());
        let health_fraction = reader.gather_number(Operation::Single(bounded));
        let ghost before = snapshots@;
        snapshots.push(
            UnitSnapshot {
                id: unit.combat.id,
                side: unit.combat.side as SideKey,
                sovereign: unit.combat.sovereign,
                kind: unit.combat.kind,
                lat: unit.combat.lat,
                lng: unit.combat.lng,
                health: unit.combat.health,
                max_health: unit.combat.max_health,
                health_fraction,
                personnel: unit.combat.personnel,
                personnel_capacity: unit.combat.personnel_capacity,
                equipment: unit.combat.equipment,
                max_equipment: unit.combat.max_equipment,
                dir_lat: unit.dir_lat,
                dir_lng: unit.dir_lng,
                coast_stuck_ticks: unit.coast_stuck_ticks,
                last_combat_tick: unit.combat.last_combat_tick,
                victory_boost_ticks: unit.combat.victory_boost_ticks,
                landing_penalty_active: unit.armor_landing_penalty_until_tick > tick,
                transport: unit.combat.transport,
                at_sea: unit.combat.at_sea,
                armor_supported: unit.combat.armor_supported,
                is_alpenjager: false,
                encircled_ticks: 0,
                mountain_intensity: Real::zero(),
            },
        );
        index = index + 1;
        proof {
            if reader.complete() {
                assert(snapshots@ =~= snapshots_of(results, units@.take(index as int), tick));
            }
        }
    }
    assert(units@.take(units@.len() as int) =~= units@);
    let ghost unsorted = snapshots@;
    let ordered = sort_by_key(snapshots);
    proof {
        if reader.complete() && distinct_keys(units@) {
            assert forall|i: int, j: int| #![trigger unsorted[i], unsorted[j]] 0 <= i < j
                < unsorted.len() implies unsorted[i].sort_key() != unsorted[j].sort_key() by {
                assert(units@[i].sort_key() != units@[j].sort_key());
            }
            lemma_sorted_distinct_is_strict(unsorted, ordered@);
        }
    }
    ordered
}

impl Simulation {
    /// Accept a configuration and units with distinct ids.
    pub fn new(config: SimulationConfig, units: Vec<SimulationUnit>) -> (outcome: Result<
        Simulation,
        SimulationError,
    >)
        ensures
            outcome is Ok <==> config_valid(config) && distinct_keys(units@) && units_valid(
                units@,
                None,
            ),
            outcome matches Ok(simulation) ==> simulation.config == config && simulation.units@
                == units@ && simulation.latest is None,
            outcome matches Err(error) ==> if !config_valid(config) {
                error == SimulationError::InvalidConfig
            } else if !distinct_keys(units@) {
                exists|j: int|
                    0 <= j < units@.len() && error == SimulationError::DuplicateUnit(
                        (#[trigger] units@[j]).combat.id,
                    ) && distinct_keys(units@.take(j)) && !distinct_keys(units@.take(j + 1))
            } else {
                first_unit_fault(units@, None, error)
            },
    {
        match validate_config(config) {
            Err(error) => {
                return Err(error);
            },
            Ok(()) => {},
        }
        match rebuild_unit_index(&units) {
            Err(error) => {
                proof {
                    let (i, j) = choose|i: int, j: int|
                        #![trigger units@[i], units@[j]]
                        0 <= i < j < units@.len() && units@[i].combat.id == units@[j].combat.id
                            && error == SimulationError::DuplicateUnit(units@[j].combat.id)
                            && distinct_keys(units@.take(j));
                    let prefix = units@.take(j + 1);
                    assert(prefix[i] == units@[i] && prefix[j] == units@[j]);
                    assert(prefix[i].sort_key() == prefix[j].sort_key());
                    assert(!distinct_keys(prefix));
                    assert(error == SimulationError::DuplicateUnit(units@[j].combat.id));
                }
                return Err(error);
            },
            Ok(_) => {},
        }
        match validate_units(&units, None) {
            Err(error) => {
                return Err(error);
            },
            Ok(()) => {},
        }
        Ok(Simulation { config, units, latest: None })
    }

    /// Publish current unit state without attributing prior tick artifacts. This is intended for
    /// renderer initialization before the first step.
    pub fn initial_snapshot(&self, tick: u64, frame: u64, sheet: &Worksheet) -> (outcome: Result<
        FrameSnapshot,
        Vec<Operation>,
    >)
        ensures
            match outcome {
                Ok(snapshot) => {
                    &&& snapshot.schema_version@ == NATIVE_TICK_SCHEMA_VERSION@
                    &&& snapshot.tick == tick
                    &&& snapshot.frame == frame
                    &&& sorted(snapshot.units@)
                    &&& permutation(snapshots_of(sheet@, self.units@, tick), snapshot.units@)
                    &&& distinct_keys(self.units@) ==> strictly_sorted(snapshot.units@)
                    &&& snapshot.events@.len() == 0
                    &&& snapshot.removed_ids@.len() == 0
                    &&& snapshot.abandoned_ids@.len() == 0
                },
                Err(missing) => {
                &&& missing@.len() > 0
                &&& all_missing(missing@, sheet@)
                &&& !snapshots_supplied(sheet@, self.units@)
            },
            },
    {
        let mut reader = sheet.reader();
        let units = take_snapshots(&self.units, tick, &mut reader);
        if !reader.is_complete() {
            return Err(reader.into_missing());
        }
        Ok(
            FrameSnapshot {
                schema_version: NATIVE_TICK_SCHEMA_VERSION,
                tick,
                frame,
                units,
                events: Vec::new(),
                removed_ids: Vec::new(),
                abandoned_ids: Vec::new(),
            },
        )
    }

    pub fn config(&self) -> (config: SimulationConfig)
        ensures
            config == self.config,
    {
        self.config
    }

    pub fn latest_snapshot(&self) -> (latest: Option<&FrameSnapshot>)
        ensures
            self.latest matches Some(snapshot) ==> latest == Some(&snapshot),
            self.latest is None ==> latest is None,
    {
        match &self.latest {
            Some(snapshot) => Some(snapshot),
            None => None,
        }
    }

    /// The boundary of a tick: what it fails with before anything is touched, in the order in
    /// which it is found.
    pub open spec fn boundary_fault(self, input: TickInput<'_>, error: SimulationError) -> bool {
        let sides = Some(input.hostility.max_sides);
        match input.world {
            Err(fault) => error == SimulationError::World(fault),
            Ok(_) => if !hostility_valid(input.hostility) {
                error == SimulationError::InvalidHostility
            } else if !distinct_keys(self.units@) {
                exists|j: int|
                    0 <= j < self.units@.len() && error == SimulationError::DuplicateUnit(
                        (#[trigger] self.units@[j]).combat.id,
                    ) && distinct_keys(self.units@.take(j))
            } else if !units_valid(self.units@, sides) {
                first_unit_fault(self.units@, sides, error)
            } else {
                exists|k: int|
                    #![trigger input.orders@[k]]
                    0 <= k < input.orders@.len() && order_fault_at(
                        self.units@,
                        input.orders@,
                        input.reaches@,
                        k,
                    ) == Some(error) && orders_valid(
                        self.units@,
                        input.orders@,
                        input.reaches@,
                        k,
                    )
            },
        }
    }

    pub open spec fn boundary_valid(self, input: TickInput<'_>) -> bool {
        &&& input.world is Ok
        &&& hostility_valid(input.hostility)
        &&& distinct_keys(self.units@)
        &&& units_valid(self.units@, Some(input.hostility.max_sides))
        &&& orders_valid(
            self.units@,
            input.orders@,
            input.reaches@,
            input.orders@.len() as int,
        )
    }

    /// Validate the complete boundary before mutating anything, then open a tick: bring the
    /// landing penalties up to date and freeze the tactical positions.
    pub fn step<'a>(&mut self, input: TickInput<'a>) -> (outcome: Result<Tick<'a>, SimulationError>)
        requires
            input.reaches@.len() == input.orders@.len(),
            old(self).units@.len() * old(self).units@.len() <= usize::MAX,
        ensures
            outcome is Ok <==> old(self).boundary_valid(input),
            outcome matches Err(error) ==> *final(self) == *old(self) && old(self).boundary_fault(
                input,
                error,
            ),
            outcome matches Ok(tick) ==> {
                &&& final(self).config == old(self).config
                &&& final(self).latest == old(self).latest
                &&& final(self).units@ == old(self).units@.map_values(
                    |unit: SimulationUnit| with_landing_flag(unit, input.tick),
                )
                &&& tick.well_formed(final(self).units@)
                &&& tick.stage == TickStage::Indexing
                &&& tick.tick == input.tick
                &&& tick.frame == input.frame
                &&& tick.war_grace_end == input.war_grace_end
                &&& tick.hostility == input.hostility
                &&& tick.tactical@ == final(self).units@.map_values(
                    |unit: SimulationUnit| tactical_view(unit),
                )
                &&& tick.events@.len() == 0
                &&& tick.abandoned@.len() == 0
                &&& tick.counters == (TickCounters {
                    input_units: old(self).units@.len() as usize,
                    ..zero_tick_counters()
                })
                &&& forall|i: int|
                    #![trigger tick.orders@[i]]
                    0 <= i < old(self).units@.len() ==> tick.orders@[i] == order_for(
                        input.orders@,
                        old(self).units@[i].combat.id,
                    )
            },
    {
        match input.world {
            Err(fault) => {
                return Err(SimulationError::World(fault));
            },
            Ok(()) => {},
        }
        match validate_hostility(input.hostility) {
            Err(error) => {
                return Err(error);
            },
            Ok(()) => {},
        }
        let index = match rebuild_unit_index(&self.units) {
            Err(error) => {
                return Err(error);
            },
            Ok(index) => index,
        };
        match validate_units(&self.units, Some(input.hostility.max_sides)) {
            Err(error) => {
                return Err(error);
            },
            Ok(()) => {},
        }
        let orders = match prepare_orders(&self.units, &index, input.orders, input.reaches) {
            Err(error) => {
                return Err(error);
            },
            Ok(orders) => orders,
        };
        let ghost before = self.units@;
        let count: usize = self.units.len();
        let mut tactical: Vec<TacticalUnit> = Vec::new();
        let mut position: usize = 0;
        while position < count
            invariant
                position <= count,
                count == before.len(),
                self.units@.len() == count,
                self.config == old(self).config,
                self.latest == old(self).latest,
                tactical@.len() == position,
                forall|i: int|
                    0 <= i < position ==> (#[trigger] self.units@[i]) == with_landing_flag(
                        before[i],
                        input.tick,
                    ),
                forall|i: int| position <= i < count ==> (#[trigger] self.units@[i]) == before[i],
                forall|i: int|
                    0 <= i < position ==> (#[trigger] tactical@[i]) == tactical_view(self.units@[i]),
            decreases count - position,
        {
            let mut unit = self.units[position];
            unit.combat.landing_penalty_active = unit.armor_landing_penalty_until_tick > input.tick;
            self.units.set(position, unit);
            tactical.push(
                TacticalUnit {
                    id: unit.combat.id,
                    side: if eligible_for_tactical_snapshot(&unit.combat) {
                        Some(unit.combat.side as SideKey)
                    } else {
                        None
                    },
                    lat: unit.combat.lat,
                    lng: unit.combat.lng,
                    ally_weight: unit.ally_weight,
                    is_armor: unit.combat.kind == UnitKind::Armor,
                    is_support: unit.is_support,
                },
            );
            position = position + 1;
        }
        proof {
            assert(self.units@ =~= before.map_values(
                |unit: SimulationUnit| with_landing_flag(unit, input.tick),
            ));
            assert(tactical@ =~= self.units@.map_values(|unit: SimulationUnit| tactical_view(unit)));
        }
        let mut counters = TickCounters::default();
        counters.input_units = count;
        Ok(
            Tick {
                tick: input.tick,
                frame: input.frame,
                war_grace_end: input.war_grace_end,
                hostility: input.hostility,
                tactical,
                orders,
                stage: TickStage::Indexing,
                accepted: Vec::new(),
                selected: None,
                events: Vec::new(),
                abandoned: Vec::new(),
                counters,
            },
        )
    }

    /// The kernel call that is due.
    pub fn next_action(&self, tick: &Tick<'_>) -> (action: TickAction)
        requires
            tick.well_formed(self.units@),
        ensures
            action == tick.due(self.units@),
    {
        match tick.stage {
            TickStage::Indexing => TickAction::IndexContacts,
            TickStage::Scanning { below } => {
                let mut cursor: usize = below;
                while cursor > 0
                    invariant
                        cursor <= below <= self.units@.len(),
                        tick.stage == (TickStage::Scanning { below }),
                        last_eligible(self.units@, below as int) == last_eligible(
                            self.units@,
                            cursor as int,
                        ),
                    decreases cursor,
                {
                    cursor = cursor - 1;
                    if eligible_at_loop_start(&self.units[cursor].combat) {
                        return TickAction::FindContacts { attacker: cursor };
                    }
                }
                TickAction::Finish
            },
            TickStage::Contacting { attacker, position } => {
                match self.find_contact(tick, position) {
                    Some(next) => TickAction::Proximity { attacker, target: tick.accepted[next] },
                    None => match tick.selected {
                        Some(target) => if Real::zero().less(self.units[target].combat.health) {
                            TickAction::Direct { attacker, target }
                        } else {
                            self.move_or_hold(tick, attacker)
                        },
                        None => self.move_or_hold(tick, attacker),
                    },
                }
            },
            TickStage::Fought { attacker } => self.move_or_hold(tick, attacker),
        }
    }

    fn find_contact(&self, tick: &Tick<'_>, position: usize) -> (found: Option<usize>)
        requires
            tick.well_formed(self.units@),
            position <= tick.accepted@.len(),
        ensures
            found is Some <==> next_contact(self.units@, tick.accepted@, position as int) is Some,
            found matches Some(next) ==> next_contact(self.units@, tick.accepted@, position as int)
                == Some(next as int) && position <= next < tick.accepted@.len(),
    {
        let mut cursor: usize = position;
        while cursor < tick.accepted.len()
            invariant
                position <= cursor <= tick.accepted@.len(),
                tick.well_formed(self.units@),
                next_contact(self.units@, tick.accepted@, position as int) == next_contact(
                    self.units@,
                    tick.accepted@,
                    cursor as int,
                ),
            decreases tick.accepted@.len() - cursor,
        {
            let target: usize = tick.accepted[cursor];
            if !self.units[target].combat.health.at_most(Real::zero()) {
                return Some(cursor);
            }
            cursor = cursor + 1;
        }
        None
    }

    fn move_or_hold(&self, tick: &Tick<'_>, attacker: usize) -> (action: TickAction)
        requires
            tick.well_formed(self.units@),
            attacker < self.units@.len(),
        ensures
            action == tick.move_or_hold(self.units@, attacker),
    {
        match &tick.orders[attacker] {
            Some(order) => if order.movement_enabled {
                TickAction::Move { attacker }
            } else {
                TickAction::Hold { attacker }
            },
            None => TickAction::Hold { attacker },
        }
    }

    /// The order that a unit acts under: its own, or holding.
    pub fn order_of(&self, tick: &Tick<'_>, attacker: usize) -> (order: ResolvedUnitOrder)
        requires
            tick.well_formed(self.units@),
            attacker < self.units@.len(),
        ensures
            order == tick.order_of(self.units@, attacker as int),
    {
        match tick.orders[attacker] {
            Some(order) => order,
            None => ResolvedUnitOrder::hold(self.units[attacker].combat.id),
        }
    }
}

/// Nearby formations that become contacts: hostile at the start of the tick and within reach.
pub open spec fn contacts_among(
    near: Seq<NearUnit>,
    tactical: Seq<TacticalUnit>,
    hostility: HostilityMatrix<'_>,
    attacker_side: u64,
) -> Seq<NearUnit> {
    near.filter(|unit: NearUnit| candidate(tactical, hostility, attacker_side, unit) && unit.within)
}

pub open spec fn candidates_among(
    near: Seq<NearUnit>,
    tactical: Seq<TacticalUnit>,
    hostility: HostilityMatrix<'_>,
    attacker_side: u64,
) -> Seq<NearUnit> {
    near.filter(|unit: NearUnit| candidate(tactical, hostility, attacker_side, unit))
}

/// A search result names each stored unit at most once.
pub open spec fn names_units_once(near: Seq<NearUnit>, count: int) -> bool {
    &&& near.len() <= count
    &&& forall|i: int| 0 <= i < near.len() ==> (#[trigger] near[i]).index < count
    &&& forall|i: int, j: int|
        #![trigger near[i], near[j]]
        0 <= i < j < near.len() ==> near[i].index != near[j].index
}

/// `accepted` lists exactly the contacts, each once, in stable id order.
pub open spec fn lists_contacts(
    accepted: Seq<usize>,
    contacts: Seq<NearUnit>,
    units: Seq<SimulationUnit>,
) -> bool {
    &&& accepted.len() == contacts.len()
    &&& accepted.no_duplicates()
    &&& forall|index: usize|
        accepted.contains(index) <==> exists|i: int|
            0 <= i < contacts.len() && (#[trigger] contacts[i]).index == index
    &&& forall|k: int, l: int|
        #![trigger accepted[k], accepted[l]]
        0 <= k < l < accepted.len() ==> units[accepted[k] as int].combat.id
            <= units[accepted[l] as int].combat.id
}

pub open spec fn ranked(contacts: Seq<NearUnit>, units: Seq<SimulationUnit>) -> Seq<RankedContact> {
    contacts.map_values(
        |unit: NearUnit|
            RankedContact { index: unit.index, id: units[unit.index as int].combat.id },
    )
}

/// Filtering keeps entries apart that were apart.
proof fn lemma_filter_names_once(near: Seq<NearUnit>, keep: spec_fn(NearUnit) -> bool, count: int)
    requires
        names_units_once(near, count),
    ensures
        names_units_once(near.filter(keep), count),
    decreases near.len(),
{
    reveal(Seq::filter);
    near.lemma_filter_len(keep);
    if near.len() > 0 {
        let shorter = near.drop_last();
        assert forall|i: int| 0 <= i < shorter.len() implies (#[trigger] shorter[i]).index
            < count by {
            assert(shorter[i] == near[i]);
        }
        assert(names_units_once(shorter, count));
        lemma_filter_names_once(shorter, keep, count);
        let kept = shorter.filter(keep);
        let last = near.last();
        assert(near == shorter.push(last));
        shorter.lemma_filter_push(last, keep);
        assert forall|i: int| 0 <= i < kept.len() implies (#[trigger] kept[i]).index
            != last.index by {
            assert(kept.contains(kept[i]));
            shorter.lemma_filter_contains_rev(keep, kept[i]);
            assert(shorter.contains(kept[i]));
            let at = choose|at: int| 0 <= at < shorter.len() && shorter[at] == kept[i];
            assert(near[at].index != near[near.len() - 1].index);
        }
        assert(near[near.len() - 1].index < count);
    }
}

proof fn lemma_ranked_order_lists_contacts(
    contacts: Seq<NearUnit>,
    units: Seq<SimulationUnit>,
    ordered: Seq<RankedContact>,
    accepted: Seq<usize>,
)
    requires
        names_units_once(contacts, units.len() as int),
        permutation(ranked(contacts, units), ordered),
        sorted(ordered),
        accepted.len() == ordered.len(),
        forall|k: int| 0 <= k < ordered.len() ==> (#[trigger] accepted[k]) == ordered[k].index,
    ensures
        lists_contacts(accepted, contacts, units),
        forall|k: int| 0 <= k < accepted.len() ==> (#[trigger] accepted[k]) < units.len(),
{
    let unordered = ranked(contacts, units);
    lemma_permutation_contains(unordered, ordered);
    assert(unordered.no_duplicates()) by {
        assert forall|i: int, j: int| 0 <= i < unordered.len() && 0 <= j < unordered.len() && i
            != j implies unordered[i] != unordered[j] by {
            if i < j {
                assert(contacts[i].index != contacts[j].index);
            } else {
                assert(contacts[j].index != contacts[i].index);
            }
        }
    }
    unordered.lemma_multiset_has_no_duplicates();
    ordered.lemma_multiset_has_no_duplicates_conv();
    assert forall|k: int| #![trigger ordered[k]] #![trigger accepted[k]] 0 <= k
        < ordered.len() implies exists|i: int|
        0 <= i < contacts.len() && (#[trigger] contacts[i]).index == accepted[k] && ordered[k].id
            == units[contacts[i].index as int].combat.id by {
        assert(ordered.contains(ordered[k]));
        assert(unordered.contains(ordered[k]));
        let i = choose|i: int| 0 <= i < unordered.len() && unordered[i] == ordered[k];
        assert(contacts[i].index == accepted[k]);
    }
    assert forall|index: usize|
        accepted.contains(index) <==> exists|i: int|
            0 <= i < contacts.len() && (#[trigger] contacts[i]).index == index by {
        if accepted.contains(index) {
            let k = choose|k: int| 0 <= k < accepted.len() && accepted[k] == index;
            assert(ordered.contains(ordered[k]));
        }
        if exists|i: int| 0 <= i < contacts.len() && (#[trigger] contacts[i]).index == index {
            let i = choose|i: int| 0 <= i < contacts.len() && (#[trigger] contacts[i]).index == index;
            assert(unordered.contains(unordered[i]));
            assert(ordered.contains(unordered[i]));
            let k = choose|k: int| 0 <= k < ordered.len() && ordered[k] == unordered[i];
            assert(accepted[k] == index);
        }
    }
    assert forall|k: int, l: int| 0 <= k < accepted.len() && 0 <= l < accepted.len() && k
        != l implies accepted[k] != accepted[l] by {
        assert(ordered[k] != ordered[l]);
    }
    assert forall|k: int, l: int| #![trigger accepted[k], accepted[l]] 0 <= k < l
        < accepted.len() implies units[accepted[k] as int].combat.id
        <= units[accepted[l] as int].combat.id by {
        assert(ordered[k].sort_key() <= ordered[l].sort_key());
    }
}

/// Hostility towards a side, for a side number that may exceed the platform's index width.
fn side_hostile(hostility: HostilityMatrix<'_>, side: u64, other: SideKey) -> (answer: bool)
    requires
        hostility.well_formed(),
    ensures
        answer == hostile(hostility, side as int, other as int),
{
    if side > usize::MAX as u64 {
        false
    } else {
        is_hostile(hostility, side as usize, other as usize)
    }
}

/// Whether a unit's start-of-tick position lies within the proximity radius of an attacker.
pub open spec fn within_reach(
    results: Map<Operation, u64>,
    attacker: CombatUnit,
    target: TacticalUnit,
    radius: Real,
) -> bool {
    let lat = difference(results, target.lat, attacker.lat);
    let lng = longitude_delta(results, attacker.lng, target.lng);
    sum(results, product(results, lat, lat), product(results, lng, lng)).lt(
        product(results, radius, radius),
    )
}

/// Whether a worksheet holds all that measuring the way to a formation takes.
pub open spec fn measuring_supplied(
    results: Map<Operation, u64>,
    attacker: CombatUnit,
    target: TacticalUnit,
) -> bool {
    let lat = difference(results, target.lat, attacker.lat);
    let lng = longitude_delta(results, attacker.lng, target.lng);
    let lat_square = product(results, lat, lat);
    let lng_square = product(results, lng, lng);
    &&& results.contains_key(Operation::Difference(target.lat, attacker.lat))
    &&& results.contains_key(Operation::LongitudeDelta(attacker.lng, target.lng))
    &&& results.contains_key(Operation::Product(lat, lat))
    &&& results.contains_key(Operation::Product(lng, lng))
    &&& results.contains_key(Operation::Sum(lat_square, lng_square))
}

/// Whether a worksheet holds all that measuring the ways to formations takes.
pub open spec fn contacts_supplied(
    results: Map<Operation, u64>,
    attacker: CombatUnit,
    tactical: Seq<TacticalUnit>,
    found: Seq<usize>,
    radius: Real,
) -> bool {
    &&& results.contains_key(Operation::Product(radius, radius))
    &&& forall|i: int|
        0 <= i < found.len() ==> measuring_supplied(
            results,
            attacker,
            tactical[(#[trigger] found[i]) as int],
        )
}

impl Simulation {
    /// Measures how near the formations are that the contact index found around an attacker.
    pub fn measure_contacts(
        &self,
        tick: &Tick<'_>,
        attacker: usize,
        found: &[usize],
        sheet: &Worksheet,
    ) -> (outcome: Result<Vec<NearUnit>, Vec<Operation>>)
        requires
            tick.well_formed(self.units@),
            attacker < self.units@.len(),
            forall|i: int| 0 <= i < found@.len() ==> #[trigger] found@[i] < tick.tactical@.len(),
        ensures
            match outcome {
                Ok(near) => near@.len() == found@.len() && forall|i: int|
                    0 <= i < found@.len() ==> #[trigger] near@[i] == (NearUnit {
                        index: found@[i],
                        within: within_reach(
                            sheet@,
                            self.units@[attacker as int].combat,
                            tick.tactical@[found@[i] as int],
                            self.config.combat.proximity_radius,
                        ),
                    }),
                Err(missing) => {
                &&& missing@.len() > 0
                &&& all_missing(missing@, sheet@)
                &&& !contacts_supplied(
                    sheet@,
                    self.units@[attacker as int].combat,
                    tick.tactical@,
                    found@,
                    self.config.combat.proximity_radius,
                )
            },
            },
    {
        let mut reader = sheet.reader();
        let radius = self.config.combat.proximity_radius;
        let limit = reader.product(radius, radius);
        let actor = self.units[attacker].combat;
        let mut near: Vec<NearUnit> = Vec::new();
        let mut at: usize = 0;
        while at < found.len()
            invariant
                at <= found@.len(),
                forall|i: int|
                    0 <= i < found@.len() ==> #[trigger] found@[i] < tick.tactical@.len(),
                attacker < self.units@.len(),
                actor == self.units@[attacker as int].combat,
                radius == self.config.combat.proximity_radius,
                reader@ == sheet@,
                reader.sound(),
                reader.complete() ==> limit == product(sheet@, radius, radius),
                near@.len() == at,
                reader.complete() ==> forall|i: int|
                    0 <= i < at ==> #[trigger] near@[i] == (NearUnit {
                        index: found@[i],
                        within: within_reach(
                            sheet@,
                            actor,
                            tick.tactical@[found@[i] as int],
                            radius,
                        ),
                    }),
                contacts_supplied(sheet@, actor, tick.tactical@, found@, radius) ==>
                    reader.complete(),
            decreases found@.len() - at,
        {
            let index: usize = found[at];
            let target = tick.tactical[index];
            let lat = reader.difference(target.lat, actor.lat);
            let lng = reader.longitude_delta(actor.lng, target.lng);
            let lat_square = reader.product(lat, lat);
            let lng_square = reader.product(lng, lng);
            let distance = reader.sum(lat_square, lng_square);
            near.push(NearUnit { index, within: distance.less(limit) });
            at = at + 1;
        }
        if !reader.is_complete() {
            return Err(reader.into_missing());
        }
        Ok(near)
    }

    /// The contact index is built; it has `cells` occupied cells.
    pub fn record_index<'a>(&self, tick: &mut Tick<'a>, cells: usize)
        requires
            old(tick).well_formed(self.units@),
            old(tick).due(self.units@) == TickAction::IndexContacts,
        ensures
            final(tick).well_formed(self.units@),
            final(tick).same_frame(*old(tick)),
            less_work(remaining_work(*final(tick)), remaining_work(*old(tick))),
            final(tick).stage == (TickStage::Scanning { below: self.units@.len() as usize }),
            final(tick).events@ == old(tick).events@,
            final(tick).abandoned@ == old(tick).abandoned@,
            final(tick).counters == (TickCounters { tactical_cells: cells, ..old(tick).counters }),
    {
        tick.counters.tactical_cells = cells;
        tick.stage = TickStage::Scanning { below: self.units.len() };
    }

    /// Canonicalize the formations found around the next attacker: keep hostile ones within
    /// reach, order them by stable id and select the target, all before any of them is fought.
    pub fn record_contacts<'a>(&self, tick: &mut Tick<'a>, near: &[NearUnit])
        requires
            old(tick).well_formed(self.units@),
            old(tick).due(self.units@) is FindContacts,
            names_units_once(near@, self.units@.len() as int),
        ensures
            final(tick).well_formed(self.units@),
            final(tick).same_frame(*old(tick)),
            less_work(remaining_work(*final(tick)), remaining_work(*old(tick))),
            final(tick).events@ == old(tick).events@,
            final(tick).abandoned@ == old(tick).abandoned@,
            ({
                let attacker = old(tick).due(self.units@)->FindContacts_attacker;
                let side = self.units@[attacker as int].combat.side;
                let contacts = contacts_among(
                    near@,
                    old(tick).tactical@,
                    old(tick).hostility,
                    side,
                );
                let candidates = candidates_among(
                    near@,
                    old(tick).tactical@,
                    old(tick).hostility,
                    side,
                );
                &&& final(tick).stage == (TickStage::Contacting { attacker, position: 0 })
                &&& lists_contacts(final(tick).accepted@, contacts, self.units@)
                &&& final(tick).selected == selected_target(
                    self.units@,
                    final(tick).accepted@,
                    old(tick).order_of(self.units@, attacker as int).preferred_target_id,
                )
                &&& final(tick).counters == (TickCounters {
                    candidate_contacts: (old(tick).counters.candidate_contacts
                        + candidates.len()) as usize,
                    accepted_contacts: (old(tick).counters.accepted_contacts
                        + contacts.len()) as usize,
                    ..old(tick).counters
                })
            }),
    {
        let attacker: usize = match self.next_action(tick) {
            TickAction::FindContacts { attacker } => attacker,
            _ => {
                return;
            },
        };
        proof {
            let below = tick.stage->Scanning_below;
            lemma_last_eligible(self.units@, below as int);
        }
        let order = self.order_of(tick, attacker);
        let side: u64 = self.units[attacker].combat.side;
        let count: usize = self.units.len();
        let ghost keep = |unit: NearUnit|
            candidate(tick.tactical@, tick.hostility, side, unit) && unit.within;
        let ghost counted = |unit: NearUnit| candidate(tick.tactical@, tick.hostility, side, unit);
        let mut ranked_contacts: Vec<RankedContact> = Vec::new();
        let mut candidates: usize = 0;
        let mut position: usize = 0;
        proof {
            assert(near@.take(0).filter(keep) =~= Seq::<NearUnit>::empty()) by {
                near@.take(0).lemma_filter_len(keep);
            }
            assert(near@.take(0).filter(counted).len() == 0) by {
                near@.take(0).lemma_filter_len(counted);
            }
        }
        while position < near.len()
            invariant
                position <= near@.len(),
                near@.len() <= count,
                count == self.units@.len(),
                *tick == *old(tick),
                tick.well_formed(self.units@),
                names_units_once(near@, count as int),
                keep == (|unit: NearUnit|
                    candidate(tick.tactical@, tick.hostility, side, unit) && unit.within),
                counted == (|unit: NearUnit|
                    candidate(tick.tactical@, tick.hostility, side, unit)),
                candidates <= position,
                candidates == near@.take(position as int).filter(counted).len(),
                ranked_contacts@ == ranked(near@.take(position as int).filter(keep), self.units@),
                near@.take(position as int).filter(keep).len() <= candidates,
            decreases near@.len() - position,
        {
            let unit = near[position];
            let hostile_side = match tick.tactical[unit.index].side {
                Some(other) => side_hostile(tick.hostility, side, other),
                None => false,
            };
            assert(hostile_side == candidate(tick.tactical@, tick.hostility, side, unit));
            proof {
                let seen = near@.take(position as int);
                assert(near@.take(position + 1) =~= seen.push(unit));
                seen.lemma_filter_push(unit, keep);
                seen.lemma_filter_push(unit, counted);
            }
            if hostile_side {
                candidates = candidates + 1;
                if unit.within {
                    ranked_contacts.push(
                        RankedContact { index: unit.index, id: self.units[unit.index].combat.id },
                    );
                }
            }
            position = position + 1;
            assert(ranked_contacts@ =~= ranked(
                near@.take(position as int).filter(keep),
                self.units@,
            ));
        }
        assert(near@.take(near@.len() as int) =~= near@);
        let ghost contacts = near@.filter(keep);
        let ordered = sort_by_key(ranked_contacts);
        let mut accepted: Vec<usize> = Vec::new();
        let mut copied: usize = 0;
        while copied < ordered.len()
            invariant
                copied <= ordered@.len(),
                accepted@.len() == copied,
                forall|k: int| 0 <= k < copied ==> (#[trigger] accepted@[k]) == ordered@[k].index,
            decreases ordered@.len() - copied,
        {
            accepted.push(ordered[copied].index);
            copied = copied + 1;
        }
        proof {
            lemma_filter_names_once(near@, keep, count as int);
            lemma_ranked_order_lists_contacts(contacts, self.units@, ordered@, accepted@);
            assert(near@.filter(keep) == contacts_among(
                near@,
                tick.tactical@,
                tick.hostility,
                side,
            ));
            assert(near@.filter(counted) == candidates_among(
                near@,
                tick.tactical@,
                tick.hostility,
                side,
            ));
            let below = tick.stage->Scanning_below as int;
            let total = count as int;
            assert(attacker * total + total <= below * total) by (nonlinear_arith)
                requires
                    attacker + 1 <= below,
                    0 <= total,
            ;
        }
        let selected = self.select_target(&accepted, order.preferred_target_id);
        tick.counters.candidate_contacts = tick.counters.candidate_contacts + candidates;
        tick.counters.accepted_contacts = tick.counters.accepted_contacts + accepted.len();
        tick.accepted = accepted;
        tick.selected = selected;
        tick.stage = TickStage::Contacting { attacker, position: 0 };
    }

    fn select_target(&self, accepted: &Vec<usize>, preferred: Option<u64>) -> (selected: Option<
        usize,
    >)
        requires
            forall|k: int| 0 <= k < accepted@.len() ==> (#[trigger] accepted@[k]) < self.units@.len(),
        ensures
            selected == selected_target(self.units@, accepted@, preferred),
            selected matches Some(target) ==> target < self.units@.len(),
    {
        if let Some(id) = preferred {
            let mut position: usize = 0;
            while position < accepted.len()
                invariant
                    position <= accepted@.len(),
                    preferred == Some(id),
                    forall|k: int|
                        0 <= k < accepted@.len() ==> (#[trigger] accepted@[k]) < self.units@.len(),
                    accepted_with_id(self.units@, accepted@, id, 0) == accepted_with_id(
                        self.units@,
                        accepted@,
                        id,
                        position as int,
                    ),
                decreases accepted@.len() - position,
            {
                let target: usize = accepted[position];
                if self.units[target].combat.id == id {
                    return Some(target);
                }
                position = position + 1;
            }
        }
        if accepted.len() > 0 {
            Some(accepted[0])
        } else {
            None
        }
    }

    /// The context of an exchange that `attacker` opens.
    pub fn combat_context(&self, tick: &Tick<'_>, attacker: usize) -> (context: CombatContext)
        requires
            tick.well_formed(self.units@),
            attacker < self.units@.len(),
        ensures
            context == combat_context_of(*tick, tick.order_of(self.units@, attacker as int).combat),
    {
        let combat = self.order_of(tick, attacker).combat;
        CombatContext {
            sim_tick: tick.tick,
            frame: tick.frame,
            war_grace_end: tick.war_grace_end,
            attacker_damage_dealt_multiplier: combat.dealt_multiplier,
            attacker_damage_taken_multiplier: combat.taken_multiplier,
            defense_bonus: combat.defense_bonus,
            long_war_defense: combat.long_war_defense,
            mountain: combat.mountain,
            urban: combat.urban,
        }
    }

    fn write_pair(&mut self, attacker: usize, target: usize, pair: (CombatUnit, CombatUnit))
        requires
            attacker < old(self).units@.len(),
            target < old(self).units@.len(),
        ensures
            final(self).config == old(self).config,
            final(self).latest == old(self).latest,
            final(self).units@ == after_exchange(
                old(self).units@,
                attacker as int,
                target as int,
                pair,
            ),
    {
        let mut first = self.units[attacker];
        let attacker_id: u64 = first.combat.id;
        first.combat = pair.0;
        first.combat.id = attacker_id;
        self.units.set(attacker, first);
        let mut second = self.units[target];
        let target_id: u64 = second.combat.id;
        second.combat = pair.1;
        second.combat.id = target_id;
        self.units.set(target, second);
    }

    /// One contact was fought. Both formations are written back, attacker first.
    pub fn record_proximity<'a>(
        &mut self,
        tick: &mut Tick<'a>,
        pair: (CombatUnit, CombatUnit),
        event: Option<CombatEvent>,
    )
        requires
            old(tick).well_formed(old(self).units@),
            old(tick).due(old(self).units@) is Proximity,
        ensures
            final(tick).well_formed(final(self).units@),
            final(tick).same_frame(*old(tick)),
            less_work(remaining_work(*final(tick)), remaining_work(*old(tick))),
            final(self).config == old(self).config,
            final(self).latest == old(self).latest,
            final(tick).accepted@ == old(tick).accepted@,
            final(tick).selected == old(tick).selected,
            final(tick).abandoned@ == old(tick).abandoned@,
            ({
                let action = old(tick).due(old(self).units@);
                let attacker = action->Proximity_attacker;
                let target = action->Proximity_target;
                let at = next_contact(
                    old(self).units@,
                    old(tick).accepted@,
                    old(tick).stage->Contacting_position as int,
                )->0;
                &&& final(self).units@ == after_exchange(
                    old(self).units@,
                    attacker as int,
                    target as int,
                    pair,
                )
                &&& final(tick).stage == (TickStage::Contacting {
                    attacker,
                    position: (at + 1) as usize,
                })
            }),
            event matches Some(fought) ==> final(tick).events@ == old(tick).events@.push(fought)
                && final(tick).counters == (TickCounters {
                proximity_events: (old(tick).counters.proximity_events + 1) as usize,
                ..old(tick).counters
            }),
            event is None ==> final(tick).events@ == old(tick).events@ && final(tick).counters
                == old(tick).counters,
    {
        if let TickStage::Contacting { attacker, position } = tick.stage {
            if let Some(at) = self.find_contact(tick, position) {
                let target: usize = tick.accepted[at];
                assert(at < tick.accepted.len());
                self.write_pair(attacker, target, pair);
                tick.stage = TickStage::Contacting { attacker, position: at + 1 };
                if let Some(fought) = event {
                    tick.counters.proximity_events = tick.counters.proximity_events + 1;
                    tick.events.push(fought);
                }
            }
        }
    }

    /// The selected target was fought. An exchange that happened ends the unit's turn; one that
    /// did not leaves it free to move.
    pub fn record_direct<'a>(
        &mut self,
        tick: &mut Tick<'a>,
        pair: (CombatUnit, CombatUnit),
        event: Option<CombatEvent>,
    )
        requires
            old(tick).well_formed(old(self).units@),
            old(tick).due(old(self).units@) is Direct,
        ensures
            final(tick).well_formed(final(self).units@),
            final(tick).same_frame(*old(tick)),
            less_work(remaining_work(*final(tick)), remaining_work(*old(tick))),
            final(self).config == old(self).config,
            final(self).latest == old(self).latest,
            final(tick).abandoned@ == old(tick).abandoned@,
            ({
                let action = old(tick).due(old(self).units@);
                let attacker = action->Direct_attacker;
                let target = action->Direct_target;
                &&& final(self).units@ == after_exchange(
                    old(self).units@,
                    attacker as int,
                    target as int,
                    pair,
                )
                &&& (event matches Some(fought) ==> {
                    &&& final(tick).stage == (TickStage::Scanning { below: attacker })
                    &&& final(tick).events@ == old(tick).events@.push(fought)
                    &&& final(tick).counters == (TickCounters {
                        direct_events: (old(tick).counters.direct_events + 1) as usize,
                        held_units: (old(tick).counters.held_units + 1) as usize,
                        ..old(tick).counters
                    })
                })
                &&& (event is None ==> {
                    &&& final(tick).stage == (TickStage::Fought { attacker })
                    &&& final(tick).events@ == old(tick).events@
                    &&& final(tick).counters == old(tick).counters
                })
            }),
    {
        if let TickStage::Contacting { attacker, position } = tick.stage {
            if let Some(target) = tick.selected {
                proof {
                    lemma_next_contact(self.units@, tick.accepted@, position as int);
                    assert(self.units@.len() == self.units.len());
                }
                self.write_pair(attacker, target, pair);
                match event {
                    Some(fought) => {
                        tick.counters.direct_events = tick.counters.direct_events + 1;
                        tick.counters.held_units = tick.counters.held_units + 1;
                        tick.events.push(fought);
                        tick.stage = TickStage::Scanning { below: attacker };
                    },
                    None => {
                        tick.stage = TickStage::Fought { attacker };
                    },
                }
            }
        }
    }

    /// The unit moved.
    pub fn record_movement<'a>(&mut self, tick: &mut Tick<'a>, output: MovementOutput)
        requires
            old(tick).well_formed(old(self).units@),
            old(tick).due(old(self).units@) is Move,
        ensures
            final(tick).well_formed(final(self).units@),
            final(tick).same_frame(*old(tick)),
            less_work(remaining_work(*final(tick)), remaining_work(*old(tick))),
            final(self).config == old(self).config,
            final(self).latest == old(self).latest,
            final(tick).events@ == old(tick).events@,
            ({
                let attacker = old(tick).due(old(self).units@)->Move_attacker;
                &&& final(self).units@ == old(self).units@.update(
                    attacker as int,
                    with_movement(old(self).units@[attacker as int], output),
                )
                &&& final(tick).stage == (TickStage::Scanning { below: attacker })
                &&& final(tick).abandoned@ == (if output.abandon_target {
                    old(tick).abandoned@.push(old(self).units@[attacker as int].combat.id)
                } else {
                    old(tick).abandoned@
                })
                &&& final(tick).counters == (TickCounters {
                    moved_units: (old(tick).counters.moved_units + 1) as usize,
                    abandoned_orders: (old(tick).counters.abandoned_orders + (
                    if output.abandon_target {
                        1int
                    } else {
                        0
                    })) as usize,
                    ..old(tick).counters
                })
            }),
    {
        if let TickAction::Move { attacker } = self.next_action(tick) {
            assert(self.units@.len() == self.units.len());
            let mut unit = self.units[attacker];
            unit.combat.lat = output.lat;
            unit.combat.lng = output.lng;
            unit.dir_lat = output.applied_dir_lat;
            unit.dir_lng = output.applied_dir_lng;
            unit.coast_stuck_ticks = output.coast_stuck_ticks;
            self.units.set(attacker, unit);
            tick.counters.moved_units = tick.counters.moved_units + 1;
            if output.abandon_target {
                tick.abandoned.push(unit.combat.id);
                tick.counters.abandoned_orders = tick.counters.abandoned_orders + 1;
            }
            tick.stage = TickStage::Scanning { below: attacker };
        }
    }

    /// The unit stays where it is.
    pub fn record_hold<'a>(&self, tick: &mut Tick<'a>)
        requires
            old(tick).well_formed(self.units@),
            old(tick).due(self.units@) is Hold,
        ensures
            final(tick).well_formed(self.units@),
            final(tick).same_frame(*old(tick)),
            less_work(remaining_work(*final(tick)), remaining_work(*old(tick))),
            final(tick).events@ == old(tick).events@,
            final(tick).abandoned@ == old(tick).abandoned@,
            final(tick).stage == (TickStage::Scanning {
                below: old(tick).due(self.units@)->Hold_attacker,
            }),
            final(tick).counters == (TickCounters {
                held_units: (old(tick).counters.held_units + 1) as usize,
                ..old(tick).counters
            }),
    {
        if let TickAction::Hold { attacker } = self.next_action(tick) {
            assert(self.units@.len() == self.units.len());
            tick.counters.held_units = tick.counters.held_units + 1;
            tick.stage = TickStage::Scanning { below: attacker };
        }
    }

    /// Remove the defeated, all at once, and publish. As long as results are missing nothing
    /// happens, and the tick is handed back.
    pub fn finish<'a>(&mut self, tick: Tick<'a>, sheet: &Worksheet) -> (outcome: Result<
        (FrameSnapshot, TickCounters),
        (Tick<'a>, Vec<Operation>),
    >)
        requires
            tick.well_formed(old(self).units@),
            tick.due(old(self).units@) == TickAction::Finish,
        ensures
            match outcome {
                Ok(published) => {
                    &&& final(self).config == old(self).config
                    &&& final(self).units@ == survivors(old(self).units@)
                    &&& final(self).latest matches Some(latest) && latest.shows(published.0)
                    &&& published.0.schema_version@ == NATIVE_TICK_SCHEMA_VERSION@
                    &&& published.0.tick == tick.tick
                    &&& published.0.frame == tick.frame
                    &&& sorted(published.0.units@)
                    &&& permutation(
                        snapshots_of(sheet@, final(self).units@, tick.tick),
                        published.0.units@,
                    )
                    &&& strictly_sorted(published.0.units@)
                    &&& published.0.events@ == tick.events@
                    &&& sorted(published.0.removed_ids@)
                    &&& permutation(
                        ids_of(casualties(old(self).units@)),
                        published.0.removed_ids@,
                    )
                    &&& sorted(published.0.abandoned_ids@)
                    &&& permutation(tick.abandoned@, published.0.abandoned_ids@)
                    &&& published.1 == (TickCounters {
                        removed_units: published.0.removed_ids@.len() as usize,
                        ..tick.counters
                    })
                },
                Err((back, missing)) => {
                    &&& *final(self) == *old(self)
                    &&& back == tick
                    &&& missing@.len() > 0
                    &&& all_missing(missing@, sheet@)
                    &&& !snapshots_supplied(sheet@, survivors(old(self).units@))
                },
            },
    {
        let mut kept: Vec<SimulationUnit> = Vec::new();
        let mut removed: Vec<u64> = Vec::new();
        let mut index: usize = 0;
        let ghost alive = |unit: SimulationUnit| !is_defeated(unit.combat);
        let ghost dead = |unit: SimulationUnit| is_defeated(unit.combat);
        proof {
            assert(self.units@.take(0).filter(alive).len() == 0) by {
                self.units@.take(0).lemma_filter_len(alive);
            }
            assert(self.units@.take(0).filter(dead).len() == 0) by {
                self.units@.take(0).lemma_filter_len(dead);
            }
        }
        while index < self.units.len()
            invariant
                index <= self.units@.len(),
                *self == *old(self),
                alive == (|unit: SimulationUnit| !is_defeated(unit.combat)),
                dead == (|unit: SimulationUnit| is_defeated(unit.combat)),
                kept@ == self.units@.take(index as int).filter(alive),
                removed@ == ids_of(self.units@.take(index as int).filter(dead)),
            decreases self.units@.len() - index,
        {
            let unit = self.units[index];
            proof {
                let seen = self.units@.take(index as int);
                assert(self.units@.take(index + 1) =~= seen.push(unit));
                seen.lemma_filter_push(unit, alive);
                seen.lemma_filter_push(unit, dead);
            }
            if defeated(&unit.combat) {
                removed.push(unit.combat.id);
            } else {
                kept.push(unit);
            }
            index = index + 1;
            assert(removed@ =~= ids_of(self.units@.take(index as int).filter(dead)));
        }
        assert(self.units@.take(self.units@.len() as int) =~= self.units@);
        let mut reader = sheet.reader();
        let units = take_snapshots(&kept, tick.tick, &mut reader);
        if !reader.is_complete() {
            return Err((tick, reader.into_missing()));
        }
        proof {
            lemma_survivors_distinct(self.units@);
        }
        let removed_ids = sort_by_key(removed);
        let abandoned_ids = sort_by_key(tick.abandoned);
        let mut counters = tick.counters;
        counters.removed_units = removed_ids.len();
        self.units = kept;
        let snapshot = FrameSnapshot {
            schema_version: NATIVE_TICK_SCHEMA_VERSION,
            tick: tick.tick,
            frame: tick.frame,
            units,
            events: tick.events,
            removed_ids,
            abandoned_ids,
        };
        self.latest = Some(snapshot.clone());
        Ok((snapshot, counters))
    }
}

pub open spec fn combat_context_of(tick: Tick<'_>, combat: ResolvedCombatOrder) -> CombatContext {
    CombatContext {
        sim_tick: tick.tick,
        frame: tick.frame,
        war_grace_end: tick.war_grace_end,
        attacker_damage_dealt_multiplier: combat.dealt_multiplier,
        attacker_damage_taken_multiplier: combat.taken_multiplier,
        defense_bonus: combat.defense_bonus,
        long_war_defense: combat.long_war_defense,
        mountain: combat.mountain,
        urban: combat.urban,
    }
}

/// Units after both sides of an exchange were written back, attacker first.
pub open spec fn after_exchange(
    units: Seq<SimulationUnit>,
    attacker: int,
    target: int,
    pair: (CombatUnit, CombatUnit),
) -> Seq<SimulationUnit> {
    let first = units.update(attacker, with_combat(units[attacker], pair.0));
    first.update(target, with_combat(first[target], pair.1))
}

pub open spec fn survivors(units: Seq<SimulationUnit>) -> Seq<SimulationUnit> {
    units.filter(|unit: SimulationUnit| !is_defeated(unit.combat))
}

pub open spec fn casualties(units: Seq<SimulationUnit>) -> Seq<SimulationUnit> {
    units.filter(|unit: SimulationUnit| is_defeated(unit.combat))
}

pub open spec fn ids_of(units: Seq<SimulationUnit>) -> Seq<u64> {
    units.map_values(|unit: SimulationUnit| unit.combat.id)
}

/// How much of a tick is left: units first, then the stage of the current one, then its contacts.
/// Every `record_*` method leaves less, whatever the kernel answered, so a tick ends.
pub open spec fn remaining_work(tick: Tick<'_>) -> (int, int, int) {
    match tick.stage {
        TickStage::Indexing => (tick.orders@.len() as int, 3, 0),
        TickStage::Scanning { below } => (below as int, 2, 0),
        TickStage::Contacting { attacker, position } => (
            attacker + 1,
            1,
            tick.accepted@.len() - position,
        ),
        TickStage::Fought { attacker } => (attacker + 1, 0, 0),
    }
}

/// Lexicographic order on remaining work.
pub open spec fn less_work(after: (int, int, int), before: (int, int, int)) -> bool {
    ||| after.0 < before.0
    ||| after.0 == before.0 && after.1 < before.1
    ||| after.0 == before.0 && after.1 == before.1 && after.2 < before.2
}

pub(crate) proof fn lemma_survivors_distinct(units: Seq<SimulationUnit>)
    requires
        distinct_keys(units),
    ensures
        distinct_keys(survivors(units)),
    decreases units.len(),
{
    let stands = |unit: SimulationUnit| !is_defeated(unit.combat);
    reveal(Seq::filter);
    if units.len() > 0 {
        let earlier = units.drop_last();
        lemma_survivors_distinct(earlier);
        let left = survivors(earlier);
        assert forall|k: int| 0 <= k < left.len() implies (#[trigger] left[k]).sort_key()
            != units.last().sort_key() by {
            assert(left.contains(left[k]));
            lemma_filter_contains(earlier, stands, left[k]);
            let i = choose|i: int| 0 <= i < earlier.len() && earlier[i] == left[k];
            assert(units[i].sort_key() != units[units.len() - 1].sort_key());
        }
    }
}

proof fn lemma_parts_add_up(units: Seq<SimulationUnit>)
    ensures
        survivors(units).len() + casualties(units).len() == units.len(),
    decreases units.len(),
{
    reveal(Seq::filter);
    if units.len() > 0 {
        lemma_parts_add_up(units.drop_last());
    }
}

/// At the end of a tick every formation either survives or is removed, and none does both.
pub proof fn formations_survive_or_are_removed(units: Seq<SimulationUnit>, id: u64)
    ensures
        survivors(units).len() + casualties(units).len() == units.len(),
        ids_of(units).contains(id) <==> ids_of(survivors(units)).contains(id) || ids_of(
            casualties(units),
        ).contains(id),
        distinct_keys(units) ==> !(ids_of(survivors(units)).contains(id) && ids_of(
            casualties(units),
        ).contains(id)),
{
    let stands = |unit: SimulationUnit| !is_defeated(unit.combat);
    let falls = |unit: SimulationUnit| is_defeated(unit.combat);
    let left = survivors(units);
    let gone = casualties(units);
    lemma_parts_add_up(units);
    if ids_of(units).contains(id) {
        let i = choose|i: int| 0 <= i < units.len() && ids_of(units)[i] == id;
        let unit = units[i];
        assert(units.contains(unit));
        lemma_filter_contains(units, stands, unit);
        lemma_filter_contains(units, falls, unit);
        if is_defeated(unit.combat) {
            let k = choose|k: int| 0 <= k < gone.len() && gone[k] == unit;
            assert(ids_of(gone)[k] == id);
        } else {
            let k = choose|k: int| 0 <= k < left.len() && left[k] == unit;
            assert(ids_of(left)[k] == id);
        }
    }
    if ids_of(left).contains(id) {
        let k = choose|k: int| 0 <= k < left.len() && ids_of(left)[k] == id;
        assert(left.contains(left[k]));
        lemma_filter_contains(units, stands, left[k]);
        let i = choose|i: int| 0 <= i < units.len() && units[i] == left[k];
        assert(ids_of(units)[i] == id);
        if ids_of(gone).contains(id) {
            let m = choose|m: int| 0 <= m < gone.len() && ids_of(gone)[m] == id;
            assert(gone.contains(gone[m]));
            lemma_filter_contains(units, falls, gone[m]);
            let j = choose|j: int| 0 <= j < units.len() && units[j] == gone[m];
            assert(units[i].sort_key() == units[j].sort_key());
            assert(i != j);
        }
    }
    if ids_of(gone).contains(id) {
        let m = choose|m: int| 0 <= m < gone.len() && ids_of(gone)[m] == id;
        assert(gone.contains(gone[m]));
        lemma_filter_contains(units, falls, gone[m]);
        let j = choose|j: int| 0 <= j < units.len() && units[j] == gone[m];
        assert(ids_of(units)[j] == id);
    }
}

/// A whole tick accounts for every formation with which it began: at its end a formation is either
/// shown or removed, never both, and no other one is named. The tactical view of a tick is made when
/// it begins and stays.
pub proof fn a_tick_accounts_for_every_formation(
    tick: Tick<'_>,
    units: Seq<SimulationUnit>,
    id: u64,
)
    requires
        tick.well_formed(units),
    ensures
        ({
            let began = exists|i: int|
                0 <= i < tick.tactical@.len() && (#[trigger] tick.tactical@[i]).id == id;
            let shown = ids_of(survivors(units)).contains(id);
            let removed = ids_of(casualties(units)).contains(id);
            &&& began <==> shown || removed
            &&& !(shown && removed)
        }),
        survivors(units).len() + casualties(units).len() == tick.counters.input_units,
{
    formations_survive_or_are_removed(units, id);
    if ids_of(units).contains(id) {
        let i = choose|i: int| 0 <= i < units.len() && ids_of(units)[i] == id;
        assert(tick.tactical@[i].id == id);
    }
    if exists|i: int| 0 <= i < tick.tactical@.len() && (#[trigger] tick.tactical@[i]).id == id {
        let i = choose|i: int|
            0 <= i < tick.tactical@.len() && (#[trigger] tick.tactical@[i]).id == id;
        assert(ids_of(units)[i] == id);
    }
}

} // verus!
