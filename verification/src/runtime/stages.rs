//! Stages of a tick that take several steps in a row: planning operations, issuing orders, counting
//! losses and settling operations after movement.

use std::collections::{BTreeMap, BTreeSet};
use vstd::prelude::*;
use crate::casualties::{
    add_air_casualty_attribution, add_aircrew_casualties, add_attrition_casualties, air_ledger,
    air_ledger_supplied, aircrew_toll, attrition_supplied, attrition_toll, combat_ledger,
    combat_toll, crews_supplied, ledger_supplied, ledger_view, next_casualties,
    next_casualties_by_victim, toll_supplied, AirAdvanceOutcome, DamageCommand, DamageOutcome,
    Ledger, Toll,
};
use crate::operations::{
    country_inputs, evolved_operations, informed_sides, judged_countries, judgements_supplied,
    observations_supplied, operations_fault, CountryOperationalInput, OperationalRuntimeState,
    OperationsModel, OperationsScope, TacticalContactObservation,
};
use crate::order::{collected, rank_order, stable_sorted};
use crate::production::{ProductionConfig, ProductionCountry, ProductionError, ScenarioProduction};
use crate::runtime::error::RuntimeError;
use crate::runtime::execution::{
    apply_operational_steering, apply_transport_updates, embarked, lives, orders_supplied,
    steered_orders, steering_table, transport_table, SteeringEntry, TransportUpdate,
};
use crate::runtime::orders::{merge_command_orders, merged_plan, ordered, MergedPlan};
use crate::runtime::planning::{
    command_orders, garrison_hold_orders, garrison_orders, homeward_orders, homings_supplied,
    sorted_orders, AiPlanningResult, FrontAssignmentRecord,
};
use crate::runtime::counters::AiPlanningCounters;
use crate::runtime::policy::{policies_view, Policies, RuntimeUnitPolicy};
use crate::runtime::validation::{is_live, live_ids};
use crate::runtime::world::{RuntimeDiplomacy, StrategicModel, StrategicState, TerritoryControl};
use crate::scalar::Real;
use crate::simulation::FrameSnapshot;
use crate::strategic::{
    sides_within,    cycle_supplied, derive_strategic_cycle_input, derived_cycle, marker_of, StrategicCycleInput,
    StrategicDerivationCounters, StrategicDerivationInput, StrategicDerivationOutput,
    TerritoryCommitMarker, TerritorySnapshot,
};
use crate::taskforce::{
    advanced_forces, advances_supplied, moved_forces, movements_supplied, pruned_sides,
    units_by_id, OperationalSteering, OperationalUnitInput,
};
use crate::units::{CombatEvent, ResolvedUnitOrder, SimulationUnit};
use crate::worksheet::{all_missing, Operation, Reader, Stop, Worksheet};

verus! {

/// The side of each of the first formations.
pub open spec fn sides_by_unit(inputs: Seq<OperationalUnitInput>, count: nat) -> Map<u64, usize>
    decreases count,
{
    if count == 0 {
        Map::empty()
    } else {
        sides_by_unit(inputs, (count - 1) as nat).insert(
            inputs[count - 1].unit_id,
            inputs[count - 1].side_index,
        )
    }
}

/// The first countries of a scenario.
pub open spec fn country_ids(countries: Seq<ProductionCountry>, count: nat) -> Set<u16>
    decreases count,
{
    if count == 0 {
        Set::empty()
    } else {
        country_ids(countries, (count - 1) as nat).insert(countries[count - 1].country_id)
    }
}

fn index_sides(inputs: &Vec<OperationalUnitInput>) -> (table: BTreeMap<u64, usize>)
    ensures
        table@ == sides_by_unit(inputs@, inputs@.len()),
{
    broadcast use vstd::std_specs::btree::group_btree_axioms;

    let mut table: BTreeMap<u64, usize> = BTreeMap::new();
    let mut at: usize = 0;
    while at < inputs.len()
        invariant
            at <= inputs@.len(),
            table@ == sides_by_unit(inputs@, at as nat),
        decreases inputs@.len() - at,
    {
        broadcast use vstd::std_specs::btree::group_btree_axioms;

        table.insert(inputs[at].unit_id, inputs[at].side_index);
        at = at + 1;
    }
    table
}

pub(crate) fn list_countries(countries: &Vec<ProductionCountry>) -> (ids: BTreeSet<u16>)
    ensures
        ids@ == country_ids(countries@, countries@.len()),
{
    broadcast use vstd::std_specs::btree::group_btree_axioms;

    let mut ids: BTreeSet<u16> = BTreeSet::new();
    let mut at: usize = 0;
    assert(ids@ =~= country_ids(countries@, 0));
    while at < countries.len()
        invariant
            at <= countries@.len(),
            ids@ == country_ids(countries@, at as nat),
        decreases countries@.len() - at,
    {
        broadcast use vstd::std_specs::btree::group_btree_axioms;

        let ghost before = ids@;
        ids.insert(countries[at].country_id);
        assert(ids@ =~= before.insert(countries@[at as int].country_id));
        at = at + 1;
    }
    ids
}

/// Operations after a tick's contacts came in, task forces advanced and postures were reviewed.
pub open spec fn operations_planned(
    results: Map<Operation, u64>,
    before: OperationsModel,
    observations: Seq<TacticalContactObservation>,
    inputs: Seq<OperationalUnitInput>,
    collapsing: Set<usize>,
    country_to_side: Map<u16, usize>,
    tick: u64,
) -> OperationsModel {
    let by_id = units_by_id(inputs, inputs.len());
    let informed = OperationsModel {
        sides: informed_sides(results, before.sides, observations, tick),
        ..before
    };
    let advanced = OperationsModel {
        sides: pruned_sides(informed.sides, by_id),
        task_forces: advanced_forces(
            results,
            informed.task_forces,
            by_id,
            collapsing,
            tick,
            informed.task_forces.len(),
        ),
        ..informed
    };
    evolved_operations(advanced, country_to_side, tick)
}

/// What operations must fit at a tick.
pub open spec fn tick_scope(
    state: OperationsModel,
    inputs: Seq<OperationalUnitInput>,
    countries: Seq<ProductionCountry>,
    side_count: usize,
    tick: u64,
) -> OperationsScope {
    OperationsScope {
        side_count,
        live_units: sides_by_unit(inputs, inputs.len()),
        countries: country_ids(countries, countries.len()),
        tick,
        next_sequence: state.next_override_sequence,
    }
}

/// Whether a worksheet holds all that planning operations takes.
pub open spec fn planning_supplied(
    results: Map<Operation, u64>,
    before: OperationsModel,
    observations: Seq<TacticalContactObservation>,
    inputs: Seq<OperationalUnitInput>,
    collapsing: Set<usize>,
    tick: u64,
) -> bool {
    &&& observations_supplied(results, before.sides, observations, tick)
    &&& advances_supplied(
        results,
        before.task_forces,
        units_by_id(inputs, inputs.len()),
        collapsing,
        tick,
    )
}

/// Plans the operations of a tick. Where that fails, nothing changes.
pub fn plan_operations(
    operations: &mut OperationalRuntimeState,
    tick: u64,
    observations: &Vec<TacticalContactObservation>,
    inputs: &Vec<OperationalUnitInput>,
    collapsing: &BTreeSet<usize>,
    country_to_side: &BTreeMap<u16, usize>,
    countries: &Vec<ProductionCountry>,
    side_count: usize,
    sheet: &Worksheet,
) -> (outcome: Result<(), Stop<RuntimeError>>)
    ensures
        ({
            let planned = operations_planned(
                sheet@,
                old(operations)@,
                observations@,
                inputs@,
                collapsing@,
                country_to_side@,
                tick,
            );
            let fault = operations_fault(
                planned,
                tick_scope(planned, inputs@, countries@, side_count, tick),
            );
            match outcome {
                Ok(_) => final(operations)@ == planned && fault is None,
                Err(Stop::Failed(error)) => *final(operations) == *old(operations) && (
                fault matches Some(cause) && error == RuntimeError::Operational(cause)),
                Err(Stop::Missing(missing)) => *final(operations) == *old(operations)
                    && missing@.len() > 0 && all_missing(missing@, sheet@)
                    && !planning_supplied(
                        sheet@,
                        old(operations)@,
                        observations@,
                        inputs@,
                        collapsing@,
                        tick,
                    ),
            }
        }),
{
    let mut staged = operations.clone();
    if let Err(missing) = staged.ingest_tactical_contacts(tick, observations.as_slice(), sheet) {
        return Err(Stop::Missing(missing));
    }
    if let Err(missing) = staged.advance_task_forces(tick, inputs.as_slice(), collapsing, sheet) {
        return Err(Stop::Missing(missing));
    }
    staged.evolve_overrides(tick, country_to_side);
    let live = index_sides(inputs);
    let ids = list_countries(countries);
    match staged.validate(side_count, &live, &ids, tick) {
        Err(error) => Err(Stop::Failed(RuntimeError::Operational(error))),
        Ok(_) => {
            *operations = staged;
            Ok(())
        },
    }
}

/// Operations after movement: routes are followed, countries are judged when that is due, and
/// postures are reviewed.
pub open spec fn operations_settled(
    results: Map<Operation, u64>,
    before: OperationsModel,
    inputs: Seq<OperationalUnitInput>,
    judged: Option<Seq<CountryOperationalInput>>,
    interval: u64,
    country_to_side: Map<u16, usize>,
    tick: u64,
) -> OperationsModel {
    let by_id = units_by_id(inputs, inputs.len());
    let moved = OperationsModel {
        sides: pruned_sides(before.sides, by_id),
        task_forces: moved_forces(
            results,
            before.task_forces,
            by_id,
            tick,
            before.task_forces.len(),
        ),
        ..before
    };
    let reviewed = match judged {
        Some(countries) => OperationsModel {
            country_desperation: judged_countries(
                results,
                moved.country_desperation,
                country_inputs(countries, countries.len()),
                tick,
                interval,
            ),
            ..moved
        },
        None => moved,
    };
    evolved_operations(reviewed, country_to_side, tick)
}

/// Whether a worksheet holds all that settling operations takes.
pub open spec fn settling_supplied(
    results: Map<Operation, u64>,
    before: OperationsModel,
    inputs: Seq<OperationalUnitInput>,
    judged: Option<Seq<CountryOperationalInput>>,
) -> bool {
    &&& movements_supplied(results, before.task_forces, units_by_id(inputs, inputs.len()))
    &&& judged matches Some(countries) ==> judgements_supplied(
        results,
        before.country_desperation,
        country_inputs(countries, countries.len()),
    )
}

/// Settles operations after movement. Where that fails, nothing changes.
pub fn settle_operations(
    operations: &mut OperationalRuntimeState,
    tick: u64,
    inputs: &Vec<OperationalUnitInput>,
    judged: Option<&Vec<CountryOperationalInput>>,
    interval: u64,
    country_to_side: &BTreeMap<u16, usize>,
    countries: &Vec<ProductionCountry>,
    side_count: usize,
    sheet: &Worksheet,
) -> (outcome: Result<(), Stop<RuntimeError>>)
    ensures
        ({
            let settled = operations_settled(
                sheet@,
                old(operations)@,
                inputs@,
                match judged {
                    Some(list) => Some(list@),
                    None => None,
                },
                interval,
                country_to_side@,
                tick,
            );
            let fault = operations_fault(
                settled,
                tick_scope(settled, inputs@, countries@, side_count, tick),
            );
            match outcome {
                Ok(_) => final(operations)@ == settled && fault is None,
                Err(Stop::Failed(error)) => *final(operations) == *old(operations) && (
                fault matches Some(cause) && error == RuntimeError::Operational(cause)),
                Err(Stop::Missing(missing)) => *final(operations) == *old(operations)
                    && missing@.len() > 0 && all_missing(missing@, sheet@)
                    && !settling_supplied(
                        sheet@,
                        old(operations)@,
                        inputs@,
                        match judged {
                            Some(list) => Some(list@),
                            None => None,
                        },
                    ),
            }
        }),
{
    let mut staged = operations.clone();
    if let Err(missing) = staged.post_movement(tick, inputs.as_slice(), sheet) {
        return Err(Stop::Missing(missing));
    }
    if let Some(list) = judged {
        if let Err(missing) = staged.update_country_desperation(
            tick,
            interval,
            list.as_slice(),
            sheet,
        ) {
            return Err(Stop::Missing(missing));
        }
    }
    staged.evolve_overrides(tick, country_to_side);
    let live = index_sides(inputs);
    let ids = list_countries(countries);
    match staged.validate(side_count, &live, &ids, tick) {
        Err(error) => Err(Stop::Failed(RuntimeError::Operational(error))),
        Ok(_) => {
            *operations = staged;
            Ok(())
        },
    }
}

pub open spec fn steering_entry(steering: OperationalSteering) -> SteeringEntry {
    SteeringEntry {
        unit_id: steering.unit_id,
        movement_enabled: steering.movement_enabled,
        dir_lat: steering.dir_lat,
        dir_lng: steering.dir_lng,
        speed_multiplier: steering.speed_multiplier,
    }
}

/// What steering means for orders.
pub fn steering_entries(steering: &Vec<OperationalSteering>) -> (entries: Vec<SteeringEntry>)
    ensures
        entries@.len() == steering@.len(),
        forall|i: int|
            0 <= i < entries@.len() ==> #[trigger] entries@[i] == steering_entry(steering@[i]),
{
    let mut entries: Vec<SteeringEntry> = Vec::new();
    let mut at: usize = 0;
    while at < steering.len()
        invariant
            at <= steering@.len(),
            entries@.len() == at,
            forall|i: int|
                0 <= i < at ==> #[trigger] entries@[i] == steering_entry(steering@[i]),
        decreases steering@.len() - at,
    {
        let item = &steering[at];
        entries.push(
            SteeringEntry {
                unit_id: item.unit_id,
                movement_enabled: item.movement_enabled,
                dir_lat: item.dir_lat,
                dir_lng: item.dir_lng,
                speed_multiplier: item.speed_multiplier,
            },
        );
        at = at + 1;
    }
    entries
}

/// What operational execution tells the formations.
#[derive(Debug)]
pub struct ExecutionOutputs {
    pub transports: Vec<TransportUpdate>,
    pub steering: Vec<SteeringEntry>,
}

/// The orders of a tick.
#[derive(Debug)]
pub struct IssuedOrders {
    pub planning: AiPlanningResult,
    pub units: Vec<SimulationUnit>,
    /// Formations that operations steer.
    pub planned: BTreeSet<u64>,
    /// Formations whose plans their command overrides.
    pub overridden: BTreeSet<u64>,
}

/// What [`IssuedOrders`] say.
pub ghost struct IssuedModel {
    pub plan: MergedPlan,
    pub units: Seq<SimulationUnit>,
    pub planned: Set<u64>,
}

/// Orders after steering, if there is any.
pub open spec fn orders_steered(
    results: Map<Operation, u64>,
    orders: Seq<ResolvedUnitOrder>,
    assignments: Seq<FrontAssignmentRecord>,
    steering: Option<Seq<SteeringEntry>>,
    reason: &'static str,
) -> Result<Seq<ResolvedUnitOrder>, RuntimeError> {
    match steering {
        None => Ok(orders),
        Some(entries) => collected(
            steered_orders(
                results,
                orders,
                steering_table(entries, entries.len()),
                assignments,
                reason,
            ),
            orders.len(),
        ),
    }
}

/// Formations that are steered.
pub open spec fn units_steered(steering: Option<Seq<SteeringEntry>>) -> Set<u64> {
    match steering {
        None => Set::empty(),
        Some(entries) => steering_table(entries, entries.len()).dom(),
    }
}

/// Everything that orders are issued from.
pub ghost struct OrderScope {
    pub results: Map<Operation, u64>,
    pub orders: Seq<ResolvedUnitOrder>,
    pub assignments: Seq<FrontAssignmentRecord>,
    pub counters: AiPlanningCounters,
    pub steering: Option<Seq<SteeringEntry>>,
    pub execution: Option<ExecutionOutputs>,
    pub policies: Policies,
    pub priors: Map<u64, u64>,
    pub tick: u64,
}

/// Why steering by operations can fail.
pub const OPERATIONAL_SPEED_FAULT: &'static str =
    "operational steering produced an invalid speed multiplier";

/// Why steering by execution can fail.
pub const EXECUTION_SPEED_FAULT: &'static str =
    "execution steering produced an invalid speed multiplier";

/// Formations after their transports changed.
pub open spec fn units_embarked(
    units: Seq<SimulationUnit>,
    execution: Option<ExecutionOutputs>,
) -> Result<Seq<SimulationUnit>, RuntimeError> {
    match execution {
        None => Ok(units),
        Some(outputs) => if forall|i: int|
            0 <= i < outputs.transports@.len() ==> lives(
                units,
                (#[trigger] outputs.transports@[i]).unit_id,
            ) {
            Ok(embarked(units, transport_table(outputs.transports@, outputs.transports@.len())))
        } else {
            Err(
                RuntimeError::InvalidCheckpoint("execution transport update omitted a live unit"),
            )
        },
    }
}

pub open spec fn execution_steering(execution: Option<ExecutionOutputs>) -> Option<
    Seq<SteeringEntry>,
> {
    match execution {
        Some(outputs) => Some(outputs.steering@),
        None => None,
    }
}

/// The orders of a tick: operations steer, execution embarks and steers, garrisons hold, and
/// formations that refuse to fight go home.
pub open spec fn orders_issued(
    scope: OrderScope,
    units: Seq<SimulationUnit>,
) -> Result<IssuedModel, RuntimeError> {
    match orders_steered(
        scope.results,
        scope.orders,
        scope.assignments,
        scope.steering,
        OPERATIONAL_SPEED_FAULT,
    ) {
        Err(error) => Err(error),
        Ok(steered) => match units_embarked(units, scope.execution) {
            Err(error) => Err(error),
            Ok(aboard) => match orders_steered(
                scope.results,
                steered,
                scope.assignments,
                execution_steering(scope.execution),
                EXECUTION_SPEED_FAULT,
            ) {
                Err(error) => Err(error),
                Ok(executed) => match sorted_orders(
                    collected(
                        garrison_orders(aboard, scope.policies, scope.tick),
                        aboard.len(),
                    ),
                ) {
                    Err(error) => Err(error),
                    Ok(garrisons) => match sorted_orders(
                        collected(
                            homeward_orders(scope.results, aboard, scope.policies, scope.tick),
                            aboard.len(),
                        ),
                    ) {
                        Err(error) => Err(error),
                        Ok(commands) => Ok(
                            IssuedModel {
                                plan: merged_plan(
                                    executed,
                                    scope.assignments,
                                    scope.counters,
                                    garrisons,
                                    commands,
                                    scope.priors,
                                ),
                                units: aboard,
                                planned: units_steered(scope.steering).union(
                                    units_steered(execution_steering(scope.execution)),
                                ),
                            },
                        ),
                    },
                },
            },
        },
    }
}

proof fn lemma_collected_short<U, E>(entry: spec_fn(int) -> Option<Result<U, E>>, count: nat)
    ensures
        collected(entry, count) matches Ok(items) ==> items.len() <= count,
    decreases count,
{
    if count > 0 {
        lemma_collected_short(entry, (count - 1) as nat);
    }
}

proof fn lemma_placed_len<T>(ordered: Seq<T>, item: T, before: spec_fn(T, T) -> bool)
    ensures
        crate::order::placed(ordered, item, before).len() == ordered.len() + 1,
    decreases ordered.len(),
{
    if ordered.len() > 0 && before(item, ordered.last()) {
        lemma_placed_len(ordered.drop_last(), item, before);
    }
}

proof fn lemma_sorted_len<T>(items: Seq<T>, before: spec_fn(T, T) -> bool)
    ensures
        stable_sorted(items, before).len() == items.len(),
    decreases items.len(),
{
    if items.len() > 0 {
        lemma_sorted_len(items.drop_last(), before);
        lemma_placed_len(stable_sorted(items.drop_last(), before), items.last(), before);
    }
}

fn unite(into: &mut BTreeSet<u64>, more: &BTreeSet<u64>)
    ensures
        final(into)@ == old(into)@.union(more@),
{
    broadcast use vstd::std_specs::btree::group_btree_axioms;

    let ghost before = into@;
    let members = crate::tables::ordered_units(more);
    let mut at: usize = 0;
    while at < members.len()
        invariant
            at <= members@.len(),
            forall|id: u64|
                #[trigger] into@.contains(id) <==> before.contains(id) || members@.take(
                    at as int,
                ).contains(id),
        decreases members@.len() - at,
    {
        broadcast use vstd::std_specs::btree::group_btree_axioms;

        let ghost earlier = into@;
        into.insert(members[at]);
        proof {
            assert(members@.take(at + 1) =~= members@.take(at as int).push(members@[at as int]));
            assert forall|id: u64| #[trigger] into@.contains(id) <==> before.contains(id)
                || members@.take(at + 1).contains(id) by {
                crate::order::lemma_push_contains(
                    members@.take(at as int),
                    members@[at as int],
                    id,
                );
                assert(earlier.contains(id) || !earlier.contains(id));
            }
        }
        at = at + 1;
    }
    proof {
        assert(members@.take(members@.len() as int) =~= members@);
        assert(into@ =~= before.union(more@)) by {
            assert forall|id: u64| into@.contains(id) == before.union(more@).contains(id) by {
                assert(members@.contains(id) == more@.contains(id));
                assert(into@.contains(id) <==> before.contains(id) || members@.contains(id));
            }
        }
    }
}

/// Whether a worksheet holds all that steering some orders takes.
pub open spec fn entries_supplied(
    results: Map<Operation, u64>,
    orders: Seq<ResolvedUnitOrder>,
    assignments: Seq<FrontAssignmentRecord>,
    steering: Option<Seq<SteeringEntry>>,
) -> bool {
    steering matches Some(entries) ==> orders_supplied(
        results,
        orders,
        steering_table(entries, entries.len()),
        assignments,
    )
}

/// Whether a worksheet holds all that issuing orders takes.
pub open spec fn issue_supplied(scope: OrderScope, units: Seq<SimulationUnit>) -> bool {
    &&& entries_supplied(scope.results, scope.orders, scope.assignments, scope.steering)
    &&& orders_steered(
        scope.results,
        scope.orders,
        scope.assignments,
        scope.steering,
        OPERATIONAL_SPEED_FAULT,
    ) matches Ok(steered) ==> (units_embarked(units, scope.execution) matches Ok(aboard) ==> {
        &&& entries_supplied(
            scope.results,
            steered,
            scope.assignments,
            execution_steering(scope.execution),
        )
        &&& homings_supplied(scope.results, aboard, scope.policies)
    })
}

/// Issues the orders of a tick.
pub fn issue_orders(
    planning: AiPlanningResult,
    steering: Option<&Vec<SteeringEntry>>,
    execution: Option<&ExecutionOutputs>,
    units: Vec<SimulationUnit>,
    policies: &BTreeMap<u64, RuntimeUnitPolicy>,
    priors: &BTreeMap<u64, u64>,
    tick: u64,
    reader: &mut Reader<'_>,
) -> (outcome: Result<IssuedOrders, RuntimeError>)
    requires
        old(reader).sound(),
        planning.counters.hold_orders + units@.len() <= usize::MAX,
    ensures
        final(reader)@ == old(reader)@,
        final(reader).sound(),
        final(reader).complete() ==> old(reader).complete() && ({
            let expected = orders_issued(
                OrderScope {
                    results: old(reader)@,
                    orders: planning.orders@,
                    assignments: planning.assignments@,
                    counters: planning.counters,
                    steering: match steering {
                        Some(entries) => Some(entries@),
                        None => None,
                    },
                    execution: match execution {
                        Some(outputs) => Some(*outputs),
                        None => None,
                    },
                    policies: policies_view(policies@),
                    priors: priors@,
                    tick,
                },
                units@,
            );
            match outcome {
                Ok(issued) => expected matches Ok(model) && {
                    &&& issued.planning.orders@ == model.plan.orders
                    &&& issued.planning.assignments@ == model.plan.assignments
                    &&& issued.planning.counters == model.plan.counters
                    &&& issued.planning.contacts@ == planning.contacts@
                    &&& issued.units@ == model.units
                    &&& issued.planned@ == model.planned
                    &&& forall|id: u64| #[trigger]
                        issued.overridden@.contains(id) == ordered(model.plan.overrides, id)
                },
                Err(error) => expected == Err::<IssuedModel, RuntimeError>(error),
            }
        }),
        old(reader).complete() && issue_supplied(
            OrderScope {
                    results: old(reader)@,
                    orders: planning.orders@,
                    assignments: planning.assignments@,
                    counters: planning.counters,
                    steering: match steering {
                        Some(entries) => Some(entries@),
                        None => None,
                    },
                    execution: match execution {
                        Some(outputs) => Some(*outputs),
                        None => None,
                    },
                    policies: policies_view(policies@),
                    priors: priors@,
                    tick,
                },
            units@,
        ) ==> final(reader).complete(),
{
    broadcast use vstd::std_specs::btree::group_btree_axioms;

    let ghost results = reader@;
    let ghost known = policies_view(policies@);
    let mut plan = planning;
    let mut staged = units;
    let mut planned: BTreeSet<u64> = BTreeSet::new();
    assert(planned@ =~= Set::<u64>::empty());
    if let Some(entries) = steering {
        match apply_operational_steering(
            &plan.orders,
            &plan.assignments,
            entries,
            OPERATIONAL_SPEED_FAULT,
            reader,
        ) {
            Err(error) => {
                return Err(error);
            },
            Ok((steered, steered_units)) => {
                plan.orders = steered;
                planned = steered_units;
            },
        }
    }
    if let Some(outputs) = execution {
        match apply_transport_updates(&mut staged, &outputs.transports) {
            Err(error) => {
                return Err(error);
            },
            Ok(_) => {},
        }
        match apply_operational_steering(
            &plan.orders,
            &plan.assignments,
            &outputs.steering,
            EXECUTION_SPEED_FAULT,
            reader,
        ) {
            Err(error) => {
                return Err(error);
            },
            Ok((steered, steered_units)) => {
                plan.orders = steered;
                unite(&mut planned, &steered_units);
            },
        }
    }
    let garrisons = match garrison_hold_orders(&staged, policies, tick) {
        Err(error) => {
            return Err(error);
        },
        Ok(orders) => orders,
    };
    let commands = match command_orders(&staged, policies, tick, reader) {
        Err(error) => {
            return Err(error);
        },
        Ok(orders) => orders,
    };
    // Only as long as results are missing can there be more orders than formations.
    if plan.counters.hold_orders > usize::MAX - commands.len() {
        proof {
            let entry = homeward_orders(results, staged@, known, tick);
            if reader.complete() {
                lemma_collected_short(entry, staged@.len());
                if let Ok(all) = collected(entry, staged@.len()) {
                    lemma_sorted_len(all, rank_order::<ResolvedUnitOrder>());
                }
            }
        }
        return Err(RuntimeError::ClockOverflow);
    }
    let ghost contacts = plan.contacts@;
    let (merged, overridden) = merge_command_orders(plan, garrisons, commands, priors);
    proof {
        if execution is None {
            assert(planned@.union(Set::empty()) =~= planned@);
        }
    }
    Ok(IssuedOrders { planning: merged, units: staged, planned, overridden })
}

/// Damage to formations that live.
pub open spec fn hits_live(units: Seq<SimulationUnit>) -> spec_fn(DamageCommand) -> bool {
    |command: DamageCommand| is_live(units, command.unit_id)
}

/// The commands of an impact that still hit somebody.
pub fn live_commands(commands: &Vec<DamageCommand>, units: &Vec<SimulationUnit>) -> (kept: Vec<
    DamageCommand,
>)
    ensures
        kept@ == commands@.filter(hits_live(units@)),
{
    broadcast use vstd::std_specs::btree::group_btree_axioms;

    let live = live_ids(units);
    let ghost wanted = hits_live(units@);
    let mut kept: Vec<DamageCommand> = Vec::new();
    let mut at: usize = 0;
    proof {
        reveal(Seq::filter);
        assert(commands@.take(0) =~= Seq::<DamageCommand>::empty());
    }
    while at < commands.len()
        invariant
            at <= commands@.len(),
            wanted == hits_live(units@),
            forall|id: u64| #[trigger] live@.contains(id) == is_live(units@, id),
            kept@ == commands@.take(at as int).filter(wanted),
        decreases commands@.len() - at,
    {
        broadcast use vstd::std_specs::btree::group_btree_axioms;

        let command = commands[at];
        if live.contains(&command.unit_id) {
            kept.push(command);
        }
        proof {
            reveal(Seq::filter);
            assert(commands@.take(at + 1).drop_last() =~= commands@.take(at as int));
            assert(commands@.take(at + 1).last() == command);
        }
        at = at + 1;
    }
    assert(commands@.take(commands@.len() as int) =~= commands@);
    kept
}

/// A toll after damage, if there was any.
pub open spec fn damaged_toll(
    results: Map<Operation, u64>,
    toll: Toll,
    owners: Map<u64, u16>,
    damage: Option<DamageOutcome>,
) -> Toll {
    match damage {
        Some(outcome) => attrition_toll(
            results,
            toll,
            owners,
            outcome.results@,
            outcome.results@.len(),
        ),
        None => toll,
    }
}

/// A toll after the first impacts.
pub open spec fn impacted_toll(
    results: Map<Operation, u64>,
    toll: Toll,
    owners: Map<u64, u16>,
    impacts: Seq<DamageOutcome>,
    count: nat,
) -> Toll
    decreases count,
{
    if count == 0 {
        toll
    } else {
        damaged_toll(
            results,
            impacted_toll(results, toll, owners, impacts, (count - 1) as nat),
            owners,
            Some(impacts[count - 1]),
        )
    }
}

/// What a tick adds to the toll: combat, air strikes, air crews, attrition and missiles, in this
/// order.
pub open spec fn tick_toll(
    results: Map<Operation, u64>,
    previous: Toll,
    owners: Map<u64, u16>,
    wing_owners: Map<u64, u16>,
    events: Seq<CombatEvent>,
    air: Option<AirAdvanceOutcome>,
    air_damage: Option<DamageOutcome>,
    attrition: Option<DamageOutcome>,
    impacts: Seq<DamageOutcome>,
) -> Toll {
    let fought = combat_toll(results, previous, owners, events, events.len());
    let bombed = damaged_toll(results, fought, owners, air_damage);
    let flown = match air {
        Some(outcome) => aircrew_toll(
            results,
            bombed,
            wing_owners,
            outcome.wing_losses@,
            outcome.wing_losses@.len(),
        ),
        None => bombed,
    };
    let worn = damaged_toll(results, flown, owners, attrition);
    impacted_toll(results, worn, owners, impacts, impacts.len())
}

pub open spec fn owned<T>(item: Option<&T>) -> Option<T> {
    match item {
        Some(value) => Some(*value),
        None => None,
    }
}

/// Whether a worksheet holds all that the toll of damage that may not have been takes.
pub open spec fn damaged_supplied(
    results: Map<Operation, u64>,
    toll: Toll,
    owners: Map<u64, u16>,
    damage: Option<DamageOutcome>,
) -> bool {
    damage matches Some(dealt) ==> attrition_supplied(results, toll, owners, dealt.results@)
}

/// Whether a worksheet holds all that the toll of impacts takes.
pub open spec fn impacts_supplied(
    results: Map<Operation, u64>,
    toll: Toll,
    owners: Map<u64, u16>,
    impacts: Seq<DamageOutcome>,
) -> bool {
    forall|k: int|
        0 <= k < impacts.len() ==> attrition_supplied(
            results,
            impacted_toll(results, toll, owners, impacts, k as nat),
            owners,
            (#[trigger] impacts[k]).results@,
        )
}

/// Whether a worksheet holds all that the toll of a tick takes.
pub open spec fn tick_toll_supplied(
    results: Map<Operation, u64>,
    previous: Toll,
    owners: Map<u64, u16>,
    wing_owners: Map<u64, u16>,
    events: Seq<CombatEvent>,
    air: Option<AirAdvanceOutcome>,
    air_damage: Option<DamageOutcome>,
    attrition: Option<DamageOutcome>,
    impacts: Seq<DamageOutcome>,
) -> bool {
    let fought = combat_toll(results, previous, owners, events, events.len());
    let bombed = damaged_toll(results, fought, owners, air_damage);
    let flown = match air {
        Some(outcome) => aircrew_toll(
            results,
            bombed,
            wing_owners,
            outcome.wing_losses@,
            outcome.wing_losses@.len(),
        ),
        None => bombed,
    };
    &&& toll_supplied(results, previous, owners, events)
    &&& damaged_supplied(results, fought, owners, air_damage)
    &&& air matches Some(outcome) ==> crews_supplied(
        results,
        bombed,
        wing_owners,
        outcome.wing_losses@,
    )
    &&& damaged_supplied(results, flown, owners, attrition)
    &&& impacts_supplied(
        results,
        damaged_toll(results, flown, owners, attrition),
        owners,
        impacts,
    )
}

/// Whether a worksheet holds all that counting the losses of a tick takes.
pub open spec fn counting_supplied(
    results: Map<Operation, u64>,
    previous: Toll,
    ledger: Ledger,
    owners: Map<u64, u16>,
    wing_owners: Map<u64, u16>,
    events: Seq<CombatEvent>,
    air: Option<&AirAdvanceOutcome>,
    air_damage: Option<&DamageOutcome>,
    attrition: Option<&DamageOutcome>,
    impacts: Seq<DamageOutcome>,
) -> bool {
    &&& tick_toll_supplied(
        results,
        previous,
        owners,
        wing_owners,
        events,
        owned(air),
        owned(air_damage),
        owned(attrition),
        impacts,
    )
    &&& ledger_supplied(results, ledger, owners, events)
    &&& air_ledger_supplied(
        results,
        combat_ledger(results, ledger, owners, events, events.len()),
        owners,
        wing_owners,
        air,
        air_damage,
    )
}

/// Counts the losses of a tick, in total and by whom they were caused.
pub fn count_losses(
    previous: &BTreeMap<u16, Real>,
    previous_ledger: &BTreeMap<u16, BTreeMap<u16, Real>>,
    owners: &BTreeMap<u64, u16>,
    wing_owners: &BTreeMap<u64, u16>,
    events: &Vec<CombatEvent>,
    air: Option<&AirAdvanceOutcome>,
    air_damage: Option<&DamageOutcome>,
    attrition: Option<&DamageOutcome>,
    impacts: &Vec<DamageOutcome>,
    reader: &mut Reader<'_>,
) -> (losses: (BTreeMap<u16, Real>, BTreeMap<u16, BTreeMap<u16, Real>>))
    requires
        old(reader).sound(),
    ensures
        final(reader)@ == old(reader)@,
        final(reader).sound(),
        final(reader).complete() ==> {
            &&& old(reader).complete()
            &&& losses.0@ == tick_toll(
                old(reader)@,
                previous@,
                owners@,
                wing_owners@,
                events@,
                owned(air),
                owned(air_damage),
                owned(attrition),
                impacts@,
            )
            &&& ledger_view(losses.1@) == air_ledger(
                old(reader)@,
                combat_ledger(
                    old(reader)@,
                    ledger_view(previous_ledger@),
                    owners@,
                    events@,
                    events@.len(),
                ),
                owners@,
                wing_owners@,
                air,
                air_damage,
            )
        },
        old(reader).complete() && counting_supplied(
            old(reader)@,
            previous@,
            ledger_view(previous_ledger@),
            owners@,
            wing_owners@,
            events@,
            air,
            air_damage,
            attrition,
            impacts@,
        ) ==> final(reader).complete(),
{
    let ghost results = reader@;
    let mut toll = next_casualties(previous, owners, events, reader);
    add_attrition_casualties(&mut toll, owners, air_damage, reader);
    add_aircrew_casualties(&mut toll, wing_owners, air, reader);
    add_attrition_casualties(&mut toll, owners, attrition, reader);
    let ghost worn = toll@;
    let ghost untouched = reader.complete();
    let mut at: usize = 0;
    while at < impacts.len()
        invariant
            at <= impacts@.len(),
            reader@ == results,
            reader.sound(),
            reader.complete() ==> untouched && toll@ == impacted_toll(
                results,
                worn,
                owners@,
                impacts@,
                at as nat,
            ),
            untouched && impacts_supplied(results, worn, owners@, impacts@) ==> reader.complete(),
        decreases impacts@.len() - at,
    {
        add_attrition_casualties(&mut toll, owners, Some(&impacts[at]), reader);
        at = at + 1;
    }
    let mut ledger = next_casualties_by_victim(previous_ledger, owners, events, reader);
    add_air_casualty_attribution(&mut ledger, owners, wing_owners, air, air_damage, reader);
    (toll, ledger)
}

/// Counters of a derivation after its input was restricted.
pub fn recount(counters: StrategicDerivationCounters, input: &StrategicCycleInput) -> (recounted:
    StrategicDerivationCounters)
    ensures
        recounted == (StrategicDerivationCounters {
            active_sides: input.active_sides@.len() as usize,
            hostile_pairs: input.active_hostile_pairs@.len() as usize,
            ..counters
        }),
{
    let mut recounted = counters;
    recounted.active_sides = input.active_sides.len();
    recounted.hostile_pairs = input.active_hostile_pairs.len();
    recounted
}

/// Whether a strategic input is derived from exactly these parts.
pub open spec fn production_source(
    source: StrategicDerivationInput<'_>,
    tick: u64,
    scenario: ScenarioProduction,
    territory: TerritoryControl,
    snapshot: TerritorySnapshot,
    schema: Seq<char>,
    frame: FrameSnapshot,
    hostility: Seq<u8>,
    strategic: StrategicModel,
    casualties: Map<u16, Real>,
) -> bool {
    &&& source.tick == tick
    &&& !source.force
    &&& *source.scenario == scenario
    &&& source.grid == scenario.grid
    &&& source.de_jure@ == territory.de_jure@
    &&& *source.territory == snapshot
    &&& source.territory_schema@ == schema
    &&& source.expected_territory == marker_of(snapshot)
    &&& source.territory_fresh
    &&& *source.frame == frame
    &&& source.country_to_side@ == territory.country_to_side@
    &&& source.side_count == territory.max_sides
    &&& source.hostility_matrix@ == hostility
    &&& source.economies@ == strategic.economies
    &&& source.occupations@ == strategic.occupations
    &&& source.casualties@ == casualties
}

/// Whether a strategic input can be derived from these parts, or what it fails with.
pub open spec fn production_derived(
    results: Map<Operation, u64>,
    tick: u64,
    scenario: ScenarioProduction,
    territory: TerritoryControl,
    snapshot: TerritorySnapshot,
    schema: Seq<char>,
    frame: FrameSnapshot,
    hostility: Seq<u8>,
    strategic: StrategicModel,
    casualties: Map<u16, Real>,
    config: ProductionConfig,
    outcome: Result<(), ProductionError>,
) -> bool {
    exists|source: StrategicDerivationInput<'_>|
        #[trigger] production_source(
            source,
            tick,
            scenario,
            territory,
            snapshot,
            schema,
            frame,
            hostility,
            strategic,
            casualties,
        ) && (match derived_cycle(results, source, config) {
            Ok(_) => outcome is Ok,
            Err(error) => outcome == Err::<(), ProductionError>(error),
        })
}

/// Derives the input of a strategic cycle from the runtime's own parts.
pub fn derive_production_input(
    tick: u64,
    scenario: &ScenarioProduction,
    territory: &TerritoryControl,
    snapshot: &TerritorySnapshot,
    schema: &str,
    frame: &FrameSnapshot,
    diplomacy: &RuntimeDiplomacy,
    strategic: &StrategicState,
    casualties: &BTreeMap<u16, Real>,
    config: &ProductionConfig,
    sheet: &Worksheet,
) -> (outcome: Result<StrategicDerivationOutput, Stop<ProductionError>>)
    ensures
        match outcome {
            Ok(output) => production_derived(
                sheet@,
                tick,
                *scenario,
                *territory,
                *snapshot,
                schema@,
                *frame,
                diplomacy.hostility@,
                strategic@,
                casualties@,
                *config,
                Ok(()),
            ) && exists|source: StrategicDerivationInput<'_>|
                #[trigger] production_source(
                    source,
                    tick,
                    *scenario,
                    *territory,
                    *snapshot,
                    schema@,
                    *frame,
                    diplomacy.hostility@,
                    strategic@,
                    casualties@,
                ) && derived_cycle(sheet@, source, *config) is Ok && output.says(
                    derived_cycle(sheet@, source, *config)->Ok_0,
                    source,
                ) && sides_within(output.input.active_sides@, source.side_count as int),
            Err(Stop::Failed(error)) => production_derived(
                sheet@,
                tick,
                *scenario,
                *territory,
                *snapshot,
                schema@,
                *frame,
                diplomacy.hostility@,
                strategic@,
                casualties@,
                *config,
                Err(error),
            ),
            Err(Stop::Missing(missing)) => {
                &&& missing@.len() > 0
                &&& all_missing(missing@, sheet@)
                &&& exists|source: StrategicDerivationInput<'_>|
                    #[trigger] production_source(
                        source,
                        tick,
                        *scenario,
                        *territory,
                        *snapshot,
                        schema@,
                        *frame,
                        diplomacy.hostility@,
                        strategic@,
                        casualties@,
                    ) && !cycle_supplied(sheet@, source, *config)
            },
        },
{
    let source = StrategicDerivationInput {
        tick,
        force: false,
        scenario,
        grid: scenario.grid,
        de_jure: territory.de_jure.as_slice(),
        territory: snapshot,
        territory_schema: schema,
        expected_territory: TerritoryCommitMarker::of(snapshot),
        territory_fresh: true,
        frame,
        country_to_side: &territory.country_to_side,
        side_count: territory.max_sides,
        hostility_matrix: diplomacy.hostility.as_slice(),
        economies: &strategic.economies,
        occupations: &strategic.occupations,
        casualties,
    };
    assert(production_source(
        source,
        tick,
        *scenario,
        *territory,
        *snapshot,
        schema@,
        *frame,
        diplomacy.hostility@,
        strategic@,
        casualties@,
    ));
    derive_strategic_cycle_input(source, config, sheet)
}

} // verus!
