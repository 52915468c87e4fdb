//! How formations come to their orders: fronts are laid out, the planner is asked, operations and
//! execution have their say, and everything is merged into one order for each formation.

use std::collections::{BTreeMap, BTreeSet};
use vstd::prelude::*;
use crate::operations::{
    operations_fault, OperationalRuntimeState, TacticalContactObservation,
};
use crate::order::collected;
use crate::runtime::battlefield::BattlefieldUnitResult;
use crate::runtime::dynamics::{collapsing_sides, find_collapsing};
use crate::runtime::error::RuntimeError;
use crate::runtime::execution::{
    inputs_supplied, operational_claimed_unit_ids, operational_inputs, operational_unit_inputs,
    OperationalExecutionState,
};
use crate::runtime::native::{claimed_ids, held, FrontLayout, NativeRuntime, RuntimeModel};
use crate::runtime::orders::{sightings, tactical_contact_observations};
use crate::runtime::planning::{
    ai_inputs, ai_units, front_layout_units, front_objectives_by_unit, layout_units,
    objective_table, AiPlanningResult, AiUnitInput, FrontLayoutUnit, LayoutUnitModel,
    PlanningContact, PlanningScope,
};
use crate::runtime::stages::{operations_planned, plan_operations, planning_supplied, tick_scope};
use crate::runtime::step::StageEvent;
use crate::runtime::tick::{
    completed, lacking, policies_in_force, policies_of, strengths_known, TickAction, TickWork,
};
use crate::scalar::Real;
use crate::tables::{ascending, ordered_units};
use crate::taskforce::{units_by_id, OperationalUnitInput};
use crate::units::SimulationUnit;
use crate::views::views;
use crate::worksheet::{Operation, Stop, Worksheet};

verus! {

/// Execution as a tick has it now.
pub open spec fn execution_in_force(model: RuntimeModel, work: TickWork) -> Option<
    OperationalExecutionState,
> {
    match work.execution {
        Some(state) => Some(state),
        None => model.execution,
    }
}

/// Formations that operations claim as a tick has them now.
pub open spec fn claimed_now(model: RuntimeModel, work: TickWork) -> Set<u64> {
    claimed_ids(work.operations, execution_in_force(model, work))
}

/// What the battlefield resolved, if there is one.
pub open spec fn resolved_now(work: TickWork) -> Option<Map<u64, BattlefieldUnitResult>> {
    match work.field {
        Some(field) => Some(field.resolved_by_id@),
        None => None,
    }
}

/// The objectives that formations had before the planner is asked.
pub open spec fn priors_from(model: RuntimeModel, layout: Option<FrontLayout>) -> Map<u64, u64> {
    match layout {
        Some(laid) => objective_table(views(laid.next_prior@), laid.next_prior@.len()),
        None => model.priors,
    }
}

pub(crate) fn list_claimed(runtime: &NativeRuntime, work: &TickWork) -> (claimed: BTreeSet<u64>)
    ensures
        claimed@ == claimed_now(held(runtime@), *work),
{
    let parts = runtime.parts();
    let execution: Option<&OperationalExecutionState> = match &work.execution {
        Some(state) => Some(state),
        None => parts.operational_execution,
    };
    let claimed = operational_claimed_unit_ids(work.operations.as_ref(), execution);
    assert(claimed@ =~= claimed_now(held(runtime@), *work));
    claimed
}

fn list_priors(runtime: &NativeRuntime, layout: &Option<FrontLayout>) -> (priors: BTreeMap<u64, u64>)
    ensures
        priors@ == priors_from(held(runtime@), *layout),
{
    match layout {
        Some(laid) => front_objectives_by_unit(&laid.next_prior),
        None => runtime.parts().prior_objective_by_unit.clone(),
    }
}

pub(crate) fn resolved_of(work: &TickWork) -> (resolved: Option<
    &BTreeMap<u64, BattlefieldUnitResult>,
>)
    ensures
        crate::runtime::planning::optional_map(resolved) == resolved_now(*work),
{
    match &work.field {
        Some(field) => Some(&field.resolved_by_id),
        None => None,
    }
}

// ---------------------------------------------------------------------------------------------
// Fronts and plans
// ---------------------------------------------------------------------------------------------

/// What the fronts are laid out by.
pub open spec fn front_units(model: RuntimeModel, work: TickWork) -> Result<
    Seq<LayoutUnitModel>,
    RuntimeError,
> {
    collected(
        layout_units(
            work.units@,
            policies_in_force(model, work),
            model.front_priors,
            claimed_now(model, work),
            work.step.tick,
        ),
        work.units@.len(),
    )
}

/// What the planner is asked.
pub open spec fn plan_inputs(
    model: RuntimeModel,
    work: TickWork,
    layout: Option<FrontLayout>,
) -> Result<Seq<AiUnitInput>, RuntimeError> {
    collected(
        ai_inputs(
            PlanningScope {
                units: work.units@,
                strengths: work.strengths->Some_0@,
                policies: policies_in_force(model, work),
                priors: priors_from(model, layout),
                claimed: claimed_now(model, work),
                tick: work.step.tick,
                resolved: resolved_now(work),
                ally_weights: match work.field {
                    Some(field) => Some(field.ally_weight_by_id@),
                    None => None,
                },
                dynamics: match work.dynamics {
                    Some(table) => Some(table@),
                    None => None,
                },
            },
        ),
        work.units@.len(),
    )
}

fn ask_layout(runtime: &NativeRuntime, work: &TickWork) -> (outcome: Result<
    Vec<FrontLayoutUnit>,
    RuntimeError,
>)
    ensures
        match outcome {
            Ok(units) => front_units(held(runtime@), *work) == Ok::<Seq<LayoutUnitModel>, RuntimeError>(
                views(units@),
            ),
            Err(error) => front_units(held(runtime@), *work) == Err::<Seq<LayoutUnitModel>, RuntimeError>(
                error,
            ),
        },
{
    let parts = runtime.parts();
    let claimed = list_claimed(runtime, work);
    front_layout_units(
        &work.units,
        policies_of(&parts, work),
        parts.front_prior_by_unit,
        &claimed,
        work.step.tick,
    )
}

fn ask_plan(
    runtime: &NativeRuntime,
    work: &TickWork,
    strengths: &Vec<Real>,
    layout: &Option<FrontLayout>,
) -> (outcome: Result<Vec<AiUnitInput>, RuntimeError>)
    requires
        strengths_known(*work),
        *strengths == work.strengths->Some_0,
    ensures
        match outcome {
            Ok(units) => plan_inputs(held(runtime@), *work, *layout) == Ok::<
                Seq<AiUnitInput>,
                RuntimeError,
            >(units@),
            Err(error) => plan_inputs(held(runtime@), *work, *layout) == Err::<
                Seq<AiUnitInput>,
                RuntimeError,
            >(error),
        },
{
    let parts = runtime.parts();
    let claimed = list_claimed(runtime, work);
    let priors = list_priors(runtime, layout);
    let weights = match &work.field {
        Some(field) => Some(&field.ally_weight_by_id),
        None => None,
    };
    ai_units(
        &work.units,
        strengths,
        policies_of(&parts, work),
        &priors,
        &claimed,
        work.step.tick,
        resolved_of(work),
        weights,
        work.dynamics.as_ref(),
    )
}

/// Fronts are laid out anew.
pub open spec fn fronts_stage(
    model: RuntimeModel,
    before: TickWork,
    after: TickWork,
    outcome: Result<TickAction, Stop<RuntimeError>>,
) -> bool {
    match outcome {
        Ok(TickAction::Layout(asked)) => {
            &&& before.inbox.layout is None
            &&& after == before
            &&& front_units(model, before) == Ok::<Seq<LayoutUnitModel>, RuntimeError>(
                views(asked@),
            )
        },
        Ok(TickAction::Moved) => {
            &&& before.inbox.layout is Some
            &&& completed(before, StageEvent::Done, after)
            &&& after == (TickWork {
                step: after.step,
                inbox: after.inbox,
                layout: before.inbox.layout,
                ..before
            })
        },
        Ok(_) => false,
        Err(Stop::Failed(error)) => after == before && before.inbox.layout is None && front_units(
            model,
            before,
        ) == Err::<Seq<LayoutUnitModel>, RuntimeError>(error),
        Err(Stop::Missing(_)) => false,
    }
}

pub(crate) fn lay_out_fronts(runtime: &NativeRuntime, work: &mut TickWork) -> (outcome: Result<
    TickAction,
    Stop<RuntimeError>,
>)
    ensures
        fronts_stage(held(runtime@), *old(work), *final(work), outcome),
{
    if work.inbox.layout.is_none() {
        return match ask_layout(runtime, work) {
            Ok(units) => Ok(TickAction::Layout(units)),
            Err(error) => Err(Stop::Failed(error)),
        };
    }
    let mut laid: Option<FrontLayout> = None;
    core::mem::swap(&mut laid, &mut work.inbox.layout);
    work.layout = laid;
    work.close_stage(StageEvent::Done);
    Ok(TickAction::Moved)
}

/// The planner gives every formation an order.
pub open spec fn planning_stage(
    model: RuntimeModel,
    before: TickWork,
    after: TickWork,
    outcome: Result<TickAction, Stop<RuntimeError>>,
) -> bool {
    match outcome {
        Ok(TickAction::Strengths) => before.inbox.plan is None && !strengths_known(before) && after
            == before,
        Ok(TickAction::Plan(asked)) => {
            &&& before.inbox.plan is None
            &&& strengths_known(before)
            &&& after == before
            &&& plan_inputs(model, before, before.layout) == Ok::<Seq<AiUnitInput>, RuntimeError>(
                asked@,
            )
        },
        Ok(TickAction::Moved) => {
            &&& before.inbox.plan is Some
            &&& completed(before, StageEvent::Done, after)
            &&& after == (TickWork {
                step: after.step,
                inbox: after.inbox,
                planning: before.inbox.plan,
                claimed: after.claimed,
                ..before
            })
            &&& after.claimed@ == claimed_now(model, before)
        },
        Ok(_) => false,
        Err(Stop::Failed(error)) => after == before && before.inbox.plan is None && plan_inputs(
            model,
            before,
            before.layout,
        ) == Err::<Seq<AiUnitInput>, RuntimeError>(error),
        Err(Stop::Missing(_)) => false,
    }
}

pub(crate) fn plan_orders(runtime: &NativeRuntime, work: &mut TickWork) -> (outcome: Result<
    TickAction,
    Stop<RuntimeError>,
>)
    ensures
        planning_stage(held(runtime@), *old(work), *final(work), outcome),
{
    if work.inbox.plan.is_none() {
        let strengths = match &work.strengths {
            None => {
                return Ok(TickAction::Strengths);
            },
            Some(strengths) => strengths,
        };
        if strengths.len() != work.units.len() {
            return Ok(TickAction::Strengths);
        }
        return match ask_plan(runtime, work, strengths, &work.layout) {
            Ok(units) => Ok(TickAction::Plan(units)),
            Err(error) => Err(Stop::Failed(error)),
        };
    }
    let claimed = list_claimed(runtime, work);
    let mut planned: Option<AiPlanningResult> = None;
    core::mem::swap(&mut planned, &mut work.inbox.plan);
    work.planning = planned;
    work.claimed = claimed;
    work.close_stage(StageEvent::Done);
    Ok(TickAction::Moved)
}

fn same_members(left: &BTreeSet<u64>, right: &BTreeSet<u64>) -> (answer: bool)
    ensures
        answer == (left@ == right@),
{
    let mine = ordered_units(left);
    let theirs = ordered_units(right);
    proof {
        if mine@ == theirs@ {
            assert forall|id: u64| left@.contains(id) == right@.contains(id) by {
                assert(mine@.contains(id) == left@.contains(id));
                assert(theirs@.contains(id) == right@.contains(id));
            }
            assert(left@ =~= right@);
        }
    }
    if mine.len() != theirs.len() {
        return false;
    }
    let mut at: usize = 0;
    while at < mine.len()
        invariant
            at <= mine@.len(),
            mine@.len() == theirs@.len(),
            mine@ == ascending(left@),
            theirs@ == ascending(right@),
            forall|i: int| 0 <= i < at ==> #[trigger] mine@[i] == theirs@[i],
        decreases mine@.len() - at,
    {
        if mine[at] != theirs[at] {
            assert(mine@[at as int] != theirs@[at as int]);
            return false;
        }
        at = at + 1;
    }
    assert(mine@ =~= theirs@);
    true
}

/// The planner starts over where operations claim other formations than it was told.
pub open spec fn replanning_stage(
    model: RuntimeModel,
    before: TickWork,
    after: TickWork,
    outcome: Result<TickAction, Stop<RuntimeError>>,
) -> bool {
    let same = claimed_now(model, before) == before.claimed@;
    let due = before.step.facts.fronts_due;
    let layout = if due {
        before.inbox.layout
    } else {
        None
    };
    match outcome {
        Ok(TickAction::Layout(asked)) => {
            &&& !same && due && before.inbox.layout is None
            &&& after == before
            &&& front_units(model, before) == Ok::<Seq<LayoutUnitModel>, RuntimeError>(
                views(asked@),
            )
        },
        Ok(TickAction::Strengths) => !same && before.inbox.plan is None && !strengths_known(before)
            && after == before,
        Ok(TickAction::Plan(asked)) => {
            &&& !same && (due ==> before.inbox.layout is Some) && before.inbox.plan is None
            &&& strengths_known(before)
            &&& after == before
            &&& plan_inputs(model, before, layout) == Ok::<Seq<AiUnitInput>, RuntimeError>(asked@)
        },
        Ok(TickAction::Moved) => {
            &&& !same ==> before.inbox.plan is Some && (due ==> before.inbox.layout is Some)
            &&& completed(before, StageEvent::Done, after)
            &&& after == (TickWork {
                step: after.step,
                inbox: after.inbox,
                layout: if same || !due {
                    before.layout
                } else {
                    before.inbox.layout
                },
                planning: if same {
                    before.planning
                } else {
                    before.inbox.plan
                },
                ..before
            })
        },
        Ok(_) => false,
        Err(Stop::Failed(error)) => after == before && !same && (if due && before.inbox.layout
            is None {
            front_units(model, before) == Err::<Seq<LayoutUnitModel>, RuntimeError>(error)
        } else {
            plan_inputs(model, before, layout) == Err::<Seq<AiUnitInput>, RuntimeError>(error)
        }),
        Err(Stop::Missing(_)) => false,
    }
}

pub(crate) fn plan_again(runtime: &NativeRuntime, work: &mut TickWork) -> (outcome: Result<
    TickAction,
    Stop<RuntimeError>,
>)
    ensures
        replanning_stage(held(runtime@), *old(work), *final(work), outcome),
{
    let claimed = list_claimed(runtime, work);
    let due = work.step.facts.fronts_due;
    if same_members(&claimed, &work.claimed) {
        work.close_stage(StageEvent::Done);
        return Ok(TickAction::Moved);
    }
    if due && work.inbox.layout.is_none() {
        return match ask_layout(runtime, work) {
            Ok(units) => Ok(TickAction::Layout(units)),
            Err(error) => Err(Stop::Failed(error)),
        };
    }
    if work.inbox.plan.is_none() {
        let strengths = match &work.strengths {
            None => {
                return Ok(TickAction::Strengths);
            },
            Some(strengths) => strengths,
        };
        if strengths.len() != work.units.len() {
            return Ok(TickAction::Strengths);
        }
        let none: Option<FrontLayout> = None;
        let asked = if due {
            ask_plan(runtime, work, strengths, &work.inbox.layout)
        } else {
            ask_plan(runtime, work, strengths, &none)
        };
        return match asked {
            Ok(units) => Ok(TickAction::Plan(units)),
            Err(error) => Err(Stop::Failed(error)),
        };
    }
    let mut planned: Option<AiPlanningResult> = None;
    core::mem::swap(&mut planned, &mut work.inbox.plan);
    work.planning = planned;
    if due {
        let mut laid: Option<FrontLayout> = None;
        core::mem::swap(&mut laid, &mut work.inbox.layout);
        work.layout = laid;
    }
    work.close_stage(StageEvent::Done);
    Ok(TickAction::Moved)
}

// ---------------------------------------------------------------------------------------------
// Operations
// ---------------------------------------------------------------------------------------------

/// Whether the side of every formation has an index.
pub open spec fn sides_indexed(units: Seq<SimulationUnit>) -> bool {
    forall|i: int| 0 <= i < units.len() ==> (#[trigger] units[i]).combat.side <= usize::MAX
}

pub(crate) fn are_indexed(units: &Vec<SimulationUnit>) -> (answer: bool)
    ensures
        answer == sides_indexed(units@),
{
    let mut at: usize = 0;
    while at < units.len()
        invariant
            at <= units@.len(),
            forall|i: int| 0 <= i < at ==> (#[trigger] units@[i]).combat.side <= usize::MAX,
        decreases units@.len() - at,
    {
        if units[at].combat.side > usize::MAX as u64 {
            assert(!(units@[at as int].combat.side <= usize::MAX));
            return false;
        }
        at = at + 1;
    }
    true
}

/// Whether observations are those that the planner's contacts amount to.
pub open spec fn observed(
    contacts: Seq<PlanningContact>,
    inputs: Seq<OperationalUnitInput>,
    units: Seq<SimulationUnit>,
    observations: Seq<TacticalContactObservation>,
) -> bool {
    views(observations) == sightings(
        contacts,
        units_by_id(inputs, inputs.len()),
        units,
        contacts.len(),
    )
}

/// What operations read of formations.
pub open spec fn force_inputs(work: TickWork, results: Map<Operation, u64>) -> Result<
    Seq<OperationalUnitInput>,
    RuntimeError,
> {
    if !sides_indexed(work.units@) {
        Err(RuntimeError::InvalidCheckpoint("unit side exceeds platform"))
    } else {
        collected(
            operational_inputs(
                results,
                work.units@,
                work.strengths->Some_0@,
                resolved_now(work),
                match work.field {
                    Some(field) => Some(field.next_unit_state@),
                    None => None,
                },
            ),
            work.units@.len(),
        )
    }
}

/// Sides that collapse.
pub open spec fn collapsing_now(work: TickWork) -> Set<usize> {
    match work.dynamics {
        Some(table) => collapsing_sides(table@),
        None => Set::empty(),
    }
}

/// Operations take in contacts and advance.
pub open spec fn operations_stage(
    model: RuntimeModel,
    before: TickWork,
    after: TickWork,
    results: Map<Operation, u64>,
    outcome: Result<TickAction, Stop<RuntimeError>>,
) -> bool {
    let inputs = force_inputs(before, results);
    let side_count = model.territory.max_sides;
    let tick = before.step.tick;
    match outcome {
        Ok(TickAction::Strengths) => !strengths_known(before) && after == before,
        Ok(TickAction::Moved) => inputs matches Ok(read) && {
            &&& before.operations is Some && before.planning is Some
            &&& completed(before, StageEvent::Done, after)
            &&& after == (TickWork {
                step: after.step,
                inbox: after.inbox,
                operations: after.operations,
                inputs: after.inputs,
                ..before
            })
            &&& after.inputs@ == read
            &&& after.operations matches Some(operations) && exists|
                observations: Seq<TacticalContactObservation>,
            | #[trigger]
                observed(before.planning->Some_0.contacts@, read, before.units@, observations) && {
                    let planned = operations_planned(
                        results,
                        before.operations->Some_0@,
                        observations,
                        read,
                        collapsing_now(before),
                        model.territory.country_to_side@,
                        tick,
                    );
                    &&& operations@ == planned
                    &&& operations_fault(
                        planned,
                        tick_scope(planned, read, model.scenario.countries@, side_count, tick),
                    ) is None
                }
        },
        Ok(_) => false,
        Err(Stop::Failed(error)) => after == before && (if before.operations is None
            || before.planning is None {
            error == RuntimeError::InvalidCheckpoint("tick has no operations to plan")
        } else {
            match inputs {
                Err(fault) => error == fault,
                Ok(read) => exists|observations: Seq<TacticalContactObservation>| #[trigger]
                    observed(before.planning->Some_0.contacts@, read, before.units@, observations)
                        && {
                        let planned = operations_planned(
                            results,
                            before.operations->Some_0@,
                            observations,
                            read,
                            collapsing_now(before),
                            model.territory.country_to_side@,
                            tick,
                        );
                        operations_fault(
                            planned,
                            tick_scope(planned, read, model.scenario.countries@, side_count, tick),
                        ) matches Some(cause) && error == RuntimeError::Operational(cause)
                    },
            }
        }),
        Err(Stop::Missing(missing)) => lacking(before, after, missing, results) && (
        !inputs_supplied(results, before.units@) || (inputs matches Ok(read) && exists|
            observations: Seq<TacticalContactObservation>,
        | #[trigger]
            observed(before.planning->Some_0.contacts@, read, before.units@, observations)
                && !planning_supplied(
                results,
                before.operations->Some_0@,
                observations,
                read,
                collapsing_now(before),
                tick,
            ))),
    }
}

fn list_collapsing(work: &TickWork) -> (sides: BTreeSet<usize>)
    ensures
        sides@ == collapsing_now(*work),
{
    broadcast use vstd::std_specs::btree::group_btree_axioms;

    match &work.dynamics {
        Some(table) => find_collapsing(table),
        None => {
            let none: BTreeSet<usize> = BTreeSet::new();
            assert(none@ =~= Set::<usize>::empty());
            none
        },
    }
}

#[verifier::rlimit(40)]
pub(crate) fn advance_operations(
    runtime: &NativeRuntime,
    work: &mut TickWork,
    sheet: &Worksheet,
) -> (outcome: Result<TickAction, Stop<RuntimeError>>)
    ensures
        operations_stage(held(runtime@), *old(work), *final(work), sheet@, outcome),
{
    let parts = runtime.parts();
    let strengths = match &work.strengths {
        None => {
            return Ok(TickAction::Strengths);
        },
        Some(strengths) => strengths,
    };
    if strengths.len() != work.units.len() {
        return Ok(TickAction::Strengths);
    }
    if work.operations.is_none() || work.planning.is_none() {
        return Err(
            Stop::Failed(RuntimeError::InvalidCheckpoint("tick has no operations to plan")),
        );
    }
    if !are_indexed(&work.units) {
        return Err(
            Stop::Failed(RuntimeError::InvalidCheckpoint("unit side exceeds platform")),
        );
    }
    let memory = match &work.field {
        Some(field) => Some(&field.next_unit_state),
        None => None,
    };
    let mut reader = sheet.reader();
    let read = operational_unit_inputs(
        &work.units,
        strengths,
        resolved_of(work),
        memory,
        &mut reader,
    );
    if !reader.is_complete() {
        return Err(Stop::Missing(reader.into_missing()));
    }
    let inputs = match read {
        Err(error) => {
            return Err(Stop::Failed(error));
        },
        Ok(inputs) => inputs,
    };
    let observations = match &work.planning {
        Some(planning) => tactical_contact_observations(&planning.contacts, &inputs, &work.units),
        None => Vec::new(),
    };
    assert(observed(work.planning->Some_0.contacts@, inputs@, work.units@, observations@));
    let collapsing = list_collapsing(work);
    let mut slot: Option<OperationalRuntimeState> = None;
    core::mem::swap(&mut slot, &mut work.operations);
    if let Some(mut operations) = slot {
        let planned = plan_operations(
            &mut operations,
            work.step.tick,
            &observations,
            &inputs,
            &collapsing,
            &parts.territory.country_to_side,
            &parts.scenario.countries,
            parts.territory.max_sides,
            sheet,
        );
        work.operations = Some(operations);
        if let Err(stop) = planned {
            assert(*work == *old(work));
            return Err(stop);
        }
    }
    work.inputs = inputs;
    work.close_stage(StageEvent::Done);
    Ok(TickAction::Moved)
}

} // verus!
