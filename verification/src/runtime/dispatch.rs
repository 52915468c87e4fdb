//! How orders reach formations: execution answers threats and sails, orders are issued and bent, and
//! formations move and fight.

use std::collections::BTreeMap;
use vstd::prelude::*;
use crate::operations::ForceModel;
use crate::order::{
    collected, copy_all, lemma_permutation_contains, permutation, rank_order, stable_sorted, Keyed,
};
use crate::runtime::campaign::{priors_from, resolved_now, resolved_of};
use crate::runtime::error::RuntimeError;
use crate::runtime::execution::{
    defender_threats, execution_inputs, execution_unit_inputs, forces_of, threats_of,
    threats_supplied, ExecutionUnitInput, OperationalExecutionState, SteeringEntry, ThreatScope,
};
use crate::runtime::losses::{
    apply_directions, bent_orders, direction_inputs, direction_inputs_of, inactive_units,
    policies_cover, prepare_units, prepared_units, waiting_units, BattlefieldDirectionInput,
};
use crate::runtime::native::{held, runtime_sound, NativeRuntime, RuntimeModel};
use crate::runtime::orders::ordered;
use crate::runtime::planning::{front_objectives_by_unit, AiPlanningResult};
use crate::runtime::policy::{policies_view, RuntimeUnitPolicy};
use crate::runtime::stages::{
    issue_orders, issue_supplied, orders_issued, steering_entries, steering_entry, IssuedModel,
    IssuedOrders, OrderScope,
};
use crate::runtime::step::StageEvent;
use crate::runtime::tick::{
    completed, ground, ground_of, lacking, policies_in_force, policies_of, replaces, CombatAnswer,
    ExecutionAnswer, TickAction, TickWork,
};
use crate::runtime::validation::{accounted, accounts_for_all, is_live};
use crate::simulation::{
    a_tick_accounts_for_every_formation, casualties, ids_of, lemma_survivors_distinct, survivors, Tick,
};
use crate::taskforce::{
    steered_forces, steering_order, steering_supplied, units_by_id, OperationalSteering,
};
use crate::units::{ResolvedUnitOrder, SimulationUnit};
use crate::views::views;
use crate::worksheet::{Operation, Stop, Worksheet};

verus! {

// ---------------------------------------------------------------------------------------------
// Execution
// ---------------------------------------------------------------------------------------------

/// The task forces of operations.
pub open spec fn forces_now(work: TickWork) -> Option<Seq<ForceModel>> {
    forces_of(
        match work.operations {
            Some(state) => Some(&state),
            None => None,
        },
    )
}

/// What execution reads of formations.
pub open spec fn execution_units(model: RuntimeModel, work: TickWork) -> Result<
    Seq<ExecutionUnitInput>,
    RuntimeError,
> {
    match work.planning {
        None => Err(RuntimeError::InvalidCheckpoint("tick has no plan")),
        Some(planning) => collected(
            execution_inputs(
                work.units@,
                policies_in_force(model, work),
                work.step.tick,
                resolved_now(work),
                planning.assignments@,
                forces_now(work),
            ),
            work.units@.len(),
        ),
    }
}

pub(crate) fn list_execution_units(runtime: &NativeRuntime, work: &TickWork) -> (outcome: Result<
    Vec<ExecutionUnitInput>,
    RuntimeError,
>)
    ensures
        match outcome {
            Ok(units) => execution_units(held(runtime@), *work) == Ok::<
                Seq<ExecutionUnitInput>,
                RuntimeError,
            >(units@),
            Err(error) => execution_units(held(runtime@), *work) == Err::<
                Seq<ExecutionUnitInput>,
                RuntimeError,
            >(error),
        },
{
    let parts = runtime.parts();
    match &work.planning {
        None => Err(RuntimeError::InvalidCheckpoint("tick has no plan")),
        Some(planning) => execution_unit_inputs(
            &work.units,
            policies_of(&parts, work),
            work.step.tick,
            resolved_of(work),
            &planning.assignments,
            work.operations.as_ref(),
        ),
    }
}

/// Execution with the landings that were just begun.
pub open spec fn execution_begun(model: RuntimeModel, work: TickWork) -> Option<
    OperationalExecutionState,
> {
    if model.naval is Some && work.inbox.naval is Some {
        Some(work.inbox.naval->Some_0.execution)
    } else {
        model.execution
    }
}

/// What threats are judged by.
pub open spec fn threat_scope(
    model: RuntimeModel,
    work: TickWork,
    units: Seq<ExecutionUnitInput>,
) -> ThreatScope {
    ThreatScope {
        units,
        territory: ground(model, work),
        hostility: model.hostility,
        side_count: model.territory.max_sides,
    }
}

/// Landings are planned, threats are answered, and execution advances.
pub open spec fn execution_stage(
    model: RuntimeModel,
    before: TickWork,
    after: TickWork,
    results: Map<Operation, u64>,
    outcome: Result<TickAction, Stop<RuntimeError>>,
) -> bool {
    let units = execution_units(model, before);
    let sails = model.naval is Some;
    match outcome {
        Ok(TickAction::Naval(asked)) => {
            &&& sails && before.inbox.naval is None
            &&& after == before
            &&& units == Ok::<Seq<ExecutionUnitInput>, RuntimeError>(asked@)
        },
        Ok(TickAction::Execution { units: asked, threats }) => {
            &&& sails ==> before.inbox.naval is Some
            &&& before.inbox.execution is None
            &&& after == before
            &&& units == Ok::<Seq<ExecutionUnitInput>, RuntimeError>(asked@)
            &&& execution_begun(model, before) matches Some(execution) && views(threats@)
                == threats_of(
                results,
                threat_scope(model, before, asked@),
                execution.naval_operations@,
                forces_now(before),
            )
        },
        Ok(TickAction::Moved) => {
            &&& sails ==> before.inbox.naval is Some
            &&& before.inbox.execution is Some
            &&& completed(before, StageEvent::Done, after)
            &&& after == (TickWork {
                step: after.step,
                inbox: after.inbox,
                execution: Some(before.inbox.execution->Some_0.execution),
                outputs: Some(before.inbox.execution->Some_0.outputs),
                execution_counters: Some(before.inbox.execution->Some_0.counters),
                naval: if sails {
                    Some(before.inbox.naval->Some_0.planner)
                } else {
                    before.naval
                },
                naval_counters: if sails {
                    Some(before.inbox.naval->Some_0.counters)
                } else {
                    before.naval_counters
                },
                ..before
            })
        },
        Ok(_) => false,
        Err(Stop::Failed(error)) => after == before && (units == Err::<
            Seq<ExecutionUnitInput>,
            RuntimeError,
        >(error) || (execution_begun(model, before) is None && error
            == RuntimeError::InvalidCheckpoint("tick has nothing to execute"))),
        Err(Stop::Missing(missing)) => lacking(before, after, missing, results) && (
        units matches Ok(read) && execution_begun(model, before) matches Some(execution)
            && !threats_supplied(
            results,
            threat_scope(model, before, read),
            execution.naval_operations@,
            forces_now(before),
        )),
    }
}

pub(crate) fn carry_out(runtime: &NativeRuntime, work: &mut TickWork, sheet: &Worksheet) -> (outcome:
    Result<TickAction, Stop<RuntimeError>>)
    requires
        runtime_sound(held(runtime@)),
        replaces(ground(held(runtime@), *old(work)), held(runtime@).territory),
    ensures
        execution_stage(held(runtime@), *old(work), *final(work), sheet@, outcome),
{
    let parts = runtime.parts();
    let sails = parts.naval_planning.is_some();
    if sails && work.inbox.naval.is_none() {
        return match list_execution_units(runtime, work) {
            Ok(units) => Ok(TickAction::Naval(units)),
            Err(error) => Err(Stop::Failed(error)),
        };
    }
    if work.inbox.execution.is_none() {
        let units = match list_execution_units(runtime, work) {
            Err(error) => {
                return Err(Stop::Failed(error));
            },
            Ok(units) => units,
        };
        let begun: Option<&OperationalExecutionState> = match &work.inbox.naval {
            Some(answer) => if sails {
                Some(&answer.execution)
            } else {
                parts.operational_execution
            },
            None => parts.operational_execution,
        };
        let execution = match begun {
            None => {
                return Err(
                    Stop::Failed(RuntimeError::InvalidCheckpoint("tick has nothing to execute")),
                );
            },
            Some(execution) => execution,
        };
        let mut reader = sheet.reader();
        let threats = defender_threats(
            execution,
            work.operations.as_ref(),
            &units,
            ground_of(&parts, work),
            &parts.diplomacy.hostility,
            parts.territory.max_sides,
            &mut reader,
        );
        if !reader.is_complete() {
            return Err(Stop::Missing(reader.into_missing()));
        }
        return Ok(TickAction::Execution { units, threats });
    }
    let mut carried: Option<ExecutionAnswer> = None;
    core::mem::swap(&mut carried, &mut work.inbox.execution);
    if let Some(ExecutionAnswer { execution, outputs, counters }) = carried {
        work.execution = Some(execution);
        work.outputs = Some(outputs);
        work.execution_counters = Some(counters);
    }
    if sails {
        if let Some(answer) = &work.inbox.naval {
            work.naval = Some(answer.planner);
            work.naval_counters = Some(answer.counters);
        }
    }
    work.close_stage(StageEvent::Done);
    Ok(TickAction::Moved)
}

// ---------------------------------------------------------------------------------------------
// Orders
// ---------------------------------------------------------------------------------------------

/// Whether entries are those by which operations steer.
pub open spec fn steered(
    work: TickWork,
    results: Map<Operation, u64>,
    entries: Option<Seq<SteeringEntry>>,
) -> bool {
    match work.operations {
        None => entries is None,
        Some(operations) => entries matches Some(listed) && exists|
            steering: Seq<OperationalSteering>,
        |
            #![trigger views(steering)]
            listed == Seq::new(steering.len(), |i: int| steering_entry(steering[i])) && views(
                steering,
            ) == stable_sorted(
                steered_forces(
                    results,
                    operations@.task_forces,
                    units_by_id(work.inputs@, work.inputs@.len()),
                    operations@.task_forces.len(),
                ),
                steering_order(),
            ),
    }
}

/// What orders are issued by.
pub open spec fn order_scope(
    model: RuntimeModel,
    work: TickWork,
    results: Map<Operation, u64>,
    entries: Option<Seq<SteeringEntry>>,
) -> OrderScope {
    OrderScope {
        results,
        orders: work.planning->Some_0.orders@,
        assignments: work.planning->Some_0.assignments@,
        counters: work.planning->Some_0.counters,
        steering: entries,
        execution: work.outputs,
        policies: policies_in_force(model, work),
        priors: priors_from(model, work.layout),
        tick: work.step.tick,
    }
}

/// Whether issued orders say what a model says.
pub open spec fn issued_as(issued: IssuedOrders, model: IssuedModel, contacts: Seq<
    crate::runtime::planning::PlanningContact,
>) -> bool {
    &&& issued.planning.orders@ == model.plan.orders
    &&& issued.planning.assignments@ == model.plan.assignments
    &&& issued.planning.counters == model.plan.counters
    &&& issued.planning.contacts@ == contacts
    &&& issued.units@ == model.units
    &&& issued.planned@ == model.planned
    &&& forall|id: u64| #[trigger]
        issued.overridden@.contains(id) == ordered(model.plan.overrides, id)
}

/// Whether a worksheet holds all that issuing orders takes.
pub open spec fn orders_supplied(
    model: RuntimeModel,
    work: TickWork,
    results: Map<Operation, u64>,
) -> bool {
    &&& (work.operations matches Some(operations) ==> steering_supplied(
        results,
        operations@.task_forces,
        units_by_id(work.inputs@, work.inputs@.len()),
    ))
    &&& forall|entries: Option<Seq<SteeringEntry>>| #[trigger]
        steered(work, results, entries) ==> issue_supplied(
            order_scope(model, work, results, entries),
            work.units@,
        )
}

/// Orders are issued.
pub open spec fn orders_stage(
    model: RuntimeModel,
    before: TickWork,
    after: TickWork,
    results: Map<Operation, u64>,
    outcome: Result<TickAction, Stop<RuntimeError>>,
) -> bool {
    match outcome {
        Ok(TickAction::Moved) => {
            &&& before.planning is Some
            &&& completed(before, StageEvent::Done, after)
            &&& after == (TickWork {
                step: after.step,
                inbox: after.inbox,
                issued: after.issued,
                units: after.units,
                strengths: None,
                ..before
            })
            &&& after.issued matches Some(issued) && after.units@ == issued.units@ && exists|
                entries: Option<Seq<SteeringEntry>>,
            | #[trigger]
                steered(before, results, entries) && (orders_issued(
                    order_scope(model, before, results, entries),
                    before.units@,
                ) matches Ok(expected) && issued_as(
                    issued,
                    expected,
                    before.planning->Some_0.contacts@,
                ))
        },
        Ok(_) => false,
        Err(Stop::Failed(error)) => after == before && (match before.planning {
            None => error == RuntimeError::InvalidCheckpoint("tick has no plan"),
            Some(planning) => {
                ||| planning.counters.hold_orders + before.units@.len() > usize::MAX && error
                    == RuntimeError::ClockOverflow
                ||| exists|entries: Option<Seq<SteeringEntry>>| #[trigger]
                    steered(before, results, entries) && orders_issued(
                        order_scope(model, before, results, entries),
                        before.units@,
                    ) == Err::<IssuedModel, RuntimeError>(error)
            },
        }),
        Err(Stop::Missing(missing)) => lacking(before, after, missing, results)
            && !orders_supplied(model, before, results),
    }
}

fn list_steering(work: &TickWork, sheet: &Worksheet) -> (outcome: Result<
    Option<Vec<SteeringEntry>>,
    Vec<Operation>,
>)
    ensures
        match outcome {
            Ok(entries) => steered(
                *work,
                sheet@,
                match entries {
                    Some(listed) => Some(listed@),
                    None => None,
                },
            ),
            Err(missing) => missing@.len() > 0 && crate::worksheet::all_missing(missing@, sheet@)
                && (work.operations matches Some(operations) && !steering_supplied(
                sheet@,
                operations@.task_forces,
                units_by_id(work.inputs@, work.inputs@.len()),
            )),
        },
{
    match &work.operations {
        None => Ok(None),
        Some(operations) => match operations.steering(work.inputs.as_slice(), sheet) {
            Err(missing) => Err(missing),
            Ok(steering) => {
                let listed = steering_entries(&steering);
                proof {
                    let all = steering@;
                    assert(listed@ =~= Seq::new(all.len(), |i: int| steering_entry(all[i])));
                    assert(views(all) == views(steering@));
                }
                Ok(Some(listed))
            },
        },
    }
}

fn copy_plan(planning: &AiPlanningResult) -> (copy: AiPlanningResult)
    ensures
        copy.orders@ == planning.orders@,
        copy.assignments@ == planning.assignments@,
        copy.contacts@ == planning.contacts@,
        copy.counters == planning.counters,
{
    AiPlanningResult {
        orders: copy_all(planning.orders.as_slice()),
        assignments: copy_all(planning.assignments.as_slice()),
        contacts: copy_all(planning.contacts.as_slice()),
        counters: planning.counters,
    }
}

#[verifier::rlimit(40)]
pub(crate) fn send_orders(runtime: &NativeRuntime, work: &mut TickWork, sheet: &Worksheet) -> (
    outcome: Result<TickAction, Stop<RuntimeError>>)
    ensures
        orders_stage(held(runtime@), *old(work), *final(work), sheet@, outcome),
{
    let parts = runtime.parts();
    let planning = match &work.planning {
        None => {
            return Err(Stop::Failed(RuntimeError::InvalidCheckpoint("tick has no plan")));
        },
        Some(planning) => planning,
    };
    if planning.counters.hold_orders > usize::MAX - work.units.len() {
        return Err(Stop::Failed(RuntimeError::ClockOverflow));
    }
    let entries = match list_steering(work, sheet) {
        Err(missing) => {
            return Err(Stop::Missing(missing));
        },
        Ok(entries) => entries,
    };
    let ghost told: Option<Seq<SteeringEntry>> = match &entries {
        Some(listed) => Some(listed@),
        None => None,
    };
    let laid;
    let priors: &BTreeMap<u64, u64> = match &work.layout {
        Some(layout) => {
            laid = front_objectives_by_unit(&layout.next_prior);
            &laid
        },
        None => parts.prior_objective_by_unit,
    };
    let mut reader = sheet.reader();
    let sent = issue_orders(
        copy_plan(planning),
        entries.as_ref(),
        work.outputs.as_ref(),
        copy_all(work.units.as_slice()),
        policies_of(&parts, work),
        priors,
        work.step.tick,
        &mut reader,
    );
    assert(steered(*work, sheet@, told));
    if !reader.is_complete() {
        return Err(Stop::Missing(reader.into_missing()));
    }
    match sent {
        Err(error) => Err(Stop::Failed(error)),
        Ok(issued) => {
            work.units = copy_all(issued.units.as_slice());
            work.strengths = None;
            work.issued = Some(issued);
            work.close_stage(StageEvent::Done);
            Ok(TickAction::Moved)
        },
    }
}

// ---------------------------------------------------------------------------------------------
// Directions
// ---------------------------------------------------------------------------------------------

/// What the battlefield is told of directions.
pub open spec fn bending_inputs(work: TickWork) -> Result<
    Seq<BattlefieldDirectionInput>,
    RuntimeError,
> {
    let issued = work.issued->Some_0;
    let field = work.field->Some_0;
    collected(
        direction_inputs_of(
            issued.planning.orders@,
            issued.planning.assignments@,
            policies_view(field.policies@),
            field.resolved_by_id@,
            issued.planned@,
            issued.overridden@,
        ),
        issued.planning.orders@.len(),
    )
}

/// Formations as they enter combat on a battlefield.
pub open spec fn readied(work: TickWork) -> Result<Seq<SimulationUnit>, RuntimeError> {
    let field = work.field->Some_0;
    if !policies_cover(policies_view(field.policies@), work.units@) {
        Err(RuntimeError::InvalidCheckpoint("planning policy omitted a live unit"))
    } else {
        collected(
            prepared_units(
                work.units@,
                policies_view(field.policies@),
                field.resolved_by_id@,
                field.local_by_id@,
                field.ally_weight_by_id@,
                work.step.tick,
            ),
            work.units@.len(),
        )
    }
}

/// Orders as the battlefield bent them.
pub open spec fn bent(work: TickWork) -> Result<Seq<ResolvedUnitOrder>, RuntimeError> {
    let orders = work.issued->Some_0.planning.orders@;
    collected(bent_orders(orders, work.inbox.directions->Some_0@), orders.len())
}

/// The battlefield bends directions, and formations take over what it resolved.
pub open spec fn directions_stage(
    before: TickWork,
    after: TickWork,
    outcome: Result<TickAction, Stop<RuntimeError>>,
) -> bool {
    let complete = before.issued is Some && before.field is Some;
    match outcome {
        Ok(TickAction::Directions(asked)) => {
            &&& complete
            &&& before.inbox.directions is None
            &&& after == before
            &&& bending_inputs(before) == Ok::<Seq<BattlefieldDirectionInput>, RuntimeError>(asked@)
        },
        Ok(TickAction::Moved) => {
            &&& complete
            &&& before.inbox.directions is Some
            &&& completed(before, StageEvent::Done, after)
            &&& after == (TickWork {
                step: after.step,
                inbox: after.inbox,
                issued: after.issued,
                units: after.units,
                strengths: None,
                ..before
            })
            &&& readied(before) == Ok::<Seq<SimulationUnit>, RuntimeError>(after.units@)
            &&& after.issued matches Some(issued) && {
                &&& bent(before) == Ok::<Seq<ResolvedUnitOrder>, RuntimeError>(
                    issued.planning.orders@,
                )
                &&& issued == (IssuedOrders {
                    planning: AiPlanningResult {
                        orders: issued.planning.orders,
                        ..before.issued->Some_0.planning
                    },
                    ..before.issued->Some_0
                })
            }
        },
        Ok(_) => false,
        Err(Stop::Failed(error)) => after == before && (if !complete {
            error == RuntimeError::InvalidCheckpoint("tick has no orders to bend")
        } else if before.inbox.directions is None {
            bending_inputs(before) == Err::<Seq<BattlefieldDirectionInput>, RuntimeError>(error)
        } else {
            ||| bent(before) == Err::<Seq<ResolvedUnitOrder>, RuntimeError>(error)
            ||| bent(before) is Ok && readied(before) == Err::<Seq<SimulationUnit>, RuntimeError>(
                error,
            )
        }),
        Err(Stop::Missing(_)) => false,
    }
}

fn covers_all(policies: &BTreeMap<u64, RuntimeUnitPolicy>, units: &Vec<SimulationUnit>) -> (answer:
    bool)
    ensures
        answer == policies_cover(policies_view(policies@), units@),
{
    broadcast use vstd::std_specs::btree::group_btree_axioms;

    let mut at: usize = 0;
    while at < units.len()
        invariant
            at <= units@.len(),
            forall|i: int|
                0 <= i < at ==> policies_view(policies@).contains_key(
                    (#[trigger] units@[i]).combat.id,
                ),
        decreases units@.len() - at,
    {
        broadcast use vstd::std_specs::btree::group_btree_axioms;

        if !policies.contains_key(&units[at].combat.id) {
            assert(!policies_view(policies@).contains_key(units@[at as int].combat.id));
            return false;
        }
        at = at + 1;
    }
    true
}

pub(crate) fn bend_directions(work: &mut TickWork) -> (outcome: Result<
    TickAction,
    Stop<RuntimeError>,
>)
    ensures
        directions_stage(*old(work), *final(work), outcome),
{
    if work.issued.is_none() || work.field.is_none() {
        return Err(Stop::Failed(RuntimeError::InvalidCheckpoint("tick has no orders to bend")));
    }
    let mut turned: Vec<ResolvedUnitOrder> = Vec::new();
    let mut ready: Vec<SimulationUnit> = Vec::new();
    if let Some(issued) = &work.issued {
        if let Some(field) = &work.field {
            match &work.inbox.directions {
                None => {
                    return match direction_inputs(
                        &issued.planning.orders,
                        &issued.planning.assignments,
                        &field.policies,
                        &field.resolved_by_id,
                        &issued.planned,
                        &issued.overridden,
                    ) {
                        Ok(inputs) => Ok(TickAction::Directions(inputs)),
                        Err(error) => Err(Stop::Failed(error)),
                    };
                },
                Some(directions) => {
                    match apply_directions(&issued.planning.orders, directions) {
                        Err(error) => {
                            return Err(Stop::Failed(error));
                        },
                        Ok(orders) => {
                            turned = orders;
                        },
                    }
                },
            }
            if !covers_all(&field.policies, &work.units) {
                return Err(
                    Stop::Failed(
                        RuntimeError::InvalidCheckpoint("planning policy omitted a live unit"),
                    ),
                );
            }
            match prepare_units(
                &work.units,
                &field.policies,
                &field.resolved_by_id,
                &field.local_by_id,
                &field.ally_weight_by_id,
                work.step.tick,
            ) {
                Err(error) => {
                    return Err(Stop::Failed(error));
                },
                Ok(units) => {
                    ready = units;
                },
            }
        }
    }
    let mut slot: Option<IssuedOrders> = None;
    core::mem::swap(&mut slot, &mut work.issued);
    if let Some(mut issued) = slot {
        issued.planning.orders = turned;
        work.issued = Some(issued);
    }
    work.units = ready;
    work.strengths = None;
    work.close_stage(StageEvent::Done);
    Ok(TickAction::Moved)
}

// ---------------------------------------------------------------------------------------------
// Combat
// ---------------------------------------------------------------------------------------------

/// Formations move and fight.
pub open spec fn simulation_stage(
    model: RuntimeModel,
    before: TickWork,
    after: TickWork,
    outcome: Result<TickAction, Stop<RuntimeError>>,
) -> bool {
    match outcome {
        Ok(TickAction::Combat { orders, inactive }) => {
            &&& before.inbox.combat is None
            &&& after == before
            &&& before.issued matches Some(issued) && orders@ == issued.planning.orders@
            &&& inactive@ == stable_sorted(
                waiting_units(
                    before.units@,
                    policies_in_force(model, before),
                    before.step.tick,
                    before.units@.len(),
                ),
                rank_order::<u64>(),
            )
        },
        Ok(TickAction::Moved) => {
            &&& before.inbox.combat is Some
            &&& accounted(
                before.units@,
                before.inbox.combat->Some_0.units@,
                before.inbox.combat->Some_0.frame.removed_ids@,
            )
            &&& completed(before, StageEvent::Done, after)
            &&& after == (TickWork {
                step: after.step,
                inbox: after.inbox,
                units: before.inbox.combat->Some_0.units,
                frame: Some(before.inbox.combat->Some_0.frame),
                counters: Some(before.inbox.combat->Some_0.counters),
                strengths: None,
                ..before
            })
        },
        Ok(_) => false,
        Err(Stop::Failed(error)) => after == before && match before.inbox.combat {
            None => before.issued is None && error == RuntimeError::InvalidCheckpoint(
                "tick has no orders to fight by",
            ),
            Some(fought) => !accounted(before.units@, fought.units@, fought.frame.removed_ids@)
                && error == RuntimeError::InvalidCheckpoint(
                "combat does not account for every formation",
            ),
        },
        Err(Stop::Missing(_)) => false,
    }
}

pub(crate) fn move_and_fight(runtime: &NativeRuntime, work: &mut TickWork) -> (outcome: Result<
    TickAction,
    Stop<RuntimeError>,
>)
    ensures
        simulation_stage(held(runtime@), *old(work), *final(work), outcome),
{
    if work.inbox.combat.is_none() {
        let parts = runtime.parts();
        let issued = match &work.issued {
            None => {
                return Err(
                    Stop::Failed(
                        RuntimeError::InvalidCheckpoint("tick has no orders to fight by"),
                    ),
                );
            },
            Some(issued) => issued,
        };
        let orders = copy_all(issued.planning.orders.as_slice());
        let inactive = inactive_units(&work.units, policies_of(&parts, work), work.step.tick);
        return Ok(TickAction::Combat { orders, inactive });
    }
    if let Some(fought) = &work.inbox.combat {
        if !accounts_for_all(&work.units, &fought.units, &fought.frame.removed_ids) {
            return Err(
                Stop::Failed(
                    RuntimeError::InvalidCheckpoint("combat does not account for every formation"),
                ),
            );
        }
    }
    let mut fought: Option<CombatAnswer> = None;
    core::mem::swap(&mut fought, &mut work.inbox.combat);
    if let Some(CombatAnswer { units, frame, counters }) = fought {
        work.units = units;
        work.frame = Some(frame);
        work.counters = Some(counters);
    }
    work.strengths = None;
    work.close_stage(StageEvent::Done);
    Ok(TickAction::Moved)
}

/// A tactical tick accounts for every formation with which it began, so a runtime takes in what it
/// comes to.
pub proof fn tactical_ticks_are_accounted_for(
    began: Seq<SimulationUnit>,
    tick: Tick<'_>,
    units: Seq<SimulationUnit>,
    removed: Seq<u64>,
)
    requires
        tick.well_formed(units),
        began.len() == tick.tactical@.len(),
        forall|i: int|
            0 <= i < began.len() ==> (#[trigger] began[i]).combat.id == tick.tactical@[i].id,
        permutation(ids_of(casualties(units)), removed),
    ensures
        accounted(began, survivors(units), removed),
{
    let left = survivors(units);
    let gone = ids_of(casualties(units));
    lemma_permutation_contains(gone, removed);
    assert forall|id: u64|
        #![trigger is_live(left, id)]
        #![trigger gone.contains(id)]
        is_live(began, id) == (is_live(left, id) || gone.contains(id)) && !(is_live(left, id)
            && gone.contains(id)) by {
        a_tick_accounts_for_every_formation(tick, units, id);
        if is_live(left, id) {
            let k = choose|k: int| 0 <= k < left.len() && (#[trigger] left[k]).combat.id == id;
            assert(ids_of(left)[k] == id);
        }
        if ids_of(left).contains(id) {
            let k = choose|k: int| 0 <= k < left.len() && ids_of(left)[k] == id;
            assert(left[k].combat.id == id);
        }
        if is_live(began, id) {
            let k = choose|k: int| 0 <= k < began.len() && (#[trigger] began[k]).combat.id == id;
            assert(tick.tactical@[k].id == id);
        }
        if exists|i: int| 0 <= i < tick.tactical@.len() && (#[trigger] tick.tactical@[i]).id == id {
            let k = choose|i: int|
                0 <= i < tick.tactical@.len() && (#[trigger] tick.tactical@[i]).id == id;
            assert(began[k].combat.id == id);
        }
    }
    assert forall|i: int| 0 <= i < began.len() implies is_live(
        left,
        (#[trigger] began[i]).combat.id,
    ) != removed.contains(began[i].combat.id) by {
        assert(is_live(began, began[i].combat.id));
    }
    assert forall|i: int| 0 <= i < left.len() implies is_live(
        began,
        (#[trigger] left[i]).combat.id,
    ) by {
        assert(is_live(left, left[i].combat.id));
    }
    assert forall|i: int| 0 <= i < removed.len() implies is_live(began, #[trigger] removed[i]) by {
        assert(gone.contains(removed[i]));
    }
    lemma_survivors_distinct(units);
    assert forall|i: int, j: int|
        #![trigger left[i], left[j]]
        0 <= i < j < left.len() implies left[i].combat.id != left[j].combat.id by {
        assert(left[i].sort_key() != left[j].sort_key());
    }
}

} // verus!
