//! How a tick opens: intelligence ages, sides are judged, the battlefield is resolved and influence
//! spreads.

use std::collections::BTreeMap;
use vstd::prelude::*;
use crate::operations::{
    aged_side, belongs_from, force_key, has_member, sides_supplied, OperationsModel,
};
use crate::order::collected;
use crate::runtime::battlefield::BattlefieldRuntimeState;
use crate::runtime::dynamics::{
    directive_for, directives_supplied, stage_side_dynamics, strength_fault, DynamicsScope,
};
use crate::runtime::error::RuntimeError;
use crate::runtime::native::{held, runtime_sound, NativeRuntime, RuntimeModel};
use crate::runtime::step::StageEvent;
use crate::runtime::tactics::{
    ally_weights, apply_battlefield_results, battlefield_inputs, battlefield_local_inputs,
    battlefield_resolved, battlefield_unit_inputs, field_supplied, health_supplied, local_called,
    local_inputs, BattlefieldLocalUnitInput, BattlefieldModel, BattlefieldScope,
    BattlefieldUnitInput,
};
use crate::runtime::tick::{
    completed, ground, ground_of, lacking, replaces, strengths_known, TickAction, TickWork,
};
use crate::runtime::world::{
    enemy_land, enemy_land_supplied, hostile_controlled_land_by_side,
};
use crate::scalar::Real;
use crate::tables::{ascending, ordered_sides};
use crate::worksheet::{Operation, Stop, Worksheet};

verus! {

// ---------------------------------------------------------------------------------------------
// Intelligence
// ---------------------------------------------------------------------------------------------

/// Operations with intelligence of a new tick.
pub open spec fn aged_operations(
    results: Map<Operation, u64>,
    operations: OperationsModel,
    tick: u64,
) -> OperationsModel {
    OperationsModel {
        sides: Seq::new(
            operations.sides.len(),
            |i: int| aged_side(results, operations.sides[i], tick),
        ),
        ..operations
    }
}

/// Intelligence ages.
pub open spec fn intelligence_stage(
    model: RuntimeModel,
    before: TickWork,
    after: TickWork,
    results: Map<Operation, u64>,
    outcome: Result<TickAction, Stop<RuntimeError>>,
) -> bool {
    match outcome {
        Ok(action) => {
            &&& action is Moved
            &&& completed(before, StageEvent::Done, after)
            &&& after == (TickWork {
                step: after.step,
                inbox: after.inbox,
                operations: after.operations,
                ..before
            })
            &&& match model.operations {
                Some(operations) => after.operations matches Some(aged) && aged@
                    == aged_operations(results, operations, before.step.tick),
                None => after.operations is None,
            }
        },
        Err(Stop::Failed(_)) => false,
        Err(Stop::Missing(missing)) => lacking(before, after, missing, results) && (
        model.operations matches Some(operations) && !sides_supplied(
            results,
            operations.sides,
            before.step.tick,
        )),
    }
}

pub(crate) fn age_intelligence(runtime: &NativeRuntime, work: &mut TickWork, sheet: &Worksheet) -> (
    outcome: Result<TickAction, Stop<RuntimeError>>)
    ensures
        intelligence_stage(held(runtime@), *old(work), *final(work), sheet@, outcome),
{
    let parts = runtime.parts();
    match parts.operations {
        None => {
            work.operations = None;
        },
        Some(state) => {
            let mut copy = state.clone();
            match copy.pre_tick(work.step.tick, sheet) {
                Err(missing) => {
                    return Err(Stop::Missing(missing));
                },
                Ok(_) => {},
            }
            work.operations = Some(copy);
        },
    }
    work.close_stage(StageEvent::Done);
    Ok(TickAction::Moved)
}

// ---------------------------------------------------------------------------------------------
// Momentum
// ---------------------------------------------------------------------------------------------

/// What the sides are judged by.
pub open spec fn momentum_scope(model: RuntimeModel, work: TickWork) -> DynamicsScope {
    DynamicsScope {
        tick: work.step.tick,
        sample_due: work.rules.sample_due,
        countries: model.census.countries@,
        country_to_side: model.territory.country_to_side@,
        active_sides: model.active_sides,
        hostility: model.hostility,
        side_count: model.territory.max_sides,
        units: work.units@,
        strengths: work.strengths->Some_0@,
        policies: model.policies,
        operations: match work.operations {
            Some(state) => Some(state@.sides),
            None => None,
        },
    }
}

/// The sides that have a momentum.
pub open spec fn momentum_sides(model: RuntimeModel) -> Seq<usize> {
    match model.dynamics {
        Some(table) => ascending(table.dom()),
        None => Seq::empty(),
    }
}

/// Whether sides are all declared.
pub open spec fn declared(sides: Seq<usize>, side_count: usize) -> bool {
    forall|i: int| 0 <= i < sides.len() ==> #[trigger] sides[i] < side_count
}

/// Every side is judged.
pub open spec fn momentum_stage(
    model: RuntimeModel,
    before: TickWork,
    after: TickWork,
    results: Map<Operation, u64>,
    outcome: Result<TickAction, Stop<RuntimeError>>,
) -> bool {
    let scope = momentum_scope(model, before);
    let sides = momentum_sides(model);
    let fault = if declared(sides, model.territory.max_sides) {
        strength_fault(before.units@, model.policies, model.territory.max_sides, 0)
    } else {
        Some(RuntimeError::InvalidCheckpoint("side dynamics names an undeclared side"))
    };
    match outcome {
        Ok(TickAction::Moved) => {
            &&& before.inbox.momentum is Some
            &&& completed(before, StageEvent::Done, after)
            &&& after == (TickWork {
                step: after.step,
                inbox: after.inbox,
                dynamics: before.inbox.momentum,
                ..before
            })
        },
        Ok(TickAction::Strengths) => before.inbox.momentum is None && !strengths_known(before)
            && after == before,
        Ok(TickAction::Momentum { sides: asked, directives }) => {
            &&& before.inbox.momentum is None
            &&& strengths_known(before)
            &&& after == before
            &&& fault is None
            &&& asked@ == sides
            &&& directives@.len() == sides.len()
            &&& forall|i: int|
                0 <= i < sides.len() ==> #[trigger] directives@[i] == directive_for(
                    results,
                    scope,
                    sides[i],
                )
        },
        Ok(_) => false,
        Err(Stop::Failed(error)) => after == before && fault == Some(error),
        Err(Stop::Missing(missing)) => lacking(before, after, missing, results)
            && !directives_supplied(results, scope, sides),
    }
}

fn all_declared(sides: &Vec<usize>, side_count: usize) -> (answer: bool)
    ensures
        answer == declared(sides@, side_count),
{
    let mut at: usize = 0;
    while at < sides.len()
        invariant
            at <= sides@.len(),
            forall|i: int| 0 <= i < at ==> #[trigger] sides@[i] < side_count,
        decreases sides@.len() - at,
    {
        if sides[at] >= side_count {
            assert(!(sides@[at as int] < side_count));
            return false;
        }
        at = at + 1;
    }
    true
}

pub(crate) fn judge_sides(runtime: &NativeRuntime, work: &mut TickWork, sheet: &Worksheet) -> (
    outcome: Result<TickAction, Stop<RuntimeError>>)
    requires
        runtime_sound(held(runtime@)),
    ensures
        momentum_stage(held(runtime@), *old(work), *final(work), sheet@, outcome),
{
    if work.inbox.momentum.is_some() {
        let mut judged: Option<BTreeMap<usize, crate::runtime::battlefield::SideDynamics>> = None;
        core::mem::swap(&mut judged, &mut work.inbox.momentum);
        work.dynamics = judged;
        work.close_stage(StageEvent::Done);
        return Ok(TickAction::Moved);
    }
    let parts = runtime.parts();
    let strengths = match &work.strengths {
        None => {
            return Ok(TickAction::Strengths);
        },
        Some(strengths) => strengths,
    };
    if strengths.len() != work.units.len() {
        return Ok(TickAction::Strengths);
    }
    let sides: Vec<usize> = match parts.side_dynamics {
        Some(table) => ordered_sides(table),
        None => Vec::new(),
    };
    assert(sides@ =~= momentum_sides(held(runtime@)));
    if !all_declared(&sides, parts.territory.max_sides) {
        return Err(
            Stop::Failed(
                RuntimeError::InvalidCheckpoint("side dynamics names an undeclared side"),
            ),
        );
    }
    let mut reader = sheet.reader();
    let judged = stage_side_dynamics(
        &sides,
        work.step.tick,
        work.rules.sample_due,
        &parts.latest.territory_snapshot,
        &parts.territory.country_to_side,
        &parts.diplomacy.active_sides,
        &parts.diplomacy.hostility,
        parts.territory.max_sides,
        &work.units,
        strengths,
        parts.unit_policies,
        work.operations.as_ref(),
        &mut reader,
    );
    match judged {
        Err(error) => Err(Stop::Failed(error)),
        Ok(directives) => {
            if !reader.is_complete() {
                return Err(Stop::Missing(reader.into_missing()));
            }
            Ok(TickAction::Momentum { sides, directives })
        },
    }
}

// ---------------------------------------------------------------------------------------------
// The battlefield
// ---------------------------------------------------------------------------------------------

/// Whether a table names the task force of every formation that belongs to one.
pub open spec fn keyed(operations: Option<OperationsModel>, keys: Map<u64, u64>) -> bool {
    match operations {
        None => keys == Map::<u64, u64>::empty(),
        Some(state) => {
            &&& forall|unit_id: u64|
                #[trigger] keys.contains_key(unit_id) == belongs_from(state.task_forces, unit_id, 0)
            &&& forall|f: int, unit_id: u64|
                #![trigger has_member(state.task_forces[f].members, unit_id)]
                0 <= f < state.task_forces.len() && has_member(
                    state.task_forces[f].members,
                    unit_id,
                ) && !belongs_from(state.task_forces, unit_id, f + 1) ==> keys[unit_id]
                    == force_key(state.task_forces[f].id)
        },
    }
}

/// What the battlefield is resolved by.
pub open spec fn battlefield_scope(
    model: RuntimeModel,
    work: TickWork,
    results: Map<Operation, u64>,
) -> BattlefieldScope {
    BattlefieldScope {
        results,
        units: work.units@,
        strengths: work.strengths->Some_0@,
        near_city: work.inbox.local->Some_0.near_city@,
        memories: model.battlefield->Some_0.units,
        states: model.battlefield->Some_0.countries,
        countries: model.scenario.countries@,
        territory: ground(model, work),
        hostility: model.hostility,
        dynamics: match work.dynamics {
            Some(table) => Some(table@),
            None => None,
        },
    }
}

/// The battlefield after its results are in.
pub open spec fn battlefield_after(
    model: RuntimeModel,
    work: TickWork,
    weights: Map<u64, Real>,
    results: Map<Operation, u64>,
) -> Result<BattlefieldModel, RuntimeError> {
    battlefield_resolved(
        results,
        work.units@,
        BattlefieldModel {
            policies: model.policies,
            next_unit_state: model.battlefield->Some_0.units,
            resolved_by_id: Map::empty(),
            local_by_id: local_called(
                work.inbox.local->Some_0.units@,
                work.inbox.local->Some_0.units@.len(),
            ),
            ally_weight_by_id: weights,
            influence_eligible: Set::empty(),
        },
        work.step.tick,
        work.inbox.battlefield->Some_0@,
        work.inbox.battlefield->Some_0@.len(),
    )
}

/// Land that enemies of each side control.
pub open spec fn enemy_lands(
    results: Map<Operation, u64>,
    model: RuntimeModel,
    land: Seq<Real>,
) -> bool {
    let side_count = model.territory.max_sides;
    &&& land.len() == side_count
    &&& forall|side: int|
        0 <= side < side_count ==> #[trigger] land[side] == enemy_land(
            results,
            model.census.countries@,
            model.territory.country_to_side@,
            model.hostility,
            side_count,
            side,
            side_count as nat,
        )
}

/// Whether a worksheet holds all that the battlefield takes.
pub open spec fn battlefield_supplied(
    model: RuntimeModel,
    work: TickWork,
    results: Map<Operation, u64>,
) -> bool {
    &&& field_supplied(battlefield_scope(model, work, results))
    &&& health_supplied(results, work.units@)
    &&& enemy_land_supplied(
        results,
        model.census.countries@,
        model.territory.country_to_side@,
        model.hostility,
        model.territory.max_sides,
    )
}

/// The battlefield is resolved: formations are looked around, every formation is resolved, and what
/// came of it is staged.
pub open spec fn battlefield_stage(
    model: RuntimeModel,
    before: TickWork,
    after: TickWork,
    results: Map<Operation, u64>,
    outcome: Result<TickAction, Stop<RuntimeError>>,
) -> bool {
    let scope = battlefield_scope(model, before, results);
    let inputs = collected(battlefield_inputs(scope), before.units@.len());
    let near = before.inbox.local matches Some(local) && local.near_city@.len()
        == before.units@.len();
    match outcome {
        Ok(TickAction::Strengths) => !strengths_known(before) && after == before,
        Ok(TickAction::Local(asked)) => {
            &&& strengths_known(before)
            &&& before.inbox.local is None
            &&& after == before
            &&& exists|keys: Map<u64, u64>| #[trigger]
                keyed(model.operations, keys) && collected(
                    local_inputs(before.units@, before.strengths->Some_0@, model.policies, keys),
                    before.units@.len(),
                ) == Ok::<Seq<BattlefieldLocalUnitInput>, RuntimeError>(asked@)
        },
        Ok(TickAction::Battlefield { inputs: asked, hostile_land }) => {
            &&& strengths_known(before)
            &&& near
            &&& before.inbox.battlefield is None
            &&& after == before
            &&& inputs == Ok::<Seq<BattlefieldUnitInput>, RuntimeError>(asked@)
            &&& enemy_lands(results, model, hostile_land@)
        },
        Ok(TickAction::Moved) => {
            &&& strengths_known(before)
            &&& near
            &&& before.inbox.battlefield is Some
            &&& completed(before, StageEvent::Done, after)
            &&& after == (TickWork {
                step: after.step,
                inbox: after.inbox,
                field: after.field,
                ..before
            })
            &&& after.field matches Some(field) && {
                &&& inputs is Ok
                &&& battlefield_after(
                    model,
                    before,
                    ally_weights(results, inputs->Ok_0, inputs->Ok_0.len()),
                    results,
                ) == Ok::<BattlefieldModel, RuntimeError>(field@)
            }
        },
        Ok(_) => false,
        Err(Stop::Failed(error)) => after == before && (if model.battlefield is None {
            error == RuntimeError::InvalidCheckpoint(
                "live battlefield state disappeared during staging",
            )
        } else if before.inbox.local is None {
            exists|keys: Map<u64, u64>| #[trigger]
                keyed(model.operations, keys) && collected(
                    local_inputs(before.units@, before.strengths->Some_0@, model.policies, keys),
                    before.units@.len(),
                ) == Err::<Seq<BattlefieldLocalUnitInput>, RuntimeError>(error)
        } else if !near {
            error == RuntimeError::InvalidCheckpoint("battlefield tactics omitted a live unit")
        } else {
            ||| inputs == Err::<Seq<BattlefieldUnitInput>, RuntimeError>(error)
            ||| inputs is Ok && before.inbox.battlefield is Some && battlefield_after(
                model,
                before,
                ally_weights(results, inputs->Ok_0, inputs->Ok_0.len()),
                results,
            ) == Err::<BattlefieldModel, RuntimeError>(error)
        }),
        Err(Stop::Missing(missing)) => lacking(before, after, missing, results) && near
            && !battlefield_supplied(model, before, results),
    }
}

fn list_keys(operations: Option<&crate::operations::OperationalRuntimeState>) -> (keys: BTreeMap<
    u64,
    u64,
>)
    ensures
        keyed(
            match operations {
                Some(state) => Some(state@),
                None => None,
            },
            keys@,
        ),
{
    broadcast use vstd::std_specs::btree::group_btree_axioms;

    match operations {
        Some(state) => state.task_force_key_by_unit(),
        None => {
            let keys: BTreeMap<u64, u64> = BTreeMap::new();
            assert(keys@ =~= Map::<u64, u64>::empty());
            keys
        },
    }
}

#[verifier::rlimit(40)]
pub(crate) fn resolve_battlefield(
    runtime: &NativeRuntime,
    work: &mut TickWork,
    sheet: &Worksheet,
) -> (outcome: Result<TickAction, Stop<RuntimeError>>)
    requires
        runtime_sound(held(runtime@)),
        replaces(ground(held(runtime@), *old(work)), held(runtime@).territory),
    ensures
        battlefield_stage(held(runtime@), *old(work), *final(work), sheet@, outcome),
{
    let parts = runtime.parts();
    let ghost given = *work;
    let strengths = match &work.strengths {
        None => {
            return Ok(TickAction::Strengths);
        },
        Some(strengths) => strengths,
    };
    if strengths.len() != work.units.len() {
        return Ok(TickAction::Strengths);
    }
    let state: &BattlefieldRuntimeState = match parts.battlefield {
        None => {
            return Err(
                Stop::Failed(
                    RuntimeError::InvalidCheckpoint(
                        "live battlefield state disappeared during staging",
                    ),
                ),
            );
        },
        Some(state) => state,
    };
    let local = match &work.inbox.local {
        None => {
            let keys = list_keys(parts.operations);
            assert(keyed(held(runtime@).operations, keys@));
            return match battlefield_local_inputs(
                &work.units,
                strengths,
                parts.unit_policies,
                &keys,
            ) {
                Ok(inputs) => Ok(TickAction::Local(inputs)),
                Err(error) => Err(Stop::Failed(error)),
            };
        },
        Some(local) => local,
    };
    if local.near_city.len() != work.units.len() {
        return Err(
            Stop::Failed(RuntimeError::InvalidCheckpoint("battlefield tactics omitted a live unit")),
        );
    }
    let territory = ground_of(&parts, work);
    let mut reader = sheet.reader();
    let resolved = battlefield_unit_inputs(
        &work.units,
        strengths,
        &local.near_city,
        state,
        &parts.scenario.countries,
        territory,
        &parts.diplomacy.hostility,
        work.dynamics.as_ref(),
        &mut reader,
    );
    if !reader.is_complete() {
        return Err(Stop::Missing(reader.into_missing()));
    }
    let (inputs, weights) = match resolved {
        Err(error) => {
            return Err(Stop::Failed(error));
        },
        Ok(resolved) => resolved,
    };
    let answers = match &work.inbox.battlefield {
        None => {
            let hostile_land = hostile_controlled_land_by_side(
                &parts.latest.territory_snapshot,
                &parts.territory.country_to_side,
                &parts.diplomacy.hostility,
                parts.territory.max_sides,
                &mut reader,
            );
            if !reader.is_complete() {
                return Err(Stop::Missing(reader.into_missing()));
            }
            assert(enemy_lands(sheet@, held(runtime@), hostile_land@));
            return Ok(TickAction::Battlefield { inputs, hostile_land });
        },
        Some(answers) => answers,
    };
    let staged = apply_battlefield_results(
        &work.units,
        parts.unit_policies,
        &state.units,
        &local.units,
        answers,
        weights,
        work.step.tick,
        &mut reader,
    );
    if !reader.is_complete() {
        return Err(Stop::Missing(reader.into_missing()));
    }
    match staged {
        Err(error) => Err(Stop::Failed(error)),
        Ok(field) => {
            work.field = Some(field);
            work.close_stage(StageEvent::Done);
            Ok(TickAction::Moved)
        },
    }
}

} // verus!
