//! What the stages of a tick take over from the answers that they get, and what they leave alone.

use vstd::prelude::*;
use crate::operations::operations_fault;
use crate::order::{lemma_permutation_contains, permutation};
use crate::runtime::aftermath::CountedTick;
use crate::runtime::campaign::{
    claimed_now, fronts_stage, operations_stage, planning_stage, replanning_stage,
};
use crate::runtime::clash::{
    census_fits, census_progress, census_stage, gone_otherwise, losses_counted, losses_stage,
    missiles_stage, next_impact,
};
use crate::runtime::dynamics::DynamicsDirective;
use crate::runtime::effects::CensusProgress;
use crate::runtime::losses::exiled;
use crate::runtime::native::RuntimeModel;
use crate::runtime::opening::{intelligence_stage, momentum_sides, momentum_stage};
use crate::runtime::skirmish::{
    air_commands, air_stage, attrition_stage, exile_scope, exile_stage, stays, wear,
};
use crate::runtime::spreading::{influence_stage, late_influence_stage};
use crate::runtime::stages::tick_scope;
use crate::runtime::tick::{CensusAnswer, TickAction, TickWork};
use crate::simulation::snapshots_of;
use crate::worksheet::Operation;

verus! {

/// A stage that judges the sides takes over what it was answered, and nothing else changes hands.
pub proof fn sides_are_as_they_were_judged(
    model: RuntimeModel,
    before: TickWork,
    after: TickWork,
    results: Map<Operation, u64>,
)
    requires
        momentum_stage(model, before, after, results, Ok(TickAction::Moved)),
    ensures
        after.dynamics == before.inbox.momentum,
        after.dynamics is Some,
        after.units == before.units,
        after.territory == before.territory,
        after.operations == before.operations,
        after.inbox.momentum is None,
{
}

/// What is asked about the sides is asked of each of them once, with a directive for each.
pub proof fn every_side_is_judged(
    model: RuntimeModel,
    before: TickWork,
    after: TickWork,
    results: Map<Operation, u64>,
    sides: Vec<usize>,
    directives: Vec<DynamicsDirective>,
)
    requires
        momentum_stage(
            model,
            before,
            after,
            results,
            Ok(TickAction::Momentum { sides, directives }),
        ),
    ensures
        after == before,
        before.inbox.momentum is None,
        before.strengths is Some,
        directives@.len() == sides@.len(),
        sides@ == momentum_sides(model),
{
}

/// Intelligence grows older in place: there are operations behind the stage just where there were
/// some, and formations and territory stay.
pub proof fn intelligence_only_ages(
    model: RuntimeModel,
    before: TickWork,
    after: TickWork,
    results: Map<Operation, u64>,
)
    requires
        intelligence_stage(model, before, after, results, Ok(TickAction::Moved)),
    ensures
        after.operations is Some <==> model.operations is Some,
        after.units == before.units,
        after.territory == before.territory,
        after.dynamics == before.dynamics,
        after.operations matches Some(aged) ==> {
            &&& aged@.task_forces == model.operations->Some_0.task_forces
            &&& aged@.sides.len() == model.operations->Some_0.sides.len()
            &&& aged@.override_events == model.operations->Some_0.override_events
        },
{
}

/// Influence that spread leaves the territory that the answer holds, and tells of as many sources
/// as were asked with.
pub proof fn influence_leaves_the_answered_territory(
    model: RuntimeModel,
    before: TickWork,
    after: TickWork,
    results: Map<Operation, u64>,
)
    ensures
        influence_stage(model, before, after, results, Ok(TickAction::Moved)) ==> {
            &&& before.inbox.influence matches Some(answer) && after.territory == Some(
                answer.territory,
            )
            &&& after.influence matches Some(told) && {
                &&& told.applied == before.inbox.influence->Some_0.applied
                &&& told.schedule is Some <==> before.step.facts.spreading
                &&& !before.step.facts.spreading ==> told.diffusion.processed_items == 0
                    && told.diffusion.stale_entries == 0 && told.diffusion.budget == 0
                &&& before.step.facts.spreading ==> told.diffusion.processed_items
                    == before.inbox.influence->Some_0.processed_items
                    && told.diffusion.stale_entries
                    == before.inbox.influence->Some_0.stale_entries
            }
            &&& after.units == before.units
        },
        late_influence_stage(model, before, after, results, Ok(TickAction::Moved)) ==> {
            &&& before.inbox.influence matches Some(answer) && after.territory == Some(
                answer.territory,
            )
            &&& after.influence matches Some(told) && {
                &&& told.applied == before.inbox.influence->Some_0.applied
                &&& told.schedule is None
                &&& told.diffusion.processed_items == 0
                &&& told.diffusion.budget == 0
            }
            &&& after.units == before.units
        },
{
}

/// Wings that flew are as they were answered. Where they hit somebody, the formations are those
/// that the damage left and their strengths are to be asked for again; where they hit nobody, the
/// formations stay.
pub proof fn wings_hurt_whom_they_hit(
    model: RuntimeModel,
    before: TickWork,
    after: TickWork,
    results: Map<Operation, u64>,
)
    requires
        air_stage(model, before, after, results, Ok(TickAction::Moved)),
    ensures
        before.inbox.air matches Some(answer) && after.air == Some(answer.air)
            && after.air_outcome == Some(answer.outcome),
        air_commands(results, before.inbox.air->Some_0.outcome).len() == 0 ==> after.units
            == before.units && after.strengths == before.strengths && after.air_damage
            == before.air_damage,
        air_commands(results, before.inbox.air->Some_0.outcome).len() > 0 ==> {
            &&& before.inbox.damage matches Some(hurt) && after.units == hurt.units
                && after.air_damage == Some(hurt.outcome)
            &&& after.strengths is None
        },
        after.territory == before.territory,
        after.exiled == before.exiled,
{
}

/// Formations that go into exile are no longer there, all others are, nothing is left of the
/// numbers that were drawn for them, and strengths are to be asked for again.
pub proof fn exile_takes_whom_it_names(
    model: RuntimeModel,
    before: TickWork,
    after: TickWork,
    results: Map<Operation, u64>,
    at: int,
)
    requires
        exile_stage(model, before, after, results, Ok(TickAction::Moved)),
    ensures
        0 <= at < after.units@.len() ==> before.units@.contains(after.units@[at])
            && !after.exiled@.contains(after.units@[at].combat.id),
        0 <= at < before.units@.len() && !after.exiled@.contains(before.units@[at].combat.id)
            ==> after.units@.contains(before.units@[at]),
        after.draws@.len() == 0,
        after.strengths is None,
        after.reserves is Some,
        after.territory == before.territory,
        after.air == before.air,
{
    let exile = exiled(exile_scope(model, before, results), model.reserves)->Ok_0;
    let loyal = stays(exile.unit_ids);
    assert(after.units@ == before.units@.filter(loyal));
    broadcast use vstd::seq_lib::group_filter_ensures;
    if 0 <= at < after.units@.len() {
        before.units@.lemma_filter_pred(loyal, at);
        assert(before.units@.filter(loyal).contains(after.units@[at]));
        before.units@.lemma_filter_contains_rev(loyal, after.units@[at]);
    }
    if 0 <= at < before.units@.len() && !after.exiled@.contains(before.units@[at].combat.id) {
        assert(loyal(before.units@[at]));
        before.units@.lemma_filter_contains(loyal, at);
    }
}

/// Lack of supply changes formations only where it wears some of them down.
pub proof fn supply_wears_whom_it_fails(before: TickWork, after: TickWork)
    requires
        attrition_stage(before, after, Ok(TickAction::Moved)),
    ensures
        wear(before).len() == 0 ==> after.units == before.units && after.attrition
            == before.attrition && after.strengths == before.strengths,
        wear(before).len() > 0 ==> {
            &&& before.inbox.damage matches Some(hurt) && after.units == hurt.units
                && after.attrition == Some(hurt.outcome)
            &&& after.strengths is None
        },
        before.field is None ==> wear(before).len() == 0,
        after.air_damage == before.air_damage,
        after.territory == before.territory,
{
}

/// Missiles that flew come with the generator they left behind and with their impacts, none of
/// which is done yet.
pub proof fn missiles_fly_before_they_strike(
    before: TickWork,
    after: TickWork,
    results: Map<Operation, u64>,
)
    requires
        missiles_stage(before, after, results, Ok(TickAction::Moved)),
        before.missile_report is None,
    ensures
        before.inbox.missiles matches Some(answer) && {
            &&& after.missiles == Some(answer.missiles)
            &&& after.rng == answer.rng
            &&& after.missile_report == Some(answer.report)
            &&& after.impacts_due == answer.impacts
        },
        after.impacts_done == 0,
        after.units == before.units,
        after.step == before.step,
{
}

/// Impacts are done one by one, in their order. One that finds nobody hurts nobody; one that finds
/// somebody leaves the formations that the damage left, and is remembered behind those before it.
pub proof fn impacts_strike_one_by_one(
    before: TickWork,
    after: TickWork,
    results: Map<Operation, u64>,
)
    requires
        missiles_stage(before, after, results, Ok(TickAction::Moved)),
        before.missile_report is Some,
        before.impacts_done < before.impacts_due@.len(),
    ensures
        after.impacts_done == before.impacts_done + 1,
        after.impacts_due == before.impacts_due,
        after.step == before.step,
        next_impact(before).len() == 0 ==> after.units == before.units && after.impacts
            == before.impacts,
        next_impact(before).len() > 0 ==> {
            &&& before.inbox.damage matches Some(hurt) && after.units == hurt.units
                && after.impacts@ == before.impacts@.push(hurt.outcome)
            &&& after.strengths is None
        },
{
    let due: usize = before.impacts_due.len();
    assert(due == before.impacts_due@.len());
}

/// Once every impact is done the stage ends, and formations stay as they are.
pub proof fn missiles_end_with_the_last_impact(
    before: TickWork,
    after: TickWork,
    results: Map<Operation, u64>,
)
    requires
        missiles_stage(before, after, results, Ok(TickAction::Moved)),
        before.missile_report is Some,
        before.impacts_done >= before.impacts_due@.len(),
    ensures
        after.units == before.units,
        after.impacts == before.impacts,
        before.impacts@.len() == 0 ==> after.frame == before.frame,
        before.impacts@.len() > 0 ==> (after.frame matches Some(frame) && frame.events
            == before.frame->Some_0.events && frame.tick == before.frame->Some_0.tick
            && frame.removed_ids == before.frame->Some_0.removed_ids && frame.units@.len()
            == before.units@.len()),
{
    if before.impacts@.len() > 0 {
        let shown = after.frame->Some_0.units@;
        let made = snapshots_of(results, before.units@, before.step.tick);
        assert(permutation(made, shown));
        lemma_permutation_contains(made, shown);
    }
}

/// A frame that is counted tells of each formation that is gone, by combat or otherwise, once, and
/// of no other, and counts as many as it tells of.
pub proof fn counted_frames_tell_who_is_gone(
    model: RuntimeModel,
    work: TickWork,
    results: Map<Operation, u64>,
    counted: CountedTick,
    id: u64,
)
    requires
        work.frame is Some,
        work.counters is Some,
        losses_counted(model, work, results, counted),
    ensures
        counted.frame.events@ == work.frame->Some_0.events@,
        counted.frame.units@ == work.frame->Some_0.units@,
        counted.frame.tick == work.frame->Some_0.tick,
        work.frame->Some_0.removed_ids@.contains(id) ==> counted.frame.removed_ids@.contains(id),
        work.exiled@.contains(id) ==> counted.frame.removed_ids@.contains(id),
        work.attrition matches Some(worn) && worn.removed_ids@.contains(id)
            ==> counted.frame.removed_ids@.contains(id),
        work.air_damage matches Some(hit) && hit.removed_ids@.contains(id)
            ==> counted.frame.removed_ids@.contains(id),
        counted.frame.removed_ids@.contains(id) && !work.frame->Some_0.removed_ids@.contains(id)
            ==> gone_otherwise(work, id),
        work.air_damage is None && work.exiled@.len() == 0 && work.attrition is None
            && work.impacts@.len() == 0 ==> counted.counters == work.counters->Some_0
            && counted.frame.removed_ids@ == work.frame->Some_0.removed_ids@,
{
}

/// Sides that feel losses are as they were answered; sides that nobody judges feel none.
pub proof fn losses_are_felt_by_judged_sides(
    model: RuntimeModel,
    before: TickWork,
    after: TickWork,
    results: Map<Operation, u64>,
)
    requires
        losses_stage(model, before, after, results, Ok(TickAction::Moved)),
    ensures
        before.counted is None ==> after.counted is Some && after.dynamics == before.dynamics
            && after.step == before.step,
        before.counted is Some && before.dynamics is Some ==> after.dynamics
            == before.inbox.momentum && after.dynamics is Some,
        before.counted is Some && before.dynamics is None ==> after.dynamics is None,
        before.counted is Some ==> after.counted == before.counted,
        after.units == before.units,
{
}

/// A census counts its steps and its items up, and remembers that it was committed.
pub proof fn censuses_add_up(progress: CensusProgress, answer: CensusAnswer)
    requires
        census_fits(progress, answer),
    ensures
        answer.counted is None ==> census_progress(progress, answer) == progress,
        answer.counted matches Some(result) ==> {
            let next = census_progress(progress, answer);
            &&& next.steps == progress.steps + 1
            &&& next.processed_items == progress.processed_items + result.processed_items
            &&& next.committed <==> progress.committed || result.committed
        },
{
}

/// A census that ended hands on the snapshot that was answered; one that goes on keeps its
/// progress and asks anew.
pub proof fn censuses_end_with_a_snapshot(
    model: RuntimeModel,
    before: TickWork,
    after: TickWork,
    items: usize,
)
    ensures
        census_stage(model, before, after, Ok(TickAction::Moved)) ==> {
            &&& before.inbox.census matches Some(answer) && after.snapshot == Some(answer.snapshot)
                && after.schema == Some(answer.schema)
            &&& after.census_counters is Some
            &&& after.units == before.units
        },
        census_stage(model, before, after, Ok(TickAction::Census(items))) ==> {
            &&& before.inbox.census is Some
            &&& after.inbox.census is None
            &&& after.step == before.step
            &&& after.snapshot == before.snapshot
        },
{
}

/// Fronts are laid out, and orders given, as they were answered.
pub proof fn plans_are_taken_as_answered(model: RuntimeModel, before: TickWork, after: TickWork)
    ensures
        fronts_stage(model, before, after, Ok(TickAction::Moved)) ==> after.layout
            == before.inbox.layout && after.layout is Some && after.planning == before.planning,
        planning_stage(model, before, after, Ok(TickAction::Moved)) ==> after.planning
            == before.inbox.plan && after.planning is Some && after.layout == before.layout
            && after.claimed@ == claimed_now(model, before),
        replanning_stage(model, before, after, Ok(TickAction::Moved)) && claimed_now(
            model,
            before,
        ) == before.claimed@ ==> after.planning == before.planning && after.layout
            == before.layout,
        replanning_stage(model, before, after, Ok(TickAction::Moved)) && claimed_now(
            model,
            before,
        ) != before.claimed@ ==> after.planning == before.inbox.plan && after.planning is Some
            && (before.step.facts.fronts_due ==> after.layout == before.inbox.layout)
            && (!before.step.facts.fronts_due ==> after.layout == before.layout),
{
}

/// Operations that advance are accepted operations, and formations stay where they are.
pub proof fn operations_advance_to_accepted_ones(
    model: RuntimeModel,
    before: TickWork,
    after: TickWork,
    results: Map<Operation, u64>,
)
    requires
        operations_stage(model, before, after, results, Ok(TickAction::Moved)),
    ensures
        before.operations is Some,
        before.planning is Some,
        after.operations matches Some(operations) && operations_fault(
            operations@,
            tick_scope(
                operations@,
                after.inputs@,
                model.scenario.countries@,
                model.territory.max_sides,
                before.step.tick,
            ),
        ) is None,
        after.units == before.units,
        after.planning == before.planning,
{
}

} // verus!
