//! How a tick goes on from its battlefield to its end: what its stages take over from the answers
//! that they get, what they leave alone, and what they ask.

use std::collections::BTreeMap;
use vstd::prelude::*;
use crate::operations::operations_fault;
use crate::runtime::aftermath::CountedTick;
use crate::runtime::dispatch::{
    directions_stage, execution_begun, execution_stage, orders_stage, simulation_stage,
};
use crate::runtime::effects::SurrenderUnitPosition;
use crate::runtime::execution::{DefenderThreat, ExecutionUnitInput};
use crate::runtime::native::RuntimeModel;
use crate::runtime::opening::battlefield_stage;
use crate::runtime::publication::{publication_stage, tick_report};
use crate::runtime::reign::{effects_asked, frame_settled, strategy_stage};
use crate::runtime::renewal::{
    mobilization_stage, moved_inputs, reactions_stage, recruitment_stage, settlement_stage,
};
use crate::runtime::stages::tick_scope;
use crate::runtime::tick::{answered, ground, TickAction, TickAnswer, TickWork};
use crate::runtime::upkeep::{logistics_stage, pays};
use crate::scalar::Real;
use crate::taskforce::OperationalUnitInput;
use crate::units::ResolvedUnitOrder;
use crate::worksheet::Operation;

verus! {

/// An answer that is no random number, verdict, strength or recruit's command changes the inbox
/// alone.
pub proof fn answers_wait_in_the_inbox(before: TickWork, answer: TickAnswer, after: TickWork)
    requires
        answered(before, answer, after),
    ensures
        after.step == before.step,
        after.units == before.units,
        after.rng == before.rng,
        after.territory == before.territory,
        after.counted == before.counted,
        answer matches TickAnswer::Strengths(given) ==> after.strengths == Some(given)
            && after.inbox == before.inbox,
        !(answer is Strengths) ==> after.strengths == before.strengths,
        answer matches TickAnswer::Draw(given) ==> after.draws@.len() == before.draws@.len() + 1
            && after.draws@.last() == given && after.inbox == before.inbox,
        !(answer is Draw) ==> after.draws == before.draws,
        answer matches TickAnswer::AirVerdict(given) ==> after.verdicts@.len()
            == before.verdicts@.len() + 1 && after.verdicts@.last() == given,
        !(answer is AirVerdict) ==> after.verdicts == before.verdicts,
        answer matches TickAnswer::RecruitCommand(id, given)
            ==> after.recruit_commands@.contains_key(id) && after.recruit_commands@[id] == given,
        !(answer is RecruitCommand) ==> after.recruit_commands == before.recruit_commands,
{
}

/// An answer is found under its own kind, and answers of other kinds stay where they are.
pub proof fn answers_are_found_under_their_kind(
    before: TickWork,
    answer: TickAnswer,
    after: TickWork,
)
    requires
        answered(before, answer, after),
    ensures
        after.inbox.momentum == (match answer {
            TickAnswer::Momentum(given) => Some(given),
            _ => before.inbox.momentum,
        }),
        after.inbox.local == (match answer {
            TickAnswer::Local(given) => Some(given),
            _ => before.inbox.local,
        }),
        after.inbox.battlefield == (match answer {
            TickAnswer::Battlefield(given) => Some(given),
            _ => before.inbox.battlefield,
        }),
        after.inbox.influence == (match answer {
            TickAnswer::Influence(given) => Some(given),
            _ => before.inbox.influence,
        }),
        after.inbox.air == (match answer {
            TickAnswer::Air(given) => Some(given),
            _ => before.inbox.air,
        }),
        after.inbox.damage == (match answer {
            TickAnswer::Damage(given) => Some(given),
            _ => before.inbox.damage,
        }),
        after.inbox.layout == (match answer {
            TickAnswer::Layout(given) => Some(given),
            _ => before.inbox.layout,
        }),
        after.inbox.plan == (match answer {
            TickAnswer::Plan(given) => Some(given),
            _ => before.inbox.plan,
        }),
        after.inbox.naval == (match answer {
            TickAnswer::Naval(given) => Some(given),
            _ => before.inbox.naval,
        }),
        after.inbox.execution == (match answer {
            TickAnswer::Execution(given) => Some(given),
            _ => before.inbox.execution,
        }),
        after.inbox.directions == (match answer {
            TickAnswer::Directions(given) => Some(given),
            _ => before.inbox.directions,
        }),
        after.inbox.combat == (match answer {
            TickAnswer::Combat(given) => Some(given),
            _ => before.inbox.combat,
        }),
        after.inbox.missiles == (match answer {
            TickAnswer::Missiles(given) => Some(given),
            _ => before.inbox.missiles,
        }),
        after.inbox.census == (match answer {
            TickAnswer::Census(given) => Some(given),
            _ => before.inbox.census,
        }),
        after.inbox.cycle == (match answer {
            TickAnswer::Cycle(given) => Some(given),
            _ => before.inbox.cycle,
        }),
        after.inbox.consequences == (match answer {
            TickAnswer::Consequences(given) => Some(given),
            _ => before.inbox.consequences,
        }),
        after.inbox.effects == (match answer {
            TickAnswer::Effects(given) => Some(given),
            _ => before.inbox.effects,
        }),
        after.inbox.commands == (match answer {
            TickAnswer::Commands(given) => Some(given),
            _ => before.inbox.commands,
        }),
        after.inbox.committed == (match answer {
            TickAnswer::CommitCycle(given) => Some(given),
            _ => before.inbox.committed,
        }),
        after.inbox.treasury == (match answer {
            TickAnswer::Treasury(given) => Some(given),
            _ => before.inbox.treasury,
        }),
        after.inbox.reactions == (match answer {
            TickAnswer::Reactions(given) => Some(given),
            _ => before.inbox.reactions,
        }),
        after.inbox.disciplines == (match answer {
            TickAnswer::Disciplines(given) => Some(given),
            _ => before.inbox.disciplines,
        }),
        after.inbox.render_update == (match answer {
            TickAnswer::RenderUpdate(given) => Some(given),
            _ => before.inbox.render_update,
        }),
{
}

/// A battlefield is resolved only once strengths and surroundings of every formation are known,
/// and leaves the formations themselves alone.
pub proof fn battlefields_are_resolved_with_open_eyes(
    model: RuntimeModel,
    before: TickWork,
    after: TickWork,
    results: Map<Operation, u64>,
)
    requires
        battlefield_stage(model, before, after, results, Ok(TickAction::Moved)),
    ensures
        before.strengths is Some,
        before.inbox.battlefield is Some,
        before.inbox.local matches Some(local) && local.near_city@.len() == before.units@.len(),
        after.field is Some,
        after.units == before.units,
        after.operations == before.operations,
        after.territory == before.territory,
{
}

/// Execution is as it was answered. Landings are taken over just where there is a navy.
pub proof fn execution_is_taken_as_answered(
    model: RuntimeModel,
    before: TickWork,
    after: TickWork,
    results: Map<Operation, u64>,
)
    requires
        execution_stage(model, before, after, results, Ok(TickAction::Moved)),
    ensures
        before.inbox.execution matches Some(answer) && {
            &&& after.execution == Some(answer.execution)
            &&& after.outputs == Some(answer.outputs)
            &&& after.execution_counters == Some(answer.counters)
        },
        model.naval is Some ==> (before.inbox.naval matches Some(sea) && after.naval == Some(
            sea.planner,
        ) && after.naval_counters == Some(sea.counters)),
        model.naval is None ==> after.naval == before.naval && after.naval_counters
            == before.naval_counters,
        after.units == before.units,
        after.planning == before.planning,
{
}

/// Landings are planned before execution is asked for, and execution starts from the landings
/// that were just planned.
pub proof fn landings_come_before_execution(
    model: RuntimeModel,
    before: TickWork,
    after: TickWork,
    results: Map<Operation, u64>,
    units: Vec<ExecutionUnitInput>,
    threats: Vec<DefenderThreat>,
)
    requires
        execution_stage(
            model,
            before,
            after,
            results,
            Ok(TickAction::Execution { units, threats }),
        ),
    ensures
        after == before,
        model.naval is Some ==> before.inbox.naval is Some,
        model.naval is Some ==> execution_begun(model, before) == Some(
            before.inbox.naval->Some_0.execution,
        ),
        model.naval is None ==> execution_begun(model, before) == model.execution,
{
}

/// Orders that are issued bring the formations that they were issued to, and strengths are to be
/// asked for again.
pub proof fn orders_come_with_their_formations(
    model: RuntimeModel,
    before: TickWork,
    after: TickWork,
    results: Map<Operation, u64>,
)
    requires
        orders_stage(model, before, after, results, Ok(TickAction::Moved)),
    ensures
        before.planning is Some,
        after.issued matches Some(issued) && issued.units@ == after.units@,
        after.strengths is None,
        after.planning == before.planning,
        after.frame == before.frame,
{
}

/// The battlefield bends the directions of orders, and changes nothing else of what was planned.
pub proof fn bending_changes_orders_alone(before: TickWork, after: TickWork)
    requires
        directions_stage(before, after, Ok(TickAction::Moved)),
    ensures
        before.inbox.directions is Some,
        before.issued is Some,
        before.field is Some,
        after.issued matches Some(issued) && {
            let earlier = before.issued->Some_0;
            &&& issued.units == earlier.units
            &&& issued.planning.assignments == earlier.planning.assignments
            &&& issued.planning.contacts == earlier.planning.contacts
            &&& issued.planning.counters == earlier.planning.counters
        },
        after.strengths is None,
        after.field == before.field,
{
}

/// Formations fight by the orders that were issued, and come out as combat left them.
pub proof fn combat_is_taken_as_answered(
    model: RuntimeModel,
    before: TickWork,
    after: TickWork,
    orders: Vec<ResolvedUnitOrder>,
    inactive: Vec<u64>,
)
    ensures
        simulation_stage(model, before, after, Ok(TickAction::Combat { orders, inactive })) ==> {
            &&& before.issued matches Some(issued) && orders@ == issued.planning.orders@
            &&& after == before
        },
        simulation_stage(model, before, after, Ok(TickAction::Moved)) ==> {
            &&& before.inbox.combat matches Some(fought) && after.units == fought.units
                && after.frame == Some(fought.frame) && after.counters == Some(fought.counters)
            &&& after.strengths is None
            &&& after.territory == before.territory
        },
{
}

/// A cycle that took effect hands on what was committed; the war goes on just where the effects
/// say so; and land changes hands only by surrender.
pub proof fn cycles_end_as_committed(
    model: RuntimeModel,
    before: TickWork,
    after: TickWork,
    results: Map<Operation, u64>,
)
    requires
        strategy_stage(model, before, after, results, Ok(TickAction::Moved)),
        before.effects is Some,
    ensures
        before.inbox.committed matches Some(committed) && {
            &&& after.strategic == Some(committed.strategic)
            &&& after.strategic_snapshot == Some(committed.published)
            &&& after.strategic_counters == Some(committed.counters)
            &&& committed.census is None ==> after.snapshot == before.snapshot
                && after.census_counters == before.census_counters
            &&& committed.census matches Some(snapshot) ==> after.snapshot == Some(snapshot)
                && after.census_counters->Some_0.committed
                && after.census_counters->Some_0.flushed_for_strategic_cycle
                && after.census_counters->Some_0.territory_generation == snapshot.generation
        },
        after.effects is None,
        after.state == before.effects->Some_0.state,
        after.fronts_invalidated == before.effects->Some_0.fronts_invalidated,
        after.strengths is None,
        before.effects->Some_0.surrender is None ==> after.territory == before.territory,
        before.effects->Some_0.surrender matches Some(staged) ==> (after.territory matches Some(
            left,
        ) && left.land == staged.maps.land && left.world_control == staged.maps.world_control
            && left.dominant_side == staged.maps.dominant_side && left.primary_occupier
            == staged.maps.primary_occupier && left.country_to_side@ == ground(
            model,
            before,
        ).country_to_side@),
        before.dynamics is None ==> after.dynamics is None,
        before.dynamics is Some ==> after.dynamics == before.inbox.momentum,
        after.commands matches Some(staged) && staged.policies@
            == before.inbox.commands->Some_0@,
{
}

/// Formations that a cycle takes away are told as gone in the frame; those gone before stay gone,
/// what was fought stays told, and a cycle that leaves the formations alone leaves the frame alone.
pub proof fn cycles_show_whom_they_took(
    results: Map<Operation, u64>,
    work: TickWork,
    counted: CountedTick,
    id: u64,
)
    requires
        work.effects is Some,
        work.counted is Some,
        frame_settled(results, work, counted),
    ensures
        work.effects->Some_0.units is None ==> counted == work.counted->Some_0,
        counted.frame.events == work.counted->Some_0.frame.events,
        counted.frame.tick == work.counted->Some_0.frame.tick,
        work.effects->Some_0.units is Some ==> (counted.frame.removed_ids@.contains(id)
            <==> work.counted->Some_0.frame.removed_ids@.contains(id)
            || work.effects->Some_0.removed_ids@.contains(id)),
        work.effects->Some_0.units is Some ==> counted.counters.removed_units
            == counted.frame.removed_ids@.len() as usize,
        counted.casualties == work.counted->Some_0.casualties,
{
}

/// Where nobody surrenders, nobody is asked who may share in a surrender.
pub proof fn nobody_shares_in_no_surrender(
    model: RuntimeModel,
    work: TickWork,
    attackers: Seq<u16>,
    positions: Seq<SurrenderUnitPosition>,
    standing: Seq<u16>,
    pairs: Seq<(u16, u16)>,
)
    requires
        effects_asked(model, work, attackers, positions, standing, pairs),
        work.inbox.cycle->Some_0.evaluated.surrenders@.len() == 0,
    ensures
        attackers.len() == 0,
        positions.len() == 0,
        standing.len() == 0,
        pairs.len() == 0,
{
}

/// Operations are settled into accepted ones, and formations stay as they are.
pub proof fn operations_settle_into_accepted_ones(
    model: RuntimeModel,
    before: TickWork,
    after: TickWork,
    results: Map<Operation, u64>,
)
    requires
        settlement_stage(model, before, after, results, Ok(TickAction::Moved)),
    ensures
        before.operations is Some,
        before.snapshot is Some,
        after.operations matches Some(operations) && exists|read: Seq<OperationalUnitInput>|
            operations_fault(
                operations@,
                #[trigger] tick_scope(
                    operations@,
                    read,
                    model.scenario.countries@,
                    model.territory.max_sides,
                    before.step.tick,
                ),
            ) is None,
        after.units == before.units,
        after.execution == before.execution,
{
    let read = moved_inputs(before, results)->Ok_0;
    let scope = tick_scope(
        after.operations->Some_0@,
        read,
        model.scenario.countries@,
        model.territory.max_sides,
        before.step.tick,
    );
    assert(operations_fault(after.operations->Some_0@, scope) is None);
}

/// Execution lets go of formations as it was answered.
pub proof fn reactions_are_taken_as_answered(
    model: RuntimeModel,
    before: TickWork,
    after: TickWork,
)
    requires
        reactions_stage(model, before, after, Ok(TickAction::Moved)),
    ensures
        after.execution == before.inbox.reactions,
        after.execution is Some,
        after.units == before.units,
        after.operations == before.operations,
{
}

/// New armor joins just where a pay cycle raised or refitted formations, and everything is then
/// shown anew.
pub proof fn armor_joins_where_forces_were_paid(
    model: RuntimeModel,
    before: TickWork,
    after: TickWork,
    results: Map<Operation, u64>,
)
    requires
        mobilization_stage(model, before, after, results, Ok(TickAction::Moved)),
    ensures
        before.material_units is None ==> after.units == before.units && after.reshow
            == before.reshow && after.mobilization == before.mobilization && after.strengths
            == before.strengths,
        before.material_units matches Some(units) ==> after.units == units && after.reshow
            && after.mobilization is Some && after.strengths is None,
        after.material_units is None,
        after.reserves == before.reserves,
{
}

/// Recruits stand behind the formations that were there; the treasury is charged just where they
/// cost something; the numbers drawn for them are used up; and nothing but the next id of a
/// formation changes in the records of the countries.
pub proof fn recruits_join_behind_the_others(
    model: RuntimeModel,
    before: TickWork,
    after: TickWork,
    results: Map<Operation, u64>,
    at: int,
)
    requires
        recruitment_stage(model, before, after, results, Ok(TickAction::Moved)),
        before.recruitment is Some,
    ensures
        ({
            let staged = before.recruitment->Some_0;
            &&& after.units@.len() == before.units@.len() + staged.units@.len()
            &&& 0 <= at < before.units@.len() ==> after.units@[at] == before.units@[at]
            &&& 0 <= at < staged.units@.len() ==> after.units@[before.units@.len() + at]
                == staged.units@[at]
            &&& after.reserves matches Some(reserves) && reserves@ == staged.reserves@
            &&& after.reinforcement matches Some(state) && state.next_unit_id
                == staged.next_unit_id
            &&& staged.units@.len() > 0 ==> after.reshow
            &&& staged.units@.len() == 0 ==> after.reshow == before.reshow
            &&& staged.treasury_costs@.dom().len() == 0 ==> after.strategic == before.strategic
                && after.strategic_snapshot == before.strategic_snapshot
            &&& staged.treasury_costs@.dom().len() > 0 ==> (before.inbox.treasury matches Some(
                told,
            ) && after.strategic == Some(told.strategic) && after.strategic_snapshot
                == told.published)
        }),
        before.reinforcement matches Some(earlier) ==> after.reinforcement->Some_0.countries@
            == earlier.countries@ && after.reinforcement->Some_0.next_air_wing_id
            == earlier.next_air_wing_id,
        after.draws@.len() == 0,
        after.strengths is None,
        after.recruitment == before.recruitment,
        after.territory == before.territory,
{
}

/// Recruits are staged before they join, and staging them changes nothing else.
pub proof fn recruits_are_staged_first(
    model: RuntimeModel,
    before: TickWork,
    after: TickWork,
    results: Map<Operation, u64>,
)
    requires
        recruitment_stage(model, before, after, results, Ok(TickAction::Moved)),
        before.recruitment is None,
    ensures
        after.recruitment is Some,
        after.recruitment->Some_0.draws_used <= before.draws@.len(),
        after.units == before.units,
        after.step == before.step,
        after.strategic == before.strategic,
        after.draws == before.draws,
        after.reserves == before.reserves,
{
}

/// What recruits cost is asked of the treasury country by country, and only where they cost
/// something.
pub proof fn recruits_are_paid_for(
    model: RuntimeModel,
    before: TickWork,
    after: TickWork,
    results: Map<Operation, u64>,
    costs: BTreeMap<u16, Real>,
)
    requires
        recruitment_stage(
            model,
            before,
            after,
            results,
            Ok(TickAction::SpendRecruitment(costs)),
        ),
    ensures
        before.recruitment matches Some(staged) && costs@ == staged.treasury_costs@,
        costs@.dom().len() > 0,
        before.inbox.treasury is None,
        after == before,
{
}

/// The treasury is charged for a pay cycle just where it cost something, and is then as it was
/// answered; formations wait until armor joins.
pub proof fn pay_cycles_are_charged(
    model: RuntimeModel,
    before: TickWork,
    after: TickWork,
    results: Map<Operation, u64>,
)
    requires
        logistics_stage(model, before, after, results, Ok(TickAction::Moved)),
        before.reinforcement is Some || !pays(model, before),
    ensures
        pays(model, before) && before.costs@.len() > 0 ==> (before.inbox.treasury matches Some(
            told,
        ) && after.strategic == Some(told.strategic) && after.strategic_snapshot
            == told.published),
        !pays(model, before) || before.costs@.len() == 0 ==> after.strategic == before.strategic
            && after.strategic_snapshot == before.strategic_snapshot,
        after.units == before.units,
        after.reinforcement == before.reinforcement,
        after.air == before.air,
{
}

/// A pay cycle is settled on copies: formations and treasuries stay as they are until it is
/// charged.
pub proof fn pay_cycles_are_settled_on_copies(
    model: RuntimeModel,
    before: TickWork,
    after: TickWork,
    results: Map<Operation, u64>,
)
    requires
        logistics_stage(model, before, after, results, Ok(TickAction::Moved)),
        before.reinforcement is None,
        pays(model, before),
    ensures
        after.reinforcement is Some,
        after.air is Some,
        after.reserves is Some,
        model.material is Some ==> after.material is Some && after.material_units is Some,
        after.units == before.units,
        after.strategic == before.strategic,
        after.step == before.step,
        after.territory == before.territory,
{
}

/// A tick is finished once it was published, and published once everything that it had to do is
/// done and shown.
pub proof fn ticks_are_published_when_complete(
    model: RuntimeModel,
    before: TickWork,
    after: TickWork,
    results: Map<Operation, u64>,
)
    ensures
        publication_stage(model, before, after, results, Ok(TickAction::Finish))
            ==> before.published is Some && after == before,
        publication_stage(model, before, after, results, Ok(TickAction::Moved)) ==> {
            &&& before.published is None
            &&& before.counted is Some && before.snapshot is Some && before.territory is Some
            &&& before.layout is Some <==> before.step.facts.fronts_due
            &&& before.operations is Some <==> before.step.facts.operations
            &&& before.execution is Some <==> before.step.facts.execution
            &&& !before.joined ==> after.joined && after.published is None
            &&& before.joined ==> after.published is Some && Some(after.render_update)
                == before.inbox.render_update && after.counted->Some_0.frame.events
                == before.counted->Some_0.frame.events
                && after.counted->Some_0.frame.removed_ids
                == before.counted->Some_0.frame.removed_ids
            &&& after.units == before.units
        },
{
}

/// The report of a tick repeats what its stages reported; a tick that recruited nobody reports
/// nobody recruited.
pub proof fn reports_repeat_the_stages(work: TickWork)
    ensures
        tick_report(work).simulation == work.counted->Some_0.counters,
        tick_report(work).exiled_units == work.exiled@.len() as usize,
        tick_report(work).recovered_personnel == work.recovered_personnel,
        tick_report(work).missiles == work.missile_report,
        tick_report(work).reinforcement == work.reinforcement_counters,
        tick_report(work).operational_execution == work.execution_counters,
        tick_report(work).strategic == work.strategic_counters,
        tick_report(work).strategic_derivation == work.derivation,
        tick_report(work).census == work.census_counters->Some_0,
        tick_report(work).influence_sources == work.influence->Some_0.sources,
        work.recruitment is None ==> tick_report(work).recruited_units == 0 && tick_report(
            work,
        ).recruited_personnel == 0,
        work.recruitment matches Some(staged) ==> tick_report(work).recruited_units
            == staged.units@.len() as usize && tick_report(work).recruited_personnel
            == staged.recruited_personnel,
{
}

} // verus!
