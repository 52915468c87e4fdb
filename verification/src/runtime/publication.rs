//! The last stage of a tick: newcomers are remembered, formations are shown as they are, and
//! everything is counted. What the tick came to is then ready to be committed.

use std::collections::BTreeMap;
use vstd::prelude::*;
use crate::order::{collected, copy_all};
use crate::runtime::assembly::{count_step, step_report, TickReport};
use crate::runtime::aftermath::CountedTick;
use crate::runtime::battlefield::{BattlefieldRuntimeState, BattlefieldUnitState};
use crate::runtime::counters::{
    missile_totals, no_naval_planning, NavalPlanningCounters, RuntimeStepCounters,
};
use crate::runtime::error::RuntimeError;
use crate::runtime::native::{
    field_view, held, join_memories, runtime_sound, NativeRuntime, RuntimeModel,
};
use crate::runtime::spreading::shows;
use crate::runtime::step::StepStage;
use crate::runtime::tactics::StagedBattlefieldTick;
use crate::runtime::tick::{ground, ground_of, lacking, replaces, Inbox, TickAction, TickWork};
use crate::runtime::visuals::{enrich_unit_visuals, shown_units, visuals_supplied};
use crate::simulation::{snapshots_supplied, Simulation, UnitSnapshot};
use crate::worksheet::{all_missing, Operation, Stop, Worksheet};

verus! {

/// Whether a tick went through everything that it had to do.
pub open spec fn concluded(work: TickWork) -> bool {
    let facts = work.step.facts;
    &&& work.step.stage is Publication
    &&& work.counted is Some
    &&& work.census_counters is Some
    &&& work.snapshot is Some
    &&& work.influence is Some
    &&& work.issued is Some
    &&& work.reserves is Some
    &&& work.territory is Some
    &&& work.layout is Some == facts.fronts_due
    &&& work.field is Some == facts.battlefield
    &&& work.operations is Some == facts.operations
    &&& work.dynamics is Some == facts.dynamics
    &&& work.execution is Some == facts.execution
    &&& work.air is Some == facts.air
    &&& work.missiles is Some == facts.missiles
    &&& missile_totals(work.impacts@, work.impacts@.len()).damaged <= usize::MAX
    &&& missile_totals(work.impacts@, work.impacts@.len()).removed <= usize::MAX
}

fn impacts_fit(work: &TickWork) -> (answer: bool)
    ensures
        answer == (missile_totals(work.impacts@, work.impacts@.len()).damaged <= usize::MAX
            && missile_totals(work.impacts@, work.impacts@.len()).removed <= usize::MAX),
{
    let mut damaged: usize = 0;
    let mut removed: usize = 0;
    let mut at: usize = 0;
    while at < work.impacts.len()
        invariant
            at <= work.impacts@.len(),
            damaged == missile_totals(work.impacts@, at as nat).damaged,
            removed == missile_totals(work.impacts@, at as nat).removed,
        decreases work.impacts@.len() - at,
    {
        let more: usize = work.impacts[at].results.len();
        let gone: usize = work.impacts[at].removed_ids.len();
        if more > usize::MAX - damaged || gone > usize::MAX - removed {
            proof {
                lemma_totals_grow(work.impacts@, (at + 1) as nat, work.impacts@.len());
            }
            return false;
        }
        damaged = damaged + more;
        removed = removed + gone;
        at = at + 1;
    }
    true
}

proof fn lemma_totals_grow(
    impacts: Seq<crate::casualties::DamageOutcome>,
    some: nat,
    all: nat,
)
    requires
        some <= all,
    ensures
        missile_totals(impacts, some).damaged <= missile_totals(impacts, all).damaged,
        missile_totals(impacts, some).removed <= missile_totals(impacts, all).removed,
    decreases all,
{
    if some < all {
        lemma_totals_grow(impacts, some, (all - 1) as nat);
    }
}

fn is_concluded(work: &TickWork) -> (answer: bool)
    ensures
        answer == concluded(*work),
{
    let facts = work.step.facts;
    work.step.stage == StepStage::Publication && work.counted.is_some()
        && work.census_counters.is_some() && work.snapshot.is_some() && work.influence.is_some()
        && work.issued.is_some() && work.reserves.is_some() && work.territory.is_some()
        && work.layout.is_some() == facts.fronts_due && work.field.is_some() == facts.battlefield
        && work.operations.is_some() == facts.operations && work.dynamics.is_some()
        == facts.dynamics && work.execution.is_some() == facts.execution && work.air.is_some()
        == facts.air && work.missiles.is_some() == facts.missiles && impacts_fit(work)
}

/// What the battlefield remembers of formations that joined in this tick.
pub open spec fn newcomers(work: TickWork) -> Map<u64, BattlefieldUnitState> {
    let recruits = match work.recruitment {
        Some(staged) => staged.battlefield_units@,
        None => Map::empty(),
    };
    match work.mobilization {
        Some(told) => recruits.union_prefer_right(told.battlefield_units@),
        None => recruits,
    }
}

pub(crate) fn list_newcomers(work: &TickWork) -> (joined: BTreeMap<u64, BattlefieldUnitState>)
    ensures
        joined@ == newcomers(*work),
{
    broadcast use vstd::std_specs::btree::group_btree_axioms;

    let mut joined: BTreeMap<u64, BattlefieldUnitState> = BTreeMap::new();
    assert(joined@ =~= Map::<u64, BattlefieldUnitState>::empty());
    if let Some(staged) = &work.recruitment {
        joined = staged.battlefield_units.clone();
    }
    if let Some(told) = &work.mobilization {
        join_memories(&mut joined, &told.battlefield_units);
    }
    joined
}

/// What the stages of a tick report.
pub open spec fn tick_report(work: TickWork) -> TickReport<'static> {
    let influence = work.influence->Some_0;
    let counted = work.counted->Some_0;
    TickReport {
        ai: work.issued->Some_0.planning.counters,
        simulation: counted.counters,
        air: match work.air_outcome {
            Some(outcome) => Some(&outcome),
            None => None,
        },
        air_damage: match work.air_damage {
            Some(damage) => Some(&damage),
            None => None,
        },
        missiles: work.missile_report,
        impacts: &work.impacts,
        reinforcement: work.reinforcement_counters,
        recruited_units: match work.recruitment {
            Some(staged) => staged.units@.len() as usize,
            None => 0,
        },
        recruited_personnel: match work.recruitment {
            Some(staged) => staged.recruited_personnel,
            None => 0,
        },
        naval_planning: match work.naval_counters {
            Some(counters) => counters,
            None => no_naval_planning(),
        },
        operational_execution: work.execution_counters,
        attrition: match work.attrition {
            Some(damage) => Some(&damage),
            None => None,
        },
        resolved: match work.field {
            Some(field) => Some(&field.resolved_by_id),
            None => None,
        },
        exiled_units: work.exiled@.len() as usize,
        recovered_personnel: work.recovered_personnel,
        influence_sources: influence.sources,
        influence: &influence.applied,
        schedule: influence.schedule,
        diffusion: influence.diffusion,
        census: work.census_counters->Some_0,
        strategic: work.strategic_counters,
        strategic_derivation: work.derivation,
    }
}

/// Formations as they are shown before the battlefield adds to them.
pub open spec fn shown_before(
    work: TickWork,
    results: Map<Operation, u64>,
    shown: Seq<UnitSnapshot>,
) -> bool {
    if work.reshow {
        shows(results, work.units@, work.step.tick, shown)
    } else {
        shown == work.counted->Some_0.frame.units@
    }
}

/// A battlefield that may not be.
pub open spec fn staged_field(work: TickWork) -> Option<&'static StagedBattlefieldTick> {
    match work.field {
        Some(staged) => Some(&staged),
        None => None,
    }
}

/// Whether the battlefield showed formations so, or could not.
pub open spec fn shown_on_field(
    model: RuntimeModel,
    work: TickWork,
    results: Map<Operation, u64>,
    shown: Seq<UnitSnapshot>,
    outcome: Result<Seq<UnitSnapshot>, RuntimeError>,
) -> bool {
    &&& shown_before(work, results, shown)
    &&& match model.battlefield {
        None => outcome == Ok::<Seq<UnitSnapshot>, RuntimeError>(shown),
        Some(_) => exists|state: BattlefieldRuntimeState| #[trigger]
            field_view(Some(state)) == model.battlefield && collected(
                shown_units(results, state, ground(model, work), staged_field(work), shown),
                shown.len(),
            ) == outcome,
    }
}

/// Whether a worksheet lacks what the battlefield takes to show formations.
pub open spec fn showing_lacks(
    model: RuntimeModel,
    work: TickWork,
    results: Map<Operation, u64>,
    shown: Seq<UnitSnapshot>,
) -> bool {
    shown_before(work, results, shown) && exists|state: BattlefieldRuntimeState| #[trigger]
        field_view(Some(state)) == model.battlefield && !visuals_supplied(
            results,
            state,
            ground(model, work),
            staged_field(work),
            shown,
        )
}

/// The battlefield with the formations that joined.
pub open spec fn field_joined(before: TickWork, field: Option<StagedBattlefieldTick>) -> bool {
    match before.field {
        None => field is None,
        Some(earlier) => field matches Some(staged) && {
            &&& staged == (StagedBattlefieldTick {
                next_unit_state: staged.next_unit_state,
                ..earlier
            })
            &&& staged.next_unit_state@ == earlier.next_unit_state@.union_prefer_right(
                newcomers(before),
            )
        },
    }
}

/// Newcomers are remembered, and everything is shown and counted.
pub open spec fn publication_stage(
    model: RuntimeModel,
    before: TickWork,
    after: TickWork,
    results: Map<Operation, u64>,
    outcome: Result<TickAction, Stop<RuntimeError>>,
) -> bool {
    match outcome {
        Ok(TickAction::Finish) => before.published is Some && after == before,
        Ok(TickAction::RenderUpdate) => before.published is None && concluded(before)
            && before.joined && before.inbox.render_update is None && after == before,
        Ok(TickAction::Moved) => {
            &&& before.published is None
            &&& concluded(before)
            &&& if !before.joined {
                &&& after == (TickWork { field: after.field, joined: true, ..before })
                &&& field_joined(before, after.field)
            } else {
                &&& before.inbox.render_update matches Some(update) && after == (TickWork {
                    inbox: Inbox { render_update: None, ..before.inbox },
                    counted: after.counted,
                    published: Some(step_report(tick_report(before))),
                    render_update: update,
                    ..before
                })
                &&& after.counted matches Some(counted) && {
                    let earlier = before.counted->Some_0;
                    &&& counted == (CountedTick { frame: counted.frame, ..earlier })
                    &&& counted.frame == (crate::simulation::FrameSnapshot {
                        units: counted.frame.units,
                        ..earlier.frame
                    })
                    &&& exists|shown: Seq<UnitSnapshot>| #[trigger]
                        shown_on_field(model, before, results, shown, Ok(counted.frame.units@))
                }
            }
        },
        Ok(_) => false,
        Err(Stop::Failed(error)) => after == before && before.published is None && (if !concluded(
            before,
        ) {
            error == RuntimeError::InvalidCheckpoint("tick is not complete")
        } else {
            exists|shown: Seq<UnitSnapshot>| #[trigger]
                shown_on_field(model, before, results, shown, Err(error))
        }),
        Err(Stop::Missing(missing)) => lacking(before, after, missing, results) && concluded(before)
            && {
            ||| !snapshots_supplied(results, before.units@)
            ||| exists|shown: Seq<UnitSnapshot>| #[trigger]
                showing_lacks(model, before, results, shown)
        },
    }
}

fn show_units(runtime: &NativeRuntime, work: &TickWork, sheet: &Worksheet) -> (outcome: Result<
    Vec<UnitSnapshot>,
    Vec<Operation>,
>)
    requires
        work.counted is Some,
    ensures
        match outcome {
            Ok(shown) => shown_before(*work, sheet@, shown@),
            Err(missing) => missing@.len() > 0 && all_missing(missing@, sheet@)
                && !snapshots_supplied(sheet@, work.units@),
        },
{
    if !work.reshow {
        return Ok(copy_all(work.counted.as_ref().unwrap().frame.units.as_slice()));
    }
    let standing = Simulation {
        config: runtime.parts().simulation.config,
        units: copy_all(work.units.as_slice()),
        latest: None,
    };
    match standing.initial_snapshot(work.step.tick, work.step.frame, sheet) {
        Err(missing) => Err(missing),
        Ok(shown) => Ok(shown.units),
    }
}

fn join_field(work: &mut TickWork)
    ensures
        *final(work) == (TickWork { field: final(work).field, ..*old(work) }),
        field_joined(*old(work), final(work).field),
{
    let joined = list_newcomers(work);
    let mut slot: Option<StagedBattlefieldTick> = None;
    core::mem::swap(&mut slot, &mut work.field);
    if let Some(mut staged) = slot {
        join_memories(&mut staged.next_unit_state, &joined);
        work.field = Some(staged);
    }
}

fn count_tick(work: &TickWork) -> (counters: RuntimeStepCounters)
    requires
        concluded(*work),
    ensures
        counters == step_report(tick_report(*work)),
{
    let influence = work.influence.as_ref().unwrap();
    let counted = work.counted.as_ref().unwrap();
    let issued = work.issued.as_ref().unwrap();
    let resolved = match &work.field {
        Some(field) => Some(&field.resolved_by_id),
        None => None,
    };
    let report = TickReport {
        ai: issued.planning.counters,
        simulation: counted.counters,
        air: work.air_outcome.as_ref(),
        air_damage: work.air_damage.as_ref(),
        missiles: work.missile_report,
        impacts: &work.impacts,
        reinforcement: work.reinforcement_counters,
        recruited_units: match &work.recruitment {
            Some(staged) => staged.units.len(),
            None => 0,
        },
        recruited_personnel: match &work.recruitment {
            Some(staged) => staged.recruited_personnel,
            None => 0,
        },
        naval_planning: match work.naval_counters {
            Some(counters) => counters,
            None => NavalPlanningCounters::default(),
        },
        operational_execution: work.execution_counters,
        attrition: work.attrition.as_ref(),
        resolved,
        exiled_units: work.exiled.len(),
        recovered_personnel: work.recovered_personnel,
        influence_sources: influence.sources,
        influence: &influence.applied,
        schedule: influence.schedule,
        diffusion: influence.diffusion,
        census: work.census_counters.unwrap(),
        strategic: work.strategic_counters,
        strategic_derivation: work.derivation,
    };
    assert(report == tick_report(*work));
    count_step(report)
}

#[verifier::rlimit(60)]
pub(crate) fn publish(runtime: &NativeRuntime, work: &mut TickWork, sheet: &Worksheet) -> (outcome:
    Result<TickAction, Stop<RuntimeError>>)
    requires
        runtime_sound(held(runtime@)),
        replaces(ground(held(runtime@), *old(work)), held(runtime@).territory),
    ensures
        publication_stage(held(runtime@), *old(work), *final(work), sheet@, outcome),
{
    if work.published.is_some() {
        return Ok(TickAction::Finish);
    }
    if !is_concluded(work) {
        return Err(Stop::Failed(RuntimeError::InvalidCheckpoint("tick is not complete")));
    }
    if !work.joined {
        join_field(work);
        work.joined = true;
        return Ok(TickAction::Moved);
    }
    if work.inbox.render_update.is_none() {
        return Ok(TickAction::RenderUpdate);
    }
    let shown = match show_units(runtime, work, sheet) {
        Err(missing) => {
            return Err(Stop::Missing(missing));
        },
        Ok(shown) => shown,
    };
    let ghost standing = shown@;
    let counters = count_tick(work);
    let parts = runtime.parts();
    let mut reader = sheet.reader();
    let enriched = enrich_unit_visuals(
        shown,
        parts.battlefield,
        ground_of(&parts, work),
        work.field.as_ref(),
        &mut reader,
    );
    proof {
        if let Some(state) = parts.battlefield {
            assert(field_view(Some(*state)) == held(runtime@).battlefield);
        }
    }
    if !reader.is_complete() {
        assert(showing_lacks(held(runtime@), *work, sheet@, standing));
        return Err(Stop::Missing(reader.into_missing()));
    }
    let units = match enriched {
        Err(error) => {
            assert(shown_on_field(held(runtime@), *work, sheet@, standing, Err(error)));
            return Err(Stop::Failed(error));
        },
        Ok(units) => units,
    };
    assert(shown_on_field(held(runtime@), *work, sheet@, standing, Ok(units@)));
    let mut closed: Option<CountedTick> = None;
    core::mem::swap(&mut closed, &mut work.counted);
    if let Some(mut counted) = closed {
        counted.frame.units = units;
        work.counted = Some(counted);
    }
    work.render_update = work.inbox.render_update.unwrap();
    work.inbox.render_update = None;
    work.published = Some(counters);
    proof {
        assert(shown_on_field(
            held(runtime@),
            *old(work),
            sheet@,
            standing,
            Ok(work.counted->Some_0.frame.units@),
        ));
        assert(work.counted->Some_0 == (CountedTick {
            frame: work.counted->Some_0.frame,
            ..old(work).counted->Some_0
        }));
        assert(*work == (TickWork {
            inbox: Inbox { render_update: None, ..old(work).inbox },
            counted: work.counted,
            published: Some(step_report(tick_report(*old(work)))),
            render_update: old(work).inbox.render_update->Some_0,
            ..*old(work)
        }));
    }
    Ok(TickAction::Moved)
}

} // verus!
