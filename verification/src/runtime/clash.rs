//! What follows combat in a tick: missiles hit, losses are counted and felt, and the territory is
//! counted.

use std::collections::BTreeMap;
use vstd::prelude::*;
use crate::air::AirWing;
use crate::casualties::{air_ledger, combat_ledger, ledger_view, DamageCommand};
use crate::order::strictly_sorted;
use crate::runtime::aftermath::{close_combat, closing_supplied, CountedTick, TickDamage};
use crate::runtime::battlefield::SideDynamics;
use crate::runtime::dynamics::losses_by_side;
use crate::runtime::effects::{advance_census, census_due, CensusAction, CensusProgress};
use crate::runtime::error::RuntimeError;
use crate::runtime::native::{held, NativeRuntime, RuntimeModel};
use crate::runtime::skirmish::{accounts, damage_fault, is_accounted, unaccounted};
use crate::runtime::spreading::shows;
use crate::runtime::stages::{hits_live, live_commands, tick_toll};
use crate::runtime::step::StageEvent;
use crate::runtime::tick::{
    completed, lacking, CensusAnswer, DamageAnswer, Inbox, MissileAnswer, TickAction, TickWork,
};
use crate::simulation::{snapshots_supplied, FrameSnapshot, Simulation, TickCounters};
use crate::tables::ascending;
use crate::worksheet::{Operation, Stop, Worksheet};

verus! {

// ---------------------------------------------------------------------------------------------
// Missiles
// ---------------------------------------------------------------------------------------------

/// What the next impact does to formations that are still there.
pub open spec fn next_impact(work: TickWork) -> Seq<DamageCommand> {
    work.impacts_due@[work.impacts_done as int]@.filter(hits_live(work.units@))
}

/// Missiles fly; each impact hurts whom it still finds, in the order of the impacts; and the frame
/// shows formations as the impacts left them.
pub open spec fn missiles_stage(
    before: TickWork,
    after: TickWork,
    results: Map<Operation, u64>,
    outcome: Result<TickAction, Stop<RuntimeError>>,
) -> bool {
    let flown = before.missile_report is Some;
    let left = before.impacts_done < before.impacts_due@.len();
    match outcome {
        Ok(TickAction::Missiles) => !flown && before.inbox.missiles is None && after == before,
        Ok(TickAction::Damage(asked)) => {
            &&& flown && left && before.inbox.damage is None
            &&& after == before
            &&& asked@ == next_impact(before)
            &&& asked@.len() > 0
        },
        Ok(TickAction::Moved) => if !flown {
            before.inbox.missiles matches Some(answer) && after == (TickWork {
                inbox: Inbox { missiles: None, ..before.inbox },
                missiles: Some(answer.missiles),
                rng: answer.rng,
                missile_report: Some(answer.report),
                impacts_due: answer.impacts,
                impacts_done: 0,
                ..before
            })
        } else if left {
            if next_impact(before).len() == 0 {
                after == (TickWork {
                    impacts_done: (before.impacts_done + 1) as usize,
                    ..before
                })
            } else {
                before.inbox.damage matches Some(answer) && {
                    &&& accounts(before.units@, answer)
                    &&& after == (TickWork {
                        inbox: Inbox { damage: None, ..before.inbox },
                        units: answer.units,
                        strengths: None,
                        impacts: after.impacts,
                        impacts_done: (before.impacts_done + 1) as usize,
                        ..before
                    })
                    &&& after.impacts@ == before.impacts@.push(answer.outcome)
                }
            }
        } else {
            &&& completed(before, StageEvent::Done, after)
            &&& after == (TickWork {
                step: after.step,
                inbox: after.inbox,
                frame: after.frame,
                ..before
            })
            &&& if before.impacts@.len() == 0 {
                after.frame == before.frame
            } else {
                before.frame is Some && (after.frame matches Some(frame) && {
                    &&& frame == (FrameSnapshot { units: frame.units, ..before.frame->Some_0 })
                    &&& shows(results, before.units@, before.step.tick, frame.units@)
                })
            }
        },
        Ok(_) => false,
        Err(Stop::Failed(error)) => after == before && flown && if left {
            next_impact(before).len() > 0 && damage_fault(before, error)
        } else {
            before.impacts@.len() > 0 && before.frame is None && error
                == RuntimeError::InvalidCheckpoint("tick has no frame")
        },
        Err(Stop::Missing(missing)) => lacking(before, after, missing, results)
            && !snapshots_supplied(results, before.units@),
    }
}

pub(crate) fn hit_targets(runtime: &NativeRuntime, work: &mut TickWork, sheet: &Worksheet) -> (
    outcome: Result<TickAction, Stop<RuntimeError>>)
    ensures
        missiles_stage(*old(work), *final(work), sheet@, outcome),
{
    if work.missile_report.is_none() {
        if work.inbox.missiles.is_none() {
            return Ok(TickAction::Missiles);
        }
        let mut flown: Option<MissileAnswer> = None;
        core::mem::swap(&mut flown, &mut work.inbox.missiles);
        if let Some(MissileAnswer { missiles, rng, report, impacts }) = flown {
            work.missiles = Some(missiles);
            work.rng = rng;
            work.missile_report = Some(report);
            work.impacts_due = impacts;
            work.impacts_done = 0;
        }
        return Ok(TickAction::Moved);
    }
    if work.impacts_done < work.impacts_due.len() {
        let commands = live_commands(&work.impacts_due[work.impacts_done], &work.units);
        if commands.len() == 0 {
            work.impacts_done = work.impacts_done + 1;
            return Ok(TickAction::Moved);
        }
        if work.inbox.damage.is_none() {
            return Ok(TickAction::Damage(commands));
        }
        if !is_accounted(work) {
            return Err(Stop::Failed(unaccounted()));
        }
        let mut hurt: Option<DamageAnswer> = None;
        core::mem::swap(&mut hurt, &mut work.inbox.damage);
        if let Some(DamageAnswer { units, outcome }) = hurt {
            work.units = units;
            work.impacts.push(outcome);
            work.strengths = None;
        }
        work.impacts_done = work.impacts_done + 1;
        return Ok(TickAction::Moved);
    }
    if work.impacts.len() > 0 {
        if work.frame.is_none() {
            return Err(Stop::Failed(RuntimeError::InvalidCheckpoint("tick has no frame")));
        }
        let standing = Simulation {
            config: runtime.parts().simulation.config,
            units: crate::order::copy_all(work.units.as_slice()),
            latest: None,
        };
        let shown = match standing.initial_snapshot(work.step.tick, work.step.frame, sheet) {
            Err(missing) => {
                return Err(Stop::Missing(missing));
            },
            Ok(shown) => shown,
        };
        let mut slot: Option<FrameSnapshot> = None;
        core::mem::swap(&mut slot, &mut work.frame);
        if let Some(mut frame) = slot {
            frame.units = shown.units;
            work.frame = Some(frame);
        }
    }
    work.close_stage(StageEvent::Done);
    Ok(TickAction::Moved)
}

// ---------------------------------------------------------------------------------------------
// Losses
// ---------------------------------------------------------------------------------------------

/// The country of each of the first wings.
pub open spec fn wing_table(wings: Seq<AirWing>, count: nat) -> Map<u64, u16>
    decreases count,
{
    if count == 0 {
        Map::empty()
    } else {
        wing_table(wings, (count - 1) as nat).insert(
            wings[count - 1].id,
            wings[count - 1].sovereign_country_id,
        )
    }
}

/// The country of each wing, as it was before the wings flew.
pub open spec fn wing_owners(model: RuntimeModel) -> Map<u64, u16> {
    match model.air {
        Some(air) => wing_table(air.wings@, air.wings@.len()),
        None => Map::empty(),
    }
}

fn list_wing_owners(runtime: &NativeRuntime) -> (owners: BTreeMap<u64, u16>)
    ensures
        owners@ == wing_owners(held(runtime@)),
{
    broadcast use vstd::std_specs::btree::group_btree_axioms;

    let parts = runtime.parts();
    let mut owners: BTreeMap<u64, u16> = BTreeMap::new();
    assert(owners@ =~= Map::<u64, u16>::empty());
    if let Some(air) = parts.air_power {
        let mut at: usize = 0;
        while at < air.wings.len()
            invariant
                at <= air.wings@.len(),
                owners@ == wing_table(air.wings@, at as nat),
            decreases air.wings@.len() - at,
        {
            broadcast use vstd::std_specs::btree::group_btree_axioms;

            owners.insert(air.wings[at].id, air.wings[at].sovereign_country_id);
            at = at + 1;
        }
    }
    owners
}

/// Whether anything but combat removed a formation.
pub open spec fn gone_otherwise(work: TickWork, id: u64) -> bool {
    ||| (work.air_damage matches Some(damage) && damage.removed_ids@.contains(id))
    ||| work.exiled@.contains(id)
    ||| (work.attrition matches Some(damage) && damage.removed_ids@.contains(id))
    ||| exists|i: int|
        0 <= i < work.impacts@.len() && (#[trigger] work.impacts@[i]).removed_ids@.contains(id)
}

/// Whether anything but combat was at work.
pub open spec fn hurt_otherwise(work: TickWork) -> bool {
    work.air_damage is Some || work.exiled@.len() > 0 || work.attrition is Some
        || work.impacts@.len() > 0
}

/// The losses of a tick are counted: every formation that is gone is reported, and everything that
/// was lost is added to what was lost before.
pub open spec fn losses_counted(
    model: RuntimeModel,
    work: TickWork,
    results: Map<Operation, u64>,
    counted: CountedTick,
) -> bool {
    let frame = work.frame->Some_0;
    let counters = work.counters->Some_0;
    let owners = wing_owners(model);
    let toll = tick_toll(
        results,
        model.casualties,
        model.owners,
        owners,
        frame.events@,
        work.air_outcome,
        work.air_damage,
        work.attrition,
        work.impacts@,
    );
    &&& counted.frame.schema_version@ == frame.schema_version@
    &&& counted.frame.tick == frame.tick
    &&& counted.frame.frame == frame.frame
    &&& counted.frame.units@ == frame.units@
    &&& counted.frame.events@ == frame.events@
    &&& counted.frame.abandoned_ids@ == frame.abandoned_ids@
    &&& !hurt_otherwise(work) ==> counted.frame.removed_ids@ == frame.removed_ids@
        && counted.counters == counters
    &&& hurt_otherwise(work) ==> {
        &&& strictly_sorted(counted.frame.removed_ids@)
        &&& forall|id: u64| #[trigger]
            counted.frame.removed_ids@.contains(id) <==> (frame.removed_ids@.contains(id)
                || gone_otherwise(work, id))
        &&& counted.counters == (TickCounters {
            input_units: model.units.len() as usize,
            removed_units: counted.frame.removed_ids@.len() as usize,
            ..counters
        })
    }
    &&& counted.casualties@ == toll
    &&& ledger_view(counted.casualties_by_victim@) == air_ledger(
        results,
        combat_ledger(results, model.ledger, model.owners, frame.events@, frame.events@.len()),
        model.owners,
        owners,
        match work.air_outcome {
            Some(outcome) => Some(&outcome),
            None => None,
        },
        match work.air_damage {
            Some(damage) => Some(&damage),
            None => None,
        },
    )
    &&& counted.losses_by_side@ == losses_by_side(
        results,
        model.casualties,
        toll,
        model.territory.country_to_side@,
        ascending(toll.dom()),
        ascending(toll.dom()).len(),
    )
}

/// What hurt formations besides combat.
pub open spec fn damage_besides(work: TickWork) -> TickDamage<'static> {
    TickDamage {
        air: match work.air_outcome {
            Some(outcome) => Some(&outcome),
            None => None,
        },
        air_damage: match work.air_damage {
            Some(damage) => Some(&damage),
            None => None,
        },
        exiled: if work.exiled@.len() > 0 {
            Some(&work.exiled)
        } else {
            None
        },
        attrition: match work.attrition {
            Some(damage) => Some(&damage),
            None => None,
        },
        impacts: &work.impacts,
    }
}

/// Losses are counted, and sides feel them.
pub open spec fn losses_stage(
    model: RuntimeModel,
    before: TickWork,
    after: TickWork,
    results: Map<Operation, u64>,
    outcome: Result<TickAction, Stop<RuntimeError>>,
) -> bool {
    let ready = before.frame is Some && before.counters is Some;
    match outcome {
        Ok(TickAction::FeelLosses(asked)) => {
            &&& before.dynamics is Some && before.inbox.momentum is None
            &&& after == before
            &&& before.counted matches Some(counted) && asked@ == counted.losses_by_side@
        },
        Ok(TickAction::Moved) => if before.counted is None {
            &&& ready
            &&& after == (TickWork { counted: after.counted, ..before })
            &&& after.counted matches Some(counted) && losses_counted(
                model,
                before,
                results,
                counted,
            )
        } else {
            &&& before.dynamics is Some ==> before.inbox.momentum is Some
            &&& completed(before, StageEvent::Done, after)
            &&& after == (TickWork {
                step: after.step,
                inbox: after.inbox,
                dynamics: if before.dynamics is Some {
                    before.inbox.momentum
                } else {
                    before.dynamics
                },
                ..before
            })
        },
        Ok(_) => false,
        Err(Stop::Failed(error)) => after == before && before.counted is None && !ready && error
            == RuntimeError::InvalidCheckpoint("tick has no frame"),
        Err(Stop::Missing(missing)) => lacking(before, after, missing, results) && exists|
            frame: FrameSnapshot,
        | #[trigger]
            frame.shows(before.frame->Some_0) && !closing_supplied(
                results,
                damage_besides(before),
                model.casualties,
                model.ledger,
                model.owners,
                wing_owners(model),
                frame,
                model.territory.country_to_side@,
            ),
    }
}

pub(crate) fn count_losses_of(runtime: &NativeRuntime, work: &mut TickWork, sheet: &Worksheet) -> (
    outcome: Result<TickAction, Stop<RuntimeError>>)
    ensures
        losses_stage(held(runtime@), *old(work), *final(work), sheet@, outcome),
{
    let parts = runtime.parts();
    if let Some(counted) = &work.counted {
        if work.dynamics.is_some() {
            if work.inbox.momentum.is_none() {
                return Ok(TickAction::FeelLosses(counted.losses_by_side.clone()));
            }
            let mut judged: Option<BTreeMap<usize, SideDynamics>> = None;
            core::mem::swap(&mut judged, &mut work.inbox.momentum);
            work.dynamics = judged;
        }
        work.close_stage(StageEvent::Done);
        return Ok(TickAction::Moved);
    }
    let frame = match &work.frame {
        None => {
            return Err(Stop::Failed(RuntimeError::InvalidCheckpoint("tick has no frame")));
        },
        Some(frame) => frame.clone(),
    };
    let counters = match work.counters {
        None => {
            return Err(Stop::Failed(RuntimeError::InvalidCheckpoint("tick has no frame")));
        },
        Some(counters) => counters,
    };
    let owners = list_wing_owners(runtime);
    let damage = TickDamage {
        air: work.air_outcome.as_ref(),
        air_damage: work.air_damage.as_ref(),
        exiled: if work.exiled.len() > 0 {
            Some(&work.exiled)
        } else {
            None
        },
        attrition: work.attrition.as_ref(),
        impacts: &work.impacts,
    };
    let ghost shown = frame;
    let ghost told = damage;
    let mut reader = sheet.reader();
    let counted = close_combat(
        frame,
        counters,
        parts.simulation.units.len(),
        damage,
        parts.casualties,
        parts.casualties_by_victim,
        parts.unit_sovereign_by_id,
        &owners,
        &parts.territory.country_to_side,
        &mut reader,
    );
    proof {
        assert(told == damage_besides(*work));
        assert(told.struck() == hurt_otherwise(*work));
        assert(shown.shows(work.frame->Some_0));
    }
    if !reader.is_complete() {
        return Err(Stop::Missing(reader.into_missing()));
    }
    proof {
        assert forall|id: u64| #[trigger] told.removed(id) == gone_otherwise(*work, id) by {}
        if told.struck() {
            assert forall|id: u64| #[trigger]
                counted.frame.removed_ids@.contains(id) <==> (work.frame->Some_0.removed_ids@.contains(
                    id,
                ) || gone_otherwise(*work, id)) by {
                assert(told.removed(id) == gone_otherwise(*work, id));
            }
        }
    }
    work.counted = Some(counted);
    Ok(TickAction::Moved)
}

// ---------------------------------------------------------------------------------------------
// Census
// ---------------------------------------------------------------------------------------------

/// How far a census is once an answer is taken in.
pub open spec fn census_progress(progress: CensusProgress, answer: CensusAnswer) -> CensusProgress {
    match answer.counted {
        Some(result) => CensusProgress {
            steps: (progress.steps + 1) as u64,
            processed_items: (progress.processed_items + result.processed_items) as usize,
            committed: progress.committed || result.committed,
        },
        None => progress,
    }
}

/// Whether what a census counted can still be counted.
pub open spec fn census_fits(progress: CensusProgress, answer: CensusAnswer) -> bool {
    answer.counted matches Some(result) ==> progress.processed_items + result.processed_items
        <= usize::MAX && progress.steps < u64::MAX
}

/// The territory is counted: within the budget of a tick, or to the end before a strategic cycle.
pub open spec fn census_stage(
    model: RuntimeModel,
    before: TickWork,
    after: TickWork,
    outcome: Result<TickAction, Stop<RuntimeError>>,
) -> bool {
    let answer = before.inbox.census->Some_0;
    let progress = census_progress(before.census, answer);
    let due = census_due(
        progress,
        answer.status,
        model.config.census_budget,
        model.config.census_flush_chunk,
        before.step.facts.strategy_due,
        *answer.snapshot,
    );
    match outcome {
        Ok(TickAction::CensusStatus) => before.inbox.census is None && after == before,
        Ok(TickAction::Census(items)) => {
            &&& before.inbox.census is Some
            &&& census_fits(before.census, answer)
            &&& due == CensusAction::Advance(items)
            &&& after == (TickWork {
                inbox: Inbox { census: None, ..before.inbox },
                census: progress,
                ..before
            })
        },
        Ok(TickAction::Moved) => before.inbox.census is Some && census_fits(
            before.census,
            answer,
        ) && (due matches CensusAction::Finished(counters) && {
            &&& completed(before, StageEvent::Done, after)
            &&& after == (TickWork {
                step: after.step,
                inbox: after.inbox,
                census: progress,
                census_counters: Some(counters),
                snapshot: Some(answer.snapshot),
                schema: Some(answer.schema),
                ..before
            })
        }),
        Err(Stop::Failed(error)) => after == before && before.inbox.census is Some && !census_fits(
            before.census,
            answer,
        ) && error == RuntimeError::ClockOverflow,
        _ => false,
    }
}

pub(crate) fn count_territory(runtime: &NativeRuntime, work: &mut TickWork) -> (outcome: Result<
    TickAction,
    Stop<RuntimeError>,
>)
    ensures
        census_stage(held(runtime@), *old(work), *final(work), outcome),
{
    let parts = runtime.parts();
    if let Some(answer) = &work.inbox.census {
        if let Some(result) = answer.counted {
            if result.processed_items > usize::MAX - work.census.processed_items
                || work.census.steps == u64::MAX {
                return Err(Stop::Failed(RuntimeError::ClockOverflow));
            }
        }
    }
    let mut slot: Option<CensusAnswer> = None;
    core::mem::swap(&mut slot, &mut work.inbox.census);
    let answer = match slot {
        None => {
            assert(*work == *old(work));
            return Ok(TickAction::CensusStatus);
        },
        Some(answer) => answer,
    };
    let mut progress = work.census;
    if let Some(result) = answer.counted {
        progress.record(result);
    }
    work.census = progress;
    match advance_census(
        progress,
        answer.status,
        parts.config.census_budget,
        parts.config.census_flush_chunk,
        work.step.facts.strategy_due,
        &answer.snapshot,
    ) {
        CensusAction::Advance(items) => Ok(TickAction::Census(items)),
        CensusAction::Finished(counters) => {
            work.census_counters = Some(counters);
            work.snapshot = Some(answer.snapshot);
            work.schema = Some(answer.schema);
            work.close_stage(StageEvent::Done);
            Ok(TickAction::Moved)
        },
    }
}

} // verus!
