//! The stages of a tick in which influence spreads: before anything moves, where the battlefield or
//! the territory's own queues drive it, and behind combat otherwise.

use std::collections::BTreeMap;
use vstd::prelude::*;
use crate::order::{collected, permutation, sorted};
use crate::runtime::assembly::DiffusionReport;
use crate::runtime::error::RuntimeError;
use crate::runtime::influence::{
    all_influence_sources, browser_influence_budgets, browser_influence_sources, cohort_budget,
    influence_budgets, influence_sources, round_of, round_supplied, sources_supplied,
    InfluenceSchedule, InfluenceSource, SourceModel, TurnScope,
};
use crate::runtime::native::{held, runtime_sound, NativeRuntime, RuntimeModel};
use crate::runtime::step::StageEvent;
use crate::runtime::tick::{
    can_replace, completed, ground, ground_of, lacking, policies_in_force, policies_of, replaces,
    InfluenceAnswer, InfluenceReport, TickAction, TickWork,
};
use crate::simulation::{snapshots_of, snapshots_supplied, Simulation, UnitSnapshot};
use crate::tables::{ascending, ordered_sides};
use crate::units::SimulationUnit;
use crate::views::views;
use crate::worksheet::{all_missing, Operation, Stop, Worksheet};

verus! {

/// Whether formations are shown as they are: each once, in the order of their ids.
pub open spec fn shows(
    results: Map<Operation, u64>,
    units: Seq<SimulationUnit>,
    tick: u64,
    shown: Seq<UnitSnapshot>,
) -> bool {
    sorted(shown) && permutation(snapshots_of(results, units, tick), shown)
}

/// The sides that are declared active.
pub open spec fn active_set(active: Seq<u16>) -> Set<usize> {
    Set::new(|side: usize| exists|i: int| 0 <= i < active.len() && #[trigger] active[i] == side)
}

/// The declared sides in ascending order.
pub open spec fn active_list(active: Seq<u16>) -> Seq<usize> {
    ascending(active_set(active))
}

fn list_active(active: &Vec<u16>) -> (sides: Vec<usize>)
    ensures
        sides@ == active_list(active@),
{
    broadcast use vstd::std_specs::btree::group_btree_axioms;

    let mut table: BTreeMap<usize, ()> = BTreeMap::new();
    let mut at: usize = 0;
    while at < active.len()
        invariant
            at <= active@.len(),
            forall|side: usize| #[trigger] table@.contains_key(side) <==> exists|i: int|
                0 <= i < at && #[trigger] active@[i] == side,
        decreases active@.len() - at,
    {
        broadcast use vstd::std_specs::btree::group_btree_axioms;

        let ghost earlier = table@;
        let side: usize = active[at] as usize;
        table.insert(side, ());
        proof {
            assert forall|other: usize| #[trigger] table@.contains_key(other) <==> exists|i: int|
                0 <= i < at + 1 && #[trigger] active@[i] == other by {
                if other == side {
                    assert(active@[at as int] == other);
                } else if earlier.contains_key(other) {
                    let i = choose|i: int| 0 <= i < at && #[trigger] active@[i] == other;
                    assert(active@[i] == other);
                }
            }
        }
        at = at + 1;
    }
    assert(table@.dom() =~= active_set(active@));
    ordered_sides(&table)
}

/// What drives the formations' influence where the territory's own queues do.
pub open spec fn turn_scope(model: RuntimeModel, work: TickWork) -> TurnScope {
    TurnScope {
        units: work.units@,
        policies: policies_in_force(model, work),
        tick: work.step.tick,
        frame: model.frame,
    }
}

/// Where influence comes from before anything moves.
pub open spec fn early_sources(
    model: RuntimeModel,
    work: TickWork,
    results: Map<Operation, u64>,
    sources: Seq<SourceModel>,
    schedule: Option<InfluenceSchedule>,
) -> bool {
    let scope = turn_scope(model, work);
    let sides = active_list(model.active_sides).len() as usize;
    let budget = cohort_budget(work.step.tick as int % 3, sides);
    let round = round_of(results, scope, budget, work.units@.len());
    if work.step.facts.spreading {
        &&& round.fault is None
        &&& sources == round.sources
        &&& schedule == Some(
            InfluenceSchedule {
                cohort: (work.step.tick as int % 3) as usize,
                application_budget: budget as usize,
                selected_units: round.sources.len() as usize,
            },
        )
    } else {
        &&& schedule is None
        &&& work.field matches Some(field) && exists|shown: Seq<UnitSnapshot>| #[trigger]
            shows(results, work.units@, model.tick, shown) && collected(
                all_influence_sources(
                    results,
                    shown,
                    policies_in_force(model, work),
                    work.step.tick,
                    Some(field.influence_eligible@),
                ),
                shown.len(),
            ) == Ok::<Seq<SourceModel>, RuntimeError>(sources)
    }
}

/// Why influence cannot spread before anything moves.
pub open spec fn early_fault(
    model: RuntimeModel,
    work: TickWork,
    results: Map<Operation, u64>,
    error: RuntimeError,
) -> bool {
    let scope = turn_scope(model, work);
    let sides = active_list(model.active_sides).len() as usize;
    let budget = cohort_budget(work.step.tick as int % 3, sides);
    let round = round_of(results, scope, budget, work.units@.len());
    if work.step.facts.spreading {
        round.fault == Some(error)
    } else {
        match work.field {
            None => error == RuntimeError::InvalidCheckpoint(
                "live battlefield state disappeared during staging",
            ),
            Some(field) => exists|shown: Seq<UnitSnapshot>| #[trigger]
                shows(results, work.units@, model.tick, shown) && collected(
                    all_influence_sources(
                        results,
                        shown,
                        policies_in_force(model, work),
                        work.step.tick,
                        Some(field.influence_eligible@),
                    ),
                    shown.len(),
                ) == Err::<Seq<SourceModel>, RuntimeError>(error),
        }
    }
}

/// Whether a worksheet holds all that influence takes before anything moves.
pub open spec fn early_supplied(
    model: RuntimeModel,
    work: TickWork,
    results: Map<Operation, u64>,
) -> bool {
    if work.step.facts.spreading {
        round_supplied(
            results,
            work.units@,
            policies_in_force(model, work),
            work.step.tick,
        )
    } else {
        &&& snapshots_supplied(results, work.units@)
        &&& forall|shown: Seq<UnitSnapshot>| #[trigger]
            shows(results, work.units@, model.tick, shown) ==> sources_supplied(
                results,
                shown,
                policies_in_force(model, work),
                work.step.tick,
            )
    }
}

fn gather_early(runtime: &NativeRuntime, work: &TickWork, sheet: &Worksheet) -> (outcome: Result<
    (Vec<InfluenceSource>, Option<InfluenceSchedule>),
    Stop<RuntimeError>,
>)
    ensures
        match outcome {
            Ok((sources, schedule)) => early_sources(
                held(runtime@),
                *work,
                sheet@,
                views(sources@),
                schedule,
            ),
            Err(Stop::Failed(error)) => early_fault(held(runtime@), *work, sheet@, error),
            Err(Stop::Missing(missing)) => missing@.len() > 0 && all_missing(missing@, sheet@)
                && !early_supplied(held(runtime@), *work, sheet@),
        },
{
    let parts = runtime.parts();
    let policies = policies_of(&parts, work);
    let mut reader = sheet.reader();
    if work.step.facts.spreading {
        let sides = list_active(&parts.diplomacy.active_sides);
        let outcome = browser_influence_sources(
            &work.units,
            policies,
            work.step.tick,
            parts.frame,
            sides.len(),
            &mut reader,
        );
        if !reader.is_complete() {
            return Err(Stop::Missing(reader.into_missing()));
        }
        return match outcome {
            Ok((sources, schedule)) => Ok((sources, Some(schedule))),
            Err(error) => Err(Stop::Failed(error)),
        };
    }
    let field = match &work.field {
        None => {
            return Err(
                Stop::Failed(
                    RuntimeError::InvalidCheckpoint(
                        "live battlefield state disappeared during staging",
                    ),
                ),
            );
        },
        Some(field) => field,
    };
    let standing = Simulation {
        config: parts.simulation.config,
        units: crate::order::copy_all(work.units.as_slice()),
        latest: None,
    };
    let shown = match standing.initial_snapshot(parts.tick, parts.frame, sheet) {
        Err(missing) => {
            return Err(Stop::Missing(missing));
        },
        Ok(shown) => shown,
    };
    assert(shows(sheet@, work.units@, held(runtime@).tick, shown.units@));
    let outcome = influence_sources(
        &shown.units,
        policies,
        work.step.tick,
        Some(&field.influence_eligible),
        &mut reader,
    );
    if !reader.is_complete() {
        return Err(Stop::Missing(reader.into_missing()));
    }
    match outcome {
        Ok(sources) => Ok((sources, None)),
        Err(error) => Err(Stop::Failed(error)),
    }
}

/// What influence may still do by itself.
pub open spec fn diffusion_budget(model: RuntimeModel, work: TickWork) -> usize {
    if work.step.facts.spreading {
        influence_budgets(active_list(model.active_sides).len() as usize).1
    } else {
        0
    }
}

/// The report of influence that spread.
pub open spec fn influence_reported(
    spreading: bool,
    sources: nat,
    schedule: Option<InfluenceSchedule>,
    budget: usize,
    answer: InfluenceAnswer,
    report: Option<InfluenceReport>,
) -> bool {
    report matches Some(told) && {
        &&& told.sources == sources
        &&& told.applied == answer.applied
        &&& told.schedule == schedule
        &&& told.diffusion == (DiffusionReport {
            budget,
            processed_items: if spreading {
                answer.processed_items
            } else {
                0
            },
            stale_entries: if spreading {
                answer.stale_entries
            } else {
                0
            },
        })
    }
}

/// Sources that formations are before anything moves.
pub open spec fn sources_gathered(
    model: RuntimeModel,
    work: TickWork,
    results: Map<Operation, u64>,
    sources: Seq<SourceModel>,
) -> bool {
    exists|schedule: Option<InfluenceSchedule>| #[trigger]
        early_sources(model, work, results, sources, schedule)
}

/// Influence spreads before anything moves.
pub open spec fn influence_stage(
    model: RuntimeModel,
    before: TickWork,
    after: TickWork,
    results: Map<Operation, u64>,
    outcome: Result<TickAction, Stop<RuntimeError>>,
) -> bool {
    match outcome {
        Ok(TickAction::Influence { sources, sides, budget }) => {
            &&& before.inbox.influence is None
            &&& after == before
            &&& sides@ == active_list(model.active_sides)
            &&& budget == diffusion_budget(model, before)
            &&& sources_gathered(model, before, results, views(sources@))
        },
        Ok(TickAction::Moved) => before.inbox.influence matches Some(answer) && {
            &&& completed(before, StageEvent::Done, after)
            &&& after == (TickWork {
                step: after.step,
                inbox: after.inbox,
                territory: Some(answer.territory),
                influence: after.influence,
                ..before
            })
            &&& replaces(answer.territory, ground(model, before))
            &&& exists|sources: Seq<SourceModel>, schedule: Option<InfluenceSchedule>| #[trigger]
                early_sources(model, before, results, sources, schedule) && influence_reported(
                    before.step.facts.spreading,
                    sources.len(),
                    schedule,
                    diffusion_budget(model, before),
                    answer,
                    after.influence,
                )
        },
        Ok(_) => false,
        Err(Stop::Failed(error)) => after == before && (early_fault(model, before, results, error)
            || (before.inbox.influence matches Some(answer) && !replaces(
            answer.territory,
            ground(model, before),
        ) && error == RuntimeError::InvalidCheckpoint("territory maps do not cover the grid"))),
        Err(Stop::Missing(missing)) => lacking(before, after, missing, results) && !early_supplied(
            model,
            before,
            results,
        ),
    }
}

pub(crate) fn spread_influence(runtime: &NativeRuntime, work: &mut TickWork, sheet: &Worksheet) -> (
    outcome: Result<TickAction, Stop<RuntimeError>>)
    requires
        runtime_sound(held(runtime@)),
        replaces(ground(held(runtime@), *old(work)), held(runtime@).territory),
    ensures
        influence_stage(held(runtime@), *old(work), *final(work), sheet@, outcome),
{
    let (sources, schedule) = match gather_early(runtime, work, sheet) {
        Err(stop) => {
            return Err(stop);
        },
        Ok(gathered) => gathered,
    };
    let parts = runtime.parts();
    let sides = list_active(&parts.diplomacy.active_sides);
    let budget: usize = if work.step.facts.spreading {
        browser_influence_budgets(sides.len()).1
    } else {
        0
    };
    match &work.inbox.influence {
        None => {
            assert(early_sources(held(runtime@), *work, sheet@, views(sources@), schedule));
            assert(sources_gathered(held(runtime@), *work, sheet@, views(sources@)));
            return Ok(TickAction::Influence { sources, sides, budget });
        },
        Some(answer) => {
            if !can_replace(&answer.territory, ground_of(&parts, work)) {
                return Err(
                    Stop::Failed(
                        RuntimeError::InvalidCheckpoint("territory maps do not cover the grid"),
                    ),
                );
            }
        },
    }
    let ghost drawn = views(sources@);
    let spreading = work.step.facts.spreading;
    let count: usize = sources.len();
    let mut slot: Option<InfluenceAnswer> = None;
    core::mem::swap(&mut slot, &mut work.inbox.influence);
    if let Some(answer) = slot {
        let InfluenceAnswer { territory, applied, processed_items, stale_entries } = answer;
        work.territory = Some(territory);
        let diffusion = if spreading {
            DiffusionReport { budget, processed_items, stale_entries }
        } else {
            DiffusionReport { budget, processed_items: 0, stale_entries: 0 }
        };
        work.influence = Some(InfluenceReport { sources: count, applied, schedule, diffusion });
        proof {
            assert(drawn.len() == count);
            assert(influence_reported(
                spreading,
                drawn.len(),
                schedule,
                budget,
                old(work).inbox.influence->Some_0,
                work.influence,
            ));
        }
    }
    work.close_stage(StageEvent::Done);
    Ok(TickAction::Moved)
}

/// Where influence comes from behind combat.
pub open spec fn late_sources(model: RuntimeModel, work: TickWork, results: Map<Operation, u64>) ->
    Result<Seq<SourceModel>, RuntimeError> {
    match work.counted {
        Some(counted) => collected(
            all_influence_sources(
                results,
                counted.frame.units@,
                model.policies,
                work.step.tick,
                None,
            ),
            counted.frame.units@.len(),
        ),
        None => Err(RuntimeError::InvalidCheckpoint("tick has no frame")),
    }
}

/// Influence spreads from where formations are now.
pub open spec fn late_influence_stage(
    model: RuntimeModel,
    before: TickWork,
    after: TickWork,
    results: Map<Operation, u64>,
    outcome: Result<TickAction, Stop<RuntimeError>>,
) -> bool {
    let sources = late_sources(model, before, results);
    match outcome {
        Ok(TickAction::Influence { sources: asked, sides, budget }) => {
            &&& before.inbox.influence is None
            &&& after == before
            &&& sides@ == active_list(model.active_sides)
            &&& budget == 0
            &&& sources == Ok::<Seq<SourceModel>, RuntimeError>(views(asked@))
        },
        Ok(TickAction::Moved) => before.inbox.influence matches Some(answer) && {
            &&& completed(before, StageEvent::Done, after)
            &&& after == (TickWork {
                step: after.step,
                inbox: after.inbox,
                territory: Some(answer.territory),
                influence: after.influence,
                ..before
            })
            &&& replaces(answer.territory, ground(model, before))
            &&& sources is Ok
            &&& influence_reported(false, sources->Ok_0.len(), None, 0, answer, after.influence)
        },
        Ok(_) => false,
        Err(Stop::Failed(error)) => after == before && (sources == Err::<
            Seq<SourceModel>,
            RuntimeError,
        >(error) || (before.inbox.influence matches Some(answer) && !replaces(
            answer.territory,
            ground(model, before),
        ) && error == RuntimeError::InvalidCheckpoint("territory maps do not cover the grid"))),
        Err(Stop::Missing(missing)) => lacking(before, after, missing, results) && (
        before.counted matches Some(counted) && !sources_supplied(
            results,
            counted.frame.units@,
            model.policies,
            before.step.tick,
        )),
    }
}

pub(crate) fn spread_late(runtime: &NativeRuntime, work: &mut TickWork, sheet: &Worksheet) -> (
    outcome: Result<TickAction, Stop<RuntimeError>>)
    requires
        runtime_sound(held(runtime@)),
        replaces(ground(held(runtime@), *old(work)), held(runtime@).territory),
    ensures
        late_influence_stage(held(runtime@), *old(work), *final(work), sheet@, outcome),
{
    let parts = runtime.parts();
    let counted = match &work.counted {
        None => {
            return Err(Stop::Failed(RuntimeError::InvalidCheckpoint("tick has no frame")));
        },
        Some(counted) => counted,
    };
    let mut reader = sheet.reader();
    let gathered = influence_sources(
        &counted.frame.units,
        parts.unit_policies,
        work.step.tick,
        None,
        &mut reader,
    );
    if !reader.is_complete() {
        return Err(Stop::Missing(reader.into_missing()));
    }
    let sources = match gathered {
        Err(error) => {
            return Err(Stop::Failed(error));
        },
        Ok(sources) => sources,
    };
    match &work.inbox.influence {
        None => {
            let sides = list_active(&parts.diplomacy.active_sides);
            return Ok(TickAction::Influence { sources, sides, budget: 0 });
        },
        Some(answer) => {
            if !can_replace(&answer.territory, ground_of(&parts, work)) {
                return Err(
                    Stop::Failed(
                        RuntimeError::InvalidCheckpoint("territory maps do not cover the grid"),
                    ),
                );
            }
        },
    }
    let count: usize = sources.len();
    let mut slot: Option<InfluenceAnswer> = None;
    core::mem::swap(&mut slot, &mut work.inbox.influence);
    if let Some(answer) = slot {
        let InfluenceAnswer { territory, applied, processed_items: _, stale_entries: _ } = answer;
        work.territory = Some(territory);
        work.influence = Some(
            InfluenceReport {
                sources: count,
                applied,
                schedule: None,
                diffusion: DiffusionReport { budget: 0, processed_items: 0, stale_entries: 0 },
            },
        );
    }
    work.close_stage(StageEvent::Done);
    Ok(TickAction::Moved)
}

} // verus!
