//! How the results of the stages of a tick come together: the effects of a strategic cycle, the
//! frame, and everything that is counted.

use std::collections::BTreeMap;
use vstd::prelude::*;
use crate::casualties::{AirAdvanceOutcome, DamageOutcome};
use crate::economy::EconomyState;
use crate::order::strictly_sorted;
use crate::production::ProductionCountry;
use crate::runtime::battlefield::BattlefieldUnitResult;
use crate::runtime::boot::RuntimeState;
use crate::runtime::counters::{
    air_count, air_counters, attrition_count, attrition_counters, influence_count,
    influence_counters, missile_count, missile_counters, missile_totals, AiPlanningCounters,
    InfluenceApplyResult, MissileReport, NavalPlanningCounters, OperationalExecutionCounters,
    RuntimeCensusCounters, RuntimeInfluenceCounters, RuntimeReinforcementCounters,
    RuntimeStepCounters, StrategicCounters,
};
use crate::runtime::effects::{
    checked_surrender, sides_still_standing, stage_surrender, standing_sides, surrendered,
    ConflictResolutionPlan, MapsModel, StagedSurrender, StrategicSnapshot, SurrenderAnswers,
    SurrenderMaps, SurrenderModel, TerritoryBoundary,
};
use crate::runtime::error::RuntimeError;
use crate::runtime::influence::InfluenceSchedule;
use crate::runtime::losses::merge_removed;
use crate::runtime::world::{canonical_hostile_pairs, TerritoryControl};
use crate::simulation::{FrameSnapshot, SimulationError, TickCounters, UnitSnapshot};
use crate::strategic::{hostile_pairs, StrategicDerivationCounters, TerritorySnapshot};
use crate::tables::ascending;
use crate::units::SimulationUnit;

verus! {

// ---------------------------------------------------------------------------------------------
// Effects of a strategic cycle
// ---------------------------------------------------------------------------------------------

/// Formations after desertion and surrender, and those that are gone.
#[derive(Debug)]
pub struct UnitConsequences {
    pub units: Vec<SimulationUnit>,
    pub removed_ids: Vec<u64>,
}

/// What the kernels say while a strategic cycle takes effect, in the order in which they are asked.
#[derive(Debug)]
pub struct EffectsAnswers {
    pub consequences: Result<UnitConsequences, SimulationError>,
    pub surrender: SurrenderAnswers,
    /// How the war ends among the sides that are left, if it ends.
    pub resolution: Option<ConflictResolutionPlan>,
}

/// The effects of a strategic cycle, not committed yet.
#[derive(Debug)]
pub struct StagedStrategicEffects {
    /// Formations, if desertion or surrender changed them.
    pub units: Option<Vec<SimulationUnit>>,
    pub removed_ids: Vec<u64>,
    pub surrender: Option<StagedSurrender>,
    pub state: RuntimeState,
    pub fronts_invalidated: bool,
}

/// What [`StagedStrategicEffects`] say.
pub ghost struct EffectsModel {
    pub units: Option<Seq<SimulationUnit>>,
    pub removed_ids: Seq<u64>,
    pub surrender: Option<SurrenderModel>,
    pub state: RuntimeState,
    pub fronts_invalidated: bool,
}

impl View for StagedStrategicEffects {
    type V = EffectsModel;

    open spec fn view(&self) -> EffectsModel {
        EffectsModel {
            units: match self.units {
                Some(units) => Some(units@),
                None => None,
            },
            removed_ids: self.removed_ids@,
            surrender: match self.surrender {
                Some(staged) => Some(
                    SurrenderModel {
                        maps: staged.maps@,
                        committed: staged.committed,
                        world_revision: staged.world_revision,
                        occupation: staged.occupation,
                    },
                ),
                None => None,
            },
            state: self.state,
            fronts_invalidated: self.fronts_invalidated,
        }
    }
}

/// How the runtime goes on after a strategic cycle. A surrender may end the war; otherwise the
/// cycle itself may have.
pub open spec fn state_after_cycle(
    evaluated: StrategicSnapshot,
    resolution: Option<ConflictResolutionPlan>,
) -> RuntimeState {
    let last = if evaluated.surrenders@.len() > 0 && resolution is Some {
        resolution
    } else {
        evaluated.conflict_resolution
    };
    match last {
        Some(resolution) => RuntimeState::ConflictResolved {
            cycle: evaluated.cycle,
            tick: evaluated.tick,
            resolution,
        },
        None => RuntimeState::Running,
    }
}

/// The effects of a strategic cycle, or why it cannot take effect, by the first cause.
pub open spec fn cycle_effects(
    evaluated: StrategicSnapshot,
    maps: MapsModel,
    territory: TerritoryControl,
    boundary: TerritoryBoundary,
    countries: Seq<ProductionCountry>,
    economies: Map<u16, EconomyState>,
    answers: EffectsAnswers,
) -> Result<EffectsModel, RuntimeError> {
    let surrenders = evaluated.surrenders@;
    let state = state_after_cycle(evaluated, answers.resolution);
    if surrenders.len() > 1 {
        Err(RuntimeError::InvalidCheckpoint("strategic cycle produced more than one capitulation"))
    } else if surrenders.len() == 0 && evaluated.desertions@.len() == 0 {
        Ok(
            EffectsModel {
                units: None,
                removed_ids: Seq::empty(),
                surrender: None,
                state,
                fronts_invalidated: false,
            },
        )
    } else {
        match answers.consequences {
            Err(error) => Err(RuntimeError::Simulation(error)),
            Ok(after) => if surrenders.len() == 0 {
                Ok(
                    EffectsModel {
                        units: Some(after.units@),
                        removed_ids: after.removed_ids@,
                        surrender: None,
                        state,
                        fronts_invalidated: false,
                    },
                )
            } else if !(territory.country_to_side@.contains_key(surrenders[0].country_id)
                && territory.country_to_side@[surrenders[0].country_id] == surrenders[0].side) {
                Err(
                    RuntimeError::InvalidCheckpoint(
                        "capitulating country does not belong to its strategic side",
                    ),
                )
            } else {
                match surrendered(
                    maps,
                    territory,
                    boundary,
                    countries,
                    economies,
                    surrenders[0].country_id,
                    answers.surrender,
                ) {
                    Err(error) => Err(error),
                    Ok(staged) => Ok(
                        EffectsModel {
                            units: Some(after.units@),
                            removed_ids: after.removed_ids@,
                            surrender: Some(staged),
                            state,
                            fronts_invalidated: true,
                        },
                    ),
                }
            },
        }
    }
}

fn settle_state(evaluated: &StrategicSnapshot, resolution: Option<ConflictResolutionPlan>) -> (state:
    RuntimeState)
    ensures
        state == state_after_cycle(*evaluated, resolution),
{
    let last: Option<ConflictResolutionPlan> = if evaluated.surrenders.len() > 0
        && resolution.is_some() {
        resolution
    } else {
        evaluated.conflict_resolution
    };
    match last {
        Some(resolution) => RuntimeState::ConflictResolved {
            cycle: evaluated.cycle,
            tick: evaluated.tick,
            resolution,
        },
        None => RuntimeState::Running,
    }
}

/// Lets a strategic cycle take effect on copies: formations desert or give up, territory changes
/// hands, an occupation begins and the war may end.
pub fn stage_strategic_effects(
    evaluated: &StrategicSnapshot,
    maps: SurrenderMaps,
    territory: &TerritoryControl,
    boundary: TerritoryBoundary,
    countries: &Vec<ProductionCountry>,
    economies: &BTreeMap<u16, EconomyState>,
    answers: EffectsAnswers,
) -> (outcome: Result<StagedStrategicEffects, RuntimeError>)
    requires
        territory.well_formed(),
        maps@.well_formed(territory.grid.area() as nat, territory.max_sides as nat),
        forall|country: u16| #[trigger]
            territory.country_to_side@.contains_key(country) ==> territory.country_to_side@[country]
                < territory.max_sides,
        boundary.tile_size > 0,
        territory.land@.len() + boundary.city_count <= usize::MAX,
    ensures
        ({
            let expected = cycle_effects(
                *evaluated,
                maps@,
                *territory,
                boundary,
                countries@,
                economies@,
                answers,
            );
            match outcome {
                Ok(staged) => expected == Ok::<EffectsModel, RuntimeError>(staged@),
                Err(error) => expected == Err::<EffectsModel, RuntimeError>(error),
            }
        }),
{
    if evaluated.surrenders.len() > 1 {
        return Err(
            RuntimeError::InvalidCheckpoint("strategic cycle produced more than one capitulation"),
        );
    }
    let state = settle_state(evaluated, answers.resolution);
    if evaluated.surrenders.len() == 0 && evaluated.desertions.len() == 0 {
        let removed_ids: Vec<u64> = Vec::new();
        assert(removed_ids@ =~= Seq::<u64>::empty());
        return Ok(
            StagedStrategicEffects {
                units: None,
                removed_ids,
                surrender: None,
                state,
                fronts_invalidated: false,
            },
        );
    }
    let after = match answers.consequences {
        Err(error) => {
            return Err(RuntimeError::Simulation(error));
        },
        Ok(after) => after,
    };
    let command = match checked_surrender(evaluated, &territory.country_to_side) {
        Err(error) => {
            return Err(error);
        },
        Ok(None) => {
            return Ok(
                StagedStrategicEffects {
                    units: Some(after.units),
                    removed_ids: after.removed_ids,
                    surrender: None,
                    state,
                    fronts_invalidated: false,
                },
            );
        },
        Ok(Some(command)) => command,
    };
    match stage_surrender(
        maps,
        territory,
        boundary,
        countries,
        economies,
        command.country_id,
        &answers.surrender,
    ) {
        Err(error) => Err(error),
        Ok(staged) => Ok(
            StagedStrategicEffects {
                units: Some(after.units),
                removed_ids: after.removed_ids,
                surrender: Some(staged),
                state,
                fronts_invalidated: true,
            },
        ),
    }
}

/// A strategic cycle without a surrender leaves the territory and the fronts alone, and without
/// desertion the formations too.
pub proof fn peace_keeps_the_territory(
    evaluated: StrategicSnapshot,
    maps: MapsModel,
    territory: TerritoryControl,
    boundary: TerritoryBoundary,
    countries: Seq<ProductionCountry>,
    economies: Map<u16, EconomyState>,
    answers: EffectsAnswers,
)
    requires
        evaluated.surrenders@.len() == 0,
    ensures
        cycle_effects(
            evaluated,
            maps,
            territory,
            boundary,
            countries,
            economies,
            answers,
        ) matches Ok(effects) ==> effects.surrender is None && !effects.fronts_invalidated && (
        evaluated.desertions@.len() == 0 ==> effects.units is None && effects.removed_ids.len()
            == 0),
{
}

/// Who is left to fight after a surrender: the sides that stand, and the pairs of them that are
/// hostile.
pub fn conflict_inputs(
    evaluated: &StrategicSnapshot,
    active_sides: &Vec<u16>,
    hostility: &Vec<u8>,
    side_count: usize,
) -> (inputs: (Vec<u16>, Vec<(u16, u16)>))
    requires
        hostility@.len() == side_count * side_count,
        forall|i: int|
            0 <= i < active_sides@.len() ==> (#[trigger] active_sides@[i] as int) < side_count,
    ensures
        inputs.0@ == ascending(
            standing_sides(evaluated.countries@, active_sides@, evaluated.countries@.len()),
        ),
        ({
            let standing = ascending(inputs.0@.to_set());
            inputs.1@ == hostile_pairs(hostility@, side_count as int, standing, standing.len())
        }),
{
    let standing = sides_still_standing(&evaluated.countries, active_sides);
    let pairs = canonical_hostile_pairs(&standing, hostility, side_count);
    (standing, pairs)
}

// ---------------------------------------------------------------------------------------------
// The frame
// ---------------------------------------------------------------------------------------------

/// Whether a formation is gone, by what a frame reports or by what was removed besides.
pub open spec fn removed_somewhere(frame: FrameSnapshot, removed: Seq<Vec<u64>>, id: u64) -> bool {
    frame.removed_ids@.contains(id) || exists|i: int|
        0 <= i < removed.len() && (#[trigger] removed[i])@.contains(id)
}

/// A frame reports what was removed outside of combat, each formation once. Where nothing was
/// removed by anything, the frame stays as it is.
pub fn record_removals(
    frame: FrameSnapshot,
    counters: TickCounters,
    input_units: usize,
    removed: Vec<Vec<u64>>,
) -> (recorded: (FrameSnapshot, TickCounters))
    ensures
        removed@.len() == 0 ==> recorded == (frame, counters),
        removed@.len() > 0 ==> {
            &&& recorded.0.schema_version == frame.schema_version
            &&& recorded.0.tick == frame.tick
            &&& recorded.0.frame == frame.frame
            &&& recorded.0.units == frame.units
            &&& recorded.0.events == frame.events
            &&& recorded.0.abandoned_ids == frame.abandoned_ids
            &&& strictly_sorted(recorded.0.removed_ids@)
            &&& forall|id: u64| #[trigger]
                recorded.0.removed_ids@.contains(id) <==> removed_somewhere(frame, removed@, id)
            &&& recorded.1 == (TickCounters {
                input_units,
                removed_units: recorded.0.removed_ids@.len() as usize,
                ..counters
            })
        },
{
    if removed.len() == 0 {
        return (frame, counters);
    }
    let merged = merge_with(&frame.removed_ids, removed);
    let mut counted = counters;
    counted.input_units = input_units;
    counted.removed_units = merged.len();
    let mut shown = frame;
    shown.removed_ids = merged;
    (shown, counted)
}

/// Ids of one list and of several others, each once and in ascending order.
fn merge_with(first: &Vec<u64>, others: Vec<Vec<u64>>) -> (merged: Vec<u64>)
    ensures
        strictly_sorted(merged@),
        forall|id: u64| #[trigger]
            merged@.contains(id) <==> (first@.contains(id) || exists|i: int|
                0 <= i < others@.len() && (#[trigger] others@[i])@.contains(id)),
{
    let mut parts = others;
    let ghost given = parts@;
    let mut own: Vec<u64> = Vec::new();
    let mut at: usize = 0;
    while at < first.len()
        invariant
            at <= first@.len(),
            own@ =~= first@.take(at as int),
        decreases first@.len() - at,
    {
        own.push(first[at]);
        at = at + 1;
    }
    assert(own@ =~= first@);
    parts.push(own);
    let merged = merge_removed(&parts);
    proof {
        assert(parts@[given.len() as int]@ == first@);
        assert forall|id: u64| #[trigger] merged@.contains(id) <==> (first@.contains(id)
            || exists|i: int| 0 <= i < given.len() && (#[trigger] given[i])@.contains(id)) by {
            if merged@.contains(id) {
                let i = choose|i: int| 0 <= i < parts@.len() && (#[trigger] parts@[i])@.contains(
                    id,
                );
                if i < given.len() {
                    assert(given[i]@.contains(id));
                }
            }
            if exists|i: int| 0 <= i < given.len() && (#[trigger] given[i])@.contains(id) {
                let i = choose|i: int| 0 <= i < given.len() && (#[trigger] given[i])@.contains(id);
                assert(parts@[i]@.contains(id));
            }
        }
    }
    merged
}

/// A frame shows the formations that a strategic cycle left, and reports those that it removed.
pub fn show_consequences(
    frame: FrameSnapshot,
    counters: TickCounters,
    units: Vec<UnitSnapshot>,
    removed_ids: Vec<u64>,
) -> (shown: (FrameSnapshot, TickCounters))
    ensures
        shown.0.schema_version == frame.schema_version,
        shown.0.tick == frame.tick,
        shown.0.frame == frame.frame,
        shown.0.units == units,
        shown.0.events == frame.events,
        shown.0.abandoned_ids == frame.abandoned_ids,
        strictly_sorted(shown.0.removed_ids@),
        forall|id: u64| #[trigger]
            shown.0.removed_ids@.contains(id) <==> (frame.removed_ids@.contains(id)
                || removed_ids@.contains(id)),
        shown.1 == (TickCounters {
            removed_units: shown.0.removed_ids@.len() as usize,
            ..counters
        }),
{
    let mut removed: Vec<Vec<u64>> = Vec::new();
    let ghost gone = removed_ids@;
    removed.push(removed_ids);
    let ghost parts = removed@;
    let merged = merge_with(&frame.removed_ids, removed);
    proof {
        assert(parts[0]@ == gone);
        assert forall|id: u64| #[trigger] merged@.contains(id) <==> (frame.removed_ids@.contains(id)
            || gone.contains(id)) by {
            if gone.contains(id) {
                assert(parts[0]@.contains(id));
            }
        }
    }
    let mut counted = counters;
    counted.removed_units = merged.len();
    let mut shown = frame;
    shown.units = units;
    shown.removed_ids = merged;
    (shown, counted)
}

// ---------------------------------------------------------------------------------------------
// Counters
// ---------------------------------------------------------------------------------------------

/// A census counts as flushed and committed once a surrender has moved the territory on.
pub fn census_after_surrender(census: RuntimeCensusCounters, snapshot: &TerritorySnapshot) -> (
    counters: RuntimeCensusCounters)
    ensures
        counters == (RuntimeCensusCounters {
            committed: true,
            flushed_for_strategic_cycle: true,
            territory_generation: snapshot.generation,
            territory_commit_sequence: snapshot.commit_sequence,
            ..census
        }),
{
    let mut counters = census;
    counters.committed = true;
    counters.flushed_for_strategic_cycle = true;
    counters.territory_generation = snapshot.generation;
    counters.territory_commit_sequence = snapshot.commit_sequence;
    counters
}

/// What the territory kernel reports of influence that spread on its own.
#[derive(Clone, Copy, Debug, PartialEq, Eq, Structural)]
pub struct DiffusionReport {
    pub budget: usize,
    pub processed_items: usize,
    pub stale_entries: usize,
}

/// What the stages of a tick report.
#[derive(Clone, Copy, Debug)]
pub struct TickReport<'a> {
    pub ai: AiPlanningCounters,
    pub simulation: TickCounters,
    pub air: Option<&'a AirAdvanceOutcome>,
    pub air_damage: Option<&'a DamageOutcome>,
    pub missiles: Option<MissileReport>,
    pub impacts: &'a Vec<DamageOutcome>,
    /// What a pay cycle bought and repaired.
    pub reinforcement: RuntimeReinforcementCounters,
    pub recruited_units: usize,
    pub recruited_personnel: u64,
    pub naval_planning: NavalPlanningCounters,
    pub operational_execution: Option<OperationalExecutionCounters>,
    pub attrition: Option<&'a DamageOutcome>,
    pub resolved: Option<&'a BTreeMap<u64, BattlefieldUnitResult>>,
    pub exiled_units: usize,
    pub recovered_personnel: u64,
    pub influence_sources: usize,
    pub influence: &'a InfluenceApplyResult,
    pub schedule: Option<InfluenceSchedule>,
    pub diffusion: DiffusionReport,
    pub census: RuntimeCensusCounters,
    pub strategic: Option<StrategicCounters>,
    pub strategic_derivation: Option<StrategicDerivationCounters>,
}

/// What influence amounted to in a tick.
pub open spec fn influence_report(report: TickReport<'_>) -> RuntimeInfluenceCounters {
    let applied = influence_count(report.influence_sources, *report.influence);
    let scheduled = match report.schedule {
        Some(schedule) => RuntimeInfluenceCounters {
            cohort: Some((schedule.cohort % 256) as u8),
            application_budget: schedule.application_budget,
            ..applied
        },
        None => applied,
    };
    RuntimeInfluenceCounters {
        diffusion_budget: report.diffusion.budget,
        diffusion_processed_items: report.diffusion.processed_items,
        diffusion_stale_entries: report.diffusion.stale_entries,
        ..scheduled
    }
}

/// What a tick amounted to, but for the fronts and the changes of the map.
pub open spec fn step_report(report: TickReport<'_>) -> RuntimeStepCounters {
    RuntimeStepCounters {
        front_refreshed: false,
        front_segments: 0,
        front_objectives: 0,
        ai: report.ai,
        simulation: report.simulation,
        air: air_count(report.air, report.air_damage),
        missiles: missile_count(report.missiles, report.impacts@),
        reinforcement: RuntimeReinforcementCounters {
            recruited_units: report.recruited_units,
            recruited_personnel: report.recruited_personnel,
            ..report.reinforcement
        },
        naval_planning: report.naval_planning,
        operational_execution: match report.operational_execution {
            Some(counters) => counters,
            None => crate::runtime::counters::no_execution(),
        },
        attrition: attrition_count(
            report.attrition,
            report.resolved,
            report.exiled_units,
            report.recovered_personnel,
        ),
        influence: influence_report(report),
        census: report.census,
        strategic: report.strategic,
        strategic_derivation: report.strategic_derivation,
        render_updates_enqueued: 0,
    }
}

/// Counts everything that a tick amounted to.
pub fn count_step(report: TickReport<'_>) -> (counters: RuntimeStepCounters)
    requires
        missile_totals(report.impacts@, report.impacts@.len()).damaged <= usize::MAX,
        missile_totals(report.impacts@, report.impacts@.len()).removed <= usize::MAX,
    ensures
        counters == step_report(report),
{
    let mut influence = influence_counters(report.influence_sources, report.influence);
    if let Some(schedule) = report.schedule {
        influence.cohort = Some((schedule.cohort % 256) as u8);
        influence.application_budget = schedule.application_budget;
    }
    influence.diffusion_budget = report.diffusion.budget;
    influence.diffusion_processed_items = report.diffusion.processed_items;
    influence.diffusion_stale_entries = report.diffusion.stale_entries;
    let mut reinforcement = report.reinforcement;
    reinforcement.recruited_units = report.recruited_units;
    reinforcement.recruited_personnel = report.recruited_personnel;
    let operational_execution = match report.operational_execution {
        Some(counters) => counters,
        None => OperationalExecutionCounters::default(),
    };
    RuntimeStepCounters {
        front_refreshed: false,
        front_segments: 0,
        front_objectives: 0,
        ai: report.ai,
        simulation: report.simulation,
        air: air_counters(report.air, report.air_damage),
        missiles: missile_counters(report.missiles, report.impacts),
        reinforcement,
        naval_planning: report.naval_planning,
        operational_execution,
        attrition: attrition_counters(
            report.attrition,
            report.resolved,
            report.exiled_units,
            report.recovered_personnel,
        ),
        influence,
        census: report.census,
        strategic: report.strategic,
        strategic_derivation: report.strategic_derivation,
        render_updates_enqueued: 0,
    }
}

} // verus!
