//! The strategic cycle within a tick: it is prepared and evaluated, takes effect on formations and
//! territory, gives formations new commands and is committed.

use std::collections::BTreeMap;
use vstd::prelude::*;
use crate::order::{collected, copy_all, strictly_sorted};
use crate::runtime::aftermath::{prepare_cycle, prepared_cycle, settle_cycle, CountedTick};
use crate::runtime::assembly::{
    conflict_inputs, cycle_effects, stage_strategic_effects, EffectsAnswers, EffectsModel,
    StagedStrategicEffects, UnitConsequences,
};
use crate::runtime::battlefield::SideDynamics;
use crate::runtime::boot::RuntimeState;
use crate::runtime::campaign::{are_indexed, sides_indexed};
use crate::runtime::command::{
    bands_by_country, capital_targets, capital_targets_of, command_unit_states, command_units,
    country_bands, CommandUnitState,
};
use crate::runtime::counters::RuntimeCensusCounters;
use crate::runtime::dynamics::{
    desertion_personnel_loss_by_side, desertion_rates, desertions_by_side, desertions_supplied,
};
use crate::runtime::effects::{
    can_annex, hostile_attackers, positions_of, side_stands, standing_sides, surrender_positions,
    MapsModel, StrategicSnapshot, SurrenderMaps, TerritoryBoundary,
};
use crate::runtime::error::RuntimeError;
use crate::runtime::mobilization::stage_command_policies;
use crate::runtime::planning::band_changes;
use crate::runtime::native::{economies_keyed, held, runtime_sound, NativeRuntime, RuntimeModel};
use crate::runtime::planning::ResolvedCommandPolicy;
use crate::runtime::spreading::shows;
use crate::runtime::stages::{production_derived, production_source};
use crate::runtime::step::StageEvent;
use crate::runtime::tick::{
    are_filed, completed, ground, ground_of, lacking, replaces, CommittedCycle,
    EffectsAnswer, Inbox, TickAction, TickWork,
};
use crate::runtime::validation::{accounted, accounts_for_all};
use crate::runtime::world::TerritoryControl;
use crate::simulation::{snapshots_supplied, Simulation, TickCounters, UnitSnapshot};
use crate::strategic::{
    cycle_supplied, derived_cycle, hostile_pairs, StrategicDerivationInput,
    StrategicDerivationOutput, TerritorySnapshot,
};
use crate::tables::ascending;
use crate::units::SimulationUnit;
use crate::worksheet::{Operation, Stop, Worksheet};

verus! {

/// Whether a tick has what a strategic cycle is derived from.
pub open spec fn cycle_ready(work: TickWork) -> bool {
    work.counted is Some && work.snapshot is Some && work.schema is Some && work.census_counters
        is Some
}

/// Whether a source is what a tick derives its strategic cycle from.
pub open spec fn cycle_source(
    model: RuntimeModel,
    work: TickWork,
    source: StrategicDerivationInput<'_>,
) -> bool {
    production_source(
        source,
        work.step.tick,
        model.scenario,
        ground(model, work),
        *work.snapshot->Some_0,
        work.schema->Some_0@,
        work.counted->Some_0.frame,
        model.hostility,
        model.strategic,
        work.counted->Some_0.casualties@,
    )
}

/// Whether an evaluated cycle changes formations.
pub open spec fn shaken(evaluated: StrategicSnapshot) -> bool {
    evaluated.surrenders@.len() > 0 || evaluated.desertions@.len() > 0
}

/// Whether maps, a boundary and a territory belong together.
pub open spec fn maps_fit(
    maps: MapsModel,
    boundary: TerritoryBoundary,
    territory: TerritoryControl,
) -> bool {
    &&& maps.well_formed(territory.grid.area() as nat, territory.max_sides as nat)
    &&& forall|country: u16| #[trigger]
        territory.country_to_side@.contains_key(country) ==> territory.country_to_side@[country]
            < territory.max_sides
    &&& boundary.tile_size > 0
    &&& territory.land@.len() + boundary.city_count <= usize::MAX
}

fn do_maps_fit(maps: &SurrenderMaps, boundary: &TerritoryBoundary, territory: &TerritoryControl) -> (
    answer: bool)
    requires
        territory.well_formed(),
    ensures
        answer == maps_fit(maps@, *boundary, *territory),
{
    broadcast use vstd::std_specs::btree::group_btree_axioms;

    let cells: usize = territory.land.len();
    if maps.world_control.len() != cells || maps.primary_occupier.len() != cells
        || maps.land.len() != cells || maps.dominant_side.len() != cells || maps.occupation.len()
        != cells || maps.side_influence.len() != territory.max_sides {
        return false;
    }
    let mut side: usize = 0;
    while side < maps.side_influence.len()
        invariant
            side <= maps.side_influence@.len(),
            maps.side_influence@.len() == territory.max_sides,
            cells == territory.grid.area(),
            maps@.side_influence.len() == maps.side_influence@.len(),
            forall|s: int|
                0 <= s < maps.side_influence@.len() ==> #[trigger] maps@.side_influence[s]
                    == maps.side_influence@[s]@,
            forall|s: int|
                0 <= s < side ==> (#[trigger] maps@.side_influence[s]).len() == cells,
        decreases maps.side_influence@.len() - side,
    {
        if maps.side_influence[side].len() != cells {
            assert(maps@.side_influence[side as int].len() != cells);
            return false;
        }
        side = side + 1;
    }
    let countries = crate::tables::ordered_countries(&territory.country_to_side);
    let mut at: usize = 0;
    while at < countries.len()
        invariant
            at <= countries@.len(),
            forall|i: int|
                0 <= i < countries@.len() ==> territory.country_to_side@.contains_key(
                    #[trigger] countries@[i],
                ),
            forall|i: int|
                0 <= i < at ==> territory.country_to_side@[#[trigger] countries@[i]]
                    < territory.max_sides,
        decreases countries@.len() - at,
    {
        broadcast use vstd::std_specs::btree::group_btree_axioms;

        let country: u16 = countries[at];
        if *territory.country_to_side.get(&country).unwrap() >= territory.max_sides {
            return false;
        }
        at = at + 1;
    }
    proof {
        assert forall|country: u16| #[trigger]
            territory.country_to_side@.contains_key(country) implies territory.country_to_side@[country]
            < territory.max_sides by {
            assert(countries@.contains(country));
        }
    }
    boundary.tile_size > 0 && boundary.city_count <= usize::MAX - cells
}

/// What the kernels say while a cycle takes effect.
pub open spec fn effects_told(work: TickWork, answers: EffectsAnswers) -> bool {
    &&& answers.surrender == work.inbox.effects->Some_0.surrender
    &&& answers.resolution == work.inbox.effects->Some_0.resolution
    &&& answers.consequences matches Ok(given) && match work.inbox.consequences {
        Some(after) => given == after && accounted(work.units@, after.units@, after.removed_ids@),
        None => given.units@.len() == 0 && given.removed_ids@.len() == 0,
    }
}

/// What a cycle comes to once the kernels have answered.
pub open spec fn effects_of(
    model: RuntimeModel,
    work: TickWork,
    answers: EffectsAnswers,
) -> Result<EffectsModel, RuntimeError> {
    cycle_effects(
        work.inbox.cycle->Some_0.evaluated,
        work.inbox.effects->Some_0.maps@,
        ground(model, work),
        work.inbox.effects->Some_0.boundary,
        model.scenario.countries@,
        work.inbox.cycle->Some_0.economies@,
        answers,
    )
}

/// Formations once a cycle took effect.
pub open spec fn units_left(work: TickWork) -> Seq<SimulationUnit> {
    match work.effects {
        Some(effects) => match effects.units {
            Some(units) => units@,
            None => work.units@,
        },
        None => match work.inbox.consequences {
            Some(after) => after.units@,
            None => work.units@,
        },
    }
}

/// Who may share in a surrender, where formations stand, and who is left.
pub open spec fn effects_asked(
    model: RuntimeModel,
    work: TickWork,
    attackers: Seq<u16>,
    positions: Seq<crate::runtime::effects::SurrenderUnitPosition>,
    standing: Seq<u16>,
    pairs: Seq<(u16, u16)>,
) -> bool {
    let cycle = work.inbox.cycle->Some_0;
    let territory = ground(model, work);
    if cycle.evaluated.surrenders@.len() == 0 {
        attackers.len() == 0 && positions.len() == 0 && standing.len() == 0 && pairs.len() == 0
    } else {
        &&& attackers == ascending(territory.country_to_side@.dom()).filter(
            can_annex(
                territory,
                model.hostility,
                model.active_sides,
                cycle.economies@,
                cycle.evaluated.surrenders@[0].side as usize,
            ),
        )
        &&& positions == positions_of(units_left(work), units_left(work).len())
        &&& standing == ascending(
            standing_sides(
                cycle.evaluated.countries@,
                model.active_sides,
                cycle.evaluated.countries@.len(),
            ),
        )
        &&& ({
            let left = ascending(standing.to_set());
            pairs == hostile_pairs(
                model.hostility,
                model.territory.max_sides as int,
                left,
                left.len(),
            )
        })
    }
}

/// Whether the sides that are declared active have an index.
pub open spec fn active_indexed(model: RuntimeModel) -> bool {
    forall|i: int|
        0 <= i < model.active_sides.len() ==> (#[trigger] model.active_sides[i] as int)
            < model.territory.max_sides
}

/// What formations' commands are resolved by.
pub open spec fn commands_asked(model: RuntimeModel, work: TickWork) -> Result<
    Seq<CommandUnitState>,
    RuntimeError,
> {
    collected(command_units(units_left(work), model.policies), units_left(work).len())
}

/// Whether a frame shows what a cycle left.
pub open spec fn frame_settled(
    results: Map<Operation, u64>,
    work: TickWork,
    counted: CountedTick,
) -> bool {
    let effects = work.effects->Some_0;
    let earlier = work.counted->Some_0;
    &&& counted == (CountedTick { frame: counted.frame, counters: counted.counters, ..earlier })
    &&& match effects.units {
        None => counted.frame == earlier.frame && counted.counters == earlier.counters,
        Some(units) => {
            &&& counted.frame.schema_version == earlier.frame.schema_version
            &&& counted.frame.tick == earlier.frame.tick
            &&& counted.frame.frame == earlier.frame.frame
            &&& shows(results, units@, work.step.tick, counted.frame.units@)
            &&& counted.frame.events == earlier.frame.events
            &&& counted.frame.abandoned_ids == earlier.frame.abandoned_ids
            &&& strictly_sorted(counted.frame.removed_ids@)
            &&& forall|id: u64| #[trigger]
                counted.frame.removed_ids@.contains(id) <==> (earlier.frame.removed_ids@.contains(id)
                    || effects.removed_ids@.contains(id))
            &&& counted.counters == (TickCounters {
                removed_units: counted.frame.removed_ids@.len() as usize,
                ..earlier.counters
            })
        },
    }
}

/// Whether a committed cycle comes with the census that a surrender left, and only then, whether the
/// maps that changed hands cover the grid, and whether every economy stands under its country.
pub open spec fn restored(model: RuntimeModel, work: TickWork, committed: CommittedCycle) -> bool {
    let cells = ground(model, work).land@.len();
    &&& committed.census is Some == work.effects->Some_0.surrender is Some
    &&& (work.effects->Some_0.surrender matches Some(staged) ==> {
        &&& staged.maps.world_control@.len() == cells
        &&& staged.maps.primary_occupier@.len() == cells
        &&& staged.maps.land@.len() == cells
        &&& staged.maps.dominant_side@.len() == cells
    })
    &&& economies_keyed(committed.strategic.economies@)
}

/// A territory after its maps changed hands; everything else of it stays.
pub open spec fn ceded(before: TerritoryControl, maps: SurrenderMaps, after: TerritoryControl) -> bool {
    &&& after.world_control == maps.world_control
    &&& after.primary_occupier == maps.primary_occupier
    &&& after.land == maps.land
    &&& after.dominant_side == maps.dominant_side
    &&& after.grid == before.grid
    &&& after.de_jure@ == before.de_jure@
    &&& after.country_to_side@ == before.country_to_side@
    &&& after.max_sides == before.max_sides
    &&& after.hostility@ == before.hostility@
    &&& after.influence_runtime == before.influence_runtime
}

/// A strategic cycle took effect and is committed.
pub open spec fn cycle_settled(
    model: RuntimeModel,
    before: TickWork,
    after: TickWork,
    results: Map<Operation, u64>,
) -> bool {
    let effects = before.effects->Some_0;
    let committed = before.inbox.committed->Some_0;
    let cycle = before.inbox.cycle->Some_0;
    &&& completed(
        before,
        if effects.state is Running {
            StageEvent::Done
        } else {
            StageEvent::WarEnded
        },
        after,
    )
    &&& after == (TickWork {
        step: after.step,
        inbox: after.inbox,
        effects: None,
        territory: after.territory,
        snapshot: match committed.census {
            Some(snapshot) => Some(snapshot),
            None => before.snapshot,
        },
        units: after.units,
        strengths: None,
        dynamics: if before.dynamics is Some {
            before.inbox.momentum
        } else {
            before.dynamics
        },
        commands: after.commands,
        strategic: Some(committed.strategic),
        strategic_snapshot: Some(committed.published),
        strategic_counters: Some(committed.counters),
        active_sides: after.active_sides,
        fronts_invalidated: effects.fronts_invalidated,
        state: effects.state,
        counted: after.counted,
        census_counters: after.census_counters,
        ..before
    })
    &&& restored(model, before, committed)
    &&& match effects.surrender {
        Some(staged) => after.territory matches Some(left) && ceded(
            ground(model, before),
            staged.maps,
            left,
        ),
        None => after.territory == before.territory,
    }
    &&& after.units@ == units_left(before)
    &&& after.commands matches Some(staged) && {
        &&& staged.cycle == cycle.evaluated.cycle
        &&& staged.policies@ == before.inbox.commands->Some_0@
        &&& strictly_sorted(staged.changed_unit_ids@)
        &&& forall|id: u64| #[trigger]
            staged.changed_unit_ids@.contains(id) == band_changes(
                model.policies,
                staged.policies@,
                id,
            )
    }
    &&& after.active_sides matches Some(sides) && sides@ == model.active_sides.filter(
        side_stands(committed.published.countries@),
    )
    &&& after.counted matches Some(counted) && frame_settled(results, before, counted)
    &&& after.census_counters == Some(
        match committed.census {
            Some(snapshot) => RuntimeCensusCounters {
                committed: true,
                flushed_for_strategic_cycle: true,
                territory_generation: snapshot.generation,
                territory_commit_sequence: snapshot.commit_sequence,
                ..before.census_counters->Some_0
            },
            None => before.census_counters->Some_0,
        },
    )
}

/// Why a strategic cycle cannot go on, by where it is.
pub open spec fn strategy_fault(
    model: RuntimeModel,
    work: TickWork,
    results: Map<Operation, u64>,
    error: RuntimeError,
) -> bool {
    if !cycle_ready(work) {
        error == RuntimeError::InvalidCheckpoint("tick has nothing to derive a cycle from")
    } else if work.inbox.cycle is None {
        error matches RuntimeError::Production(cause) && production_derived(
            results,
            work.step.tick,
            model.scenario,
            ground(model, work),
            *work.snapshot->Some_0,
            work.schema->Some_0@,
            work.counted->Some_0.frame,
            model.hostility,
            model.strategic,
            work.counted->Some_0.casualties@,
            model.config.production,
            Err(cause),
        )
    } else if work.effects is None {
        ||| work.inbox.effects is None && !active_indexed(model) && error
            == RuntimeError::InvalidCheckpoint("an active side is not declared")
        ||| (work.inbox.consequences matches Some(told) && !accounted(
            work.units@,
            told.units@,
            told.removed_ids@,
        ) && error == RuntimeError::InvalidCheckpoint(
            "consequences do not account for every formation",
        ))
        ||| (work.inbox.effects matches Some(told) && !maps_fit(
            told.maps@,
            told.boundary,
            ground(model, work),
        ) && error == RuntimeError::InvalidCheckpoint("surrender maps do not cover the grid"))
        ||| work.inbox.effects is Some && exists|answers: EffectsAnswers| #[trigger]
            effects_told(work, answers) && effects_of(model, work, answers) == Err::<
                EffectsModel,
                RuntimeError,
            >(error)
    } else {
        ||| !sides_indexed(work.units@) && error == RuntimeError::InvalidCheckpoint(
            "unit side exceeds platform",
        )
        ||| commands_asked(model, work) == Err::<Seq<CommandUnitState>, RuntimeError>(error)
        ||| (work.inbox.committed matches Some(committed) && !restored(model, work, committed)
            && error == RuntimeError::InvalidCheckpoint("surrender territory was not restored"))
    }
}

/// A strategic cycle is prepared, evaluated, takes effect and is committed.
pub open spec fn strategy_stage(
    model: RuntimeModel,
    before: TickWork,
    after: TickWork,
    results: Map<Operation, u64>,
    outcome: Result<TickAction, Stop<RuntimeError>>,
) -> bool {
    let cycle = before.inbox.cycle->Some_0;
    match outcome {
        Ok(TickAction::Cycle(input)) => {
            &&& cycle_ready(before)
            &&& before.inbox.cycle is None
            &&& after == (TickWork { derivation: after.derivation, ..before })
            &&& after.derivation matches Some(counters) && exists|
                source: StrategicDerivationInput<'_>,
            | #[trigger]
                cycle_source(model, before, source) && derived_cycle(
                    results,
                    source,
                    model.config.production,
                ) is Ok && prepared_cycle(
                    StrategicDerivationOutput { input, counters },
                    derived_cycle(results, source, model.config.production)->Ok_0,
                    source,
                    model.active_sides,
                )
        },
        Ok(TickAction::Consequences) => before.inbox.cycle is Some && before.effects is None
            && shaken(cycle.evaluated) && before.inbox.consequences is None && after == before,
        Ok(TickAction::Effects { attackers, positions, standing, pairs }) => {
            &&& before.inbox.cycle is Some
            &&& before.effects is None
            &&& before.inbox.effects is None
            &&& shaken(cycle.evaluated) ==> before.inbox.consequences is Some
            &&& after == before
            &&& effects_asked(model, before, attackers@, positions@, standing@, pairs@)
        },
        Ok(TickAction::FeelLosses(losses)) => {
            &&& before.inbox.cycle is Some
            &&& before.effects is Some
            &&& before.dynamics is Some && before.inbox.momentum is None
            &&& after == before
            &&& losses@ == desertions_by_side(
                results,
                before.units@,
                desertion_rates(cycle.evaluated.desertions@, cycle.evaluated.desertions@.len()),
                before.rules.unit_health,
                model.simulation_config.combat.armor_crew_per_vehicle,
                before.units@.len(),
            )
        },
        Ok(TickAction::Commands { units, bands, targets }) => {
            &&& before.inbox.cycle is Some
            &&& before.effects is Some && before.inbox.commands is None
            &&& after == before
            &&& commands_asked(model, before) == Ok::<Seq<CommandUnitState>, RuntimeError>(units@)
            &&& bands@ == bands_by_country(cycle.economies@)
            &&& targets@ == capital_targets_of(
                model.scenario.cities@,
                ground(model, before).grid.area() as nat,
                ground(model, before).country_to_side@,
                true,
                model.scenario.cities@.len(),
            )
        },
        Ok(TickAction::CommitCycle) => {
            &&& before.inbox.cycle is Some
            &&& before.effects is Some && before.inbox.commands is Some
            &&& before.inbox.committed is None
            &&& after == before
        },
        Ok(TickAction::Moved) => before.inbox.cycle is Some && cycle_ready(before) && (
        if before.effects is None {
            &&& before.inbox.effects is Some
            &&& shaken(cycle.evaluated) ==> before.inbox.consequences is Some
            &&& after == (TickWork {
                effects: after.effects,
                inbox: Inbox { consequences: None, effects: None, ..before.inbox },
                ..before
            })
            &&& after.effects matches Some(staged) && exists|answers: EffectsAnswers| #[trigger]
                effects_told(before, answers) && effects_of(model, before, answers) == Ok::<
                    EffectsModel,
                    RuntimeError,
                >(staged@)
        } else {
            before.inbox.commands is Some && before.inbox.committed is Some && cycle_settled(
                model,
                before,
                after,
                results,
            )
        }),
        Ok(_) => false,
        Err(Stop::Failed(error)) => after.step == before.step && strategy_fault(
            model,
            before,
            results,
            error,
        ),
        Err(Stop::Missing(missing)) => lacking(before, after, missing, results) && {
            ||| before.inbox.cycle is None && exists|source: StrategicDerivationInput<'_>|
                #[trigger]
                cycle_source(model, before, source) && !cycle_supplied(
                    results,
                    source,
                    model.config.production,
                )
            ||| before.inbox.cycle is Some && !desertions_supplied(
                results,
                before.units@,
                desertion_rates(cycle.evaluated.desertions@, cycle.evaluated.desertions@.len()),
                before.rules.unit_health,
                model.simulation_config.combat.armor_crew_per_vehicle,
            )
            ||| before.effects is Some && !snapshots_supplied(results, units_left(before))
        },
    }
}

fn derive_cycle(runtime: &NativeRuntime, work: &mut TickWork, sheet: &Worksheet) -> (outcome: Result<
    TickAction,
    Stop<RuntimeError>,
>)
    requires
        old(work).inbox.cycle is None,
    ensures
        strategy_stage(held(runtime@), *old(work), *final(work), sheet@, outcome),
{
    let parts = runtime.parts();
    if work.counted.is_none() || work.snapshot.is_none() || work.schema.is_none()
        || work.census_counters.is_none() {
        return Err(
            Stop::Failed(
                RuntimeError::InvalidCheckpoint("tick has nothing to derive a cycle from"),
            ),
        );
    }
    let territory = ground_of(&parts, work);
    let counted = work.counted.as_ref().unwrap();
    let schema = work.schema.as_ref().unwrap();
    let snapshot = work.snapshot.as_ref().unwrap();
    let prepared = prepare_cycle(
        work.step.tick,
        parts.scenario,
        territory,
        snapshot,
        schema.as_str(),
        &counted.frame,
        parts.diplomacy,
        parts.strategic,
        &counted.casualties,
        &parts.config.production,
        sheet,
    );
    match prepared {
        Err(Stop::Failed(cause)) => Err(Stop::Failed(RuntimeError::Production(cause))),
        Err(Stop::Missing(missing)) => {
            proof {
                let source = choose|source: StrategicDerivationInput<'_>|
                    #[trigger] production_source(
                        source,
                        work.step.tick,
                        held(runtime@).scenario,
                        ground(held(runtime@), *work),
                        *work.snapshot->Some_0,
                        work.schema->Some_0@,
                        work.counted->Some_0.frame,
                        held(runtime@).hostility,
                        held(runtime@).strategic,
                        work.counted->Some_0.casualties@,
                    ) && !cycle_supplied(sheet@, source, held(runtime@).config.production);
                assert(cycle_source(held(runtime@), *work, source));
            }
            Err(Stop::Missing(missing))
        },
        Ok(output) => {
            let ghost whole = output;
            proof {
                let source = choose|source: StrategicDerivationInput<'_>|
                    #[trigger] production_source(
                        source,
                        work.step.tick,
                        held(runtime@).scenario,
                        ground(held(runtime@), *work),
                        *work.snapshot->Some_0,
                        work.schema->Some_0@,
                        work.counted->Some_0.frame,
                        held(runtime@).hostility,
                        held(runtime@).strategic,
                        work.counted->Some_0.casualties@,
                    ) && derived_cycle(sheet@, source, held(runtime@).config.production) is Ok
                        && prepared_cycle(
                        whole,
                        derived_cycle(sheet@, source, held(runtime@).config.production)->Ok_0,
                        source,
                        held(runtime@).active_sides,
                    );
                assert(cycle_source(held(runtime@), *work, source));
            }
            let StrategicDerivationOutput { input, counters } = output;
            work.derivation = Some(counters);
            assert(whole == (StrategicDerivationOutput { input, counters }));
            Ok(TickAction::Cycle(input))
        },
    }
}

fn all_active_indexed(active: &Vec<u16>, side_count: usize) -> (answer: bool)
    ensures
        answer == (forall|i: int|
            0 <= i < active@.len() ==> (#[trigger] active@[i] as int) < side_count),
{
    let mut at: usize = 0;
    while at < active.len()
        invariant
            at <= active@.len(),
            forall|i: int| 0 <= i < at ==> (#[trigger] active@[i] as int) < side_count,
        decreases active@.len() - at,
    {
        if active[at] as usize >= side_count {
            assert(!((active@[at as int] as int) < side_count));
            return false;
        }
        at = at + 1;
    }
    true
}

fn take_effect(runtime: &NativeRuntime, work: &mut TickWork) -> (outcome: Result<
    TickAction,
    Stop<RuntimeError>,
>)
    requires
        runtime_sound(held(runtime@)),
        replaces(ground(held(runtime@), *old(work)), held(runtime@).territory),
        old(work).inbox.cycle is Some,
        old(work).effects is None,
        cycle_ready(*old(work)),
    ensures
        forall|results: Map<Operation, u64>| #[trigger]
            strategy_stage(held(runtime@), *old(work), *final(work), results, outcome),
{
    let parts = runtime.parts();
    let cycle = work.inbox.cycle.as_ref().unwrap();
    let shakes = cycle.evaluated.surrenders.len() > 0 || cycle.evaluated.desertions.len() > 0;
    if shakes && work.inbox.consequences.is_none() {
        return Ok(TickAction::Consequences);
    }
    if let Some(told) = &work.inbox.consequences {
        if !accounts_for_all(&work.units, &told.units, &told.removed_ids) {
            return Err(
                Stop::Failed(
                    RuntimeError::InvalidCheckpoint(
                        "consequences do not account for every formation",
                    ),
                ),
            );
        }
    }
    let territory = ground_of(&parts, work);
    if work.inbox.effects.is_none() {
        if cycle.evaluated.surrenders.len() == 0 {
            return Ok(
                TickAction::Effects {
                    attackers: Vec::new(),
                    positions: Vec::new(),
                    standing: Vec::new(),
                    pairs: Vec::new(),
                },
            );
        }
        if !all_active_indexed(&parts.diplomacy.active_sides, parts.territory.max_sides) {
            proof {
                let active = parts.diplomacy.active_sides@;
                let stray = choose|i: int|
                    0 <= i < active.len() && !((#[trigger] active[i] as int)
                        < parts.territory.max_sides);
                let model = held(runtime@);
                assert(!((model.active_sides[stray] as int) < model.territory.max_sides));
                assert(!active_indexed(model));
            }
            return Err(
                Stop::Failed(RuntimeError::InvalidCheckpoint("an active side is not declared")),
            );
        }
        let attackers = hostile_attackers(
            territory,
            &parts.diplomacy.hostility,
            &parts.diplomacy.active_sides,
            &cycle.economies,
            cycle.evaluated.surrenders[0].side as usize,
        );
        let positions = match &work.inbox.consequences {
            Some(after) => surrender_positions(&after.units),
            None => surrender_positions(&work.units),
        };
        let (standing, pairs) = conflict_inputs(
            &cycle.evaluated,
            &parts.diplomacy.active_sides,
            &parts.diplomacy.hostility,
            parts.territory.max_sides,
        );
        return Ok(TickAction::Effects { attackers, positions, standing, pairs });
    }
    let told = work.inbox.effects.as_ref().unwrap();
    if !do_maps_fit(&told.maps, &told.boundary, territory) {
        return Err(
            Stop::Failed(RuntimeError::InvalidCheckpoint("surrender maps do not cover the grid")),
        );
    }
    let ghost whole = *work;
    let mut slot: Option<EffectsAnswer> = None;
    core::mem::swap(&mut slot, &mut work.inbox.effects);
    let mut moved: Option<UnitConsequences> = None;
    core::mem::swap(&mut moved, &mut work.inbox.consequences);
    let EffectsAnswer { maps, boundary, surrender, resolution } = slot.unwrap();
    let ghost charted = maps;
    let consequences = match moved {
        Some(after) => after,
        None => UnitConsequences { units: Vec::new(), removed_ids: Vec::new() },
    };
    let answers = EffectsAnswers { consequences: Ok(consequences), surrender, resolution };
    let ghost said = answers;
    assert(effects_told(whole, said));
    let staged = {
        let cycle = work.inbox.cycle.as_ref().unwrap();
        let territory = ground_of(&parts, work);
        stage_strategic_effects(
            &cycle.evaluated,
            maps,
            territory,
            boundary,
            &parts.scenario.countries,
            &cycle.economies,
            answers,
        )
    };
    match staged {
        Err(error) => {
            assert(effects_of(held(runtime@), whole, said) == Err::<EffectsModel, RuntimeError>(error));
            Err(Stop::Failed(error))
        },
        Ok(effects) => {
            assert(effects_of(held(runtime@), whole, said) == Ok::<EffectsModel, RuntimeError>(effects@));
            work.effects = Some(effects);
            Ok(TickAction::Moved)
        },
    }
}

fn show_left(runtime: &NativeRuntime, work: &TickWork, sheet: &Worksheet) -> (outcome: Result<
    Option<Vec<UnitSnapshot>>,
    Vec<Operation>,
>)
    requires
        work.effects is Some,
    ensures
        match outcome {
            Ok(shown) => match work.effects->Some_0.units {
                None => shown is None,
                Some(units) => shown matches Some(list) && shows(
                    sheet@,
                    units@,
                    work.step.tick,
                    list@,
                ),
            },
            Err(missing) => missing@.len() > 0 && crate::worksheet::all_missing(missing@, sheet@)
                && !snapshots_supplied(sheet@, units_left(*work)),
        },
{
    let effects = work.effects.as_ref().unwrap();
    match &effects.units {
        None => Ok(None),
        Some(units) => {
            let standing = Simulation {
                config: runtime.parts().simulation.config,
                units: copy_all(units.as_slice()),
                latest: None,
            };
            match standing.initial_snapshot(work.step.tick, work.step.frame, sheet) {
                Err(missing) => Err(missing),
                Ok(shown) => Ok(Some(shown.units)),
            }
        },
    }
}

fn is_restored(runtime: &NativeRuntime, work: &TickWork, committed: &CommittedCycle) -> (answer:
    bool)
    requires
        work.effects is Some,
    ensures
        answer == restored(held(runtime@), *work, *committed),
{
    let parts = runtime.parts();
    let cells: usize = ground_of(&parts, work).land.len();
    let fits = match &work.effects.as_ref().unwrap().surrender {
        None => committed.census.is_none(),
        Some(staged) => committed.census.is_some() && staged.maps.world_control.len() == cells
            && staged.maps.primary_occupier.len() == cells && staged.maps.land.len() == cells
            && staged.maps.dominant_side.len() == cells,
    };
    fits && are_filed(&committed.strategic.economies)
}

fn cede(before: &TerritoryControl, maps: SurrenderMaps) -> (after: TerritoryControl)
    ensures
        ceded(*before, maps, after),
{
    TerritoryControl {
        grid: before.grid,
        land: maps.land,
        world_control: maps.world_control,
        de_jure: copy_all(before.de_jure.as_slice()),
        primary_occupier: maps.primary_occupier,
        dominant_side: maps.dominant_side,
        country_to_side: before.country_to_side.clone(),
        max_sides: before.max_sides,
        hostility: copy_all(before.hostility.as_slice()),
        influence_runtime: before.influence_runtime,
    }
}

#[verifier::rlimit(60)]
fn settle_strategy(runtime: &NativeRuntime, work: &mut TickWork, sheet: &Worksheet) -> (outcome:
    Result<TickAction, Stop<RuntimeError>>)
    requires
        runtime_sound(held(runtime@)),
        replaces(ground(held(runtime@), *old(work)), held(runtime@).territory),
        old(work).inbox.cycle is Some,
        old(work).effects is Some,
        cycle_ready(*old(work)),
    ensures
        strategy_stage(held(runtime@), *old(work), *final(work), sheet@, outcome),
{
    let parts = runtime.parts();
    if work.dynamics.is_some() && work.inbox.momentum.is_none() {
        if !are_indexed(&work.units) {
            return Err(
                Stop::Failed(RuntimeError::InvalidCheckpoint("unit side exceeds platform")),
            );
        }
        let cycle = work.inbox.cycle.as_ref().unwrap();
        let mut reader = sheet.reader();
        let losses = desertion_personnel_loss_by_side(
            &work.units,
            &cycle.evaluated.desertions,
            work.rules.unit_health,
            parts.simulation.config.combat.armor_crew_per_vehicle,
            &mut reader,
        );
        if !reader.is_complete() {
            return Err(Stop::Missing(reader.into_missing()));
        }
        return Ok(TickAction::FeelLosses(losses));
    }
    if work.inbox.commands.is_none() {
        let cycle = work.inbox.cycle.as_ref().unwrap();
        let effects = work.effects.as_ref().unwrap();
        let states = match &effects.units {
            Some(units) => command_unit_states(units, parts.unit_policies),
            None => command_unit_states(&work.units, parts.unit_policies),
        };
        let units = match states {
            Err(error) => {
                return Err(Stop::Failed(error));
            },
            Ok(units) => units,
        };
        let bands = country_bands(&cycle.economies);
        let targets = capital_targets(&parts.scenario.cities, ground_of(&parts, work), true);
        return Ok(TickAction::Commands { units, bands, targets });
    }
    if work.inbox.committed.is_none() {
        return Ok(TickAction::CommitCycle);
    }
    if !is_restored(runtime, work, work.inbox.committed.as_ref().unwrap()) {
        return Err(
            Stop::Failed(RuntimeError::InvalidCheckpoint("surrender territory was not restored")),
        );
    }
    let shown = match show_left(runtime, work, sheet) {
        Err(missing) => {
            return Err(Stop::Missing(missing));
        },
        Ok(shown) => shown,
    };
    let ghost whole = *work;
    let cycle: u64 = work.inbox.cycle.as_ref().unwrap().evaluated.cycle;
    let mut resolved: Option<BTreeMap<u64, ResolvedCommandPolicy>> = None;
    core::mem::swap(&mut resolved, &mut work.inbox.commands);
    work.commands = Some(stage_command_policies(cycle, parts.unit_policies, resolved.unwrap()));
    let mut slot: Option<CommittedCycle> = None;
    core::mem::swap(&mut slot, &mut work.inbox.committed);
    let CommittedCycle { strategic, published, counters, census: left_census } = slot.unwrap();
    let mut staged: Option<StagedStrategicEffects> = None;
    core::mem::swap(&mut staged, &mut work.effects);
    let StagedStrategicEffects { units, removed_ids, surrender, state, fronts_invalidated } =
        staged.unwrap();
    let mut closed: Option<CountedTick> = None;
    core::mem::swap(&mut closed, &mut work.counted);
    let CountedTick { frame, counters: told, casualties, casualties_by_victim, losses_by_side } =
        closed.unwrap();
    let census = work.census_counters.unwrap();
    let restored_snapshot: Option<&TerritorySnapshot> = match &left_census {
        Some(snapshot) => Some(snapshot),
        None => None,
    };
    let settled = settle_cycle(
        frame,
        told,
        census,
        copy_all(parts.diplomacy.active_sides.as_slice()),
        &published.countries,
        shown,
        removed_ids,
        restored_snapshot,
    );
    work.counted = Some(
        CountedTick {
            frame: settled.frame,
            counters: settled.counters,
            casualties,
            casualties_by_victim,
            losses_by_side,
        },
    );
    work.census_counters = Some(settled.census);
    work.active_sides = Some(settled.active_sides);
    if let Some(left) = units {
        work.units = left;
    }
    work.strengths = None;
    if work.dynamics.is_some() {
        let mut judged: Option<BTreeMap<usize, SideDynamics>> = None;
        core::mem::swap(&mut judged, &mut work.inbox.momentum);
        work.dynamics = judged;
    }
    if let Some(staged_surrender) = surrender {
        let left = cede(ground_of(&parts, work), staged_surrender.maps);
        work.territory = Some(left);
    }
    if let Some(snapshot) = left_census {
        work.snapshot = Some(snapshot);
    }
    work.strategic = Some(strategic);
    work.strategic_snapshot = Some(published);
    work.strategic_counters = Some(counters);
    work.fronts_invalidated = fronts_invalidated;
    work.state = state;
    let running = match state {
        RuntimeState::Running => true,
        _ => false,
    };
    work.close_stage(
        if running {
            StageEvent::Done
        } else {
            StageEvent::WarEnded
        },
    );
    proof {
        assert(work.commands is Some);
        assert(frame_settled(sheet@, whole, work.counted->Some_0));
        assert(cycle_settled(held(runtime@), *old(work), *work, sheet@));
    }
    Ok(TickAction::Moved)
}

pub(crate) fn run_strategy(runtime: &NativeRuntime, work: &mut TickWork, sheet: &Worksheet) -> (
    outcome: Result<TickAction, Stop<RuntimeError>>)
    requires
        runtime_sound(held(runtime@)),
        replaces(ground(held(runtime@), *old(work)), held(runtime@).territory),
    ensures
        strategy_stage(held(runtime@), *old(work), *final(work), sheet@, outcome),
{
    if work.inbox.cycle.is_none() {
        return derive_cycle(runtime, work, sheet);
    }
    if work.counted.is_none() || work.snapshot.is_none() || work.schema.is_none()
        || work.census_counters.is_none() {
        return Err(
            Stop::Failed(
                RuntimeError::InvalidCheckpoint("tick has nothing to derive a cycle from"),
            ),
        );
    }
    if work.effects.is_none() {
        let outcome = take_effect(runtime, work);
        assert(strategy_stage(held(runtime@), *old(work), *work, sheet@, outcome));
        return outcome;
    }
    settle_strategy(runtime, work, sheet)
}

} // verus!
