//! What a runtime is from tick to tick: when it goes on, in which order a tick does its work, what
//! it keeps, what it saves, and what it refuses to start from.

use vstd::prelude::*;
use crate::casualties::ledger_view;
use crate::economy::CommandBand;
use crate::numbers::{N_0_003, N_0_04, N_0_45};
use crate::runtime::boot::{air_fault, first_state, history_fault, HistoryScope, RuntimeState};
use crate::runtime::effects::StrategicSnapshot;
use crate::runtime::error::RuntimeError;
use crate::runtime::native::{
    committed_model, next_front_priors, next_policies, next_priors, owners_of, save_holds,
    snapshot_shows, step_begun, KernelHandle, NativeRuntimeCheckpointState, RuntimeModel,
    RuntimeSnapshot, TickResult,
};
use crate::runtime::policy::{
    command_fault, command_policy_valid, formation_policy_fault, standard_policy, Policies,
    RefusalShares,
};
use crate::runtime::step::{
    stage_after, stage_completed, stage_due, stage_poisons, RuntimeStep, StageEvent, StepStage,
};
use crate::runtime::validation::{runtime_config_valid, toll_valid, RuntimeConfig};
use crate::runtime::world::{StrategicState, TerritoryControl};
use crate::scalar::{real_of, Real, ONE_BITS};
use crate::units::SimulationUnit;

verus! {

// ---------------------------------------------------------------------------------------------
// Beginning a tick
// ---------------------------------------------------------------------------------------------

/// A runtime that runs begins the tick after its last one. Any other one says why it does not.
pub proof fn ticks_begin_while_the_war_goes_on(model: RuntimeModel, pay_cycle_ticks: u64)
    requires
        pay_cycle_ticks > 0,
        model.config.front_refresh_ticks > 0,
    ensures
        ({
            let begun = step_begun(model, pay_cycle_ticks);
            &&& begun is Ok <==> model.state is Running && model.tick < u64::MAX && model.frame
                < u64::MAX
            &&& begun matches Ok(step) ==> step.tick == model.tick + 1 && step.frame == model.frame
                + 1 && !step.ended
            &&& model.state is Poisoned ==> begun == Err::<RuntimeStep, RuntimeError>(
                RuntimeError::Poisoned,
            )
            &&& model.state matches RuntimeState::ConflictResolved { cycle, tick, .. } ==> begun
                == Err::<RuntimeStep, RuntimeError>(RuntimeError::ConflictResolved { cycle, tick })
            &&& model.state matches RuntimeState::AwaitingStrategicEffects { cycle, tick, .. }
                ==> begun == Err::<RuntimeStep, RuntimeError>(
                RuntimeError::AwaitingStrategicEffects { cycle, tick },
            )
            &&& begun matches Ok(step) ==> {
                &&& step.facts.strategy_due <==> (model.tick + 1) % (pay_cycle_ticks as int) == 0
                &&& step.facts.fronts_due <==> model.last_refresh is None || (model.tick + 1) % (
                model.config.front_refresh_ticks as int) == 0
                &&& step.facts.operations == model.operations is Some
                &&& step.facts.dynamics == model.dynamics is Some
                &&& step.facts.battlefield == model.battlefield is Some
                &&& step.facts.air == model.air is Some
                &&& step.facts.execution == model.execution is Some
                &&& step.facts.missiles == model.missiles is Some
                &&& step.facts.reinforcement == model.reinforcement is Some
                &&& step.facts.material == model.material is Some
                &&& step.facts.spreading == model.territory.influence_runtime
            }
        }),
{
}

/// Stages follow each other: sides are judged before the battlefield, the air war before
/// attrition, planning before orders, orders before combat, combat before losses, the census
/// before strategy, pay before recruitment, and publication is last.
pub proof fn stages_follow_each_other(stage: StepStage)
    ensures
        stage_after(StepStage::Intelligence) is Momentum,
        stage_after(StepStage::Momentum) is Battlefield,
        stage_after(StepStage::Battlefield) is Influence,
        stage_after(StepStage::Influence) is Engagement,
        stage_after(StepStage::Engagement) is Air,
        stage_after(StepStage::Air) is Exile,
        stage_after(StepStage::Exile) is Attrition,
        stage_after(StepStage::Attrition) is Fronts,
        stage_after(StepStage::Fronts) is Planning,
        stage_after(StepStage::Planning) is Operations,
        stage_after(StepStage::Operations) is Execution,
        stage_after(StepStage::Execution) is Replanning,
        stage_after(StepStage::Replanning) is Orders,
        stage_after(StepStage::Orders) is Directions,
        stage_after(StepStage::Directions) is Simulation,
        stage_after(StepStage::Simulation) is Missiles,
        stage_after(StepStage::Missiles) is Losses,
        stage_after(StepStage::Losses) is LateInfluence,
        stage_after(StepStage::LateInfluence) is Census,
        stage_after(StepStage::Census) is Strategy,
        stage_after(StepStage::Strategy) is Logistics,
        stage_after(StepStage::Logistics) is Settlement,
        stage_after(StepStage::Settlement) is Reactions,
        stage_after(StepStage::Reactions) is Mobilization,
        stage_after(StepStage::Mobilization) is Recruitment,
        stage_after(StepStage::Recruitment) is Publication,
        stage_after(StepStage::Publication) is Publication,
{
}

/// A stage has work where there is something to work on: every tick plans, gives orders, fights,
/// counts its losses and the territory, and publishes; the rest depends on what there is, on what
/// is due, and nobody is recruited once the war is over. Influence spreads early or late, never
/// both.
pub proof fn stages_have_work_where_there_is_some(step: RuntimeStep)
    ensures
        stage_due(step, StepStage::Exile) && stage_due(step, StepStage::Planning),
        stage_due(step, StepStage::Replanning) && stage_due(step, StepStage::Orders),
        stage_due(step, StepStage::Simulation) && stage_due(step, StepStage::Losses),
        stage_due(step, StepStage::Census) && stage_due(step, StepStage::Publication),
        stage_due(step, StepStage::Fronts) == step.facts.fronts_due,
        stage_due(step, StepStage::Intelligence) == step.facts.operations,
        stage_due(step, StepStage::Operations) == step.facts.operations,
        stage_due(step, StepStage::Settlement) == step.facts.operations,
        stage_due(step, StepStage::Momentum) == step.facts.dynamics,
        stage_due(step, StepStage::Battlefield) == step.facts.battlefield,
        stage_due(step, StepStage::Engagement) == step.facts.battlefield,
        stage_due(step, StepStage::Attrition) == step.facts.battlefield,
        stage_due(step, StepStage::Directions) == step.facts.battlefield,
        stage_due(step, StepStage::Air) == step.facts.air,
        stage_due(step, StepStage::Execution) == step.facts.execution,
        stage_due(step, StepStage::Reactions) == step.facts.execution,
        stage_due(step, StepStage::Missiles) == step.facts.missiles,
        stage_due(step, StepStage::Influence) != stage_due(step, StepStage::LateInfluence),
        stage_due(step, StepStage::Influence) == (step.facts.battlefield || step.facts.spreading),
        stage_due(step, StepStage::Strategy) == step.facts.strategy_due,
        stage_due(step, StepStage::Logistics) == (step.facts.strategy_due
            && step.facts.reinforcement),
        stage_due(step, StepStage::Mobilization) == (step.facts.strategy_due
            && step.facts.reinforcement && step.facts.material),
        stage_due(step, StepStage::Recruitment) == (step.facts.reinforcement && !step.ended),
{
    reveal(stage_due);
}

/// A stage that is done hands on to a later one, and the war is over once a stage ended it; the
/// clock and what there is to do stay.
pub proof fn stages_hand_on(step: RuntimeStep, event: StageEvent)
    ensures
        ({
            let after = stage_completed(step, event);
            &&& after.tick == step.tick && after.frame == step.frame && after.facts == step.facts
            &&& after.ended <==> step.ended || event is WarEnded
        }),
{
}

/// A failure ends the runtime exactly from the strategic stage on; before that it leaves no trace.
pub proof fn late_failures_are_final(stage: StepStage)
    ensures
        stage_poisons(stage) <==> stage is Strategy || stage is Logistics || stage is Settlement
            || stage is Reactions || stage is Mobilization || stage is Recruitment || stage
            is Publication,
{
    reveal(crate::runtime::step::stage_rank);
}

// ---------------------------------------------------------------------------------------------
// Committing a tick
// ---------------------------------------------------------------------------------------------

/// What a runtime is after a tick: the next tick and frame, what the tick worked out of the world,
/// and unchanged what no tick changes.
pub proof fn commits_take_over_the_outcome(
    before: RuntimeModel,
    step: RuntimeStep,
    outcome: TickResult,
    latest: RuntimeSnapshot,
)
    ensures
        ({
            let after = committed_model(before, step, outcome, latest);
            &&& after.tick == step.tick && after.frame == step.frame
            &&& after.config == before.config && after.scenario == before.scenario
            &&& after.hostility == before.hostility && after.war_grace_end == before.war_grace_end
            &&& after.urban_mask == before.urban_mask
            &&& after.units == outcome.simulation.units@
            &&& after.territory == outcome.territory
            &&& after.strategic == outcome.strategic@
            &&& after.active_sides == outcome.active_sides@
            &&& after.casualties == outcome.casualties@
            &&& after.ledger == ledger_view(outcome.casualties_by_victim@)
            &&& after.rng == outcome.gameplay_rng
            &&& after.reserves == outcome.personnel_reserves@
            &&& after.air == outcome.air_power && after.execution == outcome.operational_execution
            &&& after.reinforcement == outcome.reinforcement && after.material
                == outcome.material_logistics
            &&& after.missiles == outcome.strategic_missiles && after.naval
                == outcome.naval_planning
            &&& after.state == outcome.state
            &&& outcome.fronts_invalidated ==> after.last_refresh is None
                && after.objectives.len() == 0 && after.priors.dom() =~= Set::empty()
                && after.front_priors.dom() =~= Set::empty()
            &&& !outcome.fronts_invalidated && outcome.layout is Some ==> after.last_refresh == Some(
                step.tick,
            ) && after.objectives == outcome.layout->0.objectives@
            &&& !outcome.fronts_invalidated && outcome.layout is None ==> after.last_refresh
                == before.last_refresh && after.objectives == before.objectives
            &&& outcome.render_update matches Some(update) ==> after.render_updates
                == before.render_updates.push(update)
            &&& outcome.render_update is None ==> after.render_updates == before.render_updates
        }),
{
}

/// After a tick policies are held of formations that are shown, and of no other.
pub proof fn policies_are_kept_of_those_shown(
    before: RuntimeModel,
    outcome: TickResult,
    id: u64,
)
    ensures
        next_policies(before, outcome).contains_key(id) ==> exists|i: int|
            0 <= i < outcome.frame_snapshot.units@.len() && (
            #[trigger] outcome.frame_snapshot.units@[i]).id == id,
        next_priors(outcome).contains_key(id) ==> exists|i: int|
            0 <= i < outcome.frame_snapshot.units@.len() && (
            #[trigger] outcome.frame_snapshot.units@[i]).id == id,
        next_front_priors(before, outcome).contains_key(id) ==> exists|i: int|
            0 <= i < outcome.frame_snapshot.units@.len() && (
            #[trigger] outcome.frame_snapshot.units@[i]).id == id,
        next_front_priors(before, outcome).contains_key(id) ==> (outcome.commands matches Some(
            staged,
        ) ==> !staged.changed_unit_ids@.contains(id)),
        next_priors(outcome).contains_key(id) ==> (outcome.commands matches Some(staged)
            ==> !staged.changed_unit_ids@.contains(id)),
{
}

/// Formations are owned by the countries they fight for; of two with one name, the later.
pub proof fn formations_have_owners(units: Seq<SimulationUnit>)
    requires
        units.len() > 0,
        units.last().combat.sovereign <= u16::MAX,
    ensures
        owners_of(units).contains_key(units.last().combat.id),
        owners_of(units)[units.last().combat.id] == units.last().combat.sovereign,
{
}

/// A save holds what the runtime holds, part by part.
pub proof fn saves_hold_the_runtime(
    save: NativeRuntimeCheckpointState,
    model: RuntimeModel,
    committed: crate::runtime::effects::TerritoryCommittedState,
    influence_runtime: Option<KernelHandle>,
)
    requires
        save_holds(save, model, committed, influence_runtime),
    ensures
        save.tick == model.tick && save.frame == model.frame,
        save.war_grace_end == model.war_grace_end,
        save.runtime_config == model.config,
        save.units@ == model.units,
        save.strategic_cycle == model.strategic.cycle,
        save.occupations@ == model.strategic.occupations,
        save.diplomacy.hostility@ == model.hostility,
        save.diplomacy.active_sides@ == model.active_sides,
        save.objectives@ == model.objectives,
        save.prior_objective_by_unit@ == model.priors,
        save.last_front_refresh_tick == model.last_refresh,
        save.casualties@ == model.casualties,
        save.gameplay_rng == model.rng,
        save.personnel_reserves@ == model.reserves,
        save.naval_planning == model.naval,
        save.strategic_missiles == model.missiles,
        save.territory_committed_state == committed,
        save.influence_runtime == influence_runtime,
        save.reinforcement is Some <==> model.reinforcement is Some,
        save.reinforcement matches Some(kept) ==> model.reinforcement == Some(*kept),
        save.material_logistics matches Some(kept) ==> model.material == Some(*kept),
        save.air_power matches Some(kept) ==> model.air == Some(*kept),
        save.operational_execution matches Some(kept) ==> model.execution == Some(*kept),
        *save.territory_config == model.territory,
        *save.scenario == model.scenario,
{
}

/// A publication shows what the runtime holds, part by part.
pub proof fn publications_show_the_runtime(snapshot: RuntimeSnapshot, model: RuntimeModel)
    requires
        snapshot_shows(snapshot, model),
    ensures
        snapshot.tick == model.tick && snapshot.frame == model.frame,
        snapshot.state == model.state,
        snapshot.casualty_totals@ == model.casualties,
        snapshot.gameplay_rng_state == model.rng,
        snapshot.personnel_reserves@ == model.reserves,
        snapshot.strategic_missile_snapshot == model.missiles,
        snapshot.pending_render_updates == model.render_updates.len(),
        snapshot.air_power_snapshot matches Some(shown) ==> model.air == Some(*shown),
        snapshot.reinforcement_snapshot matches Some(shown) ==> model.reinforcement == Some(*shown),
        snapshot.material_logistics_snapshot matches Some(shown) ==> model.material == Some(*shown),
        snapshot.operational_execution_snapshot matches Some(shown) ==> model.execution == Some(
            *shown,
        ),
{
}

// ---------------------------------------------------------------------------------------------
// Starting from a checkpoint
// ---------------------------------------------------------------------------------------------

/// A runtime starts resolved where its last cycle resolved the war, waiting where that cycle left
/// desertions or surrenders to be worked in, and running otherwise; never from a cycle of the
/// future.
pub proof fn runtimes_start_where_they_stood(snapshot: Option<StrategicSnapshot>, tick: u64)
    ensures
        snapshot is None ==> first_state(snapshot, tick) == Ok::<RuntimeState, RuntimeError>(
            RuntimeState::Running,
        ),
        snapshot matches Some(last) ==> {
            let state = first_state(snapshot, tick);
            let open = last.desertions@.len() > 0 || last.surrenders@.len() > 0;
            &&& last.tick > tick ==> state is Err
            &&& last.tick <= tick ==> state is Ok
            &&& state matches Ok(now) ==> {
                &&& last.conflict_resolution matches Some(resolution) ==> now == (
                RuntimeState::ConflictResolved { cycle: last.cycle, tick: last.tick, resolution })
                &&& last.conflict_resolution is None && !open ==> now is Running
                &&& last.conflict_resolution is None && open ==> (
                now matches RuntimeState::AwaitingStrategicEffects {
                    cycle,
                    tick: since,
                    desertion_commands,
                    surrender_commands,
                    ..
                } && cycle == last.cycle && since == last.tick && (last.desertions@.len()
                    <= usize::MAX ==> desertion_commands == last.desertions@.len()) && (
                last.surrenders@.len() <= usize::MAX ==> surrender_commands
                    == last.surrenders@.len()))
            }
        },
{
}

/// A configuration is valid exactly where every limit leaves room for something.
pub proof fn configurations_leave_room(config: RuntimeConfig)
    ensures
        runtime_config_valid(config) <==> config.front_refresh_ticks > 0 && config.census_budget > 0
            && config.census_flush_chunk > 0 && config.front.max_grid_cells > 0
            && config.front.max_sides > 0 && config.front.max_units > 0
            && config.front.max_frontier_cells > 0 && config.front.max_segments > 0
            && config.front.max_assignment_edges > 0,
{
}

/// A history is accepted only where the supply of no formation collapsed later, objectives are
/// distinct, assignments and places name formations and objectives that there are, tolls count
/// people of countries in the war, and every side has a reserve.
pub proof fn histories_are_of_this_war(scope: HistoryScope, id: u64, country: u16, side: usize)
    requires
        history_fault(scope) is None,
    ensures
        scope.memories is Some ==> scope.battlefield is Ok,
        scope.priors.contains_key(id) ==> exists|i: int|
            0 <= i < scope.units.len() && (#[trigger] scope.units[i]).combat.id == id,
        scope.priors.contains_key(id) ==> exists|i: int|
            0 <= i < scope.objectives.len() && (#[trigger] scope.objectives[i]).id
                == scope.priors[id],
        scope.front_priors.contains_key(id) ==> scope.front_priors[id].unit_id == id,
        scope.front_priors.contains_key(id) ==> exists|i: int|
            0 <= i < scope.units.len() && (#[trigger] scope.units[i]).combat.id == id,
        scope.last_refresh matches Some(refresh) ==> refresh <= scope.tick,
        scope.casualties.contains_key(country) ==> scope.casualties[country].finite_nonnegative(),
        scope.ledger.contains_key(country) ==> !scope.ledger[country].contains_key(country),
        scope.reserves.contains_key(side) <==> side < scope.side_count,
        scope.reserves.contains_key(side) ==> scope.reserves[side].finite_nonnegative(),
{
    let prior = scope.front_priors[id];
    if scope.ledger.contains_key(country) && scope.ledger[country].contains_key(country) {
        assert(toll_valid(scope.countries, scope.ledger[country], Some(country)));
    }
}

/// Execution and air power come together or not at all, and the air force is that of the countries.
pub proof fn execution_comes_with_air_power(
    has_execution: bool,
    air: Option<crate::air::AirModel>,
    verdict: Result<(), crate::units::KernelFault>,
    country_to_side: Map<u16, usize>,
    economies: Map<u16, crate::economy::EconomyState>,
    side_count: usize,
)
    ensures
        air_fault(has_execution, air, verdict, country_to_side, economies, side_count) is None ==> {
            &&& has_execution == air is Some
            &&& air is Some ==> verdict is Ok && country_to_side.dom() == economies.dom()
        },
        !has_execution && air is None ==> air_fault(
            has_execution,
            air,
            verdict,
            country_to_side,
            economies,
            side_count,
        ) is None,
{
}

/// A command is valid exactly where its discipline is a share below one, the formation refuses to
/// attack where that share is below what its band asks, goes home in a breakdown or a mutiny and
/// defends only itself in a mutiny, and has a home on the grid only where it goes there.
pub proof fn commands_follow_from_band_and_discipline(
    command: crate::runtime::policy::UnitCommandPolicy,
    cells: int,
    shares: RefusalShares,
)
    ensures
        command_policy_valid(command, cells, shares) <==> {
            let asked = match command.band {
                CommandBand::Paid => shares.paid,
                CommandBand::Unpaid => shares.unpaid,
                CommandBand::Breakdown => shares.breakdown,
                CommandBand::Mutiny => shares.mutiny,
            };
            &&& command.discipline.finite() && real_of(0).le(command.discipline)
                && command.discipline.lt(real_of(ONE_BITS))
            &&& command.refuses_offense <==> command.discipline.lt(asked)
            &&& command.return_home <==> command.band is Breakdown || command.band is Mutiny
            &&& command.self_defense_only <==> command.band is Mutiny
            &&& command.home_target matches Some(home) ==> command.return_home && home.cell < cells
                && home.lat.finite() && home.lng.finite()
        },
{
}

/// A formation's policy is accepted only where its country has its side, its influence reaches
/// somewhere, agrees with its command, and names countries in the war.
pub proof fn policies_fit_their_formation(
    unit: SimulationUnit,
    policies: Policies,
    territory: TerritoryControl,
    shares: RefusalShares,
    country: u16,
)
    requires
        formation_policy_fault(unit, policies, territory, shares) is None,
    ensures
        policies.contains_key(unit.combat.id),
        0 < unit.combat.sovereign <= u16::MAX,
        territory.country_to_side@.contains_key(unit.combat.sovereign as u16),
        territory.country_to_side@[unit.combat.sovereign as u16] == unit.combat.side,
        policies[unit.combat.id].ai.base_speed.finite_nonnegative(),
        policies[unit.combat.id].ai.combat.dealt_multiplier.finite_nonnegative(),
        policies[unit.combat.id].ai.combat.taken_multiplier.finite_nonnegative(),
        policies[unit.combat.id].influence matches Some(influence) ==> {
            &&& influence.radius.finite() && real_of(0).lt(influence.radius)
            &&& influence.delta.finite_nonnegative()
            &&& influence.refuses_offense == policies[unit.combat.id].command.refuses_offense
            &&& influence.owner_ally_country_ids.contains(country) ==> country != 0
                && territory.country_to_side@.contains_key(country)
            &&& influence.protected_owner_ids.contains(country) ==> country != 0
                && territory.country_to_side@.contains_key(country)
        },
{
}

/// A formation's band is that of its country's economy, from a cycle that has come.
pub proof fn bands_fit_their_economies(
    units: Seq<SimulationUnit>,
    policies: Policies,
    strategic: StrategicState,
    from: int,
    i: int,
)
    requires
        0 <= from <= i < units.len(),
        command_fault(units, policies, strategic, from) is None,
    ensures
        ({
            let unit = units[i].combat;
            &&& policies.contains_key(unit.id)
            &&& strategic.economies@.contains_key(unit.sovereign as u16)
            &&& policies[unit.id].command.band
                == strategic.economies@[unit.sovereign as u16].command_band
            &&& policies[unit.id].command.transition_cycle <= strategic.cycle
        }),
    decreases i - from,
{
    if from < i {
        bands_fit_their_economies(units, policies, strategic, from + 1, i);
    }
}

/// A formation of which nothing is known is paid, obeys, holds nothing back, may be used at once
/// and spreads influence for its own country.
pub proof fn unknown_formations_obey(unit_id: u64, sovereign: u16, discipline: Real, country: u16)
    ensures
        ({
            let policy = standard_policy(unit_id, sovereign, discipline);
            &&& policy.unit_id == unit_id
            &&& policy.command.band is Paid && policy.command.discipline == discipline
            &&& !policy.command.refuses_offense && !policy.command.return_home
                && !policy.command.self_defense_only && policy.command.home_target is None
            &&& policy.command.transition_cycle == 0
            &&& policy.ai.base_speed == real_of(N_0_003)
            &&& !policy.ai.is_reserve && !policy.ai.garrison_excluded && !policy.ai.encircled
                && !policy.ai.reinforcement_eligible
            &&& policy.ai.deploy_until_tick == 0
            &&& policy.ai.combat.dealt_multiplier == real_of(ONE_BITS)
                && policy.ai.combat.taken_multiplier == real_of(ONE_BITS)
            &&& policy.ai.movement.speed_multiplier == real_of(ONE_BITS)
                && policy.ai.movement.neutral_penalty == real_of(ONE_BITS)
            &&& policy.influence matches Some(influence) && {
                &&& influence.radius == real_of(N_0_45) && influence.delta == real_of(N_0_04)
                &&& influence.concentration_bonus == real_of(ONE_BITS)
                &&& influence.owner_ally_country_ids.contains(country) <==> country == sovereign
                &&& !influence.protected_owner_ids.contains(country)
                &&& influence.beneficiary is None && influence.browser_temporal_seed is None
                &&& !influence.refuses_offense
            }
        }),
{
}

} // verus!
