//! The runtime: the owner of everything that a tick changes. It starts from a checkpoint that has
//! been held against itself, commits ticks whole or not at all, and publishes what observers see.

use std::collections::{BTreeMap, BTreeSet, VecDeque};
use std::sync::Arc;
use vstd::prelude::*;
use crate::runtime::command::{hydrated, lacks_home};
use crate::runtime::logistics::{profiles_supplied};
use crate::air::AirPowerState;
use crate::casualties::{ledger_view, Ledger, Toll};
use crate::economy::EconomyState;
use crate::operations::{OperationalRuntimeState, OperationalSnapshot, OperationsModel};
use crate::order::{collected, copy_all, permutation, sorted};
use crate::production::{ProductionError, ScenarioProduction};
use crate::reinforcement::{MaterialLogisticsState, ReinforcementState};
use crate::runtime::battlefield::{
    BattlefieldCountryState, BattlefieldRuntimeState, BattlefieldUnitState, SideDynamics,
};
use crate::runtime::boot::{
    air_fault, check_air, check_formations, check_history, check_naval, check_operations,
    check_world, commands_resolved, first_state, history_fault, initial_state, material_outfitted,
    operations_boundary_fault, outfit_material, outfit_reinforcement, reinforcement_outfitted,
    some_home_missing, starting_policies, world_fault, HistoryScope, RuntimeState,
};
use crate::runtime::counters::{no_step, RuntimeStepCounters};
use crate::runtime::effects::{StrategicSnapshot, TerritoryCommittedState};
use crate::runtime::error::RuntimeError;
use crate::runtime::execution::{
    execution_inputs, execution_unit_inputs, operational_claimed_unit_ids, operationally_claimed,
    OperationalExecutionState,
};
use crate::runtime::mobilization::StagedCommandPolicies;
use crate::runtime::planning::{
    ai_inputs, ai_units, apply_command_policy_updates, assigned_table, assignments_by_unit,
    front_prior_by_unit, prior_table, priors_view, recommanded_policies, AiUnitInput,
    FrontAssignmentRecord, FrontLayoutPrior, FrontObjective, PlanningScope, PriorModel,
    ResolvedCommandPolicy,
};
use crate::runtime::policy::{
    policies_view, policy_table, Policies, PolicyModel, RefusalShares, RuntimeUnitPolicy,
};
use crate::runtime::stages::{derive_production_input, production_derived, production_source};
use crate::runtime::step::{stage_poisons, RuntimeStep, StepFacts, StepStage};
use crate::runtime::course::TickState;
use crate::runtime::tactics::StagedBattlefieldTick;
use crate::runtime::tick::replaces;
use crate::runtime::validation::{runtime_config_valid, RuntimeConfig};
use crate::runtime::world::{RuntimeDiplomacy, StrategicModel, StrategicState, TerritoryControl};
use crate::scalar::Real;
use crate::runtime::visuals::{enrich_unit_visuals, shown_units, visuals_supplied};
use crate::simulation::{
    snapshots_of, snapshots_supplied, FrameSnapshot, Simulation, SimulationConfig, UnitSnapshot,
    NATIVE_TICK_SCHEMA_VERSION,
};
use crate::strategic::{
    cycle_supplied, OccupationState, StrategicDerivationInput, TerritorySnapshot,
};
use crate::tables::{ascending, formation_keys, ordered_countries};
use crate::units::{KernelFault, SimulationUnit};
use crate::views::views;
use crate::worksheet::{all_missing, Operation, Stop, Worksheet};

verus! {

pub const NATIVE_RUNTIME_SCHEMA_VERSION: &'static str = "native-runtime-v4";

/// A state that a kernel keeps for itself. The key finds it again.
#[derive(Clone, Copy, Debug, PartialEq, Eq, Structural)]
pub struct KernelHandle {
    pub key: u64,
}

/// A change of the map that renderers draw.
#[derive(Clone, Copy, Debug, PartialEq, Eq, Structural)]
pub struct TerritoryRenderUpdate {
    pub key: u64,
}

/// Another handle on the same value: `Arc::clone`, which copies no contents.
#[verifier::external_body]
fn share<T>(value: &Arc<T>) -> (shared: Arc<T>)
    ensures
        *shared == **value,
{
    Arc::clone(value)
}

pub(crate) fn share_optional<T>(value: &Option<Arc<T>>) -> (shared: Option<Arc<T>>)
    ensures
        unshared(shared) == unshared(*value),
{
    match value {
        Some(inner) => Some(share(inner)),
        None => None,
    }
}

/// What an optional handle leads to.
pub open spec fn unshared<T>(value: Option<Arc<T>>) -> Option<T> {
    match value {
        Some(inner) => Some(*inner),
        None => None,
    }
}

fn shared_from<T>(value: Option<T>) -> (shared: Option<Arc<T>>)
    ensures
        unshared(shared) == value,
{
    match value {
        Some(inner) => Some(Arc::new(inner)),
        None => None,
    }
}

/// What observers are shown of a tick. It never changes.
#[derive(Debug)]
pub struct RuntimeSnapshot {
    pub schema_version: &'static str,
    pub tick: u64,
    pub frame: u64,
    pub state: RuntimeState,
    pub frame_snapshot: Arc<FrameSnapshot>,
    pub territory_snapshot: Arc<TerritorySnapshot>,
    /// The economies in the order of their countries.
    pub economy_snapshot: Vec<EconomyState>,
    pub strategic_snapshot: Option<Arc<StrategicSnapshot>>,
    pub operational_snapshot: Option<OperationalSnapshot>,
    pub operational_execution_snapshot: Option<Arc<OperationalExecutionState>>,
    pub air_power_snapshot: Option<Arc<AirPowerState>>,
    pub strategic_missile_snapshot: Option<KernelHandle>,
    pub counters: RuntimeStepCounters,
    pub pending_render_updates: usize,
    pub casualty_totals: Arc<BTreeMap<u16, Real>>,
    pub casualties_by_victim: Arc<BTreeMap<u16, BTreeMap<u16, Real>>>,
    pub gameplay_rng_state: KernelHandle,
    pub personnel_reserves: Arc<BTreeMap<usize, Real>>,
    pub reinforcement_snapshot: Option<Arc<ReinforcementState>>,
    pub material_logistics_snapshot: Option<Arc<MaterialLogisticsState>>,
}

/// The owner of everything that a tick changes.
pub struct NativeRuntime {
    config: RuntimeConfig,
    tick: u64,
    frame: u64,
    war_grace_end: u64,
    simulation: Simulation,
    territory: Arc<TerritoryControl>,
    strategic: StrategicState,
    scenario: Arc<ScenarioProduction>,
    diplomacy: RuntimeDiplomacy,
    unit_policies: BTreeMap<u64, RuntimeUnitPolicy>,
    battlefield: Option<BattlefieldRuntimeState>,
    battlefield_urban_mask: Option<Vec<u8>>,
    unit_sovereign_by_id: BTreeMap<u64, u16>,
    objectives: Vec<FrontObjective>,
    front_prior_by_unit: BTreeMap<u64, FrontLayoutPrior>,
    last_front_refresh_tick: Option<u64>,
    prior_objective_by_unit: BTreeMap<u64, u64>,
    casualties: Arc<BTreeMap<u16, Real>>,
    casualties_by_victim: Arc<BTreeMap<u16, BTreeMap<u16, Real>>>,
    gameplay_rng: KernelHandle,
    personnel_reserves: Arc<BTreeMap<usize, Real>>,
    side_dynamics: Option<BTreeMap<usize, SideDynamics>>,
    operations: Option<OperationalRuntimeState>,
    naval_planning: Option<KernelHandle>,
    operational_execution: Option<Arc<OperationalExecutionState>>,
    air_power: Option<Arc<AirPowerState>>,
    reinforcement: Option<Arc<ReinforcementState>>,
    material_logistics: Option<Arc<MaterialLogisticsState>>,
    strategic_missiles: Option<KernelHandle>,
    state: RuntimeState,
    latest: Arc<RuntimeSnapshot>,
    render_updates: VecDeque<TerritoryRenderUpdate>,
}

/// What a battlefield remembers.
pub ghost struct FieldModel {
    pub units: Map<u64, BattlefieldUnitState>,
    pub countries: Map<u16, BattlefieldCountryState>,
    pub mountains_enabled: bool,
    pub terrain_intensity: Seq<Real>,
}

/// What a [`NativeRuntime`] holds.
pub ghost struct RuntimeModel {
    pub config: RuntimeConfig,
    pub tick: u64,
    pub frame: u64,
    pub war_grace_end: u64,
    pub simulation_config: SimulationConfig,
    pub units: Seq<SimulationUnit>,
    pub territory: TerritoryControl,
    pub strategic: StrategicModel,
    pub scenario: ScenarioProduction,
    pub hostility: Seq<u8>,
    pub active_sides: Seq<u16>,
    pub policies: Policies,
    pub battlefield: Option<FieldModel>,
    pub urban_mask: Option<Seq<u8>>,
    pub owners: Map<u64, u16>,
    pub objectives: Seq<FrontObjective>,
    pub front_priors: Map<u64, PriorModel>,
    pub last_refresh: Option<u64>,
    pub priors: Map<u64, u64>,
    pub casualties: Toll,
    pub ledger: Ledger,
    pub rng: KernelHandle,
    pub reserves: Map<usize, Real>,
    pub dynamics: Option<Map<usize, SideDynamics>>,
    pub operations: Option<OperationsModel>,
    pub naval: Option<KernelHandle>,
    pub execution: Option<OperationalExecutionState>,
    pub air: Option<AirPowerState>,
    pub reinforcement: Option<ReinforcementState>,
    pub material: Option<MaterialLogisticsState>,
    pub missiles: Option<KernelHandle>,
    pub state: RuntimeState,
    /// The census that was published last.
    pub census: TerritorySnapshot,
    /// The strategic cycle that was published last.
    pub cycle: Option<StrategicSnapshot>,
    pub latest: RuntimeSnapshot,
    pub render_updates: Seq<TerritoryRenderUpdate>,
}

pub open spec fn field_view(state: Option<BattlefieldRuntimeState>) -> Option<FieldModel> {
    match state {
        Some(field) => Some(
            FieldModel {
                units: field.units@,
                countries: field.countries@,
                mountains_enabled: field.mountains_enabled,
                terrain_intensity: field.terrain_intensity@,
            },
        ),
        None => None,
    }
}

/// Which cells are urban, if a battlefield asks.
pub open spec fn mask_view(mask: Option<Vec<u8>>) -> Option<Seq<u8>> {
    match mask {
        Some(cells) => Some(cells@),
        None => None,
    }
}

pub open spec fn table_view<K, V>(table: Option<BTreeMap<K, V>>) -> Option<Map<K, V>> {
    match table {
        Some(map) => Some(map@),
        None => None,
    }
}

pub open spec fn operations_view(state: Option<OperationalRuntimeState>) -> Option<
    OperationsModel,
> {
    match state {
        Some(operations) => Some(operations@),
        None => None,
    }
}

impl View for NativeRuntime {
    type V = RuntimeModel;

    closed spec fn view(&self) -> RuntimeModel {
        RuntimeModel {
            config: self.config,
            tick: self.tick,
            frame: self.frame,
            war_grace_end: self.war_grace_end,
            simulation_config: self.simulation.config,
            units: self.simulation.units@,
            territory: *self.territory,
            strategic: self.strategic@,
            scenario: *self.scenario,
            hostility: self.diplomacy.hostility@,
            active_sides: self.diplomacy.active_sides@,
            policies: policies_view(self.unit_policies@),
            battlefield: field_view(self.battlefield),
            urban_mask: mask_view(self.battlefield_urban_mask),
            owners: self.unit_sovereign_by_id@,
            objectives: self.objectives@,
            front_priors: priors_view(self.front_prior_by_unit@),
            last_refresh: self.last_front_refresh_tick,
            priors: self.prior_objective_by_unit@,
            casualties: self.casualties@,
            ledger: ledger_view(self.casualties_by_victim@),
            rng: self.gameplay_rng,
            reserves: self.personnel_reserves@,
            dynamics: table_view(self.side_dynamics),
            operations: operations_view(self.operations),
            naval: self.naval_planning,
            execution: unshared(self.operational_execution),
            air: unshared(self.air_power),
            reinforcement: unshared(self.reinforcement),
            material: unshared(self.material_logistics),
            missiles: self.strategic_missiles,
            state: self.state,
            census: *self.latest.territory_snapshot,
            cycle: unshared(self.latest.strategic_snapshot),
            latest: *self.latest,
            render_updates: self.render_updates@,
        }
    }
}

/// What holds of every runtime: its configuration is valid, its maps cover its grid, and every pair
/// of sides has a relation; every economy stands under its country, the owners are those of the
/// formations, and whoever has wings has reinforcement and logistics.
pub open spec fn runtime_sound(model: RuntimeModel) -> bool {
    &&& runtime_config_valid(model.config)
    &&& model.territory.well_formed()
    &&& model.hostility.len() == model.territory.max_sides * model.territory.max_sides
    &&& (model.battlefield matches Some(field) ==> field.terrain_intensity.len()
        == model.territory.grid.area())
    &&& economies_keyed(model.strategic.economies)
    &&& model.owners == owners_of(model.units)
    &&& model.air is Some == model.reinforcement is Some
    &&& model.reinforcement is Some ==> model.material is Some
}

/// What a tick goes by: all that a runtime holds, but neither what it published before nor the
/// strategic cycle that came last.
pub open spec fn held(model: RuntimeModel) -> RuntimeModel {
    RuntimeModel { latest: arbitrary(), render_updates: Seq::empty(), cycle: None, ..model }
}

/// Whether a snapshot shows the operations of a runtime.
pub open spec fn operations_shown(
    snapshot: Option<OperationalSnapshot>,
    operations: Option<OperationsModel>,
    tick: u64,
) -> bool {
    match operations {
        Some(state) => snapshot matches Some(shown) && {
            &&& shown.tick == tick
            &&& views(shown.sides@) == state.sides
            &&& views(shown.task_forces@) == state.task_forces
            &&& shown.country_desperation@ == state.country_desperation
            &&& shown.override_events@ == state.override_events
        },
        None => snapshot is None,
    }
}

/// Whether a snapshot shows what a runtime holds.
pub open spec fn snapshot_shows(snapshot: RuntimeSnapshot, model: RuntimeModel) -> bool {
    let keys = ascending(model.strategic.economies.dom());
    &&& snapshot.schema_version@ == NATIVE_RUNTIME_SCHEMA_VERSION@
    &&& snapshot.tick == model.tick
    &&& snapshot.frame == model.frame
    &&& snapshot.state == model.state
    &&& snapshot.economy_snapshot@ == Seq::new(
        keys.len(),
        |i: int| model.strategic.economies[keys[i]],
    )
    &&& operations_shown(snapshot.operational_snapshot, model.operations, model.tick)
    &&& unshared(snapshot.operational_execution_snapshot) == model.execution
    &&& unshared(snapshot.air_power_snapshot) == model.air
    &&& snapshot.strategic_missile_snapshot == model.missiles
    &&& snapshot.pending_render_updates == model.render_updates.len()
    &&& snapshot.casualty_totals@ == model.casualties
    &&& ledger_view(snapshot.casualties_by_victim@) == model.ledger
    &&& snapshot.gameplay_rng_state == model.rng
    &&& snapshot.personnel_reserves@ == model.reserves
    &&& unshared(snapshot.reinforcement_snapshot) == model.reinforcement
    &&& unshared(snapshot.material_logistics_snapshot) == model.material
}

/// The economies of the first entries of a list, each under its country.
pub open spec fn economies_listed(list: Seq<EconomyState>, count: nat) -> Map<u16, EconomyState>
    decreases count,
{
    if count == 0 {
        Map::empty()
    } else {
        economies_listed(list, (count - 1) as nat).insert(
            list[count - 1].country_id,
            list[count - 1],
        )
    }
}

/// Whether every economy stands under its own country.
pub open spec fn economies_keyed(economies: Map<u16, EconomyState>) -> bool {
    forall|country: u16| #[trigger]
        economies.contains_key(country) ==> economies[country].country_id == country
}

proof fn lemma_listed_economies(
    economies: Map<u16, EconomyState>,
    keys: Seq<u16>,
    list: Seq<EconomyState>,
    count: nat,
)
    requires
        economies_keyed(economies),
        list.len() == keys.len(),
        forall|i: int|
            0 <= i < keys.len() ==> economies.contains_key(#[trigger] keys[i]) && list[i]
                == economies[keys[i]],
        count <= keys.len(),
    ensures
        ({
            let listed = economies_listed(list, count);
            &&& forall|country: u16| #[trigger]
                listed.contains_key(country) ==> economies.contains_key(country)
                    && listed[country] == economies[country]
            &&& forall|i: int| 0 <= i < count ==> listed.contains_key(#[trigger] keys[i])
        }),
    decreases count,
{
    if count > 0 {
        lemma_listed_economies(economies, keys, list, (count - 1) as nat);
        let earlier = economies_listed(list, (count - 1) as nat);
        let key = keys[count - 1];
        assert(economies.contains_key(key) && list[count - 1] == economies[key]);
        let listed = economies_listed(list, count);
        assert(listed == earlier.insert(key, economies[key]));
        assert forall|country: u16| #[trigger] listed.contains_key(
            country,
        ) implies economies.contains_key(country) && listed[country] == economies[country] by {
            if country != key {
                assert(earlier.contains_key(country));
            }
        }
        assert forall|i: int| 0 <= i < count implies listed.contains_key(#[trigger] keys[i]) by {
            if i < count - 1 {
                assert(earlier.contains_key(keys[i]));
            }
        }
    }
}

fn list_economies(economies: &BTreeMap<u16, EconomyState>) -> (listed: Vec<EconomyState>)
    ensures
        ({
            let keys = ascending(economies@.dom());
            listed@ == Seq::new(keys.len(), |i: int| economies@[keys[i]])
        }),
        economies_keyed(economies@) ==> economies_listed(listed@, listed@.len()) == economies@,
{
    broadcast use vstd::std_specs::btree::group_btree_axioms;

    let keys = ordered_countries(economies);
    let mut listed: Vec<EconomyState> = Vec::new();
    let mut at: usize = 0;
    while at < keys.len()
        invariant
            at <= keys@.len(),
            forall|i: int| 0 <= i < keys@.len() ==> economies@.contains_key(#[trigger] keys@[i]),
            listed@.len() == at,
            forall|i: int| 0 <= i < at ==> #[trigger] listed@[i] == economies@[keys@[i]],
        decreases keys@.len() - at,
    {
        broadcast use vstd::std_specs::btree::group_btree_axioms;

        listed.push(*economies.get(&keys[at]).unwrap());
        at = at + 1;
    }
    assert(listed@ =~= Seq::new(keys@.len(), |i: int| economies@[keys@[i]]));
    proof {
        if economies_keyed(economies@) {
            lemma_listed_economies(economies@, keys@, listed@, keys@.len());
            assert forall|country: u16| economies@.contains_key(country) implies economies_listed(
                listed@,
                listed@.len(),
            ).contains_key(country) by {
                assert(keys@.contains(country));
            }
            assert(economies_listed(listed@, listed@.len()) =~= economies@);
        }
    }
    listed
}

impl NativeRuntime {
    /// What was published last. Earlier publications stay as they were.
    pub fn latest_snapshot(&self) -> (latest: Arc<RuntimeSnapshot>)
        ensures
            *latest == self@.latest,
    {
        share(&self.latest)
    }

    pub fn scenario(&self) -> (scenario: &ScenarioProduction)
        ensures
            *scenario == self@.scenario,
    {
        &self.scenario
    }

    pub fn state(&self) -> (state: RuntimeState)
        ensures
            state == self@.state,
    {
        self.state
    }

    pub fn tick(&self) -> (tick: u64)
        ensures
            tick == self@.tick,
    {
        self.tick
    }

    pub fn frame(&self) -> (frame: u64)
        ensures
            frame == self@.frame,
    {
        self.frame
    }

    pub fn pending_render_updates(&self) -> (pending: usize)
        ensures
            pending == self@.render_updates.len(),
    {
        self.render_updates.len()
    }

    /// Takes the oldest change of the map. Later ones cannot overtake it.
    pub fn pop_render_update(&mut self) -> (update: Option<TerritoryRenderUpdate>)
        ensures
            match update {
                Some(oldest) => old(self)@.render_updates.len() > 0 && oldest == old(
                    self,
                )@.render_updates[0] && final(self)@ == (RuntimeModel {
                    render_updates: old(self)@.render_updates.subrange(
                        1,
                        old(self)@.render_updates.len() as int,
                    ),
                    ..old(self)@
                }),
                None => old(self)@.render_updates.len() == 0 && final(self)@ == old(self)@,
            },
    {
        self.render_updates.pop_front()
    }

    /// The strategic cycle whose effects are awaited, if any are.
    pub fn pending_strategic_snapshot(&self) -> (pending: Option<Arc<StrategicSnapshot>>)
        ensures
            unshared(pending) == (if self@.state is AwaitingStrategicEffects {
                unshared(self@.latest.strategic_snapshot)
            } else {
                None
            }),
    {
        match self.state {
            RuntimeState::AwaitingStrategicEffects { .. } => share_optional(
                &self.latest.strategic_snapshot,
            ),
            _ => None,
        }
    }

    /// A tick failed. Before the world changed nothing has happened; afterwards the runtime stops
    /// for good. Nothing is published either way.
    pub fn abandon(&mut self, tick: TickState, error: RuntimeError) -> (told: RuntimeError)
        ensures
            told == error,
            final(self)@ == (if stage_poisons(tick@.step.stage) {
                RuntimeModel { state: RuntimeState::Poisoned, ..old(self)@ }
            } else {
                old(self)@
            }),
    {
        if tick.fails_for_good() {
            self.state = RuntimeState::Poisoned;
        }
        error
    }
}

/// What a tick has to do with.
pub open spec fn facts_of(model: RuntimeModel, tick: u64, pay_cycle_ticks: u64) -> StepFacts {
    StepFacts {
        operations: model.operations is Some,
        dynamics: model.dynamics is Some,
        battlefield: model.battlefield is Some,
        spreading: model.territory.influence_runtime,
        air: model.air is Some,
        execution: model.execution is Some,
        missiles: model.missiles is Some,
        reinforcement: model.reinforcement is Some,
        material: model.material is Some,
        fronts_due: model.last_refresh is None || tick % model.config.front_refresh_ticks == 0,
        strategy_due: tick % pay_cycle_ticks == 0,
    }
}

/// How a tick begins, or why it does not.
pub open spec fn step_begun(model: RuntimeModel, pay_cycle_ticks: u64) -> Result<
    RuntimeStep,
    RuntimeError,
> {
    match model.state {
        RuntimeState::AwaitingStrategicEffects { cycle, tick, .. } => Err(
            RuntimeError::AwaitingStrategicEffects { cycle, tick },
        ),
        RuntimeState::ConflictResolved { cycle, tick, .. } => Err(
            RuntimeError::ConflictResolved { cycle, tick },
        ),
        RuntimeState::Poisoned => Err(RuntimeError::Poisoned),
        RuntimeState::Running => if model.tick == u64::MAX || model.frame == u64::MAX {
            Err(RuntimeError::ClockOverflow)
        } else {
            let tick = (model.tick + 1) as u64;
            let blank = RuntimeStep {
                tick,
                frame: (model.frame + 1) as u64,
                facts: facts_of(model, tick, pay_cycle_ticks),
                ended: false,
                stage: StepStage::Intelligence,
            };
            Ok(
                RuntimeStep {
                    stage: crate::runtime::step::first_due(blank, StepStage::Intelligence),
                    ..blank
                },
            )
        },
    }
}

/// Everything that a runtime holds, to be read.
pub struct RuntimeParts<'a> {
    pub config: RuntimeConfig,
    pub tick: u64,
    pub frame: u64,
    pub war_grace_end: u64,
    pub simulation: &'a Simulation,
    pub territory: &'a TerritoryControl,
    pub strategic: &'a StrategicState,
    pub scenario: &'a ScenarioProduction,
    pub diplomacy: &'a RuntimeDiplomacy,
    pub unit_policies: &'a BTreeMap<u64, RuntimeUnitPolicy>,
    pub battlefield: Option<&'a BattlefieldRuntimeState>,
    pub battlefield_urban_mask: Option<&'a Vec<u8>>,
    pub unit_sovereign_by_id: &'a BTreeMap<u64, u16>,
    pub objectives: &'a Vec<FrontObjective>,
    pub front_prior_by_unit: &'a BTreeMap<u64, FrontLayoutPrior>,
    pub last_front_refresh_tick: Option<u64>,
    pub prior_objective_by_unit: &'a BTreeMap<u64, u64>,
    pub casualties: &'a BTreeMap<u16, Real>,
    pub casualties_by_victim: &'a BTreeMap<u16, BTreeMap<u16, Real>>,
    pub gameplay_rng: KernelHandle,
    pub personnel_reserves: &'a BTreeMap<usize, Real>,
    pub side_dynamics: Option<&'a BTreeMap<usize, SideDynamics>>,
    pub operations: Option<&'a OperationalRuntimeState>,
    pub naval_planning: Option<KernelHandle>,
    pub operational_execution: Option<&'a OperationalExecutionState>,
    pub air_power: Option<&'a AirPowerState>,
    pub reinforcement: Option<&'a ReinforcementState>,
    pub material_logistics: Option<&'a MaterialLogisticsState>,
    pub strategic_missiles: Option<KernelHandle>,
    pub latest: &'a RuntimeSnapshot,
}

/// Whether parts show what a runtime holds.
pub open spec fn parts_show(parts: RuntimeParts<'_>, model: RuntimeModel) -> bool {
    &&& parts.config == model.config
    &&& parts.tick == model.tick
    &&& parts.frame == model.frame
    &&& parts.war_grace_end == model.war_grace_end
    &&& parts.simulation.config == model.simulation_config
    &&& parts.simulation.units@ == model.units
    &&& *parts.territory == model.territory
    &&& parts.strategic@ == model.strategic
    &&& *parts.scenario == model.scenario
    &&& parts.diplomacy.hostility@ == model.hostility
    &&& parts.diplomacy.active_sides@ == model.active_sides
    &&& policies_view(parts.unit_policies@) == model.policies
    &&& field_view(referred(parts.battlefield)) == model.battlefield
    &&& mask_view(referred(parts.battlefield_urban_mask)) == model.urban_mask
    &&& parts.unit_sovereign_by_id@ == model.owners
    &&& parts.objectives@ == model.objectives
    &&& priors_view(parts.front_prior_by_unit@) == model.front_priors
    &&& parts.last_front_refresh_tick == model.last_refresh
    &&& parts.prior_objective_by_unit@ == model.priors
    &&& parts.casualties@ == model.casualties
    &&& ledger_view(parts.casualties_by_victim@) == model.ledger
    &&& parts.gameplay_rng == model.rng
    &&& parts.personnel_reserves@ == model.reserves
    &&& table_view(referred(parts.side_dynamics)) == model.dynamics
    &&& operations_view(referred(parts.operations)) == model.operations
    &&& parts.naval_planning == model.naval
    &&& referred(parts.operational_execution) == model.execution
    &&& referred(parts.air_power) == model.air
    &&& referred(parts.reinforcement) == model.reinforcement
    &&& referred(parts.material_logistics) == model.material
    &&& parts.strategic_missiles == model.missiles
    &&& *parts.latest == model.latest
    &&& *parts.latest.territory_snapshot == model.census
    &&& unshared(parts.latest.strategic_snapshot) == model.cycle
}

/// What an optional reference leads to.
pub open spec fn referred<T>(value: Option<&T>) -> Option<T> {
    match value {
        Some(inner) => Some(*inner),
        None => None,
    }
}

fn refer<T>(value: &Option<Arc<T>>) -> (reference: Option<&T>)
    ensures
        referred(reference) == unshared(*value),
{
    match value {
        Some(inner) => Some(inner),
        None => None,
    }
}

impl NativeRuntime {
    /// Everything that the runtime holds. What a tick changes, it changes on copies.
    pub fn parts(&self) -> (parts: RuntimeParts<'_>)
        ensures
            parts_show(parts, self@),
    {
        RuntimeParts {
            config: self.config,
            tick: self.tick,
            frame: self.frame,
            war_grace_end: self.war_grace_end,
            simulation: &self.simulation,
            territory: &self.territory,
            strategic: &self.strategic,
            scenario: &self.scenario,
            diplomacy: &self.diplomacy,
            unit_policies: &self.unit_policies,
            battlefield: self.battlefield.as_ref(),
            battlefield_urban_mask: self.battlefield_urban_mask.as_ref(),
            unit_sovereign_by_id: &self.unit_sovereign_by_id,
            objectives: &self.objectives,
            front_prior_by_unit: &self.front_prior_by_unit,
            last_front_refresh_tick: self.last_front_refresh_tick,
            prior_objective_by_unit: &self.prior_objective_by_unit,
            casualties: &self.casualties,
            casualties_by_victim: &self.casualties_by_victim,
            gameplay_rng: self.gameplay_rng,
            personnel_reserves: &self.personnel_reserves,
            side_dynamics: self.side_dynamics.as_ref(),
            operations: self.operations.as_ref(),
            naval_planning: self.naval_planning,
            operational_execution: refer(&self.operational_execution),
            air_power: refer(&self.air_power),
            reinforcement: refer(&self.reinforcement),
            material_logistics: refer(&self.material_logistics),
            strategic_missiles: self.strategic_missiles,
            latest: &self.latest,
        }
    }
}

/// A poisoned runtime refuses every tick, and so does one whose war is over.
pub proof fn an_ended_runtime_refuses_ticks(model: RuntimeModel, pay_cycle_ticks: u64)
    requires
        model.state is Poisoned || model.state is ConflictResolved,
    ensures
        step_begun(model, pay_cycle_ticks) is Err,
{
}

/// A layout of the fronts.
#[derive(Debug)]
pub struct FrontLayout {
    pub objectives: Vec<FrontObjective>,
    pub next_prior: Vec<FrontLayoutPrior>,
    pub segments: usize,
}

/// Everything that a tick came to, ready to be committed.
pub struct TickResult {
    pub simulation: Simulation,
    pub frame_snapshot: FrameSnapshot,
    pub territory: TerritoryControl,
    pub territory_snapshot: Arc<TerritorySnapshot>,
    pub strategic: StrategicState,
    pub strategic_snapshot: Option<Arc<StrategicSnapshot>>,
    pub active_sides: Vec<u16>,
    pub battlefield: Option<StagedBattlefieldTick>,
    /// Formations that were raised in this tick.
    pub recruit_policies: Vec<RuntimeUnitPolicy>,
    pub recruit_memories: BTreeMap<u64, BattlefieldUnitState>,
    pub commands: Option<StagedCommandPolicies>,
    pub fronts_invalidated: bool,
    pub layout: Option<FrontLayout>,
    pub assignments: Vec<FrontAssignmentRecord>,
    pub casualties: BTreeMap<u16, Real>,
    pub casualties_by_victim: BTreeMap<u16, BTreeMap<u16, Real>>,
    pub side_dynamics: Option<BTreeMap<usize, SideDynamics>>,
    pub operations: Option<OperationalRuntimeState>,
    pub naval_planning: Option<KernelHandle>,
    pub operational_execution: Option<OperationalExecutionState>,
    pub air_power: Option<AirPowerState>,
    pub reinforcement: Option<ReinforcementState>,
    pub material_logistics: Option<MaterialLogisticsState>,
    pub strategic_missiles: Option<KernelHandle>,
    pub personnel_reserves: BTreeMap<usize, Real>,
    pub gameplay_rng: KernelHandle,
    pub state: RuntimeState,
    /// The fronts and the changes of the map are counted at the commit.
    pub counters: RuntimeStepCounters,
    pub render_update: Option<TerritoryRenderUpdate>,
}

impl TickResult {
    /// The result of a tick follows a runtime: it is the result of its next tick, fronts were laid
    /// out exactly where they were due, and the parts fit each other.
    pub open spec fn follows(self, model: RuntimeModel, step: RuntimeStep) -> bool {
        &&& step.stage is Publication
        &&& step.tick == model.tick + 1
        &&& step.frame == model.frame + 1
        &&& step.facts.fronts_due == (model.last_refresh is None || step.tick
            % model.config.front_refresh_ticks == 0)
        &&& self.layout is Some == step.facts.fronts_due
        &&& self.battlefield is Some == model.battlefield is Some
        &&& replaces(self.territory, model.territory)
        &&& (self.commands matches Some(staged) ==> commands_known(staged))
        &&& economies_keyed(self.strategic.economies@)
        &&& self.air_power is Some == model.air is Some
        &&& self.reinforcement is Some == model.reinforcement is Some
        &&& model.material is Some ==> self.material_logistics is Some
    }
}

/// Whether every formation whose command changes is told its new command.
pub open spec fn commands_known(staged: StagedCommandPolicies) -> bool {
    &&& crate::order::strictly_sorted(staged.changed_unit_ids@)
    &&& forall|i: int|
        0 <= i < staged.changed_unit_ids@.len() ==> staged.policies@.contains_key(
            #[trigger] staged.changed_unit_ids@[i],
        )
}

/// A tick that went through all its stages, ready to be committed. Only a finished tick makes one.
pub struct StepOutcome {
    step: RuntimeStep,
    result: TickResult,
}

/// What a [`StepOutcome`] holds.
pub ghost struct OutcomeModel {
    pub step: RuntimeStep,
    pub result: TickResult,
}

impl View for StepOutcome {
    type V = OutcomeModel;

    closed spec fn view(&self) -> OutcomeModel {
        OutcomeModel { step: self.step, result: self.result }
    }
}

impl StepOutcome {
    pub(crate) fn bind(step: RuntimeStep, result: TickResult) -> (outcome: StepOutcome)
        ensures
            outcome@ == (OutcomeModel { step, result }),
    {
        StepOutcome { step, result }
    }
}

/// Entries whose key is wanted.
pub open spec fn kept<V>(map: Map<u64, V>, wanted: spec_fn(u64) -> bool) -> Map<u64, V> {
    Map::new(|id: u64| map.contains_key(id) && wanted(id), |id: u64| map[id])
}

/// Formations that a frame shows.
pub open spec fn shown_ids(units: Seq<UnitSnapshot>) -> Set<u64> {
    Set::new(
        |id: u64| exists|i: int| 0 <= i < units.len() && (#[trigger] units[i]).id == id,
    )
}

/// Whether a formation is still there.
pub open spec fn still_there(units: Seq<UnitSnapshot>) -> spec_fn(u64) -> bool {
    |id: u64| shown_ids(units).contains(id)
}

/// Whether a formation keeps its place in the fronts: it is still there, its command did not
/// change, and operations do not claim it.
pub open spec fn keeps_place(
    units: Seq<UnitSnapshot>,
    changed: Seq<u64>,
    claimed: Set<u64>,
) -> spec_fn(u64) -> bool {
    |id: u64| shown_ids(units).contains(id) && !changed.contains(id) && !claimed.contains(id)
}

/// Policies with those of the first recruits.
pub open spec fn joined_policies(
    policies: Policies,
    recruits: Seq<PolicyModel>,
    count: nat,
) -> Policies
    decreases count,
{
    if count == 0 {
        policies
    } else {
        joined_policies(policies, recruits, (count - 1) as nat).insert(
            recruits[count - 1].unit_id,
            recruits[count - 1],
        )
    }
}

/// Owners with those of the first recruits.
pub open spec fn joined_owners(
    owners: Map<u64, u16>,
    recruits: Seq<SimulationUnit>,
    count: nat,
) -> Map<u64, u16>
    decreases count,
{
    if count == 0 {
        owners
    } else {
        joined_owners(owners, recruits, (count - 1) as nat).insert(
            recruits[count - 1].combat.id,
            recruits[count - 1].combat.sovereign as u16,
        )
    }
}

/// Formations whose command changed.
pub open spec fn changed_ids(commands: Option<StagedCommandPolicies>) -> Seq<u64> {
    match commands {
        Some(staged) => staged.changed_unit_ids@,
        None => Seq::empty(),
    }
}

/// Formations that operations claim.
pub open spec fn claimed_ids(
    operations: Option<OperationalRuntimeState>,
    execution: Option<OperationalExecutionState>,
) -> Set<u64> {
    Set::new(
        |id: u64|
            operationally_claimed(
                match operations {
                    Some(state) => Some(&state),
                    None => None,
                },
                match execution {
                    Some(state) => Some(&state),
                    None => None,
                },
                id,
            ),
    )
}

/// The policies after a tick.
pub open spec fn next_policies(before: RuntimeModel, outcome: TickResult) -> Policies {
    let base = match outcome.battlefield {
        Some(staged) => policies_view(staged.policies@),
        None => before.policies,
    };
    let joined = joined_policies(
        base,
        views(outcome.recruit_policies@),
        outcome.recruit_policies@.len(),
    );
    let commanded = match outcome.commands {
        Some(staged) => recommanded_policies(
            joined,
            staged.policies@,
            staged.changed_unit_ids@,
            staged.cycle,
        ),
        None => joined,
    };
    kept(commanded, still_there(outcome.frame_snapshot.units@))
}

/// The battlefield after a tick.
pub open spec fn next_field(before: RuntimeModel, outcome: TickResult) -> Option<FieldModel> {
    match outcome.battlefield {
        Some(staged) => match before.battlefield {
            Some(field) => Some(
                FieldModel {
                    units: kept(
                        staged.next_unit_state@.union_prefer_right(outcome.recruit_memories@),
                        still_there(outcome.frame_snapshot.units@),
                    ),
                    ..field
                },
            ),
            None => None,
        },
        None => before.battlefield,
    }
}

/// The objectives after a tick.
pub open spec fn next_objectives(before: RuntimeModel, outcome: TickResult) -> Seq<
    FrontObjective,
> {
    if outcome.fronts_invalidated {
        Seq::empty()
    } else {
        match outcome.layout {
            Some(layout) => layout.objectives@,
            None => before.objectives,
        }
    }
}

/// The places in the fronts after a tick.
pub open spec fn next_front_priors(before: RuntimeModel, outcome: TickResult) -> Map<
    u64,
    PriorModel,
> {
    let table = if outcome.fronts_invalidated {
        Map::empty()
    } else {
        match outcome.layout {
            Some(layout) => prior_table(views(layout.next_prior@), layout.next_prior@.len()),
            None => before.front_priors,
        }
    };
    kept(
        table,
        keeps_place(
            outcome.frame_snapshot.units@,
            changed_ids(outcome.commands),
            claimed_ids(outcome.operations, outcome.operational_execution),
        ),
    )
}

/// The assignments that the next tick starts from.
pub open spec fn next_priors(outcome: TickResult) -> Map<u64, u64> {
    let table = if outcome.fronts_invalidated {
        Map::empty()
    } else {
        assigned_table(outcome.assignments@, outcome.assignments@.len())
    };
    kept(
        table,
        keeps_place(
            outcome.frame_snapshot.units@,
            changed_ids(outcome.commands),
            claimed_ids(outcome.operations, outcome.operational_execution),
        ),
    )
}

/// The segments among the first objectives.
pub open spec fn segments_of(objectives: Seq<FrontObjective>, count: nat) -> Set<u64>
    decreases count,
{
    if count == 0 {
        Set::empty()
    } else {
        segments_of(objectives, (count - 1) as nat).insert(objectives[count - 1].segment_id)
    }
}

/// The counters of a tick.
pub open spec fn next_counters(
    before: RuntimeModel,
    step: RuntimeStep,
    outcome: TickResult,
) -> RuntimeStepCounters {
    let objectives = next_objectives(before, outcome);
    RuntimeStepCounters {
        front_refreshed: step.facts.fronts_due,
        front_segments: if outcome.fronts_invalidated {
            0
        } else {
            match outcome.layout {
                Some(layout) => layout.segments,
                None => segments_of(objectives, objectives.len()).len() as usize,
            }
        },
        front_objectives: objectives.len() as usize,
        render_updates_enqueued: if outcome.render_update is Some {
            1
        } else {
            0
        },
        ..outcome.counters
    }
}

/// What a runtime holds after a tick is committed, apart from what it published.
pub open spec fn committed_model(
    before: RuntimeModel,
    step: RuntimeStep,
    outcome: TickResult,
    latest: RuntimeSnapshot,
) -> RuntimeModel {
    RuntimeModel {
        config: before.config,
        tick: step.tick,
        frame: step.frame,
        war_grace_end: before.war_grace_end,
        simulation_config: outcome.simulation.config,
        units: outcome.simulation.units@,
        territory: outcome.territory,
        strategic: outcome.strategic@,
        scenario: before.scenario,
        hostility: before.hostility,
        active_sides: outcome.active_sides@,
        policies: next_policies(before, outcome),
        battlefield: next_field(before, outcome),
        urban_mask: before.urban_mask,
        owners: owners_of(outcome.simulation.units@),
        objectives: next_objectives(before, outcome),
        front_priors: next_front_priors(before, outcome),
        last_refresh: if outcome.fronts_invalidated {
            None
        } else if outcome.layout is Some {
            Some(step.tick)
        } else {
            before.last_refresh
        },
        priors: next_priors(outcome),
        casualties: outcome.casualties@,
        ledger: ledger_view(outcome.casualties_by_victim@),
        rng: outcome.gameplay_rng,
        reserves: outcome.personnel_reserves@,
        dynamics: table_view(outcome.side_dynamics),
        operations: operations_view(outcome.operations),
        naval: outcome.naval_planning,
        execution: outcome.operational_execution,
        air: outcome.air_power,
        reinforcement: outcome.reinforcement,
        material: outcome.material_logistics,
        missiles: outcome.strategic_missiles,
        state: outcome.state,
        census: *latest.territory_snapshot,
        cycle: unshared(latest.strategic_snapshot),
        latest,
        render_updates: match outcome.render_update {
            Some(update) => before.render_updates.push(update),
            None => before.render_updates,
        },
    }
}

fn list_shown(units: &Vec<UnitSnapshot>) -> (ids: BTreeSet<u64>)
    ensures
        ids@ == shown_ids(units@),
{
    broadcast use vstd::std_specs::btree::group_btree_axioms;

    let mut ids: BTreeSet<u64> = BTreeSet::new();
    let mut at: usize = 0;
    while at < units.len()
        invariant
            at <= units@.len(),
            forall|id: u64|
                #[trigger] ids@.contains(id) == exists|i: int|
                    0 <= i < at && (#[trigger] units@[i]).id == id,
        decreases units@.len() - at,
    {
        broadcast use vstd::std_specs::btree::group_btree_axioms;

        let ghost before = ids@;
        ids.insert(units[at].id);
        proof {
            assert forall|id: u64| #[trigger] ids@.contains(id) == exists|i: int|
                0 <= i < at + 1 && (#[trigger] units@[i]).id == id by {
                assert(before.contains(id) || !before.contains(id));
                if id == units@[at as int].id {
                    assert(units@[at as int].id == id);
                }
            }
        }
        at = at + 1;
    }
    assert(ids@ =~= shown_ids(units@));
    ids
}

fn keep_entries<V>(
    map: &mut BTreeMap<u64, V>,
    alive: &BTreeSet<u64>,
    dropped: &BTreeSet<u64>,
    Ghost(wanted): Ghost<spec_fn(u64) -> bool>,
)
    requires
        forall|id: u64| #[trigger] wanted(id) == (alive@.contains(id) && !dropped@.contains(id)),
    ensures
        final(map)@ == kept(old(map)@, wanted),
{
    broadcast use vstd::std_specs::btree::group_btree_axioms;

    let ghost before = map@;
    let keys = formation_keys(map);
    let mut at: usize = 0;
    while at < keys.len()
        invariant
            at <= keys@.len(),
            crate::order::strictly_sorted(keys@),
            keys@.to_set() == before.dom(),
            forall|id: u64| #[trigger]
                wanted(id) == (alive@.contains(id) && !dropped@.contains(id)),
            forall|id: u64|
                #[trigger] map@.contains_key(id) <==> before.contains_key(id) && (wanted(id)
                    || !keys@.take(at as int).contains(id)),
            forall|id: u64| #[trigger] map@.contains_key(id) ==> map@[id] == before[id],
        decreases keys@.len() - at,
    {
        broadcast use vstd::std_specs::btree::group_btree_axioms;

        let id: u64 = keys[at];
        let ghost earlier = map@;
        assert(keys@.to_set().contains(id));
        assert(wanted(id) == (alive@.contains(id) && !dropped@.contains(id)));
        if !(alive.contains(&id) && !dropped.contains(&id)) {
            map.remove(&id);
        }
        proof {
            assert(keys@.take(at + 1) =~= keys@.take(at as int).push(id));
            assert forall|other: u64| #[trigger] map@.contains_key(other)
                <==> before.contains_key(other) && (wanted(other) || !keys@.take(
                at + 1,
            ).contains(other)) by {
                crate::order::lemma_push_contains(keys@.take(at as int), id, other);
                assert(earlier.contains_key(other) || !earlier.contains_key(other));
            }
            assert forall|other: u64| #[trigger] map@.contains_key(other) implies map@[other]
                == before[other] by {
                assert(earlier.contains_key(other));
            }
        }
        at = at + 1;
    }
    proof {
        assert(keys@.take(keys@.len() as int) =~= keys@);
        assert forall|id: u64| map@.contains_key(id) <==> kept(before, wanted).contains_key(id) by {
            if before.contains_key(id) {
                assert(keys@.to_set().contains(id));
            }
        }
        assert(map@ =~= kept(before, wanted));
    }
}

fn join_policies(policies: &mut BTreeMap<u64, RuntimeUnitPolicy>, recruits: &Vec<RuntimeUnitPolicy>)
    ensures
        policies_view(final(policies)@) == joined_policies(
            policies_view(old(policies)@),
            views(recruits@),
            recruits@.len(),
        ),
{
    broadcast use vstd::std_specs::btree::group_btree_axioms;

    let ghost before = policies_view(policies@);
    let mut at: usize = 0;
    while at < recruits.len()
        invariant
            at <= recruits@.len(),
            policies_view(policies@) == joined_policies(before, views(recruits@), at as nat),
        decreases recruits@.len() - at,
    {
        broadcast use vstd::std_specs::btree::group_btree_axioms;

        let policy = recruits[at].clone();
        let ghost model = policy@;
        let ghost earlier = policies@;
        assert(views(recruits@)[at as int] == model);
        policies.insert(policy.unit_id, policy);
        assert(policies_view(policies@) =~= policies_view(earlier).insert(model.unit_id, model));
        at = at + 1;
    }
}

fn join_owners(owners: &mut BTreeMap<u64, u16>, recruits: &Vec<SimulationUnit>)
    ensures
        final(owners)@ == joined_owners(old(owners)@, recruits@, recruits@.len()),
{
    broadcast use vstd::std_specs::btree::group_btree_axioms;

    let ghost before = owners@;
    let mut at: usize = 0;
    while at < recruits.len()
        invariant
            at <= recruits@.len(),
            owners@ == joined_owners(before, recruits@, at as nat),
        decreases recruits@.len() - at,
    {
        broadcast use vstd::std_specs::btree::group_btree_axioms;

        owners.insert(recruits[at].combat.id, recruits[at].combat.sovereign as u16);
        at = at + 1;
    }
}

pub(crate) fn join_memories(
    memories: &mut BTreeMap<u64, BattlefieldUnitState>,
    recruits: &BTreeMap<u64, BattlefieldUnitState>,
)
    ensures
        final(memories)@ == old(memories)@.union_prefer_right(recruits@),
{
    broadcast use vstd::std_specs::btree::group_btree_axioms;

    let ghost before = memories@;
    let keys = formation_keys(recruits);
    let mut at: usize = 0;
    while at < keys.len()
        invariant
            at <= keys@.len(),
            keys@.to_set() == recruits@.dom(),
            forall|id: u64|
                #[trigger] memories@.contains_key(id) <==> before.contains_key(id) || keys@.take(
                    at as int,
                ).contains(id),
            forall|id: u64| #[trigger]
                memories@.contains_key(id) ==> memories@[id] == (if keys@.take(
                    at as int,
                ).contains(id) {
                    recruits@[id]
                } else {
                    before[id]
                }),
        decreases keys@.len() - at,
    {
        broadcast use vstd::std_specs::btree::group_btree_axioms;

        let id: u64 = keys[at];
        let ghost earlier = memories@;
        assert(keys@.to_set().contains(id));
        memories.insert(id, *recruits.get(&id).unwrap());
        proof {
            assert(keys@.take(at + 1) =~= keys@.take(at as int).push(id));
            assert forall|other: u64|
                (#[trigger] memories@.contains_key(other) <==> before.contains_key(other)
                    || keys@.take(at + 1).contains(other)) && (memories@.contains_key(other)
                    ==> memories@[other] == (if keys@.take(at + 1).contains(other) {
                    recruits@[other]
                } else {
                    before[other]
                })) by {
                crate::order::lemma_push_contains(keys@.take(at as int), id, other);
                assert(earlier.contains_key(other) || !earlier.contains_key(other));
            }
        }
        at = at + 1;
    }
    proof {
        assert(keys@.take(keys@.len() as int) =~= keys@);
        let wanted = before.union_prefer_right(recruits@);
        assert forall|id: u64| memories@.contains_key(id) <==> wanted.contains_key(id) by {
            assert(keys@.to_set().contains(id) == recruits@.contains_key(id));
        }
        assert forall|id: u64| #[trigger] memories@.contains_key(id) implies memories@[id]
            == wanted[id] by {
            assert(keys@.to_set().contains(id) == recruits@.contains_key(id));
        }
        assert(memories@ =~= wanted);
    }
}

fn count_segments(objectives: &Vec<FrontObjective>) -> (segments: usize)
    ensures
        segments == segments_of(objectives@, objectives@.len()).len(),
{
    broadcast use vstd::std_specs::btree::group_btree_axioms;

    let mut ids: BTreeSet<u64> = BTreeSet::new();
    let mut at: usize = 0;
    assert(ids@ =~= segments_of(objectives@, 0));
    while at < objectives.len()
        invariant
            at <= objectives@.len(),
            ids@ == segments_of(objectives@, at as nat),
        decreases objectives@.len() - at,
    {
        broadcast use vstd::std_specs::btree::group_btree_axioms;

        let ghost before = ids@;
        ids.insert(objectives[at].segment_id);
        assert(ids@ =~= before.insert(objectives@[at as int].segment_id));
        at = at + 1;
    }
    ids.len()
}

fn make_snapshot(
    tick: u64,
    frame: u64,
    state: RuntimeState,
    frame_snapshot: FrameSnapshot,
    territory_snapshot: Arc<TerritorySnapshot>,
    strategic: &StrategicState,
    strategic_snapshot: Option<Arc<StrategicSnapshot>>,
    operations: &Option<OperationalRuntimeState>,
    execution: &Option<Arc<OperationalExecutionState>>,
    air: &Option<Arc<AirPowerState>>,
    missiles: Option<KernelHandle>,
    counters: RuntimeStepCounters,
    pending: usize,
    casualties: &Arc<BTreeMap<u16, Real>>,
    ledger: &Arc<BTreeMap<u16, BTreeMap<u16, Real>>>,
    rng: KernelHandle,
    reserves: &Arc<BTreeMap<usize, Real>>,
    reinforcement: &Option<Arc<ReinforcementState>>,
    material: &Option<Arc<MaterialLogisticsState>>,
) -> (published: RuntimeSnapshot)
    ensures
        forall|model: RuntimeModel|
            model.tick == tick && model.frame == frame && model.state == state && model.strategic
                == strategic@ && model.operations == operations_view(*operations)
                && model.execution == unshared(*execution) && model.air == unshared(*air)
                && model.missiles == missiles && model.render_updates.len() == pending
                && model.casualties == casualties@ && model.ledger == ledger_view(ledger@)
                && model.rng == rng && model.reserves == reserves@ && model.reinforcement
                == unshared(*reinforcement) && model.material == unshared(*material)
                ==> #[trigger] snapshot_shows(published, model),
        *published.frame_snapshot == frame_snapshot,
        *published.territory_snapshot == *territory_snapshot,
        unshared(published.strategic_snapshot) == unshared(strategic_snapshot),
        published.counters == counters,
{
    let operational_snapshot = match operations {
        Some(state) => Some(state.snapshot(tick)),
        None => None,
    };
    RuntimeSnapshot {
        schema_version: NATIVE_RUNTIME_SCHEMA_VERSION,
        tick,
        frame,
        state,
        frame_snapshot: Arc::new(frame_snapshot),
        territory_snapshot,
        economy_snapshot: list_economies(&strategic.economies),
        strategic_snapshot,
        operational_snapshot,
        operational_execution_snapshot: share_optional(execution),
        air_power_snapshot: share_optional(air),
        strategic_missile_snapshot: missiles,
        counters,
        pending_render_updates: pending,
        casualty_totals: share(casualties),
        casualties_by_victim: share(ledger),
        gameplay_rng_state: rng,
        personnel_reserves: share(reserves),
        reinforcement_snapshot: share_optional(reinforcement),
        material_logistics_snapshot: share_optional(material),
    }
}

fn drop_changed(claimed: BTreeSet<u64>, changed: &Vec<u64>) -> (dropped: BTreeSet<u64>)
    ensures
        forall|id: u64|
            #[trigger] dropped@.contains(id) == (claimed@.contains(id) || changed@.contains(id)),
{
    broadcast use vstd::std_specs::btree::group_btree_axioms;

    let ghost before = claimed@;
    let mut dropped = claimed;
    let mut at: usize = 0;
    while at < changed.len()
        invariant
            at <= changed@.len(),
            forall|id: u64|
                #[trigger] dropped@.contains(id) == (before.contains(id) || changed@.take(
                    at as int,
                ).contains(id)),
        decreases changed@.len() - at,
    {
        broadcast use vstd::std_specs::btree::group_btree_axioms;

        let ghost earlier = dropped@;
        dropped.insert(changed[at]);
        proof {
            assert(changed@.take(at + 1) =~= changed@.take(at as int).push(changed@[at as int]));
            assert forall|id: u64| #[trigger] dropped@.contains(id) == (before.contains(id)
                || changed@.take(at + 1).contains(id)) by {
                crate::order::lemma_push_contains(
                    changed@.take(at as int),
                    changed@[at as int],
                    id,
                );
                assert(earlier.contains(id) || !earlier.contains(id));
            }
        }
        at = at + 1;
    }
    assert(changed@.take(changed@.len() as int) =~= changed@);
    dropped
}

proof fn lemma_kept_policies(
    policies: Map<u64, RuntimeUnitPolicy>,
    wanted: spec_fn(u64) -> bool,
)
    ensures
        policies_view(kept(policies, wanted)) == kept(policies_view(policies), wanted),
{
    assert(policies_view(kept(policies, wanted)) =~= kept(policies_view(policies), wanted));
}

proof fn lemma_kept_priors(priors: Map<u64, FrontLayoutPrior>, wanted: spec_fn(u64) -> bool)
    ensures
        priors_view(kept(priors, wanted)) == kept(priors_view(priors), wanted),
{
    assert(priors_view(kept(priors, wanted)) =~= kept(priors_view(priors), wanted));
}

impl NativeRuntime {
    /// Commits a tick and publishes it, which is the last thing that happens. Formations that are
    /// gone are forgotten everywhere; formations whose command changed or that operations claim
    /// lose their places in the fronts; and a surrender invalidates the fronts as a whole.
    #[verifier::rlimit(40)]
    pub fn commit(&mut self, outcome: StepOutcome) -> (published: Arc<RuntimeSnapshot>)
        requires
            runtime_sound(old(self)@),
            outcome@.result.follows(old(self)@, outcome@.step),
        ensures
            runtime_sound(final(self)@),
            final(self)@ == committed_model(
                old(self)@,
                outcome@.step,
                outcome@.result,
                *published,
            ),
            snapshot_shows(*published, final(self)@),
            *published.frame_snapshot == outcome@.result.frame_snapshot,
            *published.territory_snapshot == *outcome@.result.territory_snapshot,
            unshared(published.strategic_snapshot) == unshared(
                outcome@.result.strategic_snapshot,
            ),
            published.counters == next_counters(old(self)@, outcome@.step, outcome@.result),
    {
        broadcast use vstd::std_specs::btree::group_btree_axioms;

        let ghost before = self@;
        let StepOutcome { step, result } = outcome;
        let ghost given = result;
        let TickResult {
            simulation,
            frame_snapshot,
            territory,
            territory_snapshot,
            strategic,
            strategic_snapshot,
            active_sides,
            battlefield,
            recruit_policies,
            recruit_memories,
            commands,
            fronts_invalidated,
            layout,
            assignments,
            casualties,
            casualties_by_victim,
            side_dynamics,
            operations,
            naval_planning,
            operational_execution,
            air_power,
            reinforcement,
            material_logistics,
            strategic_missiles,
            personnel_reserves,
            gameplay_rng,
            state,
            counters,
            render_update,
        } = result;
        let claimed = operational_claimed_unit_ids(
            operations.as_ref(),
            operational_execution.as_ref(),
        );
        assert(claimed@ =~= claimed_ids(operations, operational_execution));
        let alive = list_shown(&frame_snapshot.units);
        let nobody: BTreeSet<u64> = BTreeSet::new();
        let ghost there = still_there(frame_snapshot.units@);
        let ghost has_field = battlefield is Some;
        if let Some(staged) = battlefield {
            self.unit_policies = staged.policies;
            let mut memories = staged.next_unit_state;
            join_memories(&mut memories, &recruit_memories);
            keep_entries(&mut memories, &alive, &nobody, Ghost(there));
            let ghost remembered = memories@;
            let mut field: Option<BattlefieldRuntimeState> = None;
            core::mem::swap(&mut field, &mut self.battlefield);
            match field {
                Some(mut ground) => {
                    ground.units = memories;
                    self.battlefield = Some(ground);
                },
                None => {},
            }
        }
        assert(field_view(self.battlefield) == next_field(before, given));
        join_policies(&mut self.unit_policies, &recruit_policies);
        let changed: Vec<u64> = match &commands {
            Some(staged) => copy_all(staged.changed_unit_ids.as_slice()),
            None => Vec::new(),
        };
        assert(changed@ =~= changed_ids(commands));
        if let Some(staged) = &commands {
            apply_command_policy_updates(
                &mut self.unit_policies,
                &staged.policies,
                &staged.changed_unit_ids,
                staged.cycle,
            );
        }
        proof {
            lemma_kept_policies(self.unit_policies@, there);
        }
        keep_entries(&mut self.unit_policies, &alive, &nobody, Ghost(there));
        assert(policies_view(self.unit_policies@) == next_policies(before, given));
        self.unit_sovereign_by_id = BTreeMap::new();
        join_owners(&mut self.unit_sovereign_by_id, &simulation.units);
        let ghost placed = keeps_place(frame_snapshot.units@, changed@, claimed@);
        let dropped = drop_changed(claimed, &changed);
        let mut next_prior = assignments_by_unit(&assignments);
        let mut segments: Option<usize> = None;
        if fronts_invalidated {
            self.objectives = Vec::new();
            self.front_prior_by_unit = BTreeMap::new();
            next_prior = BTreeMap::new();
            self.last_front_refresh_tick = None;
            segments = Some(0);
            assert(priors_view(self.front_prior_by_unit@) =~= Map::<u64, PriorModel>::empty());
            assert(self.objectives@ =~= Seq::<FrontObjective>::empty());
        } else if let Some(fronts) = layout {
            self.front_prior_by_unit = front_prior_by_unit(&fronts.next_prior);
            self.objectives = fronts.objectives;
            self.last_front_refresh_tick = Some(step.tick);
            segments = Some(fronts.segments);
        }
        proof {
            lemma_kept_priors(self.front_prior_by_unit@, placed);
        }
        keep_entries(&mut self.front_prior_by_unit, &alive, &dropped, Ghost(placed));
        keep_entries(&mut next_prior, &alive, &dropped, Ghost(placed));
        self.prior_objective_by_unit = next_prior;
        self.simulation = simulation;
        self.territory = Arc::new(territory);
        self.strategic = strategic;
        self.diplomacy.active_sides = active_sides;
        self.casualties = Arc::new(casualties);
        self.casualties_by_victim = Arc::new(casualties_by_victim);
        self.side_dynamics = side_dynamics;
        self.operations = operations;
        self.naval_planning = naval_planning;
        self.operational_execution = shared_from(operational_execution);
        self.air_power = shared_from(air_power);
        self.reinforcement = shared_from(reinforcement);
        self.material_logistics = shared_from(material_logistics);
        self.strategic_missiles = strategic_missiles;
        self.gameplay_rng = gameplay_rng;
        self.personnel_reserves = Arc::new(personnel_reserves);
        self.tick = step.tick;
        self.frame = step.frame;
        self.state = state;
        let mut enqueued: usize = 0;
        if let Some(update) = render_update {
            self.render_updates.push_back(update);
            enqueued = 1;
        }
        let front_segments: usize = match segments {
            Some(count) => count,
            None => count_segments(&self.objectives),
        };
        let mut counted = counters;
        counted.front_refreshed = step.facts.fronts_due;
        counted.front_segments = front_segments;
        counted.front_objectives = self.objectives.len();
        counted.render_updates_enqueued = enqueued;
        let published = Arc::new(
            make_snapshot(
                self.tick,
                self.frame,
                self.state,
                frame_snapshot,
                territory_snapshot,
                &self.strategic,
                strategic_snapshot,
                &self.operations,
                &self.operational_execution,
                &self.air_power,
                self.strategic_missiles,
                counted,
                self.render_updates.len(),
                &self.casualties,
                &self.casualties_by_victim,
                self.gameplay_rng,
                &self.personnel_reserves,
                &self.reinforcement,
                &self.material_logistics,
            ),
        );
        self.latest = share(&published);
        assert(self@ == committed_model(before, step, given, *published));
        published
    }
}

/// What a save holds: everything that later ticks depend on. Queues of the renderer are left out.
pub struct NativeRuntimeCheckpointState {
    pub tick: u64,
    pub frame: u64,
    pub war_grace_end: u64,
    pub runtime_config: RuntimeConfig,
    pub simulation_config: SimulationConfig,
    pub units: Vec<SimulationUnit>,
    pub territory_config: Arc<TerritoryControl>,
    pub territory_committed_state: TerritoryCommittedState,
    /// What the territory kernel's own queues hold, if they drive influence.
    pub influence_runtime: Option<KernelHandle>,
    pub scenario: Arc<ScenarioProduction>,
    pub strategic_cycle: u64,
    pub economies: Vec<EconomyState>,
    pub occupations: BTreeMap<u16, OccupationState>,
    pub diplomacy: RuntimeDiplomacy,
    pub unit_policies: BTreeMap<u64, RuntimeUnitPolicy>,
    pub battlefield: Option<BattlefieldRuntimeState>,
    pub objectives: Vec<FrontObjective>,
    pub prior_objective_by_unit: BTreeMap<u64, u64>,
    pub front_prior_by_unit: BTreeMap<u64, FrontLayoutPrior>,
    pub last_front_refresh_tick: Option<u64>,
    pub casualties: Arc<BTreeMap<u16, Real>>,
    pub casualties_by_victim: Arc<BTreeMap<u16, BTreeMap<u16, Real>>>,
    pub gameplay_rng: KernelHandle,
    pub personnel_reserves: Arc<BTreeMap<usize, Real>>,
    pub side_dynamics: Option<BTreeMap<usize, SideDynamics>>,
    pub operations: Option<OperationalRuntimeState>,
    pub naval_planning: Option<KernelHandle>,
    pub operational_execution: Option<Arc<OperationalExecutionState>>,
    pub air_power: Option<Arc<AirPowerState>>,
    pub reinforcement: Option<Arc<ReinforcementState>>,
    pub material_logistics: Option<Arc<MaterialLogisticsState>>,
    pub strategic_missiles: Option<KernelHandle>,
}

/// Whether a save holds what a runtime holds.
pub open spec fn save_holds(
    save: NativeRuntimeCheckpointState,
    model: RuntimeModel,
    committed: TerritoryCommittedState,
    influence_runtime: Option<KernelHandle>,
) -> bool {
    let keys = ascending(model.strategic.economies.dom());
    &&& save.tick == model.tick
    &&& save.frame == model.frame
    &&& save.war_grace_end == model.war_grace_end
    &&& save.runtime_config == model.config
    &&& save.simulation_config == model.simulation_config
    &&& save.units@ == model.units
    &&& *save.territory_config == model.territory
    &&& save.territory_committed_state == committed
    &&& save.influence_runtime == influence_runtime
    &&& *save.scenario == model.scenario
    &&& economies_keyed(model.strategic.economies) ==> economies_listed(
        save.economies@,
        save.economies@.len(),
    ) == model.strategic.economies
    &&& save.strategic_cycle == model.strategic.cycle
    &&& save.economies@ == Seq::new(keys.len(), |i: int| model.strategic.economies[keys[i]])
    &&& save.occupations@ == model.strategic.occupations
    &&& save.diplomacy.hostility@ == model.hostility
    &&& save.diplomacy.active_sides@ == model.active_sides
    &&& policies_view(save.unit_policies@) == model.policies
    &&& field_view(save.battlefield) == model.battlefield
    &&& save.objectives@ == model.objectives
    &&& save.prior_objective_by_unit@ == model.priors
    &&& priors_view(save.front_prior_by_unit@) == model.front_priors
    &&& save.last_front_refresh_tick == model.last_refresh
    &&& save.casualties@ == model.casualties
    &&& ledger_view(save.casualties_by_victim@) == model.ledger
    &&& save.gameplay_rng == model.rng
    &&& save.personnel_reserves@ == model.reserves
    &&& table_view(save.side_dynamics) == model.dynamics
    &&& operations_view(save.operations) == model.operations
    &&& save.naval_planning == model.naval
    &&& unshared(save.operational_execution) == model.execution
    &&& unshared(save.air_power) == model.air
    &&& unshared(save.reinforcement) == model.reinforcement
    &&& unshared(save.material_logistics) == model.material
    &&& save.strategic_missiles == model.missiles
}

fn copy_priors(priors: &BTreeMap<u64, FrontLayoutPrior>) -> (copy: BTreeMap<u64, FrontLayoutPrior>)
    ensures
        priors_view(copy@) == priors_view(priors@),
{
    broadcast use vstd::std_specs::btree::group_btree_axioms;

    let keys = formation_keys(priors);
    let mut copy: BTreeMap<u64, FrontLayoutPrior> = BTreeMap::new();
    let mut at: usize = 0;
    while at < keys.len()
        invariant
            at <= keys@.len(),
            keys@.to_set() == priors@.dom(),
            forall|id: u64|
                #[trigger] copy@.contains_key(id) <==> keys@.take(at as int).contains(id),
            forall|id: u64| #[trigger] copy@.contains_key(id) ==> copy@[id]@ == priors@[id]@,
        decreases keys@.len() - at,
    {
        broadcast use vstd::std_specs::btree::group_btree_axioms;

        let id: u64 = keys[at];
        let ghost earlier = copy@;
        assert(keys@.to_set().contains(id));
        let prior = crate::views::Replica::replica(priors.get(&id).unwrap());
        copy.insert(id, prior);
        proof {
            assert(keys@.take(at + 1) =~= keys@.take(at as int).push(id));
            assert forall|other: u64| (#[trigger] copy@.contains_key(other) <==> keys@.take(
                at + 1,
            ).contains(other)) && (copy@.contains_key(other) ==> copy@[other]@
                == priors@[other]@) by {
                crate::order::lemma_push_contains(keys@.take(at as int), id, other);
                assert(earlier.contains_key(other) || !earlier.contains_key(other));
            }
        }
        at = at + 1;
    }
    proof {
        assert(keys@.take(keys@.len() as int) =~= keys@);
        let left = priors_view(copy@);
        let right = priors_view(priors@);
        assert forall|id: u64| left.contains_key(id) <==> right.contains_key(id) by {
            assert(keys@.to_set().contains(id) == priors@.contains_key(id));
            assert(copy@.contains_key(id) || !copy@.contains_key(id));
        }
        assert forall|id: u64| #[trigger] left.contains_key(id) implies left[id] == right[id] by {
            assert(copy@.contains_key(id));
        }
        assert(left =~= right);
    }
    copy
}

fn copy_field(field: &Option<BattlefieldRuntimeState>) -> (copy: Option<BattlefieldRuntimeState>)
    ensures
        field_view(copy) == field_view(*field),
{
    match field {
        None => None,
        Some(state) => Some(
            BattlefieldRuntimeState {
                units: state.units.clone(),
                countries: state.countries.clone(),
                mountains_enabled: state.mountains_enabled,
                terrain_intensity: copy_all(state.terrain_intensity.as_slice()),
            },
        ),
    }
}

/// The latest publication after a save counted the whole territory.
pub open spec fn republished(
    latest: RuntimeSnapshot,
    census: TerritorySnapshot,
    pending: nat,
    after: RuntimeSnapshot,
) -> bool {
    &&& after.schema_version == latest.schema_version
    &&& after.tick == latest.tick
    &&& after.frame == latest.frame
    &&& after.state == latest.state
    &&& *after.frame_snapshot == *latest.frame_snapshot
    &&& *after.territory_snapshot == census
    &&& after.economy_snapshot@ == latest.economy_snapshot@
    &&& unshared(after.strategic_snapshot) == unshared(latest.strategic_snapshot)
    &&& unshared(after.operational_execution_snapshot) == unshared(
        latest.operational_execution_snapshot,
    )
    &&& unshared(after.air_power_snapshot) == unshared(latest.air_power_snapshot)
    &&& after.strategic_missile_snapshot == latest.strategic_missile_snapshot
    &&& after.pending_render_updates == pending
    &&& *after.casualty_totals == *latest.casualty_totals
    &&& *after.casualties_by_victim == *latest.casualties_by_victim
    &&& after.gameplay_rng_state == latest.gameplay_rng_state
    &&& *after.personnel_reserves == *latest.personnel_reserves
    &&& unshared(after.reinforcement_snapshot) == unshared(latest.reinforcement_snapshot)
    &&& unshared(after.material_logistics_snapshot) == unshared(
        latest.material_logistics_snapshot,
    )
    &&& after.counters == (RuntimeStepCounters {
        census: crate::runtime::counters::RuntimeCensusCounters {
            committed: latest.counters.census.committed || census.commit_sequence
                != latest.territory_snapshot.commit_sequence,
            territory_generation: census.generation,
            territory_commit_sequence: census.commit_sequence,
            ..latest.counters.census
        },
        ..latest.counters
    })
}

impl NativeRuntime {
    /// Saves the runtime. The territory kernel has counted everything first; `census`, `committed`
    /// and `update` are what it came to. The runtime can go on afterwards.
    pub fn checkpoint_state(
        &mut self,
        census: Arc<TerritorySnapshot>,
        committed: Option<TerritoryCommittedState>,
        influence_runtime: Option<KernelHandle>,
        update: Option<TerritoryRenderUpdate>,
    ) -> (outcome: Result<NativeRuntimeCheckpointState, RuntimeError>)
        ensures
            ({
                let queued = RuntimeModel {
                    render_updates: match update {
                        Some(change) => old(self)@.render_updates.push(change),
                        None => old(self)@.render_updates,
                    },
                    ..old(self)@
                };
                match outcome {
                    Ok(save) => {
                        &&& old(self)@.state is Running
                        &&& committed is Some
                        &&& save_holds(save, old(self)@, committed->Some_0, influence_runtime)
                        &&& final(self)@ == (RuntimeModel {
                            latest: final(self)@.latest,
                            census: *census,
                            ..queued
                        })
                        &&& republished(
                            old(self)@.latest,
                            *census,
                            queued.render_updates.len(),
                            final(self)@.latest,
                        )
                        &&& operations_shown(
                            final(self)@.latest.operational_snapshot,
                            old(self)@.operations,
                            old(self)@.tick,
                        )
                    },
                    Err(error) => if !(old(self)@.state is Running) {
                        error == RuntimeError::CheckpointUnavailable && final(self)@ == old(self)@
                    } else {
                        &&& committed is None
                        &&& error == RuntimeError::InvalidCheckpoint(
                            "save barrier did not produce a committed territory state",
                        )
                        &&& final(self)@ == queued
                    },
                }
            }),
    {
        match self.state {
            RuntimeState::Running => {},
            _ => {
                return Err(RuntimeError::CheckpointUnavailable);
            },
        }
        let ghost before = self@;
        let previous: u64 = self.latest.territory_snapshot.commit_sequence;
        if let Some(change) = update {
            self.render_updates.push_back(change);
        }
        let boundary: TerritoryCommittedState = match committed {
            Some(state) => state,
            None => {
                return Err(
                    RuntimeError::InvalidCheckpoint(
                        "save barrier did not produce a committed territory state",
                    ),
                );
            },
        };
        let operational_snapshot = match &self.operations {
            Some(operations) => Some(operations.snapshot(self.tick)),
            None => None,
        };
        let mut counters = self.latest.counters;
        counters.census.committed = counters.census.committed || census.commit_sequence
            != previous;
        counters.census.territory_generation = census.generation;
        counters.census.territory_commit_sequence = census.commit_sequence;
        let latest = RuntimeSnapshot {
            schema_version: self.latest.schema_version,
            tick: self.latest.tick,
            frame: self.latest.frame,
            state: self.latest.state,
            frame_snapshot: share(&self.latest.frame_snapshot),
            territory_snapshot: census,
            economy_snapshot: copy_all(self.latest.economy_snapshot.as_slice()),
            strategic_snapshot: share_optional(&self.latest.strategic_snapshot),
            operational_snapshot,
            operational_execution_snapshot: share_optional(
                &self.latest.operational_execution_snapshot,
            ),
            air_power_snapshot: share_optional(&self.latest.air_power_snapshot),
            strategic_missile_snapshot: self.latest.strategic_missile_snapshot,
            counters,
            pending_render_updates: self.render_updates.len(),
            casualty_totals: share(&self.latest.casualty_totals),
            casualties_by_victim: share(&self.latest.casualties_by_victim),
            gameplay_rng_state: self.latest.gameplay_rng_state,
            personnel_reserves: share(&self.latest.personnel_reserves),
            reinforcement_snapshot: share_optional(&self.latest.reinforcement_snapshot),
            material_logistics_snapshot: share_optional(&self.latest.material_logistics_snapshot),
        };
        self.latest = Arc::new(latest);
        let side_dynamics = match &self.side_dynamics {
            Some(table) => Some(table.clone()),
            None => None,
        };
        let operations = match &self.operations {
            Some(state) => Some(state.clone()),
            None => None,
        };
        Ok(
            NativeRuntimeCheckpointState {
                tick: self.tick,
                frame: self.frame,
                war_grace_end: self.war_grace_end,
                runtime_config: self.config,
                simulation_config: self.simulation.config,
                units: copy_all(self.simulation.units.as_slice()),
                territory_config: share(&self.territory),
                territory_committed_state: boundary,
                influence_runtime,
                scenario: share(&self.scenario),
                strategic_cycle: self.strategic.cycle,
                economies: list_economies(&self.strategic.economies),
                occupations: self.strategic.occupations.clone(),
                diplomacy: self.diplomacy.clone(),
                unit_policies: crate::runtime::policy::copy_policies(&self.unit_policies),
                battlefield: copy_field(&self.battlefield),
                objectives: copy_all(self.objectives.as_slice()),
                prior_objective_by_unit: self.prior_objective_by_unit.clone(),
                front_prior_by_unit: copy_priors(&self.front_prior_by_unit),
                last_front_refresh_tick: self.last_front_refresh_tick,
                casualties: share(&self.casualties),
                casualties_by_victim: share(&self.casualties_by_victim),
                gameplay_rng: self.gameplay_rng,
                personnel_reserves: share(&self.personnel_reserves),
                side_dynamics,
                operations,
                naval_planning: self.naval_planning,
                operational_execution: share_optional(&self.operational_execution),
                air_power: share_optional(&self.air_power),
                reinforcement: share_optional(&self.reinforcement),
                material_logistics: share_optional(&self.material_logistics),
                strategic_missiles: self.strategic_missiles,
            },
        )
    }
}

/// Only formations that are shown are remembered: nothing of the policies, the battlefield or the
/// fronts outlives a formation, and the owners are those of the formations that are left.
pub proof fn only_shown_formations_are_remembered(
    before: RuntimeModel,
    step: RuntimeStep,
    outcome: TickResult,
    latest: RuntimeSnapshot,
    unit_id: u64,
)
    ensures
        ({
            let after = committed_model(before, step, outcome, latest);
            let shown = shown_ids(outcome.frame_snapshot.units@).contains(unit_id);
            &&& after.owners == owners_of(after.units)
            &&& after.policies.contains_key(unit_id) ==> shown
            &&& after.front_priors.contains_key(unit_id) ==> shown
            &&& after.priors.contains_key(unit_id) ==> shown
            &&& (outcome.battlefield is Some ==> (after.battlefield matches Some(field)
                ==> (field.units.contains_key(unit_id) ==> shown)))
        }),
{
}

/// A formation that operations claim or whose command changed has no place in the fronts.
pub proof fn claimed_formations_leave_the_fronts(
    before: RuntimeModel,
    step: RuntimeStep,
    outcome: TickResult,
    latest: RuntimeSnapshot,
    unit_id: u64,
)
    requires
        claimed_ids(outcome.operations, outcome.operational_execution).contains(unit_id)
            || changed_ids(outcome.commands).contains(unit_id),
    ensures
        ({
            let after = committed_model(before, step, outcome, latest);
            !after.front_priors.contains_key(unit_id) && !after.priors.contains_key(unit_id)
        }),
{
}

/// A surrender leaves no fronts behind, and the next tick lays them out anew.
pub proof fn a_surrender_clears_the_fronts(
    before: RuntimeModel,
    step: RuntimeStep,
    outcome: TickResult,
    latest: RuntimeSnapshot,
    pay_cycle_ticks: u64,
)
    requires
        outcome.fronts_invalidated,
    ensures
        ({
            let after = committed_model(before, step, outcome, latest);
            &&& after.objectives.len() == 0
            &&& after.front_priors.dom() =~= Set::<u64>::empty()
            &&& after.priors.dom() =~= Set::<u64>::empty()
            &&& (step_begun(after, pay_cycle_ticks) matches Ok(next) ==> next.facts.fronts_due)
        }),
{
}

/// Changes of the map are handed out in the order in which they came.
pub proof fn map_changes_keep_their_order(
    before: RuntimeModel,
    step: RuntimeStep,
    outcome: TickResult,
    latest: RuntimeSnapshot,
)
    ensures
        before.render_updates.is_prefix_of(
            committed_model(before, step, outcome, latest).render_updates,
        ),
{
}

/// Everything that a runtime starts from.
pub struct RuntimeCheckpoint {
    pub tick: u64,
    pub frame: u64,
    pub war_grace_end: u64,
    pub simulation: Simulation,
    pub territory: TerritoryControl,
    pub strategic: StrategicState,
    pub strategic_snapshot: Option<StrategicSnapshot>,
    pub scenario: ScenarioProduction,
    pub diplomacy: RuntimeDiplomacy,
    pub unit_policies: Vec<RuntimeUnitPolicy>,
    pub battlefield: Option<BattlefieldRuntimeState>,
    pub objectives: Vec<FrontObjective>,
    pub prior_objective_by_unit: BTreeMap<u64, u64>,
    pub front_prior_by_unit: BTreeMap<u64, FrontLayoutPrior>,
    pub last_front_refresh_tick: Option<u64>,
    pub casualties: BTreeMap<u16, Real>,
    pub casualties_by_victim: BTreeMap<u16, BTreeMap<u16, Real>>,
    pub gameplay_rng: KernelHandle,
    pub personnel_reserves: BTreeMap<usize, Real>,
    pub side_dynamics: Option<BTreeMap<usize, SideDynamics>>,
    pub operations: Option<OperationalRuntimeState>,
    pub naval_planning: Option<KernelHandle>,
    pub operational_execution: Option<OperationalExecutionState>,
    pub air_power: Option<AirPowerState>,
    pub reinforcement: Option<ReinforcementState>,
    pub material_logistics: Option<MaterialLogisticsState>,
    pub strategic_missiles: Option<KernelHandle>,
}

/// What the kernels say of a checkpoint.
pub struct KernelVerdicts {
    pub missiles: Result<(), KernelFault>,
    /// Which shares of formations refuse to fight, by band.
    pub refusal_shares: RefusalShares,
    pub commands: Result<BTreeMap<u64, ResolvedCommandPolicy>, KernelFault>,
    pub battlefield: Result<(), KernelFault>,
    /// Which cells are urban on the battlefield.
    pub urban_mask: Vec<u8>,
    /// Whether the momentum of each side is sound.
    pub dynamics: Vec<bool>,
    pub air: Result<(), KernelFault>,
    pub execution: Result<(), KernelFault>,
    pub naval: Result<(), KernelFault>,
    pub planning: Result<(), KernelFault>,
    /// Strength of each formation.
    pub strengths: Vec<Real>,
    /// The schema that the territory kernel writes.
    pub territory_schema: String,
    /// The territory, counted whole.
    pub territory_snapshot: Arc<TerritorySnapshot>,
    pub render_update: Option<TerritoryRenderUpdate>,
}

impl RuntimeCheckpoint {
    /// The maps cover the grid, every economy stands under its country, and the verdicts speak of
    /// these formations and sides.
    pub open spec fn fits(self, verdicts: KernelVerdicts) -> bool {
        &&& self.territory.well_formed()
        &&& economies_keyed(self.strategic.economies@)
        &&& verdicts.dynamics@.len() == self.territory.max_sides
        &&& verdicts.strengths@.len() == self.simulation.units@.len()
        &&& (self.battlefield matches Some(field) ==> field.terrain_intensity@.len()
            == self.territory.grid.area())
    }
}

/// Why missiles keep a runtime from starting, if there are any.
pub open spec fn missile_verdict(
    missiles: Option<KernelHandle>,
    verdict: Result<(), KernelFault>,
) -> Option<Result<(), KernelFault>> {
    if missiles is Some {
        Some(verdict)
    } else {
        None
    }
}

/// The policies with which a checkpoint starts, or why it cannot.
pub open spec fn checkpoint_policies(
    checkpoint: RuntimeCheckpoint,
    verdicts: KernelVerdicts,
) -> Result<Policies, RuntimeError> {
    starting_policies(
        checkpoint.simulation.units@,
        views(checkpoint.unit_policies@),
        checkpoint.territory,
        verdicts.refusal_shares,
        checkpoint.strategic,
        commands_resolved(verdicts.commands),
    )
}

/// What is wrong with a checkpoint before missing parts are made up.
pub open spec fn early_fault(
    config: RuntimeConfig,
    checkpoint: RuntimeCheckpoint,
    verdicts: KernelVerdicts,
) -> Option<RuntimeError> {
    let world = world_fault(
        config,
        checkpoint.diplomacy,
        checkpoint.territory,
        checkpoint.scenario,
        missile_verdict(checkpoint.strategic_missiles, verdicts.missiles),
    );
    let policies = checkpoint_policies(checkpoint, verdicts);
    let history = history_fault(
        HistoryScope {
            tick: checkpoint.tick,
            units: checkpoint.simulation.units@,
            countries: checkpoint.scenario.countries@,
            side_count: checkpoint.territory.max_sides,
            memories: match checkpoint.battlefield {
                Some(field) => Some(field.units@),
                None => None,
            },
            battlefield: verdicts.battlefield,
            objectives: checkpoint.objectives@,
            priors: checkpoint.prior_objective_by_unit@,
            front_priors: priors_view(checkpoint.front_prior_by_unit@),
            last_refresh: checkpoint.last_front_refresh_tick,
            casualties: checkpoint.casualties@,
            ledger: ledger_view(checkpoint.casualties_by_victim@),
            reserves: checkpoint.personnel_reserves@,
            dynamics: table_view(checkpoint.side_dynamics),
            sound: verdicts.dynamics@,
        },
    );
    if world is Some {
        world
    } else if policies is Err {
        Some(policies->Err_0)
    } else if history is Some {
        history
    } else {
        air_fault(
            checkpoint.operational_execution is Some,
            match checkpoint.air_power {
                Some(air) => Some(air@),
                None => None,
            },
            verdicts.air,
            checkpoint.territory.country_to_side@,
            checkpoint.strategic.economies@,
            checkpoint.territory.max_sides,
        )
    }
}

/// What is wrong with the operations, their execution or naval planning of a checkpoint.
pub open spec fn late_fault(
    checkpoint: RuntimeCheckpoint,
    verdicts: KernelVerdicts,
    policies: Policies,
) -> Option<RuntimeError> {
    let operations = operations_boundary_fault(
        operations_view(checkpoint.operations),
        checkpoint.simulation.units@,
        checkpoint.scenario.countries@,
        checkpoint.diplomacy.hostility@,
        checkpoint.territory.max_sides,
        checkpoint.tick,
    );
    let inputs = collected(
        execution_inputs(
            checkpoint.simulation.units@,
            policies,
            checkpoint.tick,
            None,
            Seq::empty(),
            match checkpoint.operations {
                Some(state) => Some(state@.task_forces),
                None => None,
            },
        ),
        checkpoint.simulation.units@.len(),
    );
    if operations is Some {
        operations
    } else if checkpoint.operational_execution is Some && inputs is Err {
        Some(inputs->Err_0)
    } else if checkpoint.operational_execution is Some && verdicts.execution is Err {
        Some(RuntimeError::OperationalExecution(verdicts.execution->Err_0))
    } else if checkpoint.naval_planning is Some && !(checkpoint.operations is Some
        && checkpoint.operational_execution is Some && checkpoint.air_power is Some) {
        Some(
            RuntimeError::InvalidCheckpoint(
                "naval planning requires operational AI, execution, and air state",
            ),
        )
    } else if checkpoint.naval_planning is Some && verdicts.naval is Err {
        Some(RuntimeError::NavalPlanning(verdicts.naval->Err_0))
    } else {
        None
    }
}

/// Whether a frame shows formations as they are, with nothing that happened.
pub open spec fn first_frame(
    results: Map<Operation, u64>,
    frame: FrameSnapshot,
    units: Seq<SimulationUnit>,
    tick: u64,
    number: u64,
) -> bool {
    &&& frame.schema_version@ == NATIVE_TICK_SCHEMA_VERSION@
    &&& frame.tick == tick
    &&& frame.frame == number
    &&& sorted(frame.units@)
    &&& permutation(snapshots_of(results, units, tick), frame.units@)
    &&& frame.events@.len() == 0
    &&& frame.removed_ids@.len() == 0
    &&& frame.abandoned_ids@.len() == 0
}

/// The formations of a first frame with what the battlefield shows of them.
pub open spec fn first_visuals(
    results: Map<Operation, u64>,
    units: Seq<UnitSnapshot>,
    battlefield: Option<BattlefieldRuntimeState>,
    territory: TerritoryControl,
) -> Result<Seq<UnitSnapshot>, RuntimeError> {
    match battlefield {
        None => Ok(units),
        Some(field) => collected(
            shown_units(results, field, territory, None, units),
            units.len(),
        ),
    }
}

/// What the planner is told before the first tick.
pub open spec fn first_plan_inputs(
    checkpoint: RuntimeCheckpoint,
    verdicts: KernelVerdicts,
    policies: Policies,
) -> Result<Seq<AiUnitInput>, RuntimeError> {
    collected(
        ai_inputs(
            PlanningScope {
                units: checkpoint.simulation.units@,
                strengths: verdicts.strengths@,
                policies,
                priors: checkpoint.prior_objective_by_unit@,
                claimed: Set::empty(),
                tick: checkpoint.tick,
                resolved: None,
                ally_weights: None,
                dynamics: None,
            },
        ),
        checkpoint.simulation.units@.len(),
    )
}

/// What becomes of the first publication: the frame is made and shown, a strategic cycle must be
/// derivable from it, and the planner must take the formations.
pub open spec fn published_first(
    results: Map<Operation, u64>,
    config: RuntimeConfig,
    checkpoint: RuntimeCheckpoint,
    verdicts: KernelVerdicts,
    policies: Policies,
    frame: FrameSnapshot,
    outcome: Result<FrameSnapshot, RuntimeError>,
) -> bool {
    &&& first_frame(
        results,
        frame,
        checkpoint.simulation.units@,
        checkpoint.tick,
        checkpoint.frame,
    )
    &&& match first_visuals(
        results,
        frame.units@,
        checkpoint.battlefield,
        checkpoint.territory,
    ) {
        Err(error) => outcome == Err::<FrameSnapshot, RuntimeError>(error),
        Ok(units) => exists|shown: FrameSnapshot, derived: Result<(), ProductionError>|
            {
                &&& frame_with(shown, frame, units)
                &&& #[trigger] production_derived(
                    results,
                    checkpoint.tick,
                    checkpoint.scenario,
                    checkpoint.territory,
                    *verdicts.territory_snapshot,
                    verdicts.territory_schema@,
                    shown,
                    checkpoint.diplomacy.hostility@,
                    checkpoint.strategic@,
                    checkpoint.casualties@,
                    config.production,
                    derived,
                )
                &&& outcome == (match derived {
                    Err(error) => Err::<FrameSnapshot, RuntimeError>(
                        RuntimeError::Production(error),
                    ),
                    Ok(_) => match first_plan_inputs(checkpoint, verdicts, policies) {
                        Err(error) => Err(error),
                        Ok(_) => match verdicts.planning {
                            Err(fault) => Err(RuntimeError::Ai(fault)),
                            Ok(_) => Ok(shown),
                        },
                    },
                })
            },
    }
}

/// A frame with other formations.
pub open spec fn frame_with(
    shown: FrameSnapshot,
    frame: FrameSnapshot,
    units: Seq<UnitSnapshot>,
) -> bool {
    &&& shown.schema_version == frame.schema_version
    &&& shown.tick == frame.tick
    &&& shown.frame == frame.frame
    &&& shown.units@ == units
    &&& shown.events@ == frame.events@
    &&& shown.removed_ids@ == frame.removed_ids@
    &&& shown.abandoned_ids@ == frame.abandoned_ids@
}

/// The owners of the first formations.
pub open spec fn owners_of(units: Seq<SimulationUnit>) -> Map<u64, u16> {
    joined_owners(Map::empty(), units, units.len())
}

/// Whether a runtime holds exactly what a checkpoint says, with what was made up.
pub open spec fn started(
    model: RuntimeModel,
    config: RuntimeConfig,
    checkpoint: RuntimeCheckpoint,
    verdicts: KernelVerdicts,
) -> bool {
    &&& model.config == config
    &&& model.tick == checkpoint.tick
    &&& model.frame == checkpoint.frame
    &&& model.war_grace_end == checkpoint.war_grace_end
    &&& model.simulation_config == checkpoint.simulation.config
    &&& model.units == checkpoint.simulation.units@
    &&& model.territory == checkpoint.territory
    &&& model.strategic == checkpoint.strategic@
    &&& model.scenario == checkpoint.scenario
    &&& model.hostility == checkpoint.diplomacy.hostility@
    &&& model.active_sides == checkpoint.diplomacy.active_sides@
    &&& checkpoint_policies(checkpoint, verdicts) == Ok::<Policies, RuntimeError>(model.policies)
    &&& model.battlefield == field_view(checkpoint.battlefield)
    &&& model.urban_mask == (if checkpoint.battlefield is Some {
        Some(verdicts.urban_mask@)
    } else {
        None
    })
    &&& model.owners == owners_of(checkpoint.simulation.units@)
    &&& model.objectives == checkpoint.objectives@
    &&& model.front_priors == priors_view(checkpoint.front_prior_by_unit@)
    &&& model.last_refresh == checkpoint.last_front_refresh_tick
    &&& model.priors == checkpoint.prior_objective_by_unit@
    &&& model.casualties == checkpoint.casualties@
    &&& model.ledger == ledger_view(checkpoint.casualties_by_victim@)
    &&& model.rng == checkpoint.gameplay_rng
    &&& model.reserves == checkpoint.personnel_reserves@
    &&& model.dynamics == table_view(checkpoint.side_dynamics)
    &&& model.operations == operations_view(checkpoint.operations)
    &&& model.naval == checkpoint.naval_planning
    &&& model.execution == checkpoint.operational_execution
    &&& model.air == checkpoint.air_power
    &&& model.missiles == checkpoint.strategic_missiles
    &&& first_state(checkpoint.strategic_snapshot, checkpoint.tick) == Ok::<
        RuntimeState,
        RuntimeError,
    >(model.state)
    &&& model.render_updates == (match verdicts.render_update {
        Some(update) => seq![update],
        None => Seq::empty(),
    })
    &&& snapshot_shows(model.latest, model)
    &&& model.census == *verdicts.territory_snapshot
    &&& *model.latest.territory_snapshot == model.census
    &&& model.cycle == checkpoint.strategic_snapshot
    &&& unshared(model.latest.strategic_snapshot) == model.cycle
    &&& model.latest.counters == no_step()
}

/// What becomes of the reinforcement state of a checkpoint.
pub open spec fn checkpoint_reinforced(
    checkpoint: RuntimeCheckpoint,
    verdicts: KernelVerdicts,
    outcome: Result<Option<ReinforcementState>, RuntimeError>,
) -> bool {
    reinforcement_outfitted(
        checkpoint.reinforcement,
        checkpoint.air_power,
        verdicts.air,
        checkpoint.simulation.units@,
        checkpoint.territory.country_to_side@,
        checkpoint.territory.max_sides,
        outcome,
    )
}

/// What becomes of the logistics state of a checkpoint.
pub open spec fn checkpoint_supplied(
    results: Map<Operation, u64>,
    checkpoint: RuntimeCheckpoint,
    has_reinforcement: bool,
    outcome: Result<Option<MaterialLogisticsState>, RuntimeError>,
) -> bool {
    material_outfitted(
        results,
        checkpoint.material_logistics,
        has_reinforcement,
        checkpoint.simulation.units@,
        checkpoint.scenario.countries@,
        checkpoint.strategic.economies@,
        checkpoint.territory.country_to_side@,
        checkpoint.territory.max_sides,
        outcome,
    )
}

/// Whether a checkpoint is refused with an error: by the first check that finds a fault.
pub open spec fn checkpoint_refused(
    results: Map<Operation, u64>,
    config: RuntimeConfig,
    checkpoint: RuntimeCheckpoint,
    verdicts: KernelVerdicts,
    error: RuntimeError,
) -> bool {
    match early_fault(config, checkpoint, verdicts) {
        Some(fault) => error == fault,
        None => {
            ||| checkpoint_reinforced(checkpoint, verdicts, Err(error))
            ||| exists|state: Option<ReinforcementState>|
                #[trigger] checkpoint_reinforced(checkpoint, verdicts, Ok(state))
                    && refused_when_reinforced(
                    results,
                    config,
                    checkpoint,
                    verdicts,
                    state is Some,
                    error,
                )
        },
    }
}

/// Whether a checkpoint is refused with an error after its reinforcement was settled.
pub open spec fn refused_when_reinforced(
    results: Map<Operation, u64>,
    config: RuntimeConfig,
    checkpoint: RuntimeCheckpoint,
    verdicts: KernelVerdicts,
    has_reinforcement: bool,
    error: RuntimeError,
) -> bool {
    let policies = checkpoint_policies(checkpoint, verdicts)->Ok_0;
    ||| checkpoint_supplied(results, checkpoint, has_reinforcement, Err(error))
    ||| exists|state: Option<MaterialLogisticsState>|
        #[trigger] checkpoint_supplied(results, checkpoint, has_reinforcement, Ok(state)) && (
        match late_fault(checkpoint, verdicts, policies) {
            Some(fault) => error == fault,
            None => refused_when_shown(results, config, checkpoint, verdicts, error),
        })
}

/// Whether a checkpoint is refused with an error when its first frame is to be shown.
pub open spec fn refused_when_shown(
    results: Map<Operation, u64>,
    config: RuntimeConfig,
    checkpoint: RuntimeCheckpoint,
    verdicts: KernelVerdicts,
    error: RuntimeError,
) -> bool {
    let policies = checkpoint_policies(checkpoint, verdicts)->Ok_0;
    exists|frame: FrameSnapshot, outcome: Result<FrameSnapshot, RuntimeError>|
        #[trigger] published_first(
            results,
            config,
            checkpoint,
            verdicts,
            policies,
            frame,
            outcome,
        ) && (match outcome {
            Err(fault) => error == fault,
            Ok(_) => first_state(checkpoint.strategic_snapshot, checkpoint.tick) == Err::<
                RuntimeState,
                RuntimeError,
            >(error),
        })
}

fn list_owners(units: &Vec<SimulationUnit>) -> (owners: BTreeMap<u64, u16>)
    ensures
        owners@ == owners_of(units@),
{
    let mut owners: BTreeMap<u64, u16> = BTreeMap::new();
    join_owners(&mut owners, units);
    owners
}

/// Whether a worksheet holds all that showing the first frame of a checkpoint takes.
pub open spec fn first_supplied(
    results: Map<Operation, u64>,
    config: RuntimeConfig,
    checkpoint: RuntimeCheckpoint,
    verdicts: KernelVerdicts,
) -> bool {
    let units = checkpoint.simulation.units@;
    &&& snapshots_supplied(results, units)
    &&& forall|frame: FrameSnapshot| #[trigger]
        first_frame(results, frame, units, checkpoint.tick, checkpoint.frame) ==> (
        checkpoint.battlefield matches Some(field) ==> visuals_supplied(
            results,
            field,
            checkpoint.territory,
            None,
            frame.units@,
        ))
    &&& forall|
        frame: FrameSnapshot,
        shown: FrameSnapshot,
        source: StrategicDerivationInput<'_>,
    |
        #![trigger first_frame(
            results,
            frame,
            units,
            checkpoint.tick,
            checkpoint.frame,
        ), production_source(
            source,
            checkpoint.tick,
            checkpoint.scenario,
            checkpoint.territory,
            *verdicts.territory_snapshot,
            verdicts.territory_schema@,
            shown,
            checkpoint.diplomacy.hostility@,
            checkpoint.strategic@,
            checkpoint.casualties@,
        )]
        first_frame(results, frame, units, checkpoint.tick, checkpoint.frame) && first_visuals(
            results,
            frame.units@,
            checkpoint.battlefield,
            checkpoint.territory,
        ) == Ok::<Seq<UnitSnapshot>, RuntimeError>(shown.units@) && frame_with(
            shown,
            frame,
            shown.units@,
        ) && production_source(
            source,
            checkpoint.tick,
            checkpoint.scenario,
            checkpoint.territory,
            *verdicts.territory_snapshot,
            verdicts.territory_schema@,
            shown,
            checkpoint.diplomacy.hostility@,
            checkpoint.strategic@,
            checkpoint.casualties@,
        ) ==> cycle_supplied(results, source, config.production)
}

/// Whether a worksheet holds all that starting from a checkpoint takes.
pub open spec fn start_supplied(
    results: Map<Operation, u64>,
    config: RuntimeConfig,
    checkpoint: RuntimeCheckpoint,
    verdicts: KernelVerdicts,
) -> bool {
    &&& checkpoint.material_logistics is None ==> profiles_supplied(
        results,
        checkpoint.simulation.units@,
        checkpoint.scenario.countries@,
        checkpoint.strategic.economies@,
        ascending(checkpoint.territory.country_to_side@.dom()),
    )
    &&& first_supplied(results, config, checkpoint, verdicts)
}

fn show_first(
    config: &RuntimeConfig,
    checkpoint: &RuntimeCheckpoint,
    verdicts: &KernelVerdicts,
    policies: &BTreeMap<u64, RuntimeUnitPolicy>,
    sheet: &Worksheet,
) -> (outcome: Result<FrameSnapshot, Stop<RuntimeError>>)
    requires
        checkpoint.fits(*verdicts),
    ensures
        match outcome {
            Ok(shown) => exists|frame: FrameSnapshot|
                #[trigger] published_first(
                    sheet@,
                    *config,
                    *checkpoint,
                    *verdicts,
                    policies_view(policies@),
                    frame,
                    Ok(shown),
                ),
            Err(Stop::Failed(error)) => exists|frame: FrameSnapshot|
                #[trigger] published_first(
                    sheet@,
                    *config,
                    *checkpoint,
                    *verdicts,
                    policies_view(policies@),
                    frame,
                    Err(error),
                ),
            Err(Stop::Missing(missing)) => {
            &&& missing@.len() > 0
            &&& all_missing(missing@, sheet@)
            &&& !first_supplied(sheet@, *config, *checkpoint, *verdicts)
        },
        },
{
    let ghost known = policies_view(policies@);
    let frame = match checkpoint.simulation.initial_snapshot(
        checkpoint.tick,
        checkpoint.frame,
        sheet,
    ) {
        Ok(frame) => frame,
        Err(missing) => {
            return Err(Stop::Missing(missing));
        },
    };
    let ghost first = frame;
    let FrameSnapshot {
        schema_version,
        tick,
        frame: number,
        units,
        events,
        removed_ids,
        abandoned_ids,
    } = frame;
    let mut reader = sheet.reader();
    let visuals = enrich_unit_visuals(
        units,
        checkpoint.battlefield.as_ref(),
        &checkpoint.territory,
        None,
        &mut reader,
    );
    assert(first_frame(
        sheet@,
        first,
        checkpoint.simulation.units@,
        checkpoint.tick,
        checkpoint.frame,
    ));
    if !reader.is_complete() {
        return Err(Stop::Missing(reader.into_missing()));
    }
    let shown = match visuals {
        Err(error) => {
            assert(published_first(
                sheet@,
                *config,
                *checkpoint,
                *verdicts,
                known,
                first,
                Err(error),
            ));
            return Err(Stop::Failed(error));
        },
        Ok(shown_units) => FrameSnapshot {
            schema_version,
            tick,
            frame: number,
            units: shown_units,
            events,
            removed_ids,
            abandoned_ids,
        },
    };
    assert(first_visuals(
        sheet@,
        first.units@,
        checkpoint.battlefield,
        checkpoint.territory,
    ) == Ok::<Seq<UnitSnapshot>, RuntimeError>(shown.units@));
    assert(frame_with(shown, first, shown.units@));
    match derive_production_input(
        checkpoint.tick,
        &checkpoint.scenario,
        &checkpoint.territory,
        &verdicts.territory_snapshot,
        verdicts.territory_schema.as_str(),
        &shown,
        &checkpoint.diplomacy,
        &checkpoint.strategic,
        &checkpoint.casualties,
        &config.production,
        sheet,
    ) {
        Err(Stop::Missing(missing)) => {
            return Err(Stop::Missing(missing));
        },
        Err(Stop::Failed(error)) => {
            assert(published_first(
                sheet@,
                *config,
                *checkpoint,
                *verdicts,
                known,
                first,
                Err(RuntimeError::Production(error)),
            ));
            return Err(Stop::Failed(RuntimeError::Production(error)));
        },
        Ok(_) => {},
    }
    let nobody: BTreeSet<u64> = BTreeSet::new();
    assert(nobody@ =~= Set::<u64>::empty());
    match ai_units(
        &checkpoint.simulation.units,
        &verdicts.strengths,
        policies,
        &checkpoint.prior_objective_by_unit,
        &nobody,
        checkpoint.tick,
        None,
        None,
        None,
    ) {
        Err(error) => {
            assert(published_first(
                sheet@,
                *config,
                *checkpoint,
                *verdicts,
                known,
                first,
                Err(error),
            ));
            return Err(Stop::Failed(error));
        },
        Ok(_) => {},
    }
    match verdicts.planning {
        Err(fault) => {
            assert(published_first(
                sheet@,
                *config,
                *checkpoint,
                *verdicts,
                known,
                first,
                Err(RuntimeError::Ai(fault)),
            ));
            Err(Stop::Failed(RuntimeError::Ai(fault)))
        },
        Ok(_) => {
            let ghost published: Result<FrameSnapshot, RuntimeError> = Ok(shown);
            assert(published_first(
                sheet@,
                *config,
                *checkpoint,
                *verdicts,
                known,
                first,
                published,
            ));
            let outcome: Result<FrameSnapshot, Stop<RuntimeError>> = Ok(shown);
            assert(outcome matches Ok(last) && published == Ok::<FrameSnapshot, RuntimeError>(last));
            assert(exists|frame: FrameSnapshot|
                #[trigger] published_first(
                    sheet@,
                    *config,
                    *checkpoint,
                    *verdicts,
                    policies_view(policies@),
                    frame,
                    Ok(outcome->Ok_0),
                ));
            outcome
        },
    }
}

fn check_late(
    checkpoint: &RuntimeCheckpoint,
    verdicts: &KernelVerdicts,
    policies: &BTreeMap<u64, RuntimeUnitPolicy>,
) -> (verdict: Result<(), RuntimeError>)
    ensures
        match verdict {
            Ok(_) => late_fault(*checkpoint, *verdicts, policies_view(policies@)) is None,
            Err(error) => late_fault(*checkpoint, *verdicts, policies_view(policies@)) == Some(
                error,
            ),
        },
{
    match check_operations(
        checkpoint.operations.as_ref(),
        &checkpoint.simulation.units,
        &checkpoint.scenario.countries,
        &checkpoint.diplomacy.hostility,
        checkpoint.territory.max_sides,
        checkpoint.tick,
    ) {
        Err(error) => {
            return Err(error);
        },
        Ok(_) => {},
    }
    if checkpoint.operational_execution.is_some() {
        let unassigned: Vec<FrontAssignmentRecord> = Vec::new();
        assert(unassigned@ =~= Seq::<FrontAssignmentRecord>::empty());
        match execution_unit_inputs(
            &checkpoint.simulation.units,
            policies,
            checkpoint.tick,
            None,
            &unassigned,
            checkpoint.operations.as_ref(),
        ) {
            Err(error) => {
                return Err(error);
            },
            Ok(_) => {},
        }
        if let Err(fault) = verdicts.execution {
            return Err(RuntimeError::OperationalExecution(fault));
        }
    }
    check_naval(
        checkpoint.naval_planning.is_some(),
        checkpoint.operations.is_some(),
        checkpoint.operational_execution.is_some(),
        checkpoint.air_power.is_some(),
        verdicts.naval,
    )
}

fn check_early(
    config: RuntimeConfig,
    checkpoint: &RuntimeCheckpoint,
    verdicts: &KernelVerdicts,
) -> (outcome: Result<BTreeMap<u64, RuntimeUnitPolicy>, RuntimeError>)
    requires
        checkpoint.fits(*verdicts),
    ensures
        match outcome {
            Ok(policies) => early_fault(config, *checkpoint, *verdicts) is None
                && checkpoint_policies(*checkpoint, *verdicts) == Ok::<Policies, RuntimeError>(
                policies_view(policies@),
            ),
            Err(error) => early_fault(config, *checkpoint, *verdicts) == Some(error),
        },
{
    let missiles: Option<Result<(), KernelFault>> = if checkpoint.strategic_missiles.is_some() {
        Some(verdicts.missiles)
    } else {
        None
    };
    match check_world(
        config,
        &checkpoint.diplomacy,
        &checkpoint.territory,
        &checkpoint.scenario,
        missiles,
    ) {
        Err(error) => {
            return Err(error);
        },
        Ok(_) => {},
    }
    let listed = copy_listed(&checkpoint.unit_policies);
    let policies = match check_formations(
        &checkpoint.simulation.units,
        listed,
        &checkpoint.territory,
        verdicts.refusal_shares,
        &checkpoint.strategic,
        &verdicts.commands,
    ) {
        Err(error) => {
            return Err(error);
        },
        Ok(policies) => policies,
    };
    let memories = match &checkpoint.battlefield {
        Some(field) => Some(&field.units),
        None => None,
    };
    match check_history(
        checkpoint.tick,
        &checkpoint.simulation.units,
        &checkpoint.scenario.countries,
        checkpoint.territory.max_sides,
        memories,
        verdicts.battlefield,
        &checkpoint.objectives,
        &checkpoint.prior_objective_by_unit,
        &checkpoint.front_prior_by_unit,
        checkpoint.last_front_refresh_tick,
        &checkpoint.casualties,
        &checkpoint.casualties_by_victim,
        &checkpoint.personnel_reserves,
        checkpoint.side_dynamics.as_ref(),
        &verdicts.dynamics,
    ) {
        Err(error) => {
            return Err(error);
        },
        Ok(_) => {},
    }
    match check_air(
        checkpoint.operational_execution.is_some(),
        checkpoint.air_power.as_ref(),
        verdicts.air,
        &checkpoint.territory.country_to_side,
        &checkpoint.strategic.economies,
        checkpoint.territory.max_sides,
    ) {
        Err(error) => Err(error),
        Ok(_) => Ok(policies),
    }
}

fn copy_listed(policies: &Vec<RuntimeUnitPolicy>) -> (copies: Vec<RuntimeUnitPolicy>)
    ensures
        views(copies@) == views(policies@),
{
    let mut copies: Vec<RuntimeUnitPolicy> = Vec::new();
    let mut at: usize = 0;
    while at < policies.len()
        invariant
            at <= policies@.len(),
            copies@.len() == at,
            forall|i: int| 0 <= i < at ==> (#[trigger] copies@[i])@ == policies@[i]@,
        decreases policies@.len() - at,
    {
        copies.push(policies[at].clone());
        at = at + 1;
    }
    assert(views(copies@) =~= views(policies@));
    copies
}

impl NativeRuntime {
    /// Starts from a checkpoint. Every part is held against every other, missing parts are made
    /// up, and the first publication is made; where any of that fails, there is no runtime.
    #[verifier::rlimit(60)]
    pub fn new(
        config: RuntimeConfig,
        checkpoint: RuntimeCheckpoint,
        verdicts: KernelVerdicts,
        sheet: &Worksheet,
    ) -> (outcome: Result<NativeRuntime, Stop<RuntimeError>>)
        requires
            checkpoint.fits(verdicts),
        ensures
            match outcome {
                Ok(runtime) => {
                    &&& runtime_sound(runtime@)
                    &&& early_fault(config, checkpoint, verdicts) is None
                    &&& late_fault(checkpoint, verdicts, runtime@.policies) is None
                    &&& started(runtime@, config, checkpoint, verdicts)
                    &&& checkpoint_reinforced(checkpoint, verdicts, Ok(runtime@.reinforcement))
                    &&& checkpoint_supplied(
                        sheet@,
                        checkpoint,
                        runtime@.reinforcement is Some,
                        Ok(runtime@.material),
                    )
                    &&& exists|frame: FrameSnapshot|
                        #[trigger] published_first(
                            sheet@,
                            config,
                            checkpoint,
                            verdicts,
                            runtime@.policies,
                            frame,
                            Ok(*runtime@.latest.frame_snapshot),
                        )
                },
                Err(Stop::Failed(error)) => checkpoint_refused(
                    sheet@,
                    config,
                    checkpoint,
                    verdicts,
                    error,
                ),
                Err(Stop::Missing(missing)) => {
                    &&& missing@.len() > 0
                    &&& all_missing(missing@, sheet@)
                    &&& early_fault(config, checkpoint, verdicts) is None
                    &&& !start_supplied(sheet@, config, checkpoint, verdicts)
                },
            },
    {
        let ghost given = checkpoint;
        let ghost told = verdicts;
        let unit_policies = match check_early(config, &checkpoint, &verdicts) {
            Err(error) => {
                return Err(Stop::Failed(error));
            },
            Ok(policies) => policies,
        };
        let ghost policies = policies_view(unit_policies@);
        let mut checkpoint = checkpoint;
        let mut reinforcement: Option<ReinforcementState> = None;
        core::mem::swap(&mut reinforcement, &mut checkpoint.reinforcement);
        let reinforced = outfit_reinforcement(
            reinforcement,
            checkpoint.air_power.as_ref(),
            verdicts.air,
            &checkpoint.simulation.units,
            &checkpoint.territory.country_to_side,
            checkpoint.territory.max_sides,
        );
        let reinforcement: Option<ReinforcementState> = match reinforced {
            Err(error) => {
                assert(checkpoint_reinforced(given, told, Err(error)));
                return Err(Stop::Failed(error));
            },
            Ok(state) => state,
        };
        assert(checkpoint_reinforced(given, told, Ok(reinforcement)));
        let mut material: Option<MaterialLogisticsState> = None;
        core::mem::swap(&mut material, &mut checkpoint.material_logistics);
        let mut reader = sheet.reader();
        let supplied = outfit_material(
            material,
            reinforcement.is_some(),
            &checkpoint.simulation.units,
            &checkpoint.scenario.countries,
            &checkpoint.strategic.economies,
            &checkpoint.territory.country_to_side,
            checkpoint.territory.max_sides,
            &mut reader,
        );
        if !reader.is_complete() {
            return Err(Stop::Missing(reader.into_missing()));
        }
        let material: Option<MaterialLogisticsState> = match supplied {
            Err(error) => {
                assert(checkpoint_supplied(sheet@, given, reinforcement is Some, Err(error)));
                assert(refused_when_reinforced(
                    sheet@,
                    config,
                    given,
                    told,
                    reinforcement is Some,
                    error,
                ));
                return Err(Stop::Failed(error));
            },
            Ok(state) => state,
        };
        assert(checkpoint_supplied(sheet@, given, reinforcement is Some, Ok(material)));
        assert(late_fault(checkpoint, told, policies) == late_fault(given, told, policies));
        match check_late(&checkpoint, &verdicts, &unit_policies) {
            Err(error) => {
                assert(refused_when_reinforced(
                    sheet@,
                    config,
                    given,
                    told,
                    reinforcement is Some,
                    error,
                ));
                return Err(Stop::Failed(error));
            },
            Ok(_) => {},
        }
        let shown = match show_first(&config, &checkpoint, &verdicts, &unit_policies, sheet) {
            Err(Stop::Missing(missing)) => {
                assert(!first_supplied(sheet@, config, checkpoint, told));
                assert(!first_supplied(sheet@, config, given, told));
                return Err(Stop::Missing(missing));
            },
            Err(Stop::Failed(error)) => {
                proof {
                    let frame = choose|frame: FrameSnapshot|
                        #[trigger] published_first(
                            sheet@,
                            config,
                            checkpoint,
                            told,
                            policies,
                            frame,
                            Err(error),
                        );
                    assert(published_first(
                        sheet@,
                        config,
                        given,
                        told,
                        policies,
                        frame,
                        Err(error),
                    ));
                    assert(refused_when_shown(sheet@, config, given, told, error));
                    assert(refused_when_reinforced(
                        sheet@,
                        config,
                        given,
                        told,
                        reinforcement is Some,
                        error,
                    ));
                }
                return Err(Stop::Failed(error));
            },
            Ok(shown) => shown,
        };
        let ghost frame = choose|frame: FrameSnapshot|
            #[trigger] published_first(
                sheet@,
                config,
                checkpoint,
                told,
                policies,
                frame,
                Ok(shown),
            );
        assert(published_first(sheet@, config, given, told, policies, frame, Ok(shown)));
        let state = match initial_state(checkpoint.strategic_snapshot.as_ref(), checkpoint.tick) {
            Err(error) => {
                assert(refused_when_shown(sheet@, config, given, told, error));
                assert(refused_when_reinforced(
                    sheet@,
                    config,
                    given,
                    told,
                    reinforcement is Some,
                    error,
                ));
                return Err(Stop::Failed(error));
            },
            Ok(state) => state,
        };
        let mut render_updates: VecDeque<TerritoryRenderUpdate> = VecDeque::new();
        if let Some(update) = verdicts.render_update {
            render_updates.push_back(update);
        }
        assert(render_updates@ =~= (match told.render_update {
            Some(update) => seq![update],
            None => Seq::empty(),
        }));
        let unit_sovereign_by_id = list_owners(&checkpoint.simulation.units);
        let RuntimeCheckpoint {
            tick,
            frame: frame_number,
            war_grace_end,
            simulation,
            territory,
            strategic,
            strategic_snapshot,
            scenario,
            diplomacy,
            unit_policies: _listed,
            battlefield,
            objectives,
            prior_objective_by_unit,
            front_prior_by_unit,
            last_front_refresh_tick,
            casualties,
            casualties_by_victim,
            gameplay_rng,
            personnel_reserves,
            side_dynamics,
            operations,
            naval_planning,
            operational_execution,
            air_power,
            reinforcement: _given_reinforcement,
            material_logistics: _given_material,
            strategic_missiles,
        } = checkpoint;
        let territory = Arc::new(territory);
        let scenario = Arc::new(scenario);
        let battlefield_urban_mask: Option<Vec<u8>> = if battlefield.is_some() {
            Some(verdicts.urban_mask)
        } else {
            None
        };
        let casualties = Arc::new(casualties);
        let casualties_by_victim = Arc::new(casualties_by_victim);
        let personnel_reserves = Arc::new(personnel_reserves);
        let operational_execution = shared_from(operational_execution);
        let air_power = shared_from(air_power);
        let reinforcement = shared_from(reinforcement);
        let material_logistics = shared_from(material);
        let published = make_snapshot(
            tick,
            frame_number,
            state,
            shown,
            verdicts.territory_snapshot,
            &strategic,
            shared_from(strategic_snapshot),
            &operations,
            &operational_execution,
            &air_power,
            strategic_missiles,
            RuntimeStepCounters::default(),
            render_updates.len(),
            &casualties,
            &casualties_by_victim,
            gameplay_rng,
            &personnel_reserves,
            &reinforcement,
            &material_logistics,
        );
        let runtime = NativeRuntime {
            config,
            tick,
            frame: frame_number,
            war_grace_end,
            simulation,
            territory,
            strategic,
            scenario,
            diplomacy,
            unit_policies,
            battlefield,
            battlefield_urban_mask,
            unit_sovereign_by_id,
            objectives,
            front_prior_by_unit,
            last_front_refresh_tick,
            prior_objective_by_unit,
            casualties,
            casualties_by_victim,
            gameplay_rng,
            personnel_reserves,
            side_dynamics,
            operations,
            naval_planning,
            operational_execution,
            air_power,
            reinforcement,
            material_logistics,
            strategic_missiles,
            state,
            latest: Arc::new(published),
            render_updates,
        };
        assert(snapshot_shows(runtime@.latest, runtime@));
        assert(started(runtime@, config, given, told));
        Ok(runtime)
    }
}

/// Whether a list holds exactly the policies of a table.
pub open spec fn lists_policies(list: Seq<PolicyModel>, table: Policies) -> bool {
    &&& forall|i: int|
        0 <= i < list.len() ==> table.contains_key((#[trigger] list[i]).unit_id)
            && table[list[i].unit_id] == list[i]
    &&& forall|unit_id: u64| #[trigger]
        table.contains_key(unit_id) ==> exists|i: int|
            0 <= i < list.len() && (#[trigger] list[i]).unit_id == unit_id
}

proof fn lemma_listed_table(list: Seq<PolicyModel>, table: Policies, count: nat)
    requires
        count <= list.len(),
        forall|i: int|
            0 <= i < list.len() ==> table.contains_key((#[trigger] list[i]).unit_id)
                && table[list[i].unit_id] == list[i],
    ensures
        forall|unit_id: u64| #[trigger]
            policy_table(list, count).contains_key(unit_id) ==> table.contains_key(unit_id)
                && policy_table(list, count)[unit_id] == table[unit_id],
        forall|i: int|
            0 <= i < count ==> policy_table(list, count).contains_key(
                (#[trigger] list[i]).unit_id,
            ),
    decreases count,
{
    if count > 0 {
        let shorter = policy_table(list, (count - 1) as nat);
        let last = list[count - 1];
        lemma_listed_table(list, table, (count - 1) as nat);
        assert forall|unit_id: u64| #[trigger]
            policy_table(list, count).contains_key(unit_id) implies table.contains_key(unit_id)
            && policy_table(list, count)[unit_id] == table[unit_id] by {
            if unit_id != last.unit_id {
                assert(shorter.contains_key(unit_id));
            } else {
                assert(table.contains_key(list[count - 1].unit_id));
            }
        }
        assert forall|i: int| 0 <= i < count implies policy_table(list, count).contains_key(
            (#[trigger] list[i]).unit_id,
        ) by {
            if i < count - 1 {
                assert(shorter.contains_key(list[i].unit_id));
            }
        }
    }
}

/// Whether a checkpoint restores what a save holds.
pub open spec fn restores(
    checkpoint: RuntimeCheckpoint,
    save: NativeRuntimeCheckpointState,
) -> bool {
    &&& checkpoint.tick == save.tick
    &&& checkpoint.frame == save.frame
    &&& checkpoint.war_grace_end == save.war_grace_end
    &&& checkpoint.simulation.config == save.simulation_config
    &&& checkpoint.simulation.units@ == save.units@
    &&& checkpoint.diplomacy.hostility@ == save.diplomacy.hostility@
    &&& checkpoint.diplomacy.active_sides@ == save.diplomacy.active_sides@
    &&& lists_policies(views(checkpoint.unit_policies@), policies_view(save.unit_policies@))
    &&& field_view(checkpoint.battlefield) == field_view(save.battlefield)
    &&& checkpoint.objectives@ == save.objectives@
    &&& checkpoint.prior_objective_by_unit@ == save.prior_objective_by_unit@
    &&& priors_view(checkpoint.front_prior_by_unit@) == priors_view(save.front_prior_by_unit@)
    &&& checkpoint.last_front_refresh_tick == save.last_front_refresh_tick
    &&& checkpoint.casualties@ == save.casualties@
    &&& ledger_view(checkpoint.casualties_by_victim@) == ledger_view(save.casualties_by_victim@)
    &&& checkpoint.gameplay_rng == save.gameplay_rng
    &&& checkpoint.personnel_reserves@ == save.personnel_reserves@
    &&& table_view(checkpoint.side_dynamics) == table_view(save.side_dynamics)
    &&& operations_view(checkpoint.operations) == operations_view(save.operations)
    &&& checkpoint.naval_planning == save.naval_planning
    &&& checkpoint.operational_execution == unshared(save.operational_execution)
    &&& checkpoint.air_power == unshared(save.air_power)
    &&& checkpoint.reinforcement == unshared(save.reinforcement)
    &&& checkpoint.material_logistics == unshared(save.material_logistics)
    &&& checkpoint.strategic_missiles == save.strategic_missiles
    &&& checkpoint.strategic.cycle == save.strategic_cycle
    &&& checkpoint.strategic.occupations@ == save.occupations@
    &&& checkpoint.strategic.economies@ == economies_listed(
        save.economies@,
        save.economies@.len(),
    )
    &&& checkpoint.territory == *save.territory_config
    &&& checkpoint.scenario == *save.scenario
}

/// Whether the command kernel, asked again, finds no home for formations that had none.
pub open spec fn homes_stay(policies: Policies, verdicts: KernelVerdicts) -> bool {
    forall|unit_id: u64|
        policies.contains_key(unit_id) && lacks_home(#[trigger] policies[unit_id]) ==> (
        commands_resolved(verdicts.commands) matches Ok(resolved) ==> !(resolved.contains_key(
            unit_id,
        ) && resolved[unit_id].home_target is Some))
}

/// A runtime that starts from what a save holds resumes where the saved one stood, as long as the
/// command kernel finds no home that it did not find before.
pub proof fn a_saved_runtime_resumes(
    results: Map<Operation, u64>,
    model: RuntimeModel,
    committed: TerritoryCommittedState,
    influence_runtime: Option<KernelHandle>,
    save: NativeRuntimeCheckpointState,
    checkpoint: RuntimeCheckpoint,
    verdicts: KernelVerdicts,
    resumed: RuntimeModel,
)
    requires
        runtime_sound(model),
        save_holds(save, model, committed, influence_runtime),
        restores(checkpoint, save),
        started(resumed, save.runtime_config, checkpoint, verdicts),
        checkpoint_reinforced(checkpoint, verdicts, Ok(resumed.reinforcement)),
        checkpoint_supplied(
            results,
            checkpoint,
            resumed.reinforcement is Some,
            Ok(resumed.material),
        ),
        homes_stay(model.policies, verdicts),
    ensures
        resumed.config == model.config,
        resumed.tick == model.tick,
        resumed.frame == model.frame,
        resumed.war_grace_end == model.war_grace_end,
        resumed.simulation_config == model.simulation_config,
        resumed.units == model.units,
        resumed.hostility == model.hostility,
        resumed.active_sides == model.active_sides,
        resumed.policies == model.policies,
        resumed.battlefield == model.battlefield,
        resumed.objectives == model.objectives,
        resumed.priors == model.priors,
        resumed.front_priors == model.front_priors,
        resumed.last_refresh == model.last_refresh,
        resumed.casualties == model.casualties,
        resumed.ledger == model.ledger,
        resumed.rng == model.rng,
        resumed.reserves == model.reserves,
        resumed.dynamics == model.dynamics,
        resumed.operations == model.operations,
        resumed.naval == model.naval,
        resumed.execution == model.execution,
        resumed.air == model.air,
        resumed.missiles == model.missiles,
        resumed.strategic == model.strategic,
        resumed.scenario == model.scenario,
        resumed.territory == model.territory,
        resumed.owners == model.owners,
        resumed.reinforcement == model.reinforcement,
        resumed.material == model.material,
{
    let list = views(checkpoint.unit_policies@);
    let table = policy_table(list, list.len());
    lemma_listed_table(list, model.policies, list.len());
    assert forall|unit_id: u64| model.policies.contains_key(unit_id) implies table.contains_key(
        unit_id,
    ) by {
        let i = choose|i: int| 0 <= i < list.len() && (#[trigger] list[i]).unit_id == unit_id;
        assert(table.contains_key(list[i].unit_id));
    }
    assert(table =~= model.policies);
    if some_home_missing(table) {
        let resolved = commands_resolved(verdicts.commands)->Ok_0;
        assert(hydrated(table, resolved) =~= table) by {
            assert forall|unit_id: u64| #[trigger] table.contains_key(unit_id) implies hydrated(
                table,
                resolved,
            )[unit_id] == table[unit_id] by {
                assert(lacks_home(table[unit_id]) || !lacks_home(table[unit_id]));
            }
        }
    }
}

} // verus!
