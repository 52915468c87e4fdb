//! A tick under way: what it has worked out so far, what it asks of the kernels, and what they
//! answered.
//!
//! A tick works on its own copies. It goes through its stages in their order; in each of them it
//! either asks a kernel for something, with the inputs that the kernel needs, or completes the
//! stage. Nothing of the runtime changes before the outcome is committed.

use std::collections::{BTreeMap, BTreeSet};
use std::sync::Arc;
use vstd::prelude::*;
use crate::tables::country_keys;
use crate::air::AirPowerState;
use crate::casualties::{AirAdvanceOutcome, DamageCommand, DamageOutcome};
use crate::operations::OperationalRuntimeState;
use crate::reinforcement::{MaterialLogisticsState, ReinforcementState};
use crate::runtime::airstage::{AirPriorityArea, AirUnitTarget};
use crate::runtime::aftermath::CountedTick;
use crate::runtime::assembly::{DiffusionReport, StagedStrategicEffects, UnitConsequences};
use crate::runtime::battlefield::{
    BattlefieldLocalUnitResult, BattlefieldUnitResult, SideDynamics,
};
use crate::runtime::boot::RuntimeState;
use crate::runtime::command::CommandUnitState;
use crate::runtime::counters::{
    CensusStepResult, InfluenceApplyResult, MissileReport, NavalPlanningCounters,
    OperationalExecutionCounters, RuntimeCensusCounters, RuntimeReinforcementCounters,
    RuntimeStepCounters, StrategicCounters,
};
use crate::runtime::dynamics::DynamicsDirective;
use crate::runtime::effects::{
    CensusProgress, CensusStatus, ConflictResolutionPlan, StrategicSnapshot, SurrenderAnswers,
    SurrenderMaps, SurrenderUnitPosition, TerritoryBoundary,
};
use crate::runtime::enlistment::{RecruitCommand, RecruitmentStaging};
use crate::runtime::execution::{DefenderThreat, ExecutionUnitInput, OperationalExecutionState};
use crate::runtime::influence::{InfluenceSchedule, InfluenceSource};
use crate::runtime::losses::{BattlefieldDirection, BattlefieldDirectionInput};
use crate::runtime::mobilization::{Mobilization, StagedCommandPolicies};
use crate::runtime::native::{
    economies_keyed, FrontLayout, KernelHandle, RuntimeModel, RuntimeParts, TerritoryRenderUpdate,
};
use crate::runtime::planning::{
    AiPlanningResult, AiUnitInput, FrontLayoutUnit, ResolvedCommandPolicy,
};
use crate::runtime::policy::{policies_view, CommandHomeTarget, Policies, RuntimeUnitPolicy};
use crate::runtime::recruitment::RecruitmentRules;
use crate::runtime::stages::{ExecutionOutputs, IssuedOrders};
use crate::runtime::step::{stage_completed, RuntimeStep, StageEvent};
use crate::runtime::tactics::{
    BattlefieldLocalUnitInput, BattlefieldUnitInput, StagedBattlefieldTick,
};
use crate::runtime::world::{AirfieldController, StrategicState, TerritoryControl};
use crate::economy::{CommandBand, EconomyState};
use crate::scalar::Real;
use crate::simulation::{FrameSnapshot, TickCounters};
use crate::strategic::{
    StrategicCycleInput, StrategicDerivationCounters, TerritorySnapshot,
};
use crate::taskforce::OperationalUnitInput;
use crate::units::{KernelFault, ResolvedUnitOrder, SimulationUnit};
use crate::worksheet::{all_missing, Operation};

verus! {

/// What the kernels' own constants make of a tick.
#[derive(Clone, Copy, Debug, PartialEq, Eq, Structural)]
pub struct TickRules {
    /// A strategic cycle comes every so many ticks.
    pub pay_cycle_ticks: u64,
    /// Whether the momentum kernel samples in this tick.
    pub sample_due: bool,
    /// How many ticks lie between two samples.
    pub sample_interval: u64,
    /// How far a main effort reaches for the wings that support it.
    pub air_priority_radius_km: Real,
    /// The health of a fresh formation.
    pub unit_health: Real,
    pub recruitment: RecruitmentRules,
}

/// A random number, and the generator after it was drawn.
#[derive(Clone, Copy, Debug, PartialEq, Eq, Structural)]
pub struct Draw {
    pub value: Real,
    pub after: KernelHandle,
}

/// What the battlefield kernel says of the formations around each formation.
#[derive(Debug)]
pub struct LocalAnswer {
    pub units: Vec<BattlefieldLocalUnitResult>,
    /// Whether each formation is near a city of its country.
    pub near_city: Vec<bool>,
}

/// The territory after influence spread.
#[derive(Debug)]
pub struct InfluenceAnswer {
    pub territory: TerritoryControl,
    pub applied: InfluenceApplyResult,
    pub processed_items: usize,
    pub stale_entries: usize,
}

/// Wings after they flew.
#[derive(Debug)]
pub struct AirAnswer {
    pub air: AirPowerState,
    pub outcome: AirAdvanceOutcome,
}

/// Formations after damage.
#[derive(Debug)]
pub struct DamageAnswer {
    pub units: Vec<SimulationUnit>,
    pub outcome: DamageOutcome,
}

/// Landings that the naval planner began.
#[derive(Debug)]
pub struct NavalAnswer {
    pub planner: KernelHandle,
    /// Execution with the landings among its operations, in the order of their names.
    pub execution: OperationalExecutionState,
    pub counters: NavalPlanningCounters,
}

/// Execution after it advanced.
#[derive(Debug)]
pub struct ExecutionAnswer {
    pub execution: OperationalExecutionState,
    pub outputs: ExecutionOutputs,
    pub counters: OperationalExecutionCounters,
}

/// Formations after they moved and fought.
#[derive(Debug)]
pub struct CombatAnswer {
    pub units: Vec<SimulationUnit>,
    pub frame: FrameSnapshot,
    pub counters: TickCounters,
}

/// Missiles after they flew.
#[derive(Debug)]
pub struct MissileAnswer {
    pub missiles: KernelHandle,
    pub rng: KernelHandle,
    pub report: MissileReport,
    /// What each impact does, in the order of the impacts.
    pub impacts: Vec<Vec<DamageCommand>>,
}

/// How far a census is.
#[derive(Debug)]
pub struct CensusAnswer {
    /// What the last part of the census came to; nothing before the first part.
    pub counted: Option<CensusStepResult>,
    pub status: CensusStatus,
    pub snapshot: Arc<TerritorySnapshot>,
    /// The schema of such snapshots.
    pub schema: String,
}

/// What a strategic cycle comes to before it takes effect.
#[derive(Debug)]
pub struct CycleAnswer {
    pub evaluated: StrategicSnapshot,
    pub economies: BTreeMap<u16, EconomyState>,
}

/// What the kernels say while a strategic cycle takes effect.
#[derive(Debug)]
pub struct EffectsAnswer {
    pub maps: SurrenderMaps,
    pub boundary: TerritoryBoundary,
    pub surrender: SurrenderAnswers,
    /// How the war ends among the sides that are left, if it ends.
    pub resolution: Option<ConflictResolutionPlan>,
}

/// A strategic cycle after it was committed.
#[derive(Debug)]
pub struct CommittedCycle {
    pub strategic: StrategicState,
    pub published: Arc<StrategicSnapshot>,
    pub counters: StrategicCounters,
    /// What the territory publishes after a surrender.
    pub census: Option<Arc<TerritorySnapshot>>,
}

/// Economies after money was spent.
#[derive(Debug)]
pub struct TreasuryAnswer {
    pub strategic: StrategicState,
    pub published: Option<Arc<StrategicSnapshot>>,
}

/// What a tick asks of the kernels.
#[derive(Debug)]
pub enum TickAction {
    /// Nothing: the tick went on by itself.
    Moved,
    /// How strong each formation is.
    Strengths,
    /// Judge every side.
    Momentum { sides: Vec<usize>, directives: Vec<DynamicsDirective> },
    /// Look around each formation.
    Local(Vec<BattlefieldLocalUnitInput>),
    /// Resolve the battlefield.
    Battlefield { inputs: Vec<BattlefieldUnitInput>, hostile_land: Vec<Real> },
    /// Let influence spread from sources, for these sides and within this budget.
    Influence { sources: Vec<InfluenceSource>, sides: Vec<usize>, budget: usize },
    /// Let wings fly.
    Air {
        targets: Vec<AirUnitTarget>,
        areas: Vec<AirPriorityArea>,
        controllers: BTreeMap<u64, AirfieldController>,
        bands: BTreeMap<u16, CommandBand>,
        coverage: BTreeMap<u16, Real>,
    },
    /// Hurt formations.
    Damage(Vec<DamageCommand>),
    /// Draw one more random number.
    Draw,
    /// Lay out the fronts.
    Layout(Vec<FrontLayoutUnit>),
    /// Give every formation an order.
    Plan(Vec<AiUnitInput>),
    /// Look for landings.
    Naval(Vec<ExecutionUnitInput>),
    /// Carry operations out.
    Execution { units: Vec<ExecutionUnitInput>, threats: Vec<DefenderThreat> },
    /// Bend directions.
    Directions(Vec<BattlefieldDirectionInput>),
    /// Let formations move and fight.
    Combat { orders: Vec<ResolvedUnitOrder>, inactive: Vec<u64> },
    /// Let missiles fly.
    Missiles,
    /// Let sides feel what they lost.
    FeelLosses(BTreeMap<usize, Real>),
    /// Tell how far the census is.
    CensusStatus,
    /// Count at most so many items.
    Census(usize),
    /// Evaluate a strategic cycle.
    Cycle(StrategicCycleInput),
    /// Let formations desert or give up.
    Consequences,
    /// Let a strategic cycle take effect: these attackers share the loot, formations stand here,
    /// and these sides are left, with these of them hostile.
    Effects {
        attackers: Vec<u16>,
        positions: Vec<SurrenderUnitPosition>,
        standing: Vec<u16>,
        pairs: Vec<(u16, u16)>,
    },
    /// Resolve the commands of all formations.
    Commands {
        units: Vec<CommandUnitState>,
        bands: BTreeMap<u16, CommandBand>,
        targets: BTreeMap<u16, CommandHomeTarget>,
    },
    /// Commit a strategic cycle.
    CommitCycle,
    /// Tell whether wings and airfields are valid.
    CheckAir(AirPowerState),
    /// Spend from treasuries.
    Spend(Vec<(u16, Real)>),
    /// Pay for recruits from treasuries.
    SpendRecruitment(BTreeMap<u16, Real>),
    /// Let go of formations that are gone.
    Reactions(Vec<ExecutionUnitInput>),
    /// The discipline of new formations.
    Disciplines(BTreeSet<u64>),
    /// The command of a recruit.
    RecruitCommand(RecruitCommand),
    /// Hand over the change of the map, if there is one.
    RenderUpdate,
    /// Nothing more: the tick can be finished.
    Finish,
}

/// What a kernel answered.
#[derive(Debug)]
pub enum TickAnswer {
    Strengths(Vec<Real>),
    Momentum(BTreeMap<usize, SideDynamics>),
    Local(LocalAnswer),
    Battlefield(Vec<BattlefieldUnitResult>),
    Influence(InfluenceAnswer),
    Air(AirAnswer),
    Damage(DamageAnswer),
    Draw(Draw),
    Layout(FrontLayout),
    Plan(AiPlanningResult),
    Naval(NavalAnswer),
    Execution(ExecutionAnswer),
    Directions(Vec<BattlefieldDirection>),
    Combat(CombatAnswer),
    Missiles(MissileAnswer),
    Census(CensusAnswer),
    Cycle(CycleAnswer),
    Consequences(UnitConsequences),
    Effects(EffectsAnswer),
    Commands(BTreeMap<u64, ResolvedCommandPolicy>),
    CommitCycle(CommittedCycle),
    AirVerdict(bool),
    Treasury(TreasuryAnswer),
    Reactions(OperationalExecutionState),
    Disciplines(BTreeMap<u64, Real>),
    RecruitCommand(u64, Result<ResolvedCommandPolicy, KernelFault>),
    RenderUpdate(Option<TerritoryRenderUpdate>),
}

/// Answers that the present stage has and has not used yet.
#[derive(Debug)]
pub struct Inbox {
    pub momentum: Option<BTreeMap<usize, SideDynamics>>,
    pub local: Option<LocalAnswer>,
    pub battlefield: Option<Vec<BattlefieldUnitResult>>,
    pub influence: Option<InfluenceAnswer>,
    pub air: Option<AirAnswer>,
    pub damage: Option<DamageAnswer>,
    pub layout: Option<FrontLayout>,
    pub plan: Option<AiPlanningResult>,
    pub naval: Option<NavalAnswer>,
    pub execution: Option<ExecutionAnswer>,
    pub directions: Option<Vec<BattlefieldDirection>>,
    pub combat: Option<CombatAnswer>,
    pub missiles: Option<MissileAnswer>,
    pub census: Option<CensusAnswer>,
    pub cycle: Option<CycleAnswer>,
    pub consequences: Option<UnitConsequences>,
    pub effects: Option<EffectsAnswer>,
    pub commands: Option<BTreeMap<u64, ResolvedCommandPolicy>>,
    pub committed: Option<CommittedCycle>,
    pub treasury: Option<TreasuryAnswer>,
    pub reactions: Option<OperationalExecutionState>,
    pub disciplines: Option<BTreeMap<u64, Real>>,
    pub render_update: Option<Option<TerritoryRenderUpdate>>,
}

impl Inbox {
    /// Nothing is there.
    pub open spec fn is_empty(self) -> bool {
        &&& self.momentum is None
        &&& self.local is None
        &&& self.battlefield is None
        &&& self.influence is None
        &&& self.air is None
        &&& self.damage is None
        &&& self.layout is None
        &&& self.plan is None
        &&& self.naval is None
        &&& self.execution is None
        &&& self.directions is None
        &&& self.combat is None
        &&& self.missiles is None
        &&& self.census is None
        &&& self.cycle is None
        &&& self.consequences is None
        &&& self.effects is None
        &&& self.commands is None
        &&& self.committed is None
        &&& self.treasury is None
        &&& self.reactions is None
        &&& self.disciplines is None
        &&& self.render_update is None
    }

    pub(crate) fn empty() -> (inbox: Inbox)
        ensures
            inbox.is_empty(),
    {
        Inbox {
            momentum: None,
            local: None,
            battlefield: None,
            influence: None,
            air: None,
            damage: None,
            layout: None,
            plan: None,
            naval: None,
            execution: None,
            directions: None,
            combat: None,
            missiles: None,
            census: None,
            cycle: None,
            consequences: None,
            effects: None,
            commands: None,
            committed: None,
            treasury: None,
            reactions: None,
            disciplines: None,
            render_update: None,
        }
    }
}

/// What influence came to in a tick.
#[derive(Debug)]
pub struct InfluenceReport {
    pub sources: usize,
    pub applied: InfluenceApplyResult,
    pub schedule: Option<InfluenceSchedule>,
    pub diffusion: DiffusionReport,
}

/// What a tick has worked out so far. Parts that are absent are still those of the runtime.
#[derive(Debug)]
pub struct TickWork {
    pub step: RuntimeStep,
    pub rules: TickRules,
    pub inbox: Inbox,
    /// Strengths of the formations as they are now.
    pub strengths: Option<Vec<Real>>,
    /// Random numbers that were drawn and not used up.
    pub draws: Vec<Draw>,
    pub rng: KernelHandle,
    pub units: Vec<SimulationUnit>,
    pub operations: Option<OperationalRuntimeState>,
    pub dynamics: Option<BTreeMap<usize, SideDynamics>>,
    pub field: Option<StagedBattlefieldTick>,
    pub territory: Option<TerritoryControl>,
    pub influence: Option<InfluenceReport>,
    pub air: Option<AirPowerState>,
    pub air_outcome: Option<AirAdvanceOutcome>,
    pub air_damage: Option<DamageOutcome>,
    pub reserves: Option<BTreeMap<usize, Real>>,
    pub exiled: Vec<u64>,
    pub recovered_personnel: u64,
    pub attrition: Option<DamageOutcome>,
    pub layout: Option<FrontLayout>,
    pub planning: Option<AiPlanningResult>,
    /// Formations that operations claimed when the planner was asked.
    pub claimed: BTreeSet<u64>,
    pub inputs: Vec<OperationalUnitInput>,
    pub naval: Option<KernelHandle>,
    pub naval_counters: Option<NavalPlanningCounters>,
    pub execution: Option<OperationalExecutionState>,
    pub outputs: Option<ExecutionOutputs>,
    pub execution_counters: Option<OperationalExecutionCounters>,
    pub issued: Option<IssuedOrders>,
    pub frame: Option<FrameSnapshot>,
    pub counters: Option<TickCounters>,
    pub missiles: Option<KernelHandle>,
    pub missile_report: Option<MissileReport>,
    pub impacts_due: Vec<Vec<DamageCommand>>,
    pub impacts_done: usize,
    pub impacts: Vec<DamageOutcome>,
    pub counted: Option<CountedTick>,
    pub census: CensusProgress,
    pub census_counters: Option<RuntimeCensusCounters>,
    pub snapshot: Option<Arc<TerritorySnapshot>>,
    pub schema: Option<String>,
    pub effects: Option<StagedStrategicEffects>,
    pub derivation: Option<StrategicDerivationCounters>,
    pub commands: Option<StagedCommandPolicies>,
    pub strategic: Option<StrategicState>,
    pub strategic_snapshot: Option<Arc<StrategicSnapshot>>,
    pub strategic_counters: Option<StrategicCounters>,
    pub active_sides: Option<Vec<u16>>,
    pub fronts_invalidated: bool,
    pub state: RuntimeState,
    pub verdicts: Vec<bool>,
    pub reinforcement: Option<ReinforcementState>,
    pub material: Option<MaterialLogisticsState>,
    pub reinforcement_counters: RuntimeReinforcementCounters,
    /// Formations after a pay cycle raised new ones.
    pub material_units: Option<Vec<SimulationUnit>>,
    pub created: BTreeSet<u64>,
    pub costs: Vec<(u16, Real)>,
    pub mobilization: Option<Mobilization>,
    pub recruit_commands: BTreeMap<u64, Result<ResolvedCommandPolicy, KernelFault>>,
    pub recruitment: Option<RecruitmentStaging>,
    /// Whether formations joined that the frame does not show.
    pub reshow: bool,
    /// Whether the battlefield remembers formations that joined.
    pub joined: bool,
    pub published: Option<RuntimeStepCounters>,
    pub render_update: Option<TerritoryRenderUpdate>,
}

/// An answer was put where its stage finds it. It replaces an earlier one of its kind; random
/// numbers, verdicts and the commands of recruits add up.
pub open spec fn answered(before: TickWork, answer: TickAnswer, after: TickWork) -> bool {
    match answer {
        TickAnswer::Strengths(given) => after == (TickWork { strengths: Some(given), ..before }),
        TickAnswer::Momentum(given) => after == (TickWork {
            inbox: Inbox { momentum: Some(given), ..before.inbox },
            ..before
        }),
        TickAnswer::Local(given) => after == (TickWork {
            inbox: Inbox { local: Some(given), ..before.inbox },
            ..before
        }),
        TickAnswer::Battlefield(given) => after == (TickWork {
            inbox: Inbox { battlefield: Some(given), ..before.inbox },
            ..before
        }),
        TickAnswer::Influence(given) => after == (TickWork {
            inbox: Inbox { influence: Some(given), ..before.inbox },
            ..before
        }),
        TickAnswer::Air(given) => after == (TickWork {
            inbox: Inbox { air: Some(given), ..before.inbox },
            ..before
        }),
        TickAnswer::Damage(given) => after == (TickWork {
            inbox: Inbox { damage: Some(given), ..before.inbox },
            ..before
        }),
        TickAnswer::Draw(given) => {
            &&& after.draws@ == before.draws@.push(given)
            &&& after == (TickWork { draws: after.draws, ..before })
        },
        TickAnswer::Layout(given) => after == (TickWork {
            inbox: Inbox { layout: Some(given), ..before.inbox },
            ..before
        }),
        TickAnswer::Plan(given) => after == (TickWork {
            inbox: Inbox { plan: Some(given), ..before.inbox },
            ..before
        }),
        TickAnswer::Naval(given) => after == (TickWork {
            inbox: Inbox { naval: Some(given), ..before.inbox },
            ..before
        }),
        TickAnswer::Execution(given) => after == (TickWork {
            inbox: Inbox { execution: Some(given), ..before.inbox },
            ..before
        }),
        TickAnswer::Directions(given) => after == (TickWork {
            inbox: Inbox { directions: Some(given), ..before.inbox },
            ..before
        }),
        TickAnswer::Combat(given) => after == (TickWork {
            inbox: Inbox { combat: Some(given), ..before.inbox },
            ..before
        }),
        TickAnswer::Missiles(given) => after == (TickWork {
            inbox: Inbox { missiles: Some(given), ..before.inbox },
            ..before
        }),
        TickAnswer::Census(given) => after == (TickWork {
            inbox: Inbox { census: Some(given), ..before.inbox },
            ..before
        }),
        TickAnswer::Cycle(given) => after == (TickWork {
            inbox: Inbox { cycle: Some(given), ..before.inbox },
            ..before
        }),
        TickAnswer::Consequences(given) => after == (TickWork {
            inbox: Inbox { consequences: Some(given), ..before.inbox },
            ..before
        }),
        TickAnswer::Effects(given) => after == (TickWork {
            inbox: Inbox { effects: Some(given), ..before.inbox },
            ..before
        }),
        TickAnswer::Commands(given) => after == (TickWork {
            inbox: Inbox { commands: Some(given), ..before.inbox },
            ..before
        }),
        TickAnswer::CommitCycle(given) => after == (TickWork {
            inbox: Inbox { committed: Some(given), ..before.inbox },
            ..before
        }),
        TickAnswer::AirVerdict(given) => {
            &&& after.verdicts@ == before.verdicts@.push(given)
            &&& after == (TickWork { verdicts: after.verdicts, ..before })
        },
        TickAnswer::Treasury(given) => after == (TickWork {
            inbox: Inbox { treasury: Some(given), ..before.inbox },
            ..before
        }),
        TickAnswer::Reactions(given) => after == (TickWork {
            inbox: Inbox { reactions: Some(given), ..before.inbox },
            ..before
        }),
        TickAnswer::Disciplines(given) => after == (TickWork {
            inbox: Inbox { disciplines: Some(given), ..before.inbox },
            ..before
        }),
        TickAnswer::RecruitCommand(id, given) => {
            &&& after.recruit_commands@ == before.recruit_commands@.insert(id, given)
            &&& after == (TickWork { recruit_commands: after.recruit_commands, ..before })
        },
        TickAnswer::RenderUpdate(given) => after == (TickWork {
            inbox: Inbox { render_update: Some(given), ..before.inbox },
            ..before
        }),
    }
}

/// The territory as a tick has it now.
pub open spec fn ground(model: RuntimeModel, work: TickWork) -> TerritoryControl {
    match work.territory {
        Some(territory) => territory,
        None => model.territory,
    }
}

/// The policies that a tick goes by: those of its battlefield, if it has one.
pub open spec fn policies_in_force(model: RuntimeModel, work: TickWork) -> Policies {
    match work.field {
        Some(field) => policies_view(field.policies@),
        None => model.policies,
    }
}

/// A stage is done: the next one comes up, and nothing is left over from the answers.
pub open spec fn completed(before: TickWork, event: StageEvent, after: TickWork) -> bool {
    after.step == stage_completed(before.step, event) && after.inbox.is_empty()
}

/// A tick waits for results of operations, and is as it was.
pub open spec fn lacking(
    before: TickWork,
    after: TickWork,
    missing: Vec<Operation>,
    results: Map<Operation, u64>,
) -> bool {
    after == before && missing@.len() > 0 && all_missing(missing@, results)
}

/// Whether a treasury that a kernel handed over has an economy under another country.
pub open spec fn misfiled(work: TickWork) -> bool {
    work.inbox.treasury matches Some(told) && !economies_keyed(told.strategic.economies@)
}

/// Strengths that a tick has for its formations.
pub open spec fn strengths_known(work: TickWork) -> bool {
    work.strengths matches Some(strengths) && strengths@.len() == work.units@.len()
}

/// Whether a territory can take the place of another.
pub open spec fn replaces(territory: TerritoryControl, old_one: TerritoryControl) -> bool {
    &&& territory.well_formed()
    &&& territory.max_sides == old_one.max_sides
    &&& territory.grid == old_one.grid
}

pub(crate) fn can_replace(territory: &TerritoryControl, old_one: &TerritoryControl) -> (answer: bool)
    requires
        old_one.well_formed(),
    ensures
        answer == replaces(*territory, *old_one),
{
    let cells: usize = old_one.land.len();
    if territory.grid != old_one.grid || territory.max_sides != old_one.max_sides {
        return false;
    }
    territory.land.len() == cells && territory.world_control.len() == cells
        && territory.de_jure.len() == cells && territory.primary_occupier.len() == cells
        && territory.dominant_side.len() == cells && territory.hostility.len()
        == old_one.hostility.len()
}

pub(crate) fn ground_of<'a>(parts: &RuntimeParts<'a>, work: &'a TickWork) -> (territory:
    &'a TerritoryControl)
    ensures
        *territory == (match work.territory {
            Some(staged) => staged,
            None => *parts.territory,
        }),
{
    match &work.territory {
        Some(staged) => staged,
        None => parts.territory,
    }
}

pub(crate) fn policies_of<'a>(parts: &RuntimeParts<'a>, work: &'a TickWork) -> (policies:
    &'a BTreeMap<u64, RuntimeUnitPolicy>)
    ensures
        policies@ == (match work.field {
            Some(field) => field.policies@,
            None => parts.unit_policies@,
        }),
{
    match &work.field {
        Some(field) => &field.policies,
        None => parts.unit_policies,
    }
}

/// Whether every economy stands under its own country.
pub(crate) fn are_filed(economies: &BTreeMap<u16, EconomyState>) -> (answer: bool)
    ensures
        answer == economies_keyed(economies@),
{
    broadcast use vstd::std_specs::btree::group_btree_axioms;

    let keys = country_keys(economies);
    let mut at: usize = 0;
    while at < keys.len()
        invariant
            at <= keys@.len(),
            keys@.to_set() == economies@.dom(),
            forall|i: int|
                0 <= i < at ==> economies@[#[trigger] keys@[i]].country_id == keys@[i],
        decreases keys@.len() - at,
    {
        broadcast use vstd::std_specs::btree::group_btree_axioms;

        let key: u16 = keys[at];
        assert(keys@.to_set().contains(key));
        if economies.get(&key).unwrap().country_id != key {
            assert(economies@.contains_key(key));
            return false;
        }
        at = at + 1;
    }
    proof {
        assert forall|country: u16| #[trigger] economies@.contains_key(country) implies economies@[
            country
        ].country_id == country by {
            assert(keys@.to_set().contains(country));
            let i = choose|i: int| 0 <= i < keys@.len() && keys@[i] == country;
            assert(economies@[keys@[i]].country_id == keys@[i]);
        }
    }
    true
}

impl TickWork {
    pub(crate) fn is_treasury_filed(&self) -> (answer: bool)
        ensures
            answer == !misfiled(*self),
    {
        match &self.inbox.treasury {
            Some(told) => are_filed(&told.strategic.economies),
            None => true,
        }
    }

    /// Ends a stage.
    pub(crate) fn close_stage(&mut self, event: StageEvent)
        ensures
            completed(*old(self), event, *final(self)),
            *final(self) == (TickWork {
                step: final(self).step,
                inbox: final(self).inbox,
                ..*old(self)
            }),
    {
        self.step.complete(event);
        self.inbox = Inbox::empty();
    }

    pub(crate) fn receive(&mut self, answer: TickAnswer)
        ensures
            answered(*old(self), answer, *final(self)),
    {
        broadcast use vstd::std_specs::btree::group_btree_axioms;

        match answer {
            TickAnswer::Strengths(given) => self.strengths = Some(given),
            TickAnswer::Momentum(given) => self.inbox.momentum = Some(given),
            TickAnswer::Local(given) => self.inbox.local = Some(given),
            TickAnswer::Battlefield(given) => self.inbox.battlefield = Some(given),
            TickAnswer::Influence(given) => self.inbox.influence = Some(given),
            TickAnswer::Air(given) => self.inbox.air = Some(given),
            TickAnswer::Damage(given) => self.inbox.damage = Some(given),
            TickAnswer::Draw(given) => self.draws.push(given),
            TickAnswer::Layout(given) => self.inbox.layout = Some(given),
            TickAnswer::Plan(given) => self.inbox.plan = Some(given),
            TickAnswer::Naval(given) => self.inbox.naval = Some(given),
            TickAnswer::Execution(given) => self.inbox.execution = Some(given),
            TickAnswer::Directions(given) => self.inbox.directions = Some(given),
            TickAnswer::Combat(given) => self.inbox.combat = Some(given),
            TickAnswer::Missiles(given) => self.inbox.missiles = Some(given),
            TickAnswer::Census(given) => self.inbox.census = Some(given),
            TickAnswer::Cycle(given) => self.inbox.cycle = Some(given),
            TickAnswer::Consequences(given) => self.inbox.consequences = Some(given),
            TickAnswer::Effects(given) => self.inbox.effects = Some(given),
            TickAnswer::Commands(given) => self.inbox.commands = Some(given),
            TickAnswer::CommitCycle(given) => self.inbox.committed = Some(given),
            TickAnswer::AirVerdict(given) => self.verdicts.push(given),
            TickAnswer::Treasury(given) => self.inbox.treasury = Some(given),
            TickAnswer::Reactions(given) => self.inbox.reactions = Some(given),
            TickAnswer::Disciplines(given) => self.inbox.disciplines = Some(given),
            TickAnswer::RecruitCommand(id, given) => {
                self.recruit_commands.insert(id, given);
            },
            TickAnswer::RenderUpdate(given) => self.inbox.render_update = Some(given),
        }
    }
}

} // verus!
