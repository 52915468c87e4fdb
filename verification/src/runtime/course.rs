//! The course of a tick, from its first stage to its outcome.

use std::collections::{BTreeMap, BTreeSet};
use vstd::prelude::*;
use crate::order::copy_all;
use crate::runtime::boot::RuntimeState;
use crate::runtime::campaign::{
    advance_operations, fronts_stage, lay_out_fronts, operations_stage, plan_again, plan_orders,
    planning_stage, replanning_stage,
};
use crate::runtime::clash::{
    census_stage, count_losses_of, count_territory, hit_targets, losses_stage, missiles_stage,
};
use crate::runtime::counters::RuntimeReinforcementCounters;
use crate::runtime::dispatch::{
    bend_directions, carry_out, directions_stage, execution_stage, move_and_fight, orders_stage,
    send_orders, simulation_stage,
};
use crate::runtime::effects::{CensusProgress, TerritoryCommittedState};
use crate::runtime::error::RuntimeError;
use crate::runtime::native::{
    a_saved_runtime_resumes, checkpoint_reinforced, checkpoint_supplied, commands_known,
    economies_keyed, facts_of, held, homes_stay, next_counters, restores, runtime_sound,
    save_holds, share_optional, started, step_begun, unshared, KernelHandle, KernelVerdicts,
    NativeRuntime, NativeRuntimeCheckpointState, RuntimeCheckpoint, RuntimeModel, StepOutcome,
    TickResult,
};
use crate::runtime::opening::{
    age_intelligence, battlefield_stage, intelligence_stage, judge_sides, momentum_stage,
    resolve_battlefield,
};
use crate::runtime::policy::RuntimeUnitPolicy;
use crate::runtime::publication::{
    concluded, list_newcomers, newcomers, publication_stage, publish,
};
use crate::runtime::reign::{run_strategy, strategy_stage};
use crate::runtime::renewal::{
    let_go, mobilization_stage, mobilize, reactions_stage, recruit, recruitment_stage,
    settle_moves, settlement_stage,
};
use crate::runtime::skirmish::{
    air_stage, attrition_stage, exile_stage, fly_wings, settle_exile, wear_down,
};
use crate::runtime::spreading::{
    influence_stage, late_influence_stage, spread_influence, spread_late,
};
use crate::runtime::step::{stage_poisons, RuntimeStep, StepFacts, StepStage};
use crate::runtime::tick::{
    answered, ground, replaces, Inbox, TickAction, TickAnswer, TickRules, TickWork,
};
use crate::runtime::upkeep::{copy_material, copy_reinforcement, logistics_stage, pay_forces};
use crate::simulation::Simulation;
use crate::views::views;
use crate::worksheet::{Operation, Stop, Worksheet};

verus! {

/// A tick under way. Only a runtime begins one.
pub struct TickState {
    work: TickWork,
}

impl View for TickState {
    type V = TickWork;

    closed spec fn view(&self) -> TickWork {
        self.work
    }
}

/// Whether a tick is one of a runtime, and sound.
pub open spec fn under_way(model: RuntimeModel, work: TickWork) -> bool {
    &&& runtime_sound(model)
    &&& work.rules.pay_cycle_ticks > 0
    &&& work.step.tick == model.tick + 1
    &&& work.step.frame == model.frame + 1
    &&& work.step.facts == facts_of(model, work.step.tick, work.rules.pay_cycle_ticks)
    &&& replaces(ground(model, work), model.territory)
    &&& (work.commands matches Some(staged) ==> commands_known(staged))
    &&& (work.published is Some ==> concluded(work))
    &&& (work.strategic matches Some(strategic) ==> economies_keyed(strategic.economies@))
    &&& work.reinforcement is Some ==> model.reinforcement is Some
}

/// A tick as it begins: it has the formations and the generator of its runtime, and nothing else.
pub open spec fn tick_begun(model: RuntimeModel, rules: TickRules, work: TickWork) -> bool {
    &&& work.rules == rules
    &&& work.inbox.is_empty()
    &&& work.strengths is None
    &&& work.draws@.len() == 0
    &&& work.rng == model.rng
    &&& work.units@ == model.units
    &&& work.operations is None
    &&& work.dynamics is None
    &&& work.field is None
    &&& work.territory is None
    &&& work.influence is None
    &&& work.air is None
    &&& work.air_outcome is None
    &&& work.air_damage is None
    &&& work.reserves is None
    &&& work.exiled@.len() == 0
    &&& work.recovered_personnel == 0
    &&& work.attrition is None
    &&& work.layout is None
    &&& work.planning is None
    &&& work.claimed@ == Set::<u64>::empty()
    &&& work.inputs@.len() == 0
    &&& work.naval is None
    &&& work.naval_counters is None
    &&& work.execution is None
    &&& work.outputs is None
    &&& work.execution_counters is None
    &&& work.issued is None
    &&& work.frame is None
    &&& work.counters is None
    &&& work.missiles is None
    &&& work.missile_report is None
    &&& work.impacts_due@.len() == 0
    &&& work.impacts_done == 0
    &&& work.impacts@.len() == 0
    &&& work.counted is None
    &&& work.census == (CensusProgress { steps: 0, processed_items: 0, committed: false })
    &&& work.census_counters is None
    &&& work.snapshot is None
    &&& work.schema is None
    &&& work.effects is None
    &&& work.derivation is None
    &&& work.commands is None
    &&& work.strategic is None
    &&& work.strategic_snapshot is None
    &&& work.strategic_counters is None
    &&& work.active_sides is None
    &&& !work.fronts_invalidated
    &&& work.state is Running
    &&& work.verdicts@.len() == 0
    &&& work.reinforcement is None
    &&& work.material is None
    &&& work.reinforcement_counters == crate::runtime::counters::no_reinforcement()
    &&& work.material_units is None
    &&& work.created@ == Set::<u64>::empty()
    &&& work.costs@.len() == 0
    &&& work.mobilization is None
    &&& work.recruit_commands@.dom() == Set::<u64>::empty()
    &&& work.recruitment is None
    &&& !work.reshow
    &&& !work.joined
    &&& work.published is None
    &&& work.render_update is None
}

impl NativeRuntime {
    /// Begins a tick. The runtime itself does not change before the tick is committed.
    pub fn step(&self, rules: TickRules) -> (outcome: Result<TickState, RuntimeError>)
        requires
            runtime_sound(self@),
            rules.pay_cycle_ticks > 0,
        ensures
            match outcome {
                Ok(tick) => {
                    &&& step_begun(self@, rules.pay_cycle_ticks) == Ok::<RuntimeStep, RuntimeError>(
                        tick@.step,
                    )
                    &&& tick_begun(held(self@), rules, tick@)
                    &&& under_way(held(self@), tick@)
                },
                Err(error) => step_begun(self@, rules.pay_cycle_ticks) == Err::<
                    RuntimeStep,
                    RuntimeError,
                >(error),
            },
    {
        broadcast use vstd::std_specs::btree::group_btree_axioms;

        match self.state() {
            RuntimeState::Running => {},
            RuntimeState::AwaitingStrategicEffects { cycle, tick, .. } => {
                return Err(RuntimeError::AwaitingStrategicEffects { cycle, tick });
            },
            RuntimeState::ConflictResolved { cycle, tick, .. } => {
                return Err(RuntimeError::ConflictResolved { cycle, tick });
            },
            RuntimeState::Poisoned => {
                return Err(RuntimeError::Poisoned);
            },
        }
        let parts = self.parts();
        if parts.tick == 0xffff_ffff_ffff_ffff || parts.frame == 0xffff_ffff_ffff_ffff {
            return Err(RuntimeError::ClockOverflow);
        }
        let tick: u64 = parts.tick + 1;
        let frame: u64 = parts.frame + 1;
        let facts = StepFacts {
            operations: parts.operations.is_some(),
            dynamics: parts.side_dynamics.is_some(),
            battlefield: parts.battlefield.is_some(),
            spreading: parts.territory.influence_runtime,
            air: parts.air_power.is_some(),
            execution: parts.operational_execution.is_some(),
            missiles: parts.strategic_missiles.is_some(),
            reinforcement: parts.reinforcement.is_some(),
            material: parts.material_logistics.is_some(),
            fronts_due: parts.last_front_refresh_tick.is_none() || tick
                % parts.config.front_refresh_ticks == 0,
            strategy_due: tick % rules.pay_cycle_ticks == 0,
        };
        let work = TickWork {
            step: RuntimeStep::begin(tick, frame, facts),
            rules,
            inbox: Inbox::empty(),
            strengths: None,
            draws: Vec::new(),
            rng: parts.gameplay_rng,
            units: copy_all(parts.simulation.units.as_slice()),
            operations: None,
            dynamics: None,
            field: None,
            territory: None,
            influence: None,
            air: None,
            air_outcome: None,
            air_damage: None,
            reserves: None,
            exiled: Vec::new(),
            recovered_personnel: 0,
            attrition: None,
            layout: None,
            planning: None,
            claimed: BTreeSet::new(),
            inputs: Vec::new(),
            naval: None,
            naval_counters: None,
            execution: None,
            outputs: None,
            execution_counters: None,
            issued: None,
            frame: None,
            counters: None,
            missiles: None,
            missile_report: None,
            impacts_due: Vec::new(),
            impacts_done: 0,
            impacts: Vec::new(),
            counted: None,
            census: CensusProgress::start(),
            census_counters: None,
            snapshot: None,
            schema: None,
            effects: None,
            derivation: None,
            commands: None,
            strategic: None,
            strategic_snapshot: None,
            strategic_counters: None,
            active_sides: None,
            fronts_invalidated: false,
            state: RuntimeState::Running,
            verdicts: Vec::new(),
            reinforcement: None,
            material: None,
            reinforcement_counters: RuntimeReinforcementCounters::default(),
            material_units: None,
            created: BTreeSet::new(),
            costs: Vec::new(),
            mobilization: None,
            recruit_commands: BTreeMap::new(),
            recruitment: None,
            reshow: false,
            joined: false,
            published: None,
            render_update: None,
        };
        assert(work.claimed@ =~= Set::<u64>::empty());
        assert(work.created@ =~= Set::<u64>::empty());
        assert(work.recruit_commands@.dom() =~= Set::<u64>::empty());
        Ok(TickState { work })
    }
}

/// What a stage of a tick does: it asks a kernel for something, or goes on by itself.
pub open spec fn stage_does(
    model: RuntimeModel,
    before: TickWork,
    after: TickWork,
    results: Map<Operation, u64>,
    outcome: Result<TickAction, Stop<RuntimeError>>,
) -> bool {
    match before.step.stage {
        StepStage::Intelligence => intelligence_stage(model, before, after, results, outcome),
        StepStage::Momentum => momentum_stage(model, before, after, results, outcome),
        StepStage::Battlefield => battlefield_stage(model, before, after, results, outcome),
        StepStage::Influence => influence_stage(model, before, after, results, outcome),
        StepStage::Engagement => battlefield_stage(model, before, after, results, outcome),
        StepStage::Air => air_stage(model, before, after, results, outcome),
        StepStage::Exile => exile_stage(model, before, after, results, outcome),
        StepStage::Attrition => attrition_stage(before, after, outcome),
        StepStage::Fronts => fronts_stage(model, before, after, outcome),
        StepStage::Planning => planning_stage(model, before, after, outcome),
        StepStage::Operations => operations_stage(model, before, after, results, outcome),
        StepStage::Execution => execution_stage(model, before, after, results, outcome),
        StepStage::Replanning => replanning_stage(model, before, after, outcome),
        StepStage::Orders => orders_stage(model, before, after, results, outcome),
        StepStage::Directions => directions_stage(before, after, outcome),
        StepStage::Simulation => simulation_stage(model, before, after, outcome),
        StepStage::Missiles => missiles_stage(before, after, results, outcome),
        StepStage::Losses => losses_stage(model, before, after, results, outcome),
        StepStage::LateInfluence => late_influence_stage(model, before, after, results, outcome),
        StepStage::Census => census_stage(model, before, after, outcome),
        StepStage::Strategy => strategy_stage(model, before, after, results, outcome),
        StepStage::Logistics => logistics_stage(model, before, after, results, outcome),
        StepStage::Settlement => settlement_stage(model, before, after, results, outcome),
        StepStage::Reactions => reactions_stage(model, before, after, outcome),
        StepStage::Mobilization => mobilization_stage(model, before, after, results, outcome),
        StepStage::Recruitment => recruitment_stage(model, before, after, results, outcome),
        StepStage::Publication => publication_stage(model, before, after, results, outcome),
    }
}

/// A stage keeps the tick what it is.
#[verifier::spinoff_prover]
#[verifier::rlimit(90)]
proof fn lemma_stays_under_way(
    model: RuntimeModel,
    before: TickWork,
    after: TickWork,
    results: Map<Operation, u64>,
    outcome: Result<TickAction, Stop<RuntimeError>>,
)
    requires
        under_way(model, before),
        before.published is Some ==> before.step.stage is Publication,
        stage_does(model, before, after, results, outcome),
        !(outcome matches Err(Stop::Failed(_))),
    ensures
        under_way(model, after),
{
    match before.step.stage {
        StepStage::Strategy => {
            if let Some(staged) = after.commands {
                assert forall|i: int|
                    0 <= i < staged.changed_unit_ids@.len() implies staged.policies@.contains_key(
                    #[trigger] staged.changed_unit_ids@[i],
                ) by {
                    assert(staged.changed_unit_ids@.contains(staged.changed_unit_ids@[i]));
                }
            }
        },
        _ => {},
    }
}

impl TickState {
    pub(crate) fn fails_for_good(&self) -> (answer: bool)
        ensures
            answer == stage_poisons(self@.step.stage),
    {
        self.work.step.failure_poisons()
    }

    /// What the tick has worked out so far.
    pub fn work(&self) -> (work: &TickWork)
        ensures
            *work == self@,
    {
        &self.work
    }

    /// Goes on with a tick: asks a kernel for what the present stage needs, with the inputs that
    /// the kernel is to have, or does what can be done without one.
    pub fn next_action(&mut self, runtime: &NativeRuntime, sheet: &Worksheet) -> (outcome: Result<
        TickAction,
        Stop<RuntimeError>,
    >)
        requires
            under_way(held(runtime@), old(self)@),
        ensures
            stage_does(held(runtime@), old(self)@, final(self)@, sheet@, outcome),
            !(outcome matches Err(Stop::Failed(_))) ==> under_way(held(runtime@), final(self)@),
    {
        let ghost before = self.work;
        let outcome = match self.work.step.stage {
            StepStage::Intelligence => age_intelligence(runtime, &mut self.work, sheet),
            StepStage::Momentum => judge_sides(runtime, &mut self.work, sheet),
            StepStage::Battlefield | StepStage::Engagement => resolve_battlefield(
                runtime,
                &mut self.work,
                sheet,
            ),
            StepStage::Influence => spread_influence(runtime, &mut self.work, sheet),
            StepStage::Air => fly_wings(runtime, &mut self.work, sheet),
            StepStage::Exile => settle_exile(runtime, &mut self.work, sheet),
            StepStage::Attrition => wear_down(&mut self.work),
            StepStage::Fronts => lay_out_fronts(runtime, &mut self.work),
            StepStage::Planning => plan_orders(runtime, &mut self.work),
            StepStage::Operations => advance_operations(runtime, &mut self.work, sheet),
            StepStage::Execution => carry_out(runtime, &mut self.work, sheet),
            StepStage::Replanning => plan_again(runtime, &mut self.work),
            StepStage::Orders => send_orders(runtime, &mut self.work, sheet),
            StepStage::Directions => bend_directions(&mut self.work),
            StepStage::Simulation => move_and_fight(runtime, &mut self.work),
            StepStage::Missiles => hit_targets(runtime, &mut self.work, sheet),
            StepStage::Losses => count_losses_of(runtime, &mut self.work, sheet),
            StepStage::LateInfluence => spread_late(runtime, &mut self.work, sheet),
            StepStage::Census => count_territory(runtime, &mut self.work),
            StepStage::Strategy => run_strategy(runtime, &mut self.work, sheet),
            StepStage::Logistics => pay_forces(runtime, &mut self.work, sheet),
            StepStage::Settlement => settle_moves(runtime, &mut self.work, sheet),
            StepStage::Reactions => let_go(runtime, &mut self.work),
            StepStage::Mobilization => mobilize(runtime, &mut self.work, sheet),
            StepStage::Recruitment => recruit(runtime, &mut self.work, sheet),
            StepStage::Publication => publish(runtime, &mut self.work, sheet),
        };
        proof {
            if !(outcome matches Err(Stop::Failed(_))) {
                lemma_stays_under_way(held(runtime@), before, self.work, sheet@, outcome);
            }
        }
        outcome
    }

    /// Takes in what a kernel answered.
    pub fn record(&mut self, answer: TickAnswer)
        ensures
            answered(old(self)@, answer, final(self)@),
            final(self)@.step == old(self)@.step,
            forall|model: RuntimeModel| #[trigger]
                under_way(model, old(self)@) ==> under_way(model, final(self)@),
    {
        self.work.receive(answer);
    }
}

/// Formations that joined in a tick.
/// The policies of formations that joined in a tick.
pub open spec fn joined_unit_policies(work: TickWork) -> Seq<crate::runtime::policy::PolicyModel> {
    let recruits = match work.recruitment {
        Some(staged) => views(staged.policies@),
        None => Seq::empty(),
    };
    match work.mobilization {
        Some(told) => recruits + views(told.policies@),
        None => recruits,
    }
}

/// The strategic cycle that a tick publishes: its own, or the one before.
pub open spec fn cycle_published(model: RuntimeModel, work: TickWork, result: TickResult) -> bool {
    match work.strategic_snapshot {
        Some(snapshot) => result.strategic_snapshot == Some(snapshot),
        None => unshared(result.strategic_snapshot) == model.cycle,
    }
}

/// What a tick came to, apart from the strategic cycle that it publishes.
pub open spec fn tick_outcome(model: RuntimeModel, work: TickWork, result: TickResult) -> bool {
    let counted = work.counted->Some_0;
    &&& result.simulation.config == model.simulation_config
    &&& result.simulation.units == work.units
    &&& (result.simulation.latest matches Some(latest) && latest.shows(counted.frame))
    &&& result.frame_snapshot == counted.frame
    &&& result.territory == work.territory->Some_0
    &&& result.territory_snapshot == work.snapshot->Some_0
    &&& match work.strategic {
        Some(strategic) => result.strategic == strategic,
        None => result.strategic@ == model.strategic,
    }
    &&& match work.active_sides {
        Some(sides) => result.active_sides == sides,
        None => result.active_sides@ == model.active_sides,
    }
    &&& result.battlefield == work.field
    &&& views(result.recruit_policies@) == joined_unit_policies(work)
    &&& result.recruit_memories@ == newcomers(work)
    &&& result.commands == work.commands
    &&& result.fronts_invalidated == work.fronts_invalidated
    &&& result.layout == work.layout
    &&& result.assignments == work.issued->Some_0.planning.assignments
    &&& result.casualties == counted.casualties
    &&& result.casualties_by_victim == counted.casualties_by_victim
    &&& result.side_dynamics == work.dynamics
    &&& result.operations == work.operations
    &&& result.naval_planning == (match work.naval {
        Some(planner) => Some(planner),
        None => model.naval,
    })
    &&& result.operational_execution == work.execution
    &&& result.air_power == work.air
    &&& match work.reinforcement {
        Some(state) => result.reinforcement == Some(state),
        None => match model.reinforcement {
            Some(state) => result.reinforcement matches Some(copy) && {
                &&& copy.schema@ == state.schema@
                &&& copy.countries@ == state.countries@
                &&& copy.next_unit_id == state.next_unit_id
                &&& copy.next_air_wing_id == state.next_air_wing_id
            },
            None => result.reinforcement is None,
        },
    }
    &&& match work.material {
        Some(state) => result.material_logistics == Some(state),
        None => match model.material {
            Some(state) => result.material_logistics matches Some(copy) && copy.schema@
                == state.schema@ && copy.countries@ == state.countries@,
            None => result.material_logistics is None,
        },
    }
    &&& result.strategic_missiles == work.missiles
    &&& result.personnel_reserves == work.reserves->Some_0
    &&& result.gameplay_rng == work.rng
    &&& result.state == work.state
    &&& result.counters == work.published->Some_0
    &&& result.render_update == work.render_update
}

fn list_joined_policies(work: &TickWork) -> (policies: Vec<RuntimeUnitPolicy>)
    ensures
        views(policies@) == joined_unit_policies(*work),
{
    let mut policies: Vec<RuntimeUnitPolicy> = Vec::new();
    if let Some(staged) = &work.recruitment {
        let mut at: usize = 0;
        while at < staged.policies.len()
            invariant
                at <= staged.policies@.len(),
                policies@.len() == at,
                forall|i: int|
                    0 <= i < at ==> (#[trigger] policies@[i])@ == staged.policies@[i]@,
            decreases staged.policies@.len() - at,
        {
            policies.push(staged.policies[at].clone());
            at = at + 1;
        }
        assert(views(policies@) =~= views(staged.policies@));
    }
    let ghost recruits = views(policies@);
    let ghost base = policies@.len();
    if let Some(told) = &work.mobilization {
        let mut at: usize = 0;
        while at < told.policies.len()
            invariant
                at <= told.policies@.len(),
                policies@.len() == base + at,
                recruits.len() == base,
                forall|i: int| 0 <= i < base ==> (#[trigger] policies@[i])@ == recruits[i],
                forall|i: int|
                    base <= i < base + at ==> (#[trigger] policies@[i])@ == told.policies@[i
                        - base]@,
            decreases told.policies@.len() - at,
        {
            policies.push(told.policies[at].clone());
            at = at + 1;
        }
        assert(views(policies@) =~= recruits + views(told.policies@));
    }
    assert(views(policies@) =~= joined_unit_policies(*work));
    policies
}

impl TickState {
    /// What a tick came to, once it went through all its stages.
    #[verifier::rlimit(60)]
    pub fn finish(self, runtime: &NativeRuntime) -> (outcome: StepOutcome)
        requires
            under_way(held(runtime@), self@),
            self@.published is Some,
        ensures
            outcome@.step == self@.step,
            tick_outcome(held(runtime@), self@, outcome@.result),
            cycle_published(runtime@, self@, outcome@.result),
            outcome@.result.follows(runtime@, outcome@.step),
    {
        let parts = runtime.parts();
        let TickState { work } = self;
        let ghost whole = work;
        let recruit_policies = list_joined_policies(&work);
        let recruit_memories = list_newcomers(&work);
        let counted = work.counted.unwrap();
        let latest = counted.frame.clone();
        let strategic = match work.strategic {
            Some(strategic) => strategic,
            None => parts.strategic.clone(),
        };
        let strategic_snapshot = match work.strategic_snapshot {
            Some(snapshot) => Some(snapshot),
            None => share_optional(&parts.latest.strategic_snapshot),
        };
        let active_sides = match work.active_sides {
            Some(sides) => sides,
            None => copy_all(parts.diplomacy.active_sides.as_slice()),
        };
        let reinforcement = match work.reinforcement {
            Some(state) => Some(state),
            None => match parts.reinforcement {
                Some(state) => Some(copy_reinforcement(state)),
                None => None,
            },
        };
        let material_logistics = match work.material {
            Some(state) => Some(state),
            None => match parts.material_logistics {
                Some(state) => Some(copy_material(state)),
                None => None,
            },
        };
        let naval_planning = match work.naval {
            Some(planner) => Some(planner),
            None => parts.naval_planning,
        };
        let result = TickResult {
            simulation: Simulation {
                config: parts.simulation.config,
                units: work.units,
                latest: Some(latest),
            },
            frame_snapshot: counted.frame,
            territory: work.territory.unwrap(),
            territory_snapshot: work.snapshot.unwrap(),
            strategic,
            strategic_snapshot,
            active_sides,
            battlefield: work.field,
            recruit_policies,
            recruit_memories,
            commands: work.commands,
            fronts_invalidated: work.fronts_invalidated,
            layout: work.layout,
            assignments: work.issued.unwrap().planning.assignments,
            casualties: counted.casualties,
            casualties_by_victim: counted.casualties_by_victim,
            side_dynamics: work.dynamics,
            operations: work.operations,
            naval_planning,
            operational_execution: work.execution,
            air_power: work.air,
            reinforcement,
            material_logistics,
            strategic_missiles: work.missiles,
            personnel_reserves: work.reserves.unwrap(),
            gameplay_rng: work.rng,
            state: work.state,
            counters: work.published.unwrap(),
            render_update: work.render_update,
        };
        assert(tick_outcome(held(runtime@), whole, result));
        StepOutcome::bind(work.step, result)
    }
}

/// What a tick does, asks for and comes to depends on what its runtime holds, and not on what the
/// runtime published before: runtimes that hold the same take the same ticks.
pub proof fn equal_runtimes_take_equal_ticks(
    one: RuntimeModel,
    other: RuntimeModel,
    rules: TickRules,
    before: TickWork,
    after: TickWork,
    results: Map<Operation, u64>,
    outcome: Result<TickAction, Stop<RuntimeError>>,
    result: TickResult,
)
    requires
        held(one) == held(other),
    ensures
        step_begun(one, rules.pay_cycle_ticks) == step_begun(other, rules.pay_cycle_ticks),
        tick_begun(held(one), rules, before) == tick_begun(held(other), rules, before),
        stage_does(held(one), before, after, results, outcome) == stage_does(
            held(other),
            before,
            after,
            results,
            outcome,
        ),
        tick_outcome(held(one), after, result) == tick_outcome(held(other), after, result),
{
    lemma_begun_alike(one, rules.pay_cycle_ticks);
    lemma_begun_alike(other, rules.pay_cycle_ticks);
}

proof fn lemma_begun_alike(model: RuntimeModel, pay_cycle_ticks: u64)
    ensures
        step_begun(model, pay_cycle_ticks) == step_begun(held(model), pay_cycle_ticks),
{
}

/// A runtime that starts from a save takes the ticks that the saved one takes next, where the
/// kernels say of the same world what they said before: the census, the urban cells and the homes
/// of formations.
pub proof fn a_resumed_runtime_takes_the_same_ticks(
    results: Map<Operation, u64>,
    model: RuntimeModel,
    committed: TerritoryCommittedState,
    influence_runtime: Option<KernelHandle>,
    save: NativeRuntimeCheckpointState,
    checkpoint: RuntimeCheckpoint,
    verdicts: KernelVerdicts,
    resumed: RuntimeModel,
)
    requires
        runtime_sound(model),
        model.state is Running,
        save_holds(save, model, committed, influence_runtime),
        restores(checkpoint, save),
        checkpoint.strategic_snapshot is None,
        started(resumed, save.runtime_config, checkpoint, verdicts),
        checkpoint_reinforced(checkpoint, verdicts, Ok(resumed.reinforcement)),
        checkpoint_supplied(
            results,
            checkpoint,
            resumed.reinforcement is Some,
            Ok(resumed.material),
        ),
        homes_stay(model.policies, verdicts),
        *verdicts.territory_snapshot == model.census,
        resumed.urban_mask == model.urban_mask,
    ensures
        held(resumed) == held(model),
{
    a_saved_runtime_resumes(
        results,
        model,
        committed,
        influence_runtime,
        save,
        checkpoint,
        verdicts,
        resumed,
    );
}

/// A tick that is committed is the next one, in the next frame, and shows the fronts as refreshed
/// exactly where no layout is known or the configured phase comes round.
pub proof fn ticks_follow_each_other(model: RuntimeModel, work: TickWork, result: TickResult)
    requires
        under_way(held(model), work),
        work.published is Some,
        result.follows(model, work.step),
    ensures
        work.step.tick == model.tick + 1,
        work.step.frame == model.frame + 1,
        next_counters(model, work.step, result).front_refreshed == (model.last_refresh is None
            || work.step.tick % model.config.front_refresh_ticks == 0),
        result.layout is Some == next_counters(model, work.step, result).front_refreshed,
{
}

} // verus!
