//! The order of a tick: which stage comes next, and what a failure in a stage means.
//!
//! Everything before the strategic stage works on copies and can be given up without a trace. From
//! the strategic stage on, the world has changed, and a failure ends the runtime.

use vstd::prelude::*;

verus! {

/// A stage of a tick.
#[derive(Clone, Copy, Debug, PartialEq, Eq, Structural)]
pub enum StepStage {
    /// Intelligence ages.
    Intelligence,
    /// The momentum kernel judges every side.
    Momentum,
    /// The battlefield is resolved on the territory as it was.
    Battlefield,
    /// Influence spreads before anything moves.
    Influence,
    /// The battlefield is resolved again, on the territory as influence left it.
    Engagement,
    /// Wings fly and strike.
    Air,
    /// Formations without a country may leave.
    Exile,
    /// Supply wears formations down.
    Attrition,
    /// Fronts are laid out anew.
    Fronts,
    /// The planner gives every formation an order.
    Planning,
    /// Operations take in contacts and advance.
    Operations,
    /// Execution answers threats and sails.
    Execution,
    /// The planner starts over, because operations claim other formations than before.
    Replanning,
    /// Orders are issued.
    Orders,
    /// The battlefield bends directions.
    Directions,
    /// Formations move and fight.
    Simulation,
    /// Missiles fly and hit.
    Missiles,
    /// The losses of the tick are counted, and sides feel them.
    Losses,
    /// Influence spreads from where formations are now.
    LateInfluence,
    /// The territory is counted.
    Census,
    /// A strategic cycle is prepared, takes effect and is committed.
    Strategy,
    /// Forces are paid, repaired and replaced.
    Logistics,
    /// Operations are settled after movement.
    Settlement,
    /// Execution lets go of formations that are gone.
    Reactions,
    /// New armor is told what it needs.
    Mobilization,
    /// Countries recruit.
    Recruitment,
    /// Everything is committed and published.
    Publication,
}

/// What a tick has to do with.
#[derive(Clone, Copy, Debug, PartialEq, Eq, Structural)]
pub struct StepFacts {
    pub operations: bool,
    pub dynamics: bool,
    pub battlefield: bool,
    /// Whether influence spreads through the territory kernel's own queues.
    pub spreading: bool,
    pub air: bool,
    pub execution: bool,
    pub missiles: bool,
    pub reinforcement: bool,
    pub material: bool,
    pub fronts_due: bool,
    pub strategy_due: bool,
}

/// A tick under way.
#[derive(Clone, Copy, Debug, PartialEq, Eq, Structural)]
pub struct RuntimeStep {
    pub tick: u64,
    pub frame: u64,
    pub facts: StepFacts,
    /// Whether the war ended in this tick.
    pub ended: bool,
    pub stage: StepStage,
}

/// What came of a stage, as far as it decides what comes next.
#[derive(Clone, Copy, Debug, PartialEq, Eq, Structural)]
pub enum StageEvent {
    Done,
    WarEnded,
}

/// Where a stage stands.
#[verifier::opaque]
pub open spec fn stage_rank(stage: StepStage) -> int {
    match stage {
        StepStage::Intelligence => 0,
        StepStage::Momentum => 1,
        StepStage::Battlefield => 2,
        StepStage::Influence => 3,
        StepStage::Engagement => 4,
        StepStage::Air => 5,
        StepStage::Exile => 6,
        StepStage::Attrition => 7,
        StepStage::Fronts => 8,
        StepStage::Planning => 9,
        StepStage::Operations => 10,
        StepStage::Execution => 11,
        StepStage::Replanning => 12,
        StepStage::Orders => 13,
        StepStage::Directions => 14,
        StepStage::Simulation => 15,
        StepStage::Missiles => 16,
        StepStage::Losses => 17,
        StepStage::LateInfluence => 18,
        StepStage::Census => 19,
        StepStage::Strategy => 20,
        StepStage::Logistics => 21,
        StepStage::Settlement => 22,
        StepStage::Reactions => 23,
        StepStage::Mobilization => 24,
        StepStage::Recruitment => 25,
        StepStage::Publication => 26,
    }
}

/// The stage behind a stage. Nothing comes behind publication.
pub open spec fn stage_after(stage: StepStage) -> StepStage {
    match stage {
        StepStage::Intelligence => StepStage::Momentum,
        StepStage::Momentum => StepStage::Battlefield,
        StepStage::Battlefield => StepStage::Influence,
        StepStage::Influence => StepStage::Engagement,
        StepStage::Engagement => StepStage::Air,
        StepStage::Air => StepStage::Exile,
        StepStage::Exile => StepStage::Attrition,
        StepStage::Attrition => StepStage::Fronts,
        StepStage::Fronts => StepStage::Planning,
        StepStage::Planning => StepStage::Operations,
        StepStage::Operations => StepStage::Execution,
        StepStage::Execution => StepStage::Replanning,
        StepStage::Replanning => StepStage::Orders,
        StepStage::Orders => StepStage::Directions,
        StepStage::Directions => StepStage::Simulation,
        StepStage::Simulation => StepStage::Missiles,
        StepStage::Missiles => StepStage::Losses,
        StepStage::Losses => StepStage::LateInfluence,
        StepStage::LateInfluence => StepStage::Census,
        StepStage::Census => StepStage::Strategy,
        StepStage::Strategy => StepStage::Logistics,
        StepStage::Logistics => StepStage::Settlement,
        StepStage::Settlement => StepStage::Reactions,
        StepStage::Reactions => StepStage::Mobilization,
        StepStage::Mobilization => StepStage::Recruitment,
        StepStage::Recruitment => StepStage::Publication,
        StepStage::Publication => StepStage::Publication,
    }
}

/// Whether a tick has something to do in a stage.
#[verifier::opaque]
pub open spec fn stage_due(step: RuntimeStep, stage: StepStage) -> bool {
    let facts = step.facts;
    match stage {
        StepStage::Intelligence => facts.operations,
        StepStage::Momentum => facts.dynamics,
        StepStage::Battlefield => facts.battlefield,
        StepStage::Influence => facts.battlefield || facts.spreading,
        StepStage::Engagement => facts.battlefield,
        StepStage::Air => facts.air,
        StepStage::Exile => true,
        StepStage::Attrition => facts.battlefield,
        StepStage::Fronts => facts.fronts_due,
        StepStage::Planning => true,
        StepStage::Operations => facts.operations,
        StepStage::Execution => facts.execution,
        StepStage::Replanning => true,
        StepStage::Orders => true,
        StepStage::Directions => facts.battlefield,
        StepStage::Simulation => true,
        StepStage::Missiles => facts.missiles,
        StepStage::Losses => true,
        StepStage::LateInfluence => !facts.battlefield && !facts.spreading,
        StepStage::Census => true,
        StepStage::Strategy => facts.strategy_due,
        StepStage::Logistics => facts.strategy_due && facts.reinforcement,
        StepStage::Settlement => facts.operations,
        StepStage::Reactions => facts.execution,
        StepStage::Mobilization => facts.strategy_due && facts.reinforcement && facts.material,
        StepStage::Recruitment => facts.reinforcement && !step.ended,
        StepStage::Publication => true,
    }
}

/// The first stage from one on in which there is something to do.
pub open spec fn first_due(step: RuntimeStep, stage: StepStage) -> StepStage
    decreases 27 - stage_rank(stage),
{
    if stage_due(step, stage) || stage is Publication {
        stage
    } else {
        proof {
            lemma_next_rank(stage);
            lemma_last_rank(stage);
        }
        first_due(step, stage_after(stage))
    }
}

pub proof fn lemma_last_rank(stage: StepStage)
    ensures
        0 <= stage_rank(stage) <= 26,
        stage is Publication <==> stage_rank(stage) == 26,
{
    reveal(stage_rank);
}

proof fn lemma_rank_tells(left: StepStage, right: StepStage)
    requires
        stage_rank(left) == stage_rank(right),
    ensures
        left == right,
{
    reveal(stage_rank);
}

fn follow(stage: StepStage) -> (next: StepStage)
    ensures
        next == stage_after(stage),
{
    match stage {
        StepStage::Intelligence => StepStage::Momentum,
        StepStage::Momentum => StepStage::Battlefield,
        StepStage::Battlefield => StepStage::Influence,
        StepStage::Influence => StepStage::Engagement,
        StepStage::Engagement => StepStage::Air,
        StepStage::Air => StepStage::Exile,
        StepStage::Exile => StepStage::Attrition,
        StepStage::Attrition => StepStage::Fronts,
        StepStage::Fronts => StepStage::Planning,
        StepStage::Planning => StepStage::Operations,
        StepStage::Operations => StepStage::Execution,
        StepStage::Execution => StepStage::Replanning,
        StepStage::Replanning => StepStage::Orders,
        StepStage::Orders => StepStage::Directions,
        StepStage::Directions => StepStage::Simulation,
        StepStage::Simulation => StepStage::Missiles,
        StepStage::Missiles => StepStage::Losses,
        StepStage::Losses => StepStage::LateInfluence,
        StepStage::LateInfluence => StepStage::Census,
        StepStage::Census => StepStage::Strategy,
        StepStage::Strategy => StepStage::Logistics,
        StepStage::Logistics => StepStage::Settlement,
        StepStage::Settlement => StepStage::Reactions,
        StepStage::Reactions => StepStage::Mobilization,
        StepStage::Mobilization => StepStage::Recruitment,
        StepStage::Recruitment => StepStage::Publication,
        StepStage::Publication => StepStage::Publication,
    }
}

fn is_due(step: &RuntimeStep, stage: StepStage) -> (due: bool)
    ensures
        due == stage_due(*step, stage),
{
    proof {
        reveal(stage_due);
    }
    let facts = step.facts;
    match stage {
        StepStage::Intelligence => facts.operations,
        StepStage::Momentum => facts.dynamics,
        StepStage::Battlefield => facts.battlefield,
        StepStage::Influence => facts.battlefield || facts.spreading,
        StepStage::Engagement => facts.battlefield,
        StepStage::Air => facts.air,
        StepStage::Exile => true,
        StepStage::Attrition => facts.battlefield,
        StepStage::Fronts => facts.fronts_due,
        StepStage::Planning => true,
        StepStage::Operations => facts.operations,
        StepStage::Execution => facts.execution,
        StepStage::Replanning => true,
        StepStage::Orders => true,
        StepStage::Directions => facts.battlefield,
        StepStage::Simulation => true,
        StepStage::Missiles => facts.missiles,
        StepStage::Losses => true,
        StepStage::LateInfluence => !facts.battlefield && !facts.spreading,
        StepStage::Census => true,
        StepStage::Strategy => facts.strategy_due,
        StepStage::Logistics => facts.strategy_due && facts.reinforcement,
        StepStage::Settlement => facts.operations,
        StepStage::Reactions => facts.execution,
        StepStage::Mobilization => facts.strategy_due && facts.reinforcement && facts.material,
        StepStage::Recruitment => facts.reinforcement && !step.ended,
        StepStage::Publication => true,
    }
}

fn find_due(step: &RuntimeStep, from: StepStage) -> (stage: StepStage)
    ensures
        stage == first_due(*step, from),
{
    let mut stage = from;
    while !is_due(step, stage)
        invariant
            first_due(*step, from) == first_due(*step, stage),
        decreases 27 - stage_rank(stage),
    {
        if stage == StepStage::Publication {
            return stage;
        }
        proof {
            lemma_next_rank(stage);
            lemma_last_rank(stage);
        }
        stage = follow(stage);
    }
    stage
}

impl RuntimeStep {
    /// A tick starts with the first stage that has something to do.
    pub fn begin(tick: u64, frame: u64, facts: StepFacts) -> (step: RuntimeStep)
        ensures
            ({
                let blank = RuntimeStep {
                    tick,
                    frame,
                    facts,
                    ended: false,
                    stage: StepStage::Intelligence,
                };
                step == (RuntimeStep { stage: first_due(blank, StepStage::Intelligence), ..blank })
            }),
    {
        let mut step = RuntimeStep {
            tick,
            frame,
            facts,
            ended: false,
            stage: StepStage::Intelligence,
        };
        step.stage = find_due(&step, StepStage::Intelligence);
        step
    }

    /// A stage is done, and the next one that has something to do comes up.
    pub fn complete(&mut self, event: StageEvent)
        ensures
            *final(self) == stage_completed(*old(self), event),
    {
        match event {
            StageEvent::Done => {},
            StageEvent::WarEnded => {
                self.ended = true;
            },
        }
        let next = follow(self.stage);
        self.stage = find_due(self, next);
    }

    /// Whether a failure in the present stage ends the runtime.
    pub fn failure_poisons(&self) -> (poisons: bool)
        ensures
            poisons == stage_poisons(self.stage),
    {
        proof {
            reveal(stage_rank);
        }
        match self.stage {
            StepStage::Strategy | StepStage::Logistics | StepStage::Settlement
            | StepStage::Reactions | StepStage::Mobilization | StepStage::Recruitment
            | StepStage::Publication => true,
            _ => false,
        }
    }
}

/// A tick after a stage is done.
pub open spec fn stage_completed(step: RuntimeStep, event: StageEvent) -> RuntimeStep {
    let told = RuntimeStep {
        ended: step.ended || event is WarEnded,
        ..step
    };
    RuntimeStep { stage: first_due(told, stage_after(step.stage)), ..told }
}

/// Whether a failure in a stage ends the runtime: it does from the strategic stage on.
pub open spec fn stage_poisons(stage: StepStage) -> bool {
    stage_rank(stage) >= stage_rank(StepStage::Strategy)
}

proof fn lemma_first_due(step: RuntimeStep, from: StepStage)
    ensures
        ({
            let found = first_due(step, from);
            &&& stage_rank(found) >= stage_rank(from)
            &&& stage_due(step, found)
            &&& forall|skipped: StepStage|
                stage_rank(from) <= #[trigger] stage_rank(skipped) < stage_rank(found)
                    ==> !stage_due(step, skipped)
        }),
    decreases 27 - stage_rank(from),
{
    if from is Publication {
        reveal(stage_due);
    }
    lemma_last_rank(from);
    if !stage_due(step, from) && !(from is Publication) {
        lemma_next_rank(from);
        lemma_first_due(step, stage_after(from));
        assert forall|skipped: StepStage|
            stage_rank(from) <= #[trigger] stage_rank(skipped) < stage_rank(
                first_due(step, from),
            ) implies !stage_due(step, skipped) by {
            if stage_rank(skipped) == stage_rank(from) {
                lemma_rank_tells(skipped, from);
            }
        }
    }
}

/// Stages come in their order: none comes twice, the next one has something to do, and only stages
/// without anything to do are left out.
pub proof fn stages_come_in_order(step: RuntimeStep, event: StageEvent)
    requires
        !(step.stage is Publication),
    ensures
        ({
            let next = stage_completed(step, event);
            &&& stage_rank(next.stage) > stage_rank(step.stage)
            &&& stage_due(next, next.stage)
            &&& forall|skipped: StepStage|
                stage_rank(step.stage) < #[trigger] stage_rank(skipped) < stage_rank(next.stage)
                    ==> !stage_due(next, skipped)
        }),
{
    let next = stage_completed(step, event);
    let told = RuntimeStep { stage: step.stage, ..next };
    let from = stage_after(step.stage);
    lemma_first_due(told, from);
    lemma_next_rank(step.stage);
    lemma_due_ignores_stage(told, next, next.stage);
    assert forall|skipped: StepStage|
        stage_rank(step.stage) < #[trigger] stage_rank(skipped) < stage_rank(
            next.stage,
        ) implies !stage_due(next, skipped) by {
        lemma_due_ignores_stage(told, next, skipped);
    }
}

pub proof fn lemma_next_rank(stage: StepStage)
    requires
        !(stage is Publication),
    ensures
        stage_rank(stage_after(stage)) == stage_rank(stage) + 1,
{
    reveal(stage_rank);
}

proof fn lemma_due_ignores_stage(left: RuntimeStep, right: RuntimeStep, stage: StepStage)
    requires
        left.facts == right.facts,
        left.ended == right.ended,
    ensures
        stage_due(left, stage) == stage_due(right, stage),
{
    reveal(stage_due);
}

/// Once a stage ends the runtime when it fails, so does every later one.
pub proof fn poison_is_final(step: RuntimeStep, event: StageEvent)
    requires
        stage_poisons(step.stage),
    ensures
        stage_poisons(stage_completed(step, event).stage),
{
    let next = stage_completed(step, event);
    let told = RuntimeStep { stage: step.stage, ..next };
    lemma_first_due(told, stage_after(step.stage));
    lemma_last_rank(step.stage);
    lemma_last_rank(next.stage);
    if !(step.stage is Publication) {
        lemma_next_rank(step.stage);
    }
}

/// Formations move before the territory is counted, and it is counted before a strategic cycle.
pub proof fn strategy_follows_the_census(step: RuntimeStep)
    ensures
        stage_due(step, StepStage::Simulation),
        stage_due(step, StepStage::Census),
        stage_rank(StepStage::Simulation) < stage_rank(StepStage::Census),
        stage_rank(StepStage::Census) < stage_rank(StepStage::Strategy),
        stage_rank(StepStage::Strategy) < stage_rank(StepStage::Publication),
{
    reveal(stage_due);
    reveal(stage_rank);
}

} // verus!
