//! Planning: what the planners are told of formations, and the orders that come of it.

use std::collections::{BTreeMap, BTreeSet};
use vstd::prelude::*;
use crate::economy::CommandBand;
use crate::numbers::{N_0_15, N_0_8};
use crate::operations::WarPosture;
use crate::order::{
    collected, lemma_collected_fail, lemma_push_contains, rank_order, sort_stable, stable_sorted,
    strictly_sorted, Keyed, Ranked,
};
use crate::runtime::battlefield::{BattlefieldUnitResult, SideDynamics};
use crate::runtime::counters::AiPlanningCounters;
use crate::runtime::error::RuntimeError;
use crate::runtime::policy::{
    deploying, policies_view, unit_deploying, CommandHomeTarget, InfluenceModel, Policies,
    PolicyModel, ResolvedMovementModifiers, RuntimeUnitPolicy, UnitAiPolicy, UnitCommandPolicy,
};
use crate::scalar::{real_of, Real, ONE_BITS};
use crate::tables::formation_keys;
use crate::text::text_view;
use crate::units::{
    hold_order, MovementFactors, ResolvedCombatOrder, ResolvedUnitOrder, SideKey, SimulationUnit,
    UnitKind,
};
use crate::views::{lemma_views_push, views, Replica};
use crate::worksheet::{
    difference, longitude_delta, number_at, product, quotient, Operation, Reader,
};

verus! {

/// A place in a front.
#[derive(Clone, Copy, Debug, PartialEq, Eq, Structural)]
pub struct FrontObjective {
    pub id: u64,
    pub segment_id: u64,
    pub lat: Real,
    pub lng: Real,
}

/// Where a formation stood in the last layout of the fronts.
#[derive(Debug)]
pub struct FrontLayoutPrior {
    pub unit_id: u64,
    pub objective_id: u64,
    pub pair_key: String,
    pub segment_idx: usize,
}

/// What a [`FrontLayoutPrior`] says.
pub ghost struct PriorModel {
    pub unit_id: u64,
    pub objective_id: u64,
    pub pair_key: Seq<char>,
    pub segment_idx: usize,
}

impl View for FrontLayoutPrior {
    type V = PriorModel;

    open spec fn view(&self) -> PriorModel {
        PriorModel {
            unit_id: self.unit_id,
            objective_id: self.objective_id,
            pair_key: self.pair_key@,
            segment_idx: self.segment_idx,
        }
    }
}

impl Replica for FrontLayoutPrior {
    fn replica(&self) -> (copy: Self) {
        FrontLayoutPrior {
            unit_id: self.unit_id,
            objective_id: self.objective_id,
            pair_key: self.pair_key.clone(),
            segment_idx: self.segment_idx,
        }
    }
}

/// What a table of priors says.
pub open spec fn priors_view(priors: Map<u64, FrontLayoutPrior>) -> Map<u64, PriorModel> {
    priors.map_values(|prior: FrontLayoutPrior| prior@)
}

#[derive(Clone, Copy, Debug, PartialEq, Eq, Structural)]
pub enum AssignmentReason {
    Contact,
    Retreat,
    Front,
    Reinforce,
    Field,
    Hold,
}

#[derive(Clone, Copy, Debug, PartialEq, Eq, Structural)]
pub struct FrontAssignmentRecord {
    pub unit_id: u64,
    pub objective_id: Option<u64>,
    pub reason: AssignmentReason,
}

impl Keyed for FrontAssignmentRecord {
    open spec fn sort_key(&self) -> int {
        self.unit_id as int
    }

    fn key(&self) -> (key: u64) {
        self.unit_id
    }
}

impl Ranked for FrontAssignmentRecord {
    open spec fn ranks_before(self, other: Self) -> bool {
        self.unit_id < other.unit_id
    }

    fn is_before(&self, other: &Self) -> (answer: bool) {
        self.unit_id < other.unit_id
    }
}

impl Ranked for ResolvedUnitOrder {
    open spec fn ranks_before(self, other: Self) -> bool {
        self.unit_id < other.unit_id
    }

    fn is_before(&self, other: &Self) -> (answer: bool) {
        self.unit_id < other.unit_id
    }
}

/// An enemy that a formation met while planning.
#[derive(Clone, Copy, Debug, PartialEq, Eq, Structural)]
pub struct PlanningContact {
    pub unit_id: u64,
    pub target_unit_id: Option<u64>,
}

/// What the planner decided.
#[derive(Debug)]
pub struct AiPlanningResult {
    pub orders: Vec<ResolvedUnitOrder>,
    pub assignments: Vec<FrontAssignmentRecord>,
    pub contacts: Vec<PlanningContact>,
    pub counters: AiPlanningCounters,
}

/// A formation as the planner sees it.
#[derive(Clone, Copy, Debug, PartialEq, Eq, Structural)]
pub struct AiUnitInput {
    pub id: u64,
    pub side: SideKey,
    pub sovereign: u64,
    pub kind: UnitKind,
    pub lat: Real,
    pub lng: Real,
    pub health: Real,
    pub max_health: Real,
    pub combat_power: Real,
    pub ally_weight: Real,
    pub at_sea: bool,
    pub transport: bool,
    pub base_speed: Real,
    pub movement: ResolvedMovementModifiers,
    pub combat: ResolvedCombatOrder,
    pub prior_front_objective_id: Option<u64>,
    pub operationally_claimed: bool,
    pub is_reserve: bool,
    pub reinforcement_eligible: bool,
    pub encircled: bool,
    pub defensive_only: bool,
}

/// What planning inputs depend on.
pub ghost struct PlanningScope {
    pub units: Seq<SimulationUnit>,
    pub strengths: Seq<Real>,
    pub policies: Policies,
    pub priors: Map<u64, u64>,
    pub claimed: Set<u64>,
    pub tick: u64,
    pub resolved: Option<Map<u64, BattlefieldUnitResult>>,
    pub ally_weights: Option<Map<u64, Real>>,
    pub dynamics: Option<Map<usize, SideDynamics>>,
}

/// Whether a formation is at sea: as the battlefield resolved it, else as it was.
pub open spec fn sails(
    unit: SimulationUnit,
    resolved: Option<Map<u64, BattlefieldUnitResult>>,
) -> bool {
    match resolved {
        Some(table) => if table.contains_key(unit.combat.id) {
            table[unit.combat.id].cell.at_sea
        } else {
            unit.combat.at_sea
        },
        None => unit.combat.at_sea,
    }
}

pub open spec fn weight_of(unit: SimulationUnit, weights: Option<Map<u64, Real>>) -> Real {
    match weights {
        Some(table) => if table.contains_key(unit.combat.id) {
            table[unit.combat.id]
        } else {
            unit.ally_weight
        },
        None => unit.ally_weight,
    }
}

pub open spec fn side_defends(dynamics: Option<Map<usize, SideDynamics>>, side: usize) -> bool {
    dynamics matches Some(table) && table.contains_key(side) && table[side].posture is Defensive
}

/// One formation as the planner sees it. Formations that deploy or hold a garrison, or of which
/// nothing is known, are not planned for.
pub open spec fn ai_input(
    scope: PlanningScope,
    at: int,
) -> Option<Result<AiUnitInput, RuntimeError>> {
    let unit = scope.units[at];
    let id = unit.combat.id;
    let policy = scope.policies[id];
    if !scope.policies.contains_key(id) || deploying(policy, scope.tick)
        || policy.ai.garrison_excluded {
        None
    } else if unit.combat.side > u16::MAX {
        Some(Err(RuntimeError::InvalidCheckpoint("unit side exceeds SideKey")))
    } else {
        Some(
            Ok(
                AiUnitInput {
                    id,
                    side: unit.combat.side as u16,
                    sovereign: unit.combat.sovereign,
                    kind: unit.combat.kind,
                    lat: unit.combat.lat,
                    lng: unit.combat.lng,
                    health: unit.combat.health,
                    max_health: unit.combat.max_health,
                    combat_power: scope.strengths[at],
                    ally_weight: weight_of(unit, scope.ally_weights),
                    at_sea: sails(unit, scope.resolved),
                    transport: unit.combat.transport,
                    base_speed: policy.ai.base_speed,
                    movement: policy.ai.movement,
                    combat: policy.ai.combat,
                    prior_front_objective_id: if !scope.claimed.contains(id)
                        && scope.priors.contains_key(id) {
                        Some(scope.priors[id])
                    } else {
                        None
                    },
                    operationally_claimed: scope.claimed.contains(id),
                    is_reserve: policy.ai.is_reserve || policy.command.refuses_offense,
                    reinforcement_eligible: policy.ai.reinforcement_eligible,
                    encircled: policy.ai.encircled,
                    defensive_only: policy.command.refuses_offense || side_defends(
                        scope.dynamics,
                        unit.combat.side as usize,
                    ),
                },
            ),
        )
    }
}

pub open spec fn ai_inputs(scope: PlanningScope) -> spec_fn(int) -> Option<
    Result<AiUnitInput, RuntimeError>,
> {
    |at: int| ai_input(scope, at)
}

pub(crate) fn is_at_sea(
    unit: &SimulationUnit,
    resolved: Option<&BTreeMap<u64, BattlefieldUnitResult>>,
) -> (answer: bool)
    ensures
        answer == sails(
            *unit,
            match resolved {
                Some(table) => Some(table@),
                None => None,
            },
        ),
{
    broadcast use vstd::std_specs::btree::group_btree_axioms;

    match resolved {
        Some(table) => match table.get(&unit.combat.id) {
            Some(result) => result.cell.at_sea,
            None => unit.combat.at_sea,
        },
        None => unit.combat.at_sea,
    }
}

pub open spec fn optional_map<K, V>(table: Option<&BTreeMap<K, V>>) -> Option<Map<K, V>> {
    match table {
        Some(map) => Some(map@),
        None => None,
    }
}

/// The formations as the planner sees them.
pub fn ai_units(
    units: &Vec<SimulationUnit>,
    strengths: &Vec<Real>,
    policies: &BTreeMap<u64, RuntimeUnitPolicy>,
    priors: &BTreeMap<u64, u64>,
    claimed: &BTreeSet<u64>,
    tick: u64,
    resolved: Option<&BTreeMap<u64, BattlefieldUnitResult>>,
    ally_weights: Option<&BTreeMap<u64, Real>>,
    dynamics: Option<&BTreeMap<usize, SideDynamics>>,
) -> (outcome: Result<Vec<AiUnitInput>, RuntimeError>)
    requires
        strengths@.len() == units@.len(),
    ensures
        ({
            let scope = PlanningScope {
                units: units@,
                strengths: strengths@,
                policies: policies_view(policies@),
                priors: priors@,
                claimed: claimed@,
                tick,
                resolved: optional_map(resolved),
                ally_weights: optional_map(ally_weights),
                dynamics: optional_map(dynamics),
            };
            let expected = collected(ai_inputs(scope), units@.len());
            match outcome {
                Ok(inputs) => expected == Ok::<Seq<AiUnitInput>, RuntimeError>(inputs@),
                Err(error) => expected == Err::<Seq<AiUnitInput>, RuntimeError>(error),
            }
        }),
{
    broadcast use vstd::std_specs::btree::group_btree_axioms;

    let ghost scope = PlanningScope {
        units: units@,
        strengths: strengths@,
        policies: policies_view(policies@),
        priors: priors@,
        claimed: claimed@,
        tick,
        resolved: optional_map(resolved),
        ally_weights: optional_map(ally_weights),
        dynamics: optional_map(dynamics),
    };
    let ghost entry = ai_inputs(scope);
    let mut inputs: Vec<AiUnitInput> = Vec::new();
    let mut at: usize = 0;
    while at < units.len()
        invariant
            at <= units@.len(),
            strengths@.len() == units@.len(),
            scope == (PlanningScope {
                units: units@,
                strengths: strengths@,
                policies: policies_view(policies@),
                priors: priors@,
                claimed: claimed@,
                tick,
                resolved: optional_map(resolved),
                ally_weights: optional_map(ally_weights),
                dynamics: optional_map(dynamics),
            }),
            entry == ai_inputs(scope),
            collected(entry, at as nat) == Ok::<Seq<AiUnitInput>, RuntimeError>(inputs@),
        decreases units@.len() - at,
    {
        broadcast use vstd::std_specs::btree::group_btree_axioms;

        let unit = units[at];
        let id: u64 = unit.combat.id;
        assert(scope.policies.contains_key(id) == policies@.contains_key(id));
        assert(entry(at as int) == ai_input(scope, at as int));
        if let Some(policy) = policies.get(&id) {
            assert(scope.policies[id] == policy@);
            if !unit_deploying(policy, tick) && !policy.ai.garrison_excluded {
                if unit.combat.side > 0xffff {
                    proof {
                        lemma_collected_fail(entry, (at + 1) as nat, units@.len());
                    }
                    return Err(RuntimeError::InvalidCheckpoint("unit side exceeds SideKey"));
                }
                let side: u16 = unit.combat.side as u16;
                let ally_weight = match ally_weights {
                    Some(table) => match table.get(&id) {
                        Some(weight) => *weight,
                        None => unit.ally_weight,
                    },
                    None => unit.ally_weight,
                };
                let defends = match dynamics {
                    Some(table) => match table.get(&(side as usize)) {
                        Some(state) => state.posture == WarPosture::Defensive,
                        None => false,
                    },
                    None => false,
                };
                let is_claimed = claimed.contains(&id);
                let prior: Option<u64> = if is_claimed {
                    None
                } else {
                    match priors.get(&id) {
                        Some(objective) => Some(*objective),
                        None => None,
                    }
                };
                inputs.push(
                    AiUnitInput {
                        id,
                        side,
                        sovereign: unit.combat.sovereign,
                        kind: unit.combat.kind,
                        lat: unit.combat.lat,
                        lng: unit.combat.lng,
                        health: unit.combat.health,
                        max_health: unit.combat.max_health,
                        combat_power: strengths[at],
                        ally_weight,
                        at_sea: is_at_sea(&unit, resolved),
                        transport: unit.combat.transport,
                        base_speed: policy.ai.base_speed,
                        movement: policy.ai.movement,
                        combat: policy.ai.combat,
                        prior_front_objective_id: prior,
                        operationally_claimed: is_claimed,
                        is_reserve: policy.ai.is_reserve || policy.command.refuses_offense,
                        reinforcement_eligible: policy.ai.reinforcement_eligible,
                        encircled: policy.ai.encircled,
                        defensive_only: policy.command.refuses_offense || defends,
                    },
                );
            }
        }
        at = at + 1;
    }
    Ok(inputs)
}

/// A garrison holds its ground with its own combat modifiers.
pub open spec fn garrison_order(
    units: Seq<SimulationUnit>,
    policies: Policies,
    tick: u64,
    at: int,
) -> Option<Result<ResolvedUnitOrder, RuntimeError>> {
    let id = units[at].combat.id;
    if !policies.contains_key(id) {
        Some(Err(RuntimeError::InvalidUnitPolicy(id)))
    } else if !policies[id].ai.garrison_excluded || deploying(policies[id], tick) {
        None
    } else {
        Some(Ok(ResolvedUnitOrder { combat: policies[id].ai.combat, ..hold_order(id) }))
    }
}

pub open spec fn garrison_orders(
    units: Seq<SimulationUnit>,
    policies: Policies,
    tick: u64,
) -> spec_fn(int) -> Option<Result<ResolvedUnitOrder, RuntimeError>> {
    |at: int| garrison_order(units, policies, tick, at)
}

pub open spec fn sorted_orders(
    orders: Result<Seq<ResolvedUnitOrder>, RuntimeError>,
) -> Result<Seq<ResolvedUnitOrder>, RuntimeError> {
    match orders {
        Ok(all) => Ok(stable_sorted(all, rank_order::<ResolvedUnitOrder>())),
        Err(error) => Err(error),
    }
}

/// The orders of all garrisons, by unit.
pub fn garrison_hold_orders(
    units: &Vec<SimulationUnit>,
    policies: &BTreeMap<u64, RuntimeUnitPolicy>,
    tick: u64,
) -> (outcome: Result<Vec<ResolvedUnitOrder>, RuntimeError>)
    ensures
        ({
            let expected = sorted_orders(
                collected(
                    garrison_orders(units@, policies_view(policies@), tick),
                    units@.len(),
                ),
            );
            match outcome {
                Ok(orders) => expected == Ok::<Seq<ResolvedUnitOrder>, RuntimeError>(orders@),
                Err(error) => expected == Err::<Seq<ResolvedUnitOrder>, RuntimeError>(error),
            }
        }),
{
    broadcast use vstd::std_specs::btree::group_btree_axioms;

    let ghost shown = policies_view(policies@);
    let ghost entry = garrison_orders(units@, shown, tick);
    let mut orders: Vec<ResolvedUnitOrder> = Vec::new();
    let mut at: usize = 0;
    while at < units.len()
        invariant
            at <= units@.len(),
            shown == policies_view(policies@),
            entry == garrison_orders(units@, shown, tick),
            collected(entry, at as nat) == Ok::<Seq<ResolvedUnitOrder>, RuntimeError>(orders@),
        decreases units@.len() - at,
    {
        broadcast use vstd::std_specs::btree::group_btree_axioms;

        let id: u64 = units[at].combat.id;
        assert(shown.contains_key(id) == policies@.contains_key(id));
        assert(entry(at as int) == garrison_order(units@, shown, tick, at as int));
        let policy = match policies.get(&id) {
            Some(policy) => policy,
            None => {
                proof {
                    lemma_collected_fail(entry, (at + 1) as nat, units@.len());
                }
                return Err(RuntimeError::InvalidUnitPolicy(id));
            },
        };
        assert(shown[id] == policy@);
        if policy.ai.garrison_excluded && !unit_deploying(policy, tick) {
            let mut order = ResolvedUnitOrder::hold(id);
            order.combat = policy.ai.combat;
            orders.push(order);
        }
        at = at + 1;
    }
    Ok(sort_stable(orders))
}

/// A formation whose band sends it home marches there; one that only defends itself holds once it
/// is there.
pub open spec fn homeward_order(
    results: Map<Operation, u64>,
    units: Seq<SimulationUnit>,
    policies: Policies,
    tick: u64,
    at: int,
) -> Option<Result<ResolvedUnitOrder, RuntimeError>> {
    let unit = units[at];
    let id = unit.combat.id;
    let policy = policies[id];
    if !policies.contains_key(id) {
        Some(Err(RuntimeError::InvalidUnitPolicy(id)))
    } else if !policy.command.return_home || policy.ai.garrison_excluded || deploying(
        policy,
        tick,
    ) {
        None
    } else {
        match policy.command.home_target {
            None => None,
            Some(home) => {
                let lat = difference(results, home.lat, unit.combat.lat);
                let lng = longitude_delta(results, unit.combat.lng, home.lng);
                let distance = number_at(results, Operation::Hypotenuse(lat, lng));
                let held = ResolvedUnitOrder { combat: policy.ai.combat, ..hold_order(id) };
                if distance.le(real_of(N_0_15)) && !policy.command.self_defense_only {
                    None
                } else if real_of(N_0_15).lt(distance) {
                    Some(
                        Ok(
                            ResolvedUnitOrder {
                                movement_enabled: true,
                                dir_lat: quotient(results, lat, distance),
                                dir_lng: quotient(results, lng, distance),
                                factors: MovementFactors {
                                    base_speed: policy.ai.base_speed,
                                    speed_mult: product(
                                        results,
                                        policy.ai.movement.terrain_speed_multiplier,
                                        policy.ai.movement.speed_multiplier,
                                    ),
                                    plan_speed_mult: product(
                                        results,
                                        policy.ai.movement.plan_speed_multiplier,
                                        real_of(N_0_8),
                                    ),
                                    neutral_penalty: policy.ai.movement.neutral_penalty,
                                    push_readiness: real_of(ONE_BITS),
                                    ..held.factors
                                },
                                ..held
                            },
                        ),
                    )
                } else {
                    Some(Ok(held))
                }
            },
        }
    }
}

pub open spec fn homeward_orders(
    results: Map<Operation, u64>,
    units: Seq<SimulationUnit>,
    policies: Policies,
    tick: u64,
) -> spec_fn(int) -> Option<Result<ResolvedUnitOrder, RuntimeError>> {
    |at: int| homeward_order(results, units, policies, tick, at)
}

/// Whether a worksheet holds all that ordering a formation home takes.
pub open spec fn homing_supplied(
    results: Map<Operation, u64>,
    unit: SimulationUnit,
    policy: PolicyModel,
    home: CommandHomeTarget,
) -> bool {
    let lat = difference(results, home.lat, unit.combat.lat);
    let lng = longitude_delta(results, unit.combat.lng, home.lng);
    let distance = number_at(results, Operation::Hypotenuse(lat, lng));
    &&& results.contains_key(Operation::Difference(home.lat, unit.combat.lat))
    &&& results.contains_key(Operation::LongitudeDelta(unit.combat.lng, home.lng))
    &&& results.contains_key(Operation::Hypotenuse(lat, lng))
    &&& real_of(N_0_15).lt(distance) ==> {
        &&& results.contains_key(Operation::Quotient(lat, distance))
        &&& results.contains_key(Operation::Quotient(lng, distance))
        &&& results.contains_key(
            Operation::Product(
                policy.ai.movement.terrain_speed_multiplier,
                policy.ai.movement.speed_multiplier,
            ),
        )
        &&& results.contains_key(
            Operation::Product(policy.ai.movement.plan_speed_multiplier, real_of(N_0_8)),
        )
    }
}

/// Whether a worksheet holds all that ordering formations home takes.
pub open spec fn homings_supplied(
    results: Map<Operation, u64>,
    units: Seq<SimulationUnit>,
    policies: Policies,
) -> bool {
    forall|k: int|
        0 <= k < units.len() && policies.contains_key((#[trigger] units[k]).combat.id) ==> (
        policies[units[k].combat.id].command.home_target matches Some(home) ==> homing_supplied(
            results,
            units[k],
            policies[units[k].combat.id],
            home,
        ))
}

fn order_home(
    unit: &SimulationUnit,
    policy: &RuntimeUnitPolicy,
    home: CommandHomeTarget,
    reader: &mut Reader<'_>,
) -> (order: Option<ResolvedUnitOrder>)
    requires
        old(reader).sound(),
    ensures
        final(reader)@ == old(reader)@,
        final(reader).sound(),
        final(reader).complete() ==> old(reader).complete() && ({
            let results = old(reader)@;
            let lat = difference(results, home.lat, unit.combat.lat);
            let lng = longitude_delta(results, unit.combat.lng, home.lng);
            let distance = number_at(results, Operation::Hypotenuse(lat, lng));
            let held = ResolvedUnitOrder {
                combat: policy.ai.combat,
                ..hold_order(unit.combat.id)
            };
            order == (if distance.le(real_of(N_0_15)) && !policy.command.self_defense_only {
                None
            } else if real_of(N_0_15).lt(distance) {
                Some(
                    ResolvedUnitOrder {
                        movement_enabled: true,
                        dir_lat: quotient(results, lat, distance),
                        dir_lng: quotient(results, lng, distance),
                        factors: MovementFactors {
                            base_speed: policy.ai.base_speed,
                            speed_mult: product(
                                results,
                                policy.ai.movement.terrain_speed_multiplier,
                                policy.ai.movement.speed_multiplier,
                            ),
                            plan_speed_mult: product(
                                results,
                                policy.ai.movement.plan_speed_multiplier,
                                real_of(N_0_8),
                            ),
                            neutral_penalty: policy.ai.movement.neutral_penalty,
                            push_readiness: real_of(ONE_BITS),
                            ..held.factors
                        },
                        ..held
                    },
                )
            } else {
                Some(held)
            })
        }),
        old(reader).complete() && homing_supplied(old(reader)@, *unit, policy@, home) ==>
            final(reader).complete(),
{
    let lat = reader.difference(home.lat, unit.combat.lat);
    let lng = reader.longitude_delta(unit.combat.lng, home.lng);
    let distance = reader.gather_number(Operation::Hypotenuse(lat, lng));
    let near = Real::from_bits(N_0_15);
    if distance.at_most(near) && !policy.command.self_defense_only {
        return None;
    }
    let mut order = ResolvedUnitOrder::hold(unit.combat.id);
    order.combat = policy.ai.combat;
    if near.less(distance) {
        order.movement_enabled = true;
        order.dir_lat = reader.quotient(lat, distance);
        order.dir_lng = reader.quotient(lng, distance);
        order.factors.base_speed = policy.ai.base_speed;
        order.factors.speed_mult =
        reader.product(
            policy.ai.movement.terrain_speed_multiplier,
            policy.ai.movement.speed_multiplier,
        );
        order.factors.plan_speed_mult =
        reader.product(policy.ai.movement.plan_speed_multiplier, Real::from_bits(N_0_8));
        order.factors.neutral_penalty = policy.ai.movement.neutral_penalty;
        order.factors.push_readiness = Real::one();
    }
    Some(order)
}

/// The orders of all formations that go home, by unit.
pub fn command_orders(
    units: &Vec<SimulationUnit>,
    policies: &BTreeMap<u64, RuntimeUnitPolicy>,
    tick: u64,
    reader: &mut Reader<'_>,
) -> (outcome: Result<Vec<ResolvedUnitOrder>, RuntimeError>)
    requires
        old(reader).sound(),
    ensures
        final(reader)@ == old(reader)@,
        final(reader).sound(),
        final(reader).complete() ==> old(reader).complete() && ({
            let expected = sorted_orders(
                collected(
                    homeward_orders(old(reader)@, units@, policies_view(policies@), tick),
                    units@.len(),
                ),
            );
            match outcome {
                Ok(orders) => expected == Ok::<Seq<ResolvedUnitOrder>, RuntimeError>(orders@),
                Err(error) => expected == Err::<Seq<ResolvedUnitOrder>, RuntimeError>(error),
            }
        }),
        old(reader).complete() && homings_supplied(
            old(reader)@,
            units@,
            policies_view(policies@),
        ) ==> final(reader).complete(),
{
    broadcast use vstd::std_specs::btree::group_btree_axioms;

    let ghost results = reader@;
    let ghost untouched = reader.complete();
    let ghost shown = policies_view(policies@);
    let ghost entry = homeward_orders(results, units@, shown, tick);
    let mut orders: Vec<ResolvedUnitOrder> = Vec::new();
    let mut at: usize = 0;
    while at < units.len()
        invariant
            at <= units@.len(),
            shown == policies_view(policies@),
            entry == homeward_orders(results, units@, shown, tick),
            results == old(reader)@,
            untouched == old(reader).complete(),
            reader@ == results,
            reader.sound(),
            reader.complete() ==> untouched && collected(entry, at as nat) == Ok::<
                Seq<ResolvedUnitOrder>,
                RuntimeError,
            >(orders@),
            untouched && homings_supplied(results, units@, shown) ==> reader.complete(),
        decreases units@.len() - at,
    {
        broadcast use vstd::std_specs::btree::group_btree_axioms;

        let unit = units[at];
        let id: u64 = unit.combat.id;
        assert(shown.contains_key(id) == policies@.contains_key(id));
        assert(entry(at as int) == homeward_order(results, units@, shown, tick, at as int));
        let policy = match policies.get(&id) {
            Some(policy) => policy,
            None => {
                proof {
                    if reader.complete() {
                        lemma_collected_fail(entry, (at + 1) as nat, units@.len());
                    }
                }
                return Err(RuntimeError::InvalidUnitPolicy(id));
            },
        };
        assert(shown[id] == policy@);
        if policy.command.return_home && !policy.ai.garrison_excluded && !unit_deploying(
            policy,
            tick,
        ) {
            if let Some(home) = policy.command.home_target {
                let order = order_home(&unit, policy, home, reader);
                if let Some(given) = order {
                    orders.push(given);
                }
            }
        }
        at = at + 1;
    }
    Ok(sort_stable(orders))
}

/// How the command kernel resolved a formation's obedience.
#[derive(Clone, Copy, Debug, PartialEq, Eq, Structural)]
pub struct ResolvedCommandPolicy {
    pub band: CommandBand,
    pub discipline: Real,
    pub refuses_offense: bool,
    pub return_home: bool,
    pub self_defense_only: bool,
    pub home_target: Option<CommandHomeTarget>,
}

/// The command policy that a resolution makes, from a cycle on.
pub open spec fn resolved_command(
    resolved: ResolvedCommandPolicy,
    cycle: u64,
) -> UnitCommandPolicy {
    UnitCommandPolicy {
        band: resolved.band,
        discipline: resolved.discipline,
        refuses_offense: resolved.refuses_offense,
        return_home: resolved.return_home,
        self_defense_only: resolved.self_defense_only,
        home_target: resolved.home_target,
        transition_cycle: cycle,
    }
}

pub fn command_from(resolved: ResolvedCommandPolicy, cycle: u64) -> (command: UnitCommandPolicy)
    ensures
        command == resolved_command(resolved, cycle),
{
    UnitCommandPolicy {
        band: resolved.band,
        discipline: resolved.discipline,
        refuses_offense: resolved.refuses_offense,
        return_home: resolved.return_home,
        self_defense_only: resolved.self_defense_only,
        home_target: resolved.home_target,
        transition_cycle: cycle,
    }
}

/// The formations whose band changes.
pub open spec fn band_changes(
    policies: Policies,
    resolved: Map<u64, ResolvedCommandPolicy>,
    unit_id: u64,
) -> bool {
    &&& resolved.contains_key(unit_id)
    &&& policies.contains_key(unit_id)
    &&& policies[unit_id].command.band != resolved[unit_id].band
}

/// The formations whose band changes, in ascending order.
pub fn changed_commands(
    policies: &BTreeMap<u64, RuntimeUnitPolicy>,
    resolved: &BTreeMap<u64, ResolvedCommandPolicy>,
) -> (changed: Vec<u64>)
    ensures
        strictly_sorted(changed@),
        forall|id: u64|
            #[trigger] changed@.contains(id) == band_changes(
                policies_view(policies@),
                resolved@,
                id,
            ),
{
    broadcast use vstd::std_specs::btree::group_btree_axioms;

    let ghost shown = policies_view(policies@);
    let keys = formation_keys(resolved);
    let mut changed: Vec<u64> = Vec::new();
    let mut at: usize = 0;
    while at < keys.len()
        invariant
            at <= keys@.len(),
            strictly_sorted(keys@),
            keys@.to_set() == resolved@.dom(),
            shown == policies_view(policies@),
            strictly_sorted(changed@),
            changed@.len() > 0 ==> at > 0 && changed@.last() <= keys@[at - 1],
            forall|id: u64|
                #[trigger] changed@.contains(id) == (keys@.take(at as int).contains(id)
                    && band_changes(shown, resolved@, id)),
        decreases keys@.len() - at,
    {
        broadcast use vstd::std_specs::btree::group_btree_axioms;

        let id: u64 = keys[at];
        assert(keys@.to_set().contains(id));
        let band = resolved.get(&id).unwrap().band;
        assert(shown.contains_key(id) == policies@.contains_key(id));
        let differs = match policies.get(&id) {
            Some(policy) => policy.command.band != band,
            None => false,
        };
        assert(differs == band_changes(shown, resolved@, id));
        let ghost before = changed@;
        if differs {
            proof {
                assert forall|i: int, j: int|
                    #![trigger before.push(id)[i], before.push(id)[j]]
                    0 <= i < j < before.push(id).len() implies before.push(id)[i].sort_key()
                    < before.push(id)[j].sort_key() by {
                    if j == before.len() {
                        assert(before[i].sort_key() <= before.last().sort_key()) by {
                            if i < before.len() - 1 {
                                assert(before[i].sort_key() < before[before.len() - 1].sort_key());
                            }
                        }
                        assert(keys@[at - 1].sort_key() < keys@[at as int].sort_key());
                    }
                }
            }
            changed.push(id);
        }
        proof {
            assert(keys@.take(at + 1) =~= keys@.take(at as int).push(id));
            assert forall|other: u64| #[trigger] changed@.contains(other) == (keys@.take(
                at + 1,
            ).contains(other) && band_changes(shown, resolved@, other)) by {
                lemma_push_contains(keys@.take(at as int), id, other);
                lemma_push_contains(before, id, other);
                assert(before.contains(other) == (keys@.take(at as int).contains(other)
                    && band_changes(shown, resolved@, other)));
            }
        }
        at = at + 1;
    }
    proof {
        assert(keys@.take(keys@.len() as int) =~= keys@);
        assert forall|id: u64| #[trigger] changed@.contains(id) == band_changes(
            shown,
            resolved@,
            id,
        ) by {
            if resolved@.contains_key(id) {
                assert(keys@.to_set().contains(id));
            }
        }
    }
    changed
}

/// A policy after its band changed: the formation also gives up its reserve and garrison roles.
pub open spec fn recommanded(
    policy: PolicyModel,
    resolved: ResolvedCommandPolicy,
    cycle: u64,
) -> PolicyModel {
    PolicyModel {
        ai: UnitAiPolicy { is_reserve: false, garrison_excluded: false, ..policy.ai },
        command: resolved_command(resolved, cycle),
        influence: match policy.influence {
            Some(influence) => Some(
                InfluenceModel { refuses_offense: resolved.refuses_offense, ..influence },
            ),
            None => None,
        },
        ..policy
    }
}

/// The policies after the bands of some formations changed. Those that are gone stay gone.
pub open spec fn recommanded_policies(
    policies: Policies,
    resolved: Map<u64, ResolvedCommandPolicy>,
    changed: Seq<u64>,
    cycle: u64,
) -> Policies {
    Map::new(
        |id: u64| policies.contains_key(id),
        |id: u64|
            if changed.contains(id) {
                recommanded(policies[id], resolved[id], cycle)
            } else {
                policies[id]
            },
    )
}

fn recommand(policy: &RuntimeUnitPolicy, resolved: ResolvedCommandPolicy, cycle: u64) -> (next:
    RuntimeUnitPolicy)
    ensures
        next@ == recommanded(policy@, resolved, cycle),
{
    let mut next = policy.clone();
    next.command = command_from(resolved, cycle);
    next.ai.is_reserve = false;
    next.ai.garrison_excluded = false;
    if let Some(influence) = &policy.influence {
        let mut spread = influence.clone();
        spread.refuses_offense = resolved.refuses_offense;
        next.influence = Some(spread);
    }
    next
}

/// Let the bands of some formations change.
pub fn apply_command_policy_updates(
    policies: &mut BTreeMap<u64, RuntimeUnitPolicy>,
    resolved: &BTreeMap<u64, ResolvedCommandPolicy>,
    changed: &Vec<u64>,
    cycle: u64,
)
    requires
        strictly_sorted(changed@),
        forall|i: int| 0 <= i < changed@.len() ==> resolved@.contains_key(#[trigger] changed@[i]),
    ensures
        policies_view(final(policies)@) == recommanded_policies(
            policies_view(old(policies)@),
            resolved@,
            changed@,
            cycle,
        ),
{
    broadcast use vstd::std_specs::btree::group_btree_axioms;

    let ghost before = policies_view(policies@);
    assert(policies_view(policies@) =~= recommanded_policies(
        before,
        resolved@,
        changed@.take(0),
        cycle,
    ));
    let mut at: usize = 0;
    while at < changed.len()
        invariant
            at <= changed@.len(),
            strictly_sorted(changed@),
            forall|i: int|
                0 <= i < changed@.len() ==> resolved@.contains_key(#[trigger] changed@[i]),
            policies_view(policies@) == recommanded_policies(
                before,
                resolved@,
                changed@.take(at as int),
                cycle,
            ),
        decreases changed@.len() - at,
    {
        broadcast use vstd::std_specs::btree::group_btree_axioms;

        let id: u64 = changed[at];
        let ghost earlier = policies@;
        let ghost shorter = changed@.take(at as int);
        let ghost longer = changed@.take(at + 1);
        let resolution = *resolved.get(&id).unwrap();
        assert(policies_view(policies@).contains_key(id) == policies@.contains_key(id));
        let next = match policies.get(&id) {
            Some(policy) => Some(recommand(policy, resolution, cycle)),
            None => None,
        };
        proof {
            assert(longer =~= shorter.push(id));
            assert(!shorter.contains(id)) by {
                if shorter.contains(id) {
                    let i = choose|i: int| 0 <= i < shorter.len() && shorter[i] == id;
                    assert(changed@[i].sort_key() < changed@[at as int].sort_key());
                }
            }
        }
        if let Some(policy) = next {
            policies.insert(id, policy);
        }
        proof {
            let wanted = recommanded_policies(before, resolved@, longer, cycle);
            let reached = policies_view(policies@);
            assert forall|other: u64| #[trigger] reached.dom().contains(other)
                == wanted.dom().contains(other) by {
                assert(policies_view(earlier).contains_key(other) == before.contains_key(other));
            }
            assert(reached.dom() =~= wanted.dom());
            assert forall|other: u64| #[trigger] wanted.dom().contains(other) implies reached[other]
                == wanted[other] by {
                lemma_push_contains(shorter, id, other);
                assert(policies_view(earlier).contains_key(other));
                assert(policies_view(earlier)[other] == recommanded_policies(
                    before,
                    resolved@,
                    shorter,
                    cycle,
                )[other]);
            }
            assert(reached =~= wanted);
        }
        at = at + 1;
    }
    assert(changed@.take(changed@.len() as int) =~= changed@);
}

/// A formation as the layout of the fronts sees it.
#[derive(Debug)]
pub struct FrontLayoutUnit {
    pub id: u64,
    pub side_index: SideKey,
    pub lat: Real,
    pub lng: Real,
    pub garrison_excluded: bool,
    pub deploy_ticks: u32,
    pub previous_pair_key: Option<String>,
    pub previous_segment_idx: Option<usize>,
}

/// What a [`FrontLayoutUnit`] says.
pub ghost struct LayoutUnitModel {
    pub id: u64,
    pub side_index: SideKey,
    pub lat: Real,
    pub lng: Real,
    pub garrison_excluded: bool,
    pub deploy_ticks: u32,
    pub previous_pair_key: Option<Seq<char>>,
    pub previous_segment_idx: Option<usize>,
}

impl View for FrontLayoutUnit {
    type V = LayoutUnitModel;

    open spec fn view(&self) -> LayoutUnitModel {
        LayoutUnitModel {
            id: self.id,
            side_index: self.side_index,
            lat: self.lat,
            lng: self.lng,
            garrison_excluded: self.garrison_excluded,
            deploy_ticks: self.deploy_ticks,
            previous_pair_key: text_view(self.previous_pair_key),
            previous_segment_idx: self.previous_segment_idx,
        }
    }
}

/// One formation as the layout of the fronts sees it.
pub open spec fn layout_unit(
    units: Seq<SimulationUnit>,
    policies: Policies,
    priors: Map<u64, PriorModel>,
    claimed: Set<u64>,
    tick: u64,
    at: int,
) -> Option<Result<LayoutUnitModel, RuntimeError>> {
    let unit = units[at];
    let id = unit.combat.id;
    let policy = policies[id];
    if !policies.contains_key(id) {
        Some(Err(RuntimeError::InvalidUnitPolicy(id)))
    } else if unit.combat.side > u16::MAX {
        Some(Err(RuntimeError::InvalidCheckpoint("unit side exceeds SideKey")))
    } else {
        Some(
            Ok(
                LayoutUnitModel {
                    id,
                    side_index: unit.combat.side as u16,
                    lat: unit.combat.lat,
                    lng: unit.combat.lng,
                    garrison_excluded: policy.ai.garrison_excluded
                        || policy.command.refuses_offense || claimed.contains(id),
                    deploy_ticks: if deploying(policy, tick) {
                        1
                    } else {
                        0
                    },
                    previous_pair_key: if priors.contains_key(id) {
                        Some(priors[id].pair_key)
                    } else {
                        None
                    },
                    previous_segment_idx: if priors.contains_key(id) {
                        Some(priors[id].segment_idx)
                    } else {
                        None
                    },
                },
            ),
        )
    }
}

pub open spec fn layout_units(
    units: Seq<SimulationUnit>,
    policies: Policies,
    priors: Map<u64, PriorModel>,
    claimed: Set<u64>,
    tick: u64,
) -> spec_fn(int) -> Option<Result<LayoutUnitModel, RuntimeError>> {
    |at: int| layout_unit(units, policies, priors, claimed, tick, at)
}

/// The formations as the layout of the fronts sees them.
pub fn front_layout_units(
    units: &Vec<SimulationUnit>,
    policies: &BTreeMap<u64, RuntimeUnitPolicy>,
    previous: &BTreeMap<u64, FrontLayoutPrior>,
    claimed: &BTreeSet<u64>,
    tick: u64,
) -> (outcome: Result<Vec<FrontLayoutUnit>, RuntimeError>)
    ensures
        ({
            let expected = collected(
                layout_units(
                    units@,
                    policies_view(policies@),
                    priors_view(previous@),
                    claimed@,
                    tick,
                ),
                units@.len(),
            );
            match outcome {
                Ok(layout) => expected == Ok::<Seq<LayoutUnitModel>, RuntimeError>(
                    views(layout@),
                ),
                Err(error) => expected == Err::<Seq<LayoutUnitModel>, RuntimeError>(error),
            }
        }),
{
    broadcast use vstd::std_specs::btree::group_btree_axioms;

    let ghost shown = policies_view(policies@);
    let ghost priors = priors_view(previous@);
    let ghost entry = layout_units(units@, shown, priors, claimed@, tick);
    let mut layout: Vec<FrontLayoutUnit> = Vec::new();
    assert(views(layout@) =~= Seq::<LayoutUnitModel>::empty());
    let mut at: usize = 0;
    while at < units.len()
        invariant
            at <= units@.len(),
            shown == policies_view(policies@),
            priors == priors_view(previous@),
            entry == layout_units(units@, shown, priors, claimed@, tick),
            collected(entry, at as nat) == Ok::<Seq<LayoutUnitModel>, RuntimeError>(
                views(layout@),
            ),
        decreases units@.len() - at,
    {
        broadcast use vstd::std_specs::btree::group_btree_axioms;

        let unit = units[at];
        let id: u64 = unit.combat.id;
        assert(shown.contains_key(id) == policies@.contains_key(id));
        assert(priors.contains_key(id) == previous@.contains_key(id));
        assert(entry(at as int) == layout_unit(units@, shown, priors, claimed@, tick, at as int));
        let policy = match policies.get(&id) {
            Some(policy) => policy,
            None => {
                proof {
                    lemma_collected_fail(entry, (at + 1) as nat, units@.len());
                }
                return Err(RuntimeError::InvalidUnitPolicy(id));
            },
        };
        assert(shown[id] == policy@);
        if unit.combat.side > 0xffff {
            proof {
                lemma_collected_fail(entry, (at + 1) as nat, units@.len());
            }
            return Err(RuntimeError::InvalidCheckpoint("unit side exceeds SideKey"));
        }
        let (pair_key, segment) = match previous.get(&id) {
            Some(prior) => {
                assert(priors[id] == prior@);
                (Some(prior.pair_key.clone()), Some(prior.segment_idx))
            },
            None => (None, None),
        };
        let placed = FrontLayoutUnit {
            id,
            side_index: unit.combat.side as u16,
            lat: unit.combat.lat,
            lng: unit.combat.lng,
            garrison_excluded: policy.ai.garrison_excluded || policy.command.refuses_offense
                || claimed.contains(&id),
            deploy_ticks: if unit_deploying(policy, tick) {
                1
            } else {
                0
            },
            previous_pair_key: pair_key,
            previous_segment_idx: segment,
        };
        proof {
            lemma_views_push(layout@, placed);
        }
        layout.push(placed);
        at = at + 1;
    }
    Ok(layout)
}

/// The last prior for each unit among the first ones.
pub open spec fn prior_table(priors: Seq<PriorModel>, count: nat) -> Map<u64, PriorModel>
    decreases count,
{
    if count == 0 {
        Map::empty()
    } else {
        prior_table(priors, (count - 1) as nat).insert(
            priors[count - 1].unit_id,
            priors[count - 1],
        )
    }
}

pub fn front_prior_by_unit(priors: &Vec<FrontLayoutPrior>) -> (table: BTreeMap<
    u64,
    FrontLayoutPrior,
>)
    ensures
        priors_view(table@) == prior_table(views(priors@), priors@.len()),
{
    broadcast use vstd::std_specs::btree::group_btree_axioms;

    let mut table: BTreeMap<u64, FrontLayoutPrior> = BTreeMap::new();
    assert(priors_view(table@) =~= Map::<u64, PriorModel>::empty());
    let mut at: usize = 0;
    while at < priors.len()
        invariant
            at <= priors@.len(),
            priors_view(table@) == prior_table(views(priors@), at as nat),
        decreases priors@.len() - at,
    {
        broadcast use vstd::std_specs::btree::group_btree_axioms;

        let copy = priors[at].replica();
        let ghost before = table@;
        let ghost model = copy@;
        assert(views(priors@)[at as int] == model);
        table.insert(priors[at].unit_id, copy);
        assert(priors_view(table@) =~= priors_view(before).insert(model.unit_id, model));
        at = at + 1;
    }
    table
}

/// The last objective for each unit among the first priors.
pub open spec fn objective_table(priors: Seq<PriorModel>, count: nat) -> Map<u64, u64>
    decreases count,
{
    if count == 0 {
        Map::empty()
    } else {
        objective_table(priors, (count - 1) as nat).insert(
            priors[count - 1].unit_id,
            priors[count - 1].objective_id,
        )
    }
}

pub fn front_objectives_by_unit(priors: &Vec<FrontLayoutPrior>) -> (table: BTreeMap<u64, u64>)
    ensures
        table@ == objective_table(views(priors@), priors@.len()),
{
    broadcast use vstd::std_specs::btree::group_btree_axioms;

    let mut table: BTreeMap<u64, u64> = BTreeMap::new();
    let mut at: usize = 0;
    while at < priors.len()
        invariant
            at <= priors@.len(),
            table@ == objective_table(views(priors@), at as nat),
        decreases priors@.len() - at,
    {
        broadcast use vstd::std_specs::btree::group_btree_axioms;

        assert(views(priors@)[at as int] == priors@[at as int]@);
        table.insert(priors[at].unit_id, priors[at].objective_id);
        at = at + 1;
    }
    table
}

/// The last objective for each unit among the first assignments that have one.
pub open spec fn assigned_table(
    assignments: Seq<FrontAssignmentRecord>,
    count: nat,
) -> Map<u64, u64>
    decreases count,
{
    if count == 0 {
        Map::empty()
    } else {
        let rest = assigned_table(assignments, (count - 1) as nat);
        match assignments[count - 1].objective_id {
            Some(objective) => rest.insert(assignments[count - 1].unit_id, objective),
            None => rest,
        }
    }
}

pub fn assignments_by_unit(assignments: &Vec<FrontAssignmentRecord>) -> (table: BTreeMap<
    u64,
    u64,
>)
    ensures
        table@ == assigned_table(assignments@, assignments@.len()),
{
    broadcast use vstd::std_specs::btree::group_btree_axioms;

    let mut table: BTreeMap<u64, u64> = BTreeMap::new();
    let mut at: usize = 0;
    while at < assignments.len()
        invariant
            at <= assignments@.len(),
            table@ == assigned_table(assignments@, at as nat),
        decreases assignments@.len() - at,
    {
        broadcast use vstd::std_specs::btree::group_btree_axioms;

        if let Some(objective) = assignments[at].objective_id {
            table.insert(assignments[at].unit_id, objective);
        }
        at = at + 1;
    }
    table
}

} // verus!
