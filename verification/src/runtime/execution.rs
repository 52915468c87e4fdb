//! Operations in a tick: what operational planning and execution are told, and what their answers
//! do to orders.

use std::collections::{BTreeMap, BTreeSet};
use vstd::prelude::*;
use crate::production::{cell_supplied};
use crate::numbers::{N_4, N_9};
use crate::operations::{
    belongs_from, has_member, ForceModel, OperationalPoint, OperationalRuntimeState,
    OperationalTaskForce, TaskForceMember, TaskForcePhase,
};
use crate::order::{
    collected, lemma_collected_fail, lemma_push_contains, lemma_sort_commutes, rank_order,
    sort_stable, stable_sorted, Ranked,
};
use crate::runtime::battlefield::{BattlefieldUnitResult, BattlefieldUnitState};
use crate::runtime::error::RuntimeError;
use crate::runtime::planning::{optional_map, sails, AssignmentReason, FrontAssignmentRecord};
use crate::runtime::policy::{deploying, policies_view, unit_deploying, Policies, RuntimeUnitPolicy};
use crate::runtime::world::{controlled_side_at_point, holder_of, TerritoryControl};
use crate::scalar::{real_of, Real, ONE_BITS};
use crate::strategic::table_hostile;
use crate::taskforce::{distance_squared, way_supplied, OperationalUnitInput};
use crate::text::{precedes, text_before};
use crate::units::{ResolvedUnitOrder, SimulationUnit};
use crate::views::{lemma_views_push, shown, views};
use crate::worksheet::{product, quotient, Operation, Reader};

verus! {

/// A formation as operational planning sees it.
pub open spec fn operational_input(
    results: Map<Operation, u64>,
    units: Seq<SimulationUnit>,
    strengths: Seq<Real>,
    resolved: Option<Map<u64, BattlefieldUnitResult>>,
    memory: Option<Map<u64, BattlefieldUnitState>>,
    at: int,
) -> Option<Result<OperationalUnitInput, RuntimeError>> {
    let unit = units[at];
    let id = unit.combat.id;
    if unit.combat.sovereign > u16::MAX {
        Some(Err(RuntimeError::InvalidCheckpoint("invalid unit sovereign")))
    } else {
        Some(
            Ok(
                OperationalUnitInput {
                    unit_id: id,
                    side_index: unit.combat.side as usize,
                    country_id: unit.combat.sovereign as u16,
                    position: OperationalPoint { lat: unit.combat.lat, lng: unit.combat.lng },
                    power: strengths[at].max_of(real_of(0)),
                    readiness: if real_of(0).lt(unit.combat.max_health) {
                        quotient(results, unit.combat.health, unit.combat.max_health).clamp_of(
                            real_of(0),
                            real_of(ONE_BITS),
                        )
                    } else {
                        real_of(0)
                    },
                    supply_collapsed_tick: match memory {
                        Some(table) => if table.contains_key(id) {
                            table[id].supply_collapsed_tick
                        } else {
                            None
                        },
                        None => None,
                    },
                    encircled_ticks: match resolved {
                        Some(table) => if table.contains_key(id) {
                            table[id].encircled_ticks
                        } else {
                            0
                        },
                        None => 0,
                    },
                },
            ),
        )
    }
}

pub open spec fn operational_inputs(
    results: Map<Operation, u64>,
    units: Seq<SimulationUnit>,
    strengths: Seq<Real>,
    resolved: Option<Map<u64, BattlefieldUnitResult>>,
    memory: Option<Map<u64, BattlefieldUnitState>>,
) -> spec_fn(int) -> Option<Result<OperationalUnitInput, RuntimeError>> {
    |at: int| operational_input(results, units, strengths, resolved, memory, at)
}

/// Whether a worksheet holds all that describing formations to operations takes.
pub open spec fn inputs_supplied(
    results: Map<Operation, u64>,
    units: Seq<SimulationUnit>,
) -> bool {
    forall|k: int|
        0 <= k < units.len() && real_of(0).lt((#[trigger] units[k]).combat.max_health)
            ==> results.contains_key(
            Operation::Quotient(units[k].combat.health, units[k].combat.max_health),
        )
}

/// The formations as operational planning sees them.
pub fn operational_unit_inputs(
    units: &Vec<SimulationUnit>,
    strengths: &Vec<Real>,
    resolved: Option<&BTreeMap<u64, BattlefieldUnitResult>>,
    memory: Option<&BTreeMap<u64, BattlefieldUnitState>>,
    reader: &mut Reader<'_>,
) -> (outcome: Result<Vec<OperationalUnitInput>, RuntimeError>)
    requires
        old(reader).sound(),
        strengths@.len() == units@.len(),
        forall|i: int| 0 <= i < units@.len() ==> (#[trigger] units@[i]).combat.side <= usize::MAX,
    ensures
        final(reader)@ == old(reader)@,
        final(reader).sound(),
        final(reader).complete() ==> old(reader).complete() && ({
            let expected = collected(
                operational_inputs(
                    old(reader)@,
                    units@,
                    strengths@,
                    optional_map(resolved),
                    optional_map(memory),
                ),
                units@.len(),
            );
            match outcome {
                Ok(inputs) => expected == Ok::<Seq<OperationalUnitInput>, RuntimeError>(inputs@),
                Err(error) => expected == Err::<Seq<OperationalUnitInput>, RuntimeError>(error),
            }
        }),
        old(reader).complete() && inputs_supplied(old(reader)@, units@) ==>
            final(reader).complete(),
{
    broadcast use vstd::std_specs::btree::group_btree_axioms;

    let ghost results = reader@;
    let ghost untouched = reader.complete();
    let ghost entry = operational_inputs(
        results,
        units@,
        strengths@,
        optional_map(resolved),
        optional_map(memory),
    );
    let mut inputs: Vec<OperationalUnitInput> = Vec::new();
    let mut at: usize = 0;
    while at < units.len()
        invariant
            at <= units@.len(),
            strengths@.len() == units@.len(),
            forall|i: int|
                0 <= i < units@.len() ==> (#[trigger] units@[i]).combat.side <= usize::MAX,
            entry == operational_inputs(
                results,
                units@,
                strengths@,
                optional_map(resolved),
                optional_map(memory),
            ),
            results == old(reader)@,
            untouched == old(reader).complete(),
            reader@ == results,
            reader.sound(),
            reader.complete() ==> untouched && collected(entry, at as nat) == Ok::<
                Seq<OperationalUnitInput>,
                RuntimeError,
            >(inputs@),
            untouched && inputs_supplied(results, units@) ==> reader.complete(),
        decreases units@.len() - at,
    {
        broadcast use vstd::std_specs::btree::group_btree_axioms;

        let unit = units[at];
        let id: u64 = unit.combat.id;
        assert(entry(at as int) == operational_input(
            results,
            units@,
            strengths@,
            optional_map(resolved),
            optional_map(memory),
            at as int,
        ));
        if unit.combat.sovereign > 0xffff {
            proof {
                if reader.complete() {
                    lemma_collected_fail(entry, (at + 1) as nat, units@.len());
                }
            }
            return Err(RuntimeError::InvalidCheckpoint("invalid unit sovereign"));
        }
        let readiness = if Real::zero().less(unit.combat.max_health) {
            reader.quotient(unit.combat.health, unit.combat.max_health).clamped(
                Real::zero(),
                Real::one(),
            )
        } else {
            Real::zero()
        };
        let supply_collapsed_tick: Option<u64> = match memory {
            Some(table) => match table.get(&id) {
                Some(state) => state.supply_collapsed_tick,
                None => None,
            },
            None => None,
        };
        let encircled_ticks: u64 = match resolved {
            Some(table) => match table.get(&id) {
                Some(result) => result.encircled_ticks,
                None => 0,
            },
            None => 0,
        };
        inputs.push(
            OperationalUnitInput {
                unit_id: id,
                side_index: unit.combat.side as usize,
                country_id: unit.combat.sovereign as u16,
                position: OperationalPoint { lat: unit.combat.lat, lng: unit.combat.lng },
                power: strengths[at].larger(Real::zero()),
                readiness,
                supply_collapsed_tick,
                encircled_ticks,
            },
        );
        at = at + 1;
    }
    Ok(inputs)
}

#[derive(Clone, Copy, Debug, PartialEq, Eq, Structural)]
pub enum NavalOperationKind {
    Invasion,
    Reinforcement,
    Evacuation,
}

#[derive(Clone, Copy, Debug, PartialEq, Eq, Structural)]
pub enum NavalOperationPhase {
    Assembling,
    Embarking,
    Transit,
    Landing,
    Complete,
}

/// An operation over the sea.
#[derive(Clone, Debug)]
pub struct NavalOperation {
    pub id: String,
    pub signature: String,
    pub kind: NavalOperationKind,
    pub phase: NavalOperationPhase,
    pub side: usize,
    pub enemy_side: Option<usize>,
    pub target: OperationalPoint,
    pub member_unit_ids: Vec<u64>,
}

/// Formations that answer a threat.
#[derive(Clone, Debug)]
pub struct DefenderReaction {
    pub signature: String,
    pub unit_ids: Vec<u64>,
}

/// What the runtime reads of operational execution.
#[derive(Clone, Debug)]
pub struct OperationalExecutionState {
    pub naval_operations: Vec<NavalOperation>,
    pub defender_reactions: Vec<DefenderReaction>,
}

/// Whether operational planning claims a unit.
pub open spec fn claimed_by_forces(forces: Seq<ForceModel>, unit_id: u64) -> bool {
    belongs_from(forces, unit_id, 0)
}

/// Whether operational execution claims a unit.
pub open spec fn claimed_by_execution(execution: OperationalExecutionState, unit_id: u64) -> bool {
    ||| exists|i: int|
        0 <= i < execution.naval_operations@.len() && (
        #[trigger] execution.naval_operations@[i]).member_unit_ids@.contains(unit_id)
    ||| exists|i: int|
        0 <= i < execution.defender_reactions@.len() && (
        #[trigger] execution.defender_reactions@[i]).unit_ids@.contains(unit_id)
}

/// Whether a unit is claimed at all.
pub open spec fn operationally_claimed(
    operations: Option<&OperationalRuntimeState>,
    execution: Option<&OperationalExecutionState>,
    unit_id: u64,
) -> bool {
    ||| operations matches Some(state) && claimed_by_forces(state@.task_forces, unit_id)
    ||| execution matches Some(state) && claimed_by_execution(*state, unit_id)
}

fn claim_all(claimed: &mut BTreeSet<u64>, ids: &Vec<u64>)
    ensures
        forall|id: u64|
            #[trigger] final(claimed)@.contains(id) == (old(claimed)@.contains(id)
                || ids@.contains(id)),
{
    broadcast use vstd::std_specs::btree::group_btree_axioms;

    let ghost before = claimed@;
    let mut at: usize = 0;
    while at < ids.len()
        invariant
            at <= ids@.len(),
            forall|id: u64|
                #[trigger] claimed@.contains(id) == (before.contains(id) || ids@.take(
                    at as int,
                ).contains(id)),
        decreases ids@.len() - at,
    {
        broadcast use vstd::std_specs::btree::group_btree_axioms;

        let ghost earlier = claimed@;
        claimed.insert(ids[at]);
        proof {
            assert(ids@.take(at + 1) =~= ids@.take(at as int).push(ids@[at as int]));
            assert forall|id: u64| #[trigger] claimed@.contains(id) == (before.contains(id)
                || ids@.take(at + 1).contains(id)) by {
                lemma_push_contains(ids@.take(at as int), ids@[at as int], id);
                assert(earlier.contains(id) == (before.contains(id) || ids@.take(
                    at as int,
                ).contains(id)));
            }
        }
        at = at + 1;
    }
    assert(ids@.take(ids@.len() as int) =~= ids@);
}

fn member_ids(members: &Vec<TaskForceMember>) -> (ids: Vec<u64>)
    ensures
        forall|id: u64| #[trigger] ids@.contains(id) == has_member(members@, id),
{
    let mut ids: Vec<u64> = Vec::new();
    let mut at: usize = 0;
    while at < members.len()
        invariant
            at <= members@.len(),
            ids@.len() == at,
            forall|i: int| 0 <= i < at ==> #[trigger] ids@[i] == members@[i].unit_id,
        decreases members@.len() - at,
    {
        ids.push(members[at].unit_id);
        at = at + 1;
    }
    proof {
        assert forall|id: u64| #[trigger] ids@.contains(id) == has_member(members@, id) by {
            if ids@.contains(id) {
                let i = choose|i: int| 0 <= i < ids@.len() && ids@[i] == id;
                assert(members@[i].unit_id == id);
            }
            if has_member(members@, id) {
                let i = choose|i: int|
                    0 <= i < members@.len() && (#[trigger] members@[i]).unit_id == id;
                assert(ids@[i] == id);
            }
        }
    }
    ids
}

/// The units that operations claim.
pub fn operational_claimed_unit_ids(
    operations: Option<&OperationalRuntimeState>,
    execution: Option<&OperationalExecutionState>,
) -> (claimed: BTreeSet<u64>)
    ensures
        forall|id: u64|
            #[trigger] claimed@.contains(id) == operationally_claimed(operations, execution, id),
{
    broadcast use vstd::std_specs::btree::group_btree_axioms;

    let mut claimed: BTreeSet<u64> = BTreeSet::new();
    if let Some(state) = operations {
        let ghost forces = state@.task_forces;
        let mut at: usize = 0;
        while at < state.task_forces.len()
            invariant
                at <= state.task_forces@.len(),
                forces == state@.task_forces,
                forall|id: u64|
                    #[trigger] claimed@.contains(id) == belongs_from(
                        forces.take(at as int),
                        id,
                        0,
                    ),
            decreases state.task_forces@.len() - at,
        {
            let force = &state.task_forces[at];
            assert(forces[at as int] == force@);
            let ids = member_ids(&force.members);
            let ghost earlier = claimed@;
            claim_all(&mut claimed, &ids);
            proof {
                let shorter = forces.take(at as int);
                let longer = forces.take(at + 1);
                assert forall|id: u64| #[trigger] claimed@.contains(id) == belongs_from(
                    longer,
                    id,
                    0,
                ) by {
                    assert(earlier.contains(id) == belongs_from(shorter, id, 0));
                    if belongs_from(shorter, id, 0) {
                        let f = choose|f: int|
                            0 <= f < shorter.len() && has_member(
                                (#[trigger] shorter[f]).members,
                                id,
                            );
                        assert(longer[f] == shorter[f]);
                    }
                    if belongs_from(longer, id, 0) {
                        let f = choose|f: int|
                            0 <= f < longer.len() && has_member(
                                (#[trigger] longer[f]).members,
                                id,
                            );
                        if f < at {
                            assert(shorter[f] == longer[f]);
                        }
                    }
                    assert(longer[at as int].members == force.members@);
                    assert(ids@.contains(id) == has_member(force.members@, id));
                }
            }
            at = at + 1;
        }
        assert(forces.take(forces.len() as int) =~= forces);
    }
    let ghost planned = claimed@;
    if let Some(state) = execution {
        let operations_list = &state.naval_operations;
        let mut at: usize = 0;
        while at < operations_list.len()
            invariant
                at <= operations_list@.len(),
                operations_list@ == state.naval_operations@,
                forall|id: u64|
                    #[trigger] claimed@.contains(id) == (planned.contains(id) || exists|i: int|
                        0 <= i < at && (
                        #[trigger] operations_list@[i]).member_unit_ids@.contains(id)),
            decreases operations_list@.len() - at,
        {
            let ghost earlier = claimed@;
            claim_all(&mut claimed, &operations_list[at].member_unit_ids);
            proof {
                assert forall|id: u64| #[trigger] claimed@.contains(id) == (planned.contains(id)
                    || exists|i: int|
                    0 <= i < at + 1 && (#[trigger] operations_list@[i]).member_unit_ids@.contains(
                        id,
                    )) by {
                    assert(earlier.contains(id) == (planned.contains(id) || exists|i: int|
                        0 <= i < at && (
                        #[trigger] operations_list@[i]).member_unit_ids@.contains(id)));
                    assert(operations_list@[at as int].member_unit_ids@.contains(id)
                        == operations_list@[at as int].member_unit_ids@.contains(id));
                }
            }
            at = at + 1;
        }
        let ghost sailing = claimed@;
        let reactions = &state.defender_reactions;
        let mut index: usize = 0;
        while index < reactions.len()
            invariant
                index <= reactions@.len(),
                reactions@ == state.defender_reactions@,
                forall|id: u64|
                    #[trigger] claimed@.contains(id) == (sailing.contains(id) || exists|i: int|
                        0 <= i < index && (#[trigger] reactions@[i]).unit_ids@.contains(id)),
            decreases reactions@.len() - index,
        {
            let ghost earlier = claimed@;
            claim_all(&mut claimed, &reactions[index].unit_ids);
            proof {
                assert forall|id: u64| #[trigger] claimed@.contains(id) == (sailing.contains(id)
                    || exists|i: int|
                    0 <= i < index + 1 && (#[trigger] reactions@[i]).unit_ids@.contains(id)) by {
                    assert(earlier.contains(id) == (sailing.contains(id) || exists|i: int|
                        0 <= i < index && (#[trigger] reactions@[i]).unit_ids@.contains(id)));
                    assert(reactions@[index as int].unit_ids@.contains(id)
                        == reactions@[index as int].unit_ids@.contains(id));
                }
            }
            index = index + 1;
        }
        proof {
            assert forall|id: u64| #[trigger] claimed@.contains(id) == operationally_claimed(
                operations,
                execution,
                id,
            ) by {
                assert(sailing.contains(id) == (planned.contains(id) || exists|i: int|
                    0 <= i < state.naval_operations@.len() && (
                    #[trigger] state.naval_operations@[i]).member_unit_ids@.contains(id)));
            }
        }
    }
    claimed
}

/// A formation as operational execution sees it.
#[derive(Clone, Copy, Debug, PartialEq, Eq, Structural)]
pub struct ExecutionUnitInput {
    pub unit_id: u64,
    pub side: usize,
    pub country: u16,
    pub position: OperationalPoint,
    pub transport: bool,
    pub at_sea: bool,
    pub deploying: bool,
    pub engaged: bool,
    pub operationally_assigned: bool,
}

/// Whether a formation fights or flees.
pub open spec fn engaged(assignments: Seq<FrontAssignmentRecord>, unit_id: u64) -> bool {
    exists|i: int|
        0 <= i < assignments.len() && (#[trigger] assignments[i]).unit_id == unit_id && (
        assignments[i].reason is Contact || assignments[i].reason is Retreat)
}

/// The formations that fight or flee.
pub fn engaged_units(assignments: &Vec<FrontAssignmentRecord>) -> (units: BTreeSet<u64>)
    ensures
        forall|id: u64| #[trigger] units@.contains(id) == engaged(assignments@, id),
{
    broadcast use vstd::std_specs::btree::group_btree_axioms;

    let mut units: BTreeSet<u64> = BTreeSet::new();
    let mut at: usize = 0;
    assert(assignments@.take(0) =~= Seq::<FrontAssignmentRecord>::empty());
    while at < assignments.len()
        invariant
            at <= assignments@.len(),
            forall|id: u64|
                #[trigger] units@.contains(id) == engaged(assignments@.take(at as int), id),
        decreases assignments@.len() - at,
    {
        broadcast use vstd::std_specs::btree::group_btree_axioms;

        let record = assignments[at];
        let ghost earlier = units@;
        if record.reason == AssignmentReason::Contact || record.reason
            == AssignmentReason::Retreat {
            units.insert(record.unit_id);
        }
        proof {
            let shorter = assignments@.take(at as int);
            let longer = assignments@.take(at + 1);
            assert forall|id: u64| #[trigger] units@.contains(id) == engaged(longer, id) by {
                assert(earlier.contains(id) == engaged(shorter, id));
                if engaged(shorter, id) {
                    let i = choose|i: int|
                        0 <= i < shorter.len() && (#[trigger] shorter[i]).unit_id == id && (
                        shorter[i].reason is Contact || shorter[i].reason is Retreat);
                    assert(longer[i] == shorter[i]);
                }
                if engaged(longer, id) {
                    let i = choose|i: int|
                        0 <= i < longer.len() && (#[trigger] longer[i]).unit_id == id && (
                        longer[i].reason is Contact || longer[i].reason is Retreat);
                    if i < at {
                        assert(shorter[i] == longer[i]);
                    }
                }
                assert(longer[at as int] == record);
            }
        }
        at = at + 1;
    }
    assert(assignments@.take(assignments@.len() as int) =~= assignments@);
    units
}

pub open spec fn execution_input(
    units: Seq<SimulationUnit>,
    policies: Policies,
    tick: u64,
    resolved: Option<Map<u64, BattlefieldUnitResult>>,
    assignments: Seq<FrontAssignmentRecord>,
    forces: Option<Seq<ForceModel>>,
    at: int,
) -> Option<Result<ExecutionUnitInput, RuntimeError>> {
    let unit = units[at];
    let id = unit.combat.id;
    if !policies.contains_key(id) {
        Some(Err(RuntimeError::InvalidUnitPolicy(id)))
    } else if unit.combat.side > usize::MAX {
        Some(Err(RuntimeError::InvalidCheckpoint("unit side exceeds platform")))
    } else if unit.combat.sovereign > u16::MAX {
        Some(Err(RuntimeError::InvalidCheckpoint("invalid unit sovereign")))
    } else {
        Some(
            Ok(
                ExecutionUnitInput {
                    unit_id: id,
                    side: unit.combat.side as usize,
                    country: unit.combat.sovereign as u16,
                    position: OperationalPoint { lat: unit.combat.lat, lng: unit.combat.lng },
                    transport: unit.combat.transport,
                    at_sea: sails(unit, resolved),
                    deploying: deploying(policies[id], tick),
                    engaged: engaged(assignments, id),
                    operationally_assigned: policies[id].ai.garrison_excluded || (
                    forces matches Some(all) && belongs_from(all, id, 0)),
                },
            ),
        )
    }
}

pub open spec fn execution_inputs(
    units: Seq<SimulationUnit>,
    policies: Policies,
    tick: u64,
    resolved: Option<Map<u64, BattlefieldUnitResult>>,
    assignments: Seq<FrontAssignmentRecord>,
    forces: Option<Seq<ForceModel>>,
) -> spec_fn(int) -> Option<Result<ExecutionUnitInput, RuntimeError>> {
    |at: int| execution_input(units, policies, tick, resolved, assignments, forces, at)
}

pub open spec fn forces_of(operations: Option<&OperationalRuntimeState>) -> Option<
    Seq<ForceModel>,
> {
    match operations {
        Some(state) => Some(state@.task_forces),
        None => None,
    }
}

/// The formations as operational execution sees them.
pub fn execution_unit_inputs(
    units: &Vec<SimulationUnit>,
    policies: &BTreeMap<u64, RuntimeUnitPolicy>,
    tick: u64,
    resolved: Option<&BTreeMap<u64, BattlefieldUnitResult>>,
    assignments: &Vec<FrontAssignmentRecord>,
    operations: Option<&OperationalRuntimeState>,
) -> (outcome: Result<Vec<ExecutionUnitInput>, RuntimeError>)
    ensures
        ({
            let expected = collected(
                execution_inputs(
                    units@,
                    policies_view(policies@),
                    tick,
                    optional_map(resolved),
                    assignments@,
                    forces_of(operations),
                ),
                units@.len(),
            );
            match outcome {
                Ok(inputs) => expected == Ok::<Seq<ExecutionUnitInput>, RuntimeError>(inputs@),
                Err(error) => expected == Err::<Seq<ExecutionUnitInput>, RuntimeError>(error),
            }
        }),
{
    broadcast use vstd::std_specs::btree::group_btree_axioms;

    let ghost shown = policies_view(policies@);
    let ghost entry = execution_inputs(
        units@,
        shown,
        tick,
        optional_map(resolved),
        assignments@,
        forces_of(operations),
    );
    let fighting = engaged_units(assignments);
    let mut inputs: Vec<ExecutionUnitInput> = Vec::new();
    let mut at: usize = 0;
    while at < units.len()
        invariant
            at <= units@.len(),
            shown == policies_view(policies@),
            forall|id: u64| #[trigger] fighting@.contains(id) == engaged(assignments@, id),
            entry == execution_inputs(
                units@,
                shown,
                tick,
                optional_map(resolved),
                assignments@,
                forces_of(operations),
            ),
            collected(entry, at as nat) == Ok::<Seq<ExecutionUnitInput>, RuntimeError>(inputs@),
        decreases units@.len() - at,
    {
        broadcast use vstd::std_specs::btree::group_btree_axioms;

        let unit = units[at];
        let id: u64 = unit.combat.id;
        assert(shown.contains_key(id) == policies@.contains_key(id));
        assert(entry(at as int) == execution_input(
            units@,
            shown,
            tick,
            optional_map(resolved),
            assignments@,
            forces_of(operations),
            at as int,
        ));
        let policy = match policies.get(&id) {
            Some(policy) => policy,
            None => {
                proof {
                    lemma_collected_fail(entry, (at + 1) as nat, units@.len());
                }
                return Err(RuntimeError::InvalidUnitPolicy(id));
            },
        };
        assert(shown[id] == policy@);
        if unit.combat.side > usize::MAX as u64 {
            proof {
                lemma_collected_fail(entry, (at + 1) as nat, units@.len());
            }
            return Err(RuntimeError::InvalidCheckpoint("unit side exceeds platform"));
        }
        if unit.combat.sovereign > 0xffff {
            proof {
                lemma_collected_fail(entry, (at + 1) as nat, units@.len());
            }
            return Err(RuntimeError::InvalidCheckpoint("invalid unit sovereign"));
        }
        let assigned = match operations {
            Some(state) => state.contains_unit(id),
            None => false,
        };
        inputs.push(
            ExecutionUnitInput {
                unit_id: id,
                side: unit.combat.side as usize,
                country: unit.combat.sovereign as u16,
                position: OperationalPoint { lat: unit.combat.lat, lng: unit.combat.lng },
                transport: unit.combat.transport,
                at_sea: crate::runtime::planning::is_at_sea(&unit, resolved),
                deploying: unit_deploying(policy, tick),
                engaged: fighting.contains(&id),
                operationally_assigned: policy.ai.garrison_excluded || assigned,
            },
        );
        at = at + 1;
    }
    Ok(inputs)
}

#[derive(Clone, Copy, Debug, PartialEq, Eq, Structural)]
pub enum DefenderThreatKind {
    NavalInvasion,
    LandOffensive,
}

#[derive(Clone, Copy, Debug, PartialEq, Eq, Structural)]
pub enum DefenderThreatPhase {
    Transit,
    Landing,
    Execution,
}

/// A threat that defenders may answer.
#[derive(Debug)]
pub struct DefenderThreat {
    pub signature: String,
    pub defender_side: usize,
    pub enemy_side: usize,
    pub kind: DefenderThreatKind,
    pub phase: DefenderThreatPhase,
    pub target: OperationalPoint,
    pub enemy_force: usize,
    pub active: bool,
}

/// What a [`DefenderThreat`] says.
pub ghost struct ThreatModel {
    pub signature: Seq<char>,
    pub defender_side: usize,
    pub enemy_side: usize,
    pub kind: DefenderThreatKind,
    pub phase: DefenderThreatPhase,
    pub target: OperationalPoint,
    pub enemy_force: nat,
    pub active: bool,
}

impl View for DefenderThreat {
    type V = ThreatModel;

    open spec fn view(&self) -> ThreatModel {
        ThreatModel {
            signature: self.signature@,
            defender_side: self.defender_side,
            enemy_side: self.enemy_side,
            kind: self.kind,
            phase: self.phase,
            target: self.target,
            enemy_force: self.enemy_force as nat,
            active: self.active,
        }
    }
}

impl Ranked for DefenderThreat {
    open spec fn ranks_before(self, other: Self) -> bool {
        text_before(self.signature@, other.signature@)
    }

    fn is_before(&self, other: &Self) -> (answer: bool) {
        precedes(self.signature.as_str(), other.signature.as_str())
    }
}

pub open spec fn threat_order() -> spec_fn(ThreatModel, ThreatModel) -> bool {
    |left: ThreatModel, right: ThreatModel| text_before(left.signature, right.signature)
}

/// Whether one side attacks another with cause.
pub open spec fn at_war(
    hostility: Seq<u8>,
    side_count: usize,
    attacker: usize,
    defender: usize,
) -> bool {
    attacker < side_count && defender < side_count && table_hostile(
        hostility,
        side_count as int,
        attacker as int,
        defender as int,
    )
}

fn is_at_war(hostility: &Vec<u8>, side_count: usize, attacker: usize, defender: usize) -> (answer:
    bool)
    requires
        hostility@.len() == side_count * side_count,
    ensures
        answer == at_war(hostility@, side_count, attacker, defender),
{
    if attacker >= side_count || defender >= side_count {
        return false;
    }
    proof {
        crate::strategic::lemma_square(attacker as int, defender as int, side_count as int);
        assert(hostility@.len() == hostility.len());
        assert(0 <= attacker * side_count) by (nonlinear_arith)
            requires
                0 <= attacker,
                0 <= side_count,
        ;
    }
    hostility[attacker * side_count + defender] == 1
}

/// How many of the first units of a side are near a place.
pub open spec fn units_near(
    results: Map<Operation, u64>,
    units: Seq<ExecutionUnitInput>,
    side: usize,
    target: OperationalPoint,
    limit: Real,
    count: nat,
) -> nat
    decreases count,
{
    if count == 0 {
        0
    } else {
        let rest = units_near(results, units, side, target, limit, (count - 1) as nat);
        let unit = units[count - 1];
        if unit.side == side && distance_squared(results, unit.position, target).lt(limit) {
            rest + 1
        } else {
            rest
        }
    }
}

pub open spec fn has_unit(units: Seq<ExecutionUnitInput>, unit_id: u64) -> bool {
    exists|i: int| 0 <= i < units.len() && (#[trigger] units[i]).unit_id == unit_id
}

/// How many of the first members are among the units.
pub open spec fn members_present(
    members: Seq<u64>,
    units: Seq<ExecutionUnitInput>,
    count: nat,
) -> nat
    decreases count,
{
    if count == 0 {
        0
    } else if has_unit(units, members[count - 1]) {
        members_present(members, units, (count - 1) as nat) + 1
    } else {
        members_present(members, units, (count - 1) as nat)
    }
}

/// What threats depend on.
pub ghost struct ThreatScope {
    pub units: Seq<ExecutionUnitInput>,
    pub territory: TerritoryControl,
    pub hostility: Seq<u8>,
    pub side_count: usize,
}

/// The threat of an invasion over the sea, while it is under way or lands.
pub open spec fn naval_threat(
    results: Map<Operation, u64>,
    scope: ThreatScope,
    operation: NavalOperation,
) -> Option<ThreatModel> {
    let defender = match operation.enemy_side {
        Some(side) => Some(side),
        None => holder_of(results, scope.territory, operation.target),
    };
    if !(operation.kind is Invasion) || !(operation.phase is Transit || operation.phase is Landing)
        || defender is None || defender->Some_0 == operation.side || !at_war(
        scope.hostility,
        scope.side_count,
        operation.side,
        defender->Some_0,
    ) {
        None
    } else {
        Some(
            ThreatModel {
                signature: operation.signature@,
                defender_side: defender->Some_0,
                enemy_side: operation.side,
                kind: DefenderThreatKind::NavalInvasion,
                phase: if operation.phase is Transit {
                    DefenderThreatPhase::Transit
                } else {
                    DefenderThreatPhase::Landing
                },
                target: operation.target,
                enemy_force: if operation.phase is Transit {
                    members_present(
                        operation.member_unit_ids@,
                        scope.units,
                        operation.member_unit_ids@.len(),
                    )
                } else {
                    units_near(
                        results,
                        scope.units,
                        operation.side,
                        operation.target,
                        real_of(N_4),
                        scope.units.len(),
                    )
                },
                active: true,
            },
        )
    }
}

/// The threat of a task force that attacks.
pub open spec fn land_threat(
    results: Map<Operation, u64>,
    scope: ThreatScope,
    force: ForceModel,
) -> Option<ThreatModel> {
    match force.target {
        None => None,
        Some(target) => {
            let defender = holder_of(results, scope.territory, target);
            if !(force.phase is Attacking) || defender is None || defender->Some_0
                == force.side_index || !at_war(
                scope.hostility,
                scope.side_count,
                force.side_index,
                defender->Some_0,
            ) {
                None
            } else {
                Some(
                    ThreatModel {
                        signature: force.plan_signature,
                        defender_side: defender->Some_0,
                        enemy_side: force.side_index,
                        kind: DefenderThreatKind::LandOffensive,
                        phase: DefenderThreatPhase::Execution,
                        target,
                        enemy_force: units_near(
                            results,
                            scope.units,
                            force.side_index,
                            target,
                            real_of(N_9),
                            scope.units.len(),
                        ),
                        active: true,
                    },
                )
            }
        },
    }
}

/// The threats of the first naval operations.
pub open spec fn naval_threats(
    results: Map<Operation, u64>,
    scope: ThreatScope,
    operations: Seq<NavalOperation>,
    count: nat,
) -> Seq<ThreatModel>
    decreases count,
{
    if count == 0 {
        Seq::empty()
    } else {
        let rest = naval_threats(results, scope, operations, (count - 1) as nat);
        match naval_threat(results, scope, operations[count - 1]) {
            Some(threat) => rest.push(threat),
            None => rest,
        }
    }
}

/// Threats followed by those of the first task forces.
pub open spec fn with_land_threats(
    results: Map<Operation, u64>,
    scope: ThreatScope,
    naval: Seq<ThreatModel>,
    forces: Seq<ForceModel>,
    count: nat,
) -> Seq<ThreatModel>
    decreases count,
{
    if count == 0 {
        naval
    } else {
        let rest = with_land_threats(results, scope, naval, forces, (count - 1) as nat);
        match land_threat(results, scope, forces[count - 1]) {
            Some(threat) => rest.push(threat),
            None => rest,
        }
    }
}

/// All threats, in the order of their signatures.
pub open spec fn threats_of(
    results: Map<Operation, u64>,
    scope: ThreatScope,
    operations: Seq<NavalOperation>,
    forces: Option<Seq<ForceModel>>,
) -> Seq<ThreatModel> {
    let naval = naval_threats(results, scope, operations, operations.len());
    stable_sorted(
        match forces {
            Some(all) => with_land_threats(results, scope, naval, all, all.len()),
            None => naval,
        },
        threat_order(),
    )
}

/// Whether a worksheet holds all that counting formations around a place takes.
pub open spec fn surroundings_supplied(
    results: Map<Operation, u64>,
    units: Seq<ExecutionUnitInput>,
    side: usize,
    target: OperationalPoint,
) -> bool {
    forall|k: int|
        0 <= k < units.len() && (#[trigger] units[k]).side == side ==> way_supplied(
            results,
            units[k].position,
            target,
        )
}

fn count_near(
    units: &Vec<ExecutionUnitInput>,
    side: usize,
    target: OperationalPoint,
    limit: Real,
    reader: &mut Reader<'_>,
) -> (count: usize)
    requires
        old(reader).sound(),
    ensures
        final(reader)@ == old(reader)@,
        final(reader).sound(),
        final(reader).complete() ==> old(reader).complete() && count == units_near(
            old(reader)@,
            units@,
            side,
            target,
            limit,
            units@.len(),
        ),
        old(reader).complete() && surroundings_supplied(old(reader)@, units@, side, target) ==>
            final(reader).complete(),
{
    let ghost results = reader@;
    let ghost untouched = reader.complete();
    let mut count: usize = 0;
    let mut at: usize = 0;
    while at < units.len()
        invariant
            at <= units@.len(),
            count <= at,
            reader@ == results,
            reader.sound(),
            reader.complete() ==> untouched && count == units_near(
                results,
                units@,
                side,
                target,
                limit,
                at as nat,
            ),
            untouched && surroundings_supplied(results, units@, side, target) ==> reader.complete(),
        decreases units@.len() - at,
    {
        let unit = units[at];
        if unit.side == side {
            let distance = crate::taskforce::distance_sq(unit.position, target, reader);
            if distance.less(limit) {
                count = count + 1;
            }
        }
        at = at + 1;
    }
    count
}

fn is_present(units: &Vec<ExecutionUnitInput>, unit_id: u64) -> (found: bool)
    ensures
        found == has_unit(units@, unit_id),
{
    let mut at: usize = 0;
    while at < units.len()
        invariant
            at <= units@.len(),
            forall|i: int| 0 <= i < at ==> (#[trigger] units@[i]).unit_id != unit_id,
        decreases units@.len() - at,
    {
        if units[at].unit_id == unit_id {
            return true;
        }
        at = at + 1;
    }
    false
}

fn count_present(members: &Vec<u64>, units: &Vec<ExecutionUnitInput>) -> (count: usize)
    ensures
        count == members_present(members@, units@, members@.len()),
{
    let mut count: usize = 0;
    let mut at: usize = 0;
    while at < members.len()
        invariant
            at <= members@.len(),
            count <= at,
            count == members_present(members@, units@, at as nat),
        decreases members@.len() - at,
    {
        if is_present(units, members[at]) {
            count = count + 1;
        }
        at = at + 1;
    }
    count
}

/// Whether a worksheet holds all that judging an invasion takes.
pub open spec fn invasion_supplied(
    results: Map<Operation, u64>,
    scope: ThreatScope,
    operation: NavalOperation,
) -> bool {
    operation.kind is Invasion ==> {
        &&& operation.enemy_side is None ==> cell_supplied(
            results,
            scope.territory.grid,
            operation.target.lat,
            operation.target.lng,
        )
        &&& operation.phase is Landing ==> surroundings_supplied(
            results,
            scope.units,
            operation.side,
            operation.target,
        )
    }
}

/// Whether a worksheet holds all that judging an offensive takes.
pub open spec fn offensive_supplied(
    results: Map<Operation, u64>,
    scope: ThreatScope,
    force: ForceModel,
) -> bool {
    force.phase is Attacking ==> (force.target matches Some(target) ==> {
        &&& cell_supplied(results, scope.territory.grid, target.lat, target.lng)
        &&& surroundings_supplied(results, scope.units, force.side_index, target)
    })
}

/// Whether a worksheet holds all that judging offensives takes.
pub open spec fn offensives_supplied(
    results: Map<Operation, u64>,
    scope: ThreatScope,
    forces: Seq<ForceModel>,
) -> bool {
    forall|k: int|
        0 <= k < forces.len() ==> offensive_supplied(results, scope, #[trigger] forces[k])
}

/// Whether a worksheet holds all that judging all threats takes.
pub open spec fn threats_supplied(
    results: Map<Operation, u64>,
    scope: ThreatScope,
    operations: Seq<NavalOperation>,
    forces: Option<Seq<ForceModel>>,
) -> bool {
    &&& forall|k: int|
        0 <= k < operations.len() ==> invasion_supplied(results, scope, #[trigger] operations[k])
    &&& forces matches Some(all) ==> offensives_supplied(results, scope, all)
}

fn find_naval_threat(
    operation: &NavalOperation,
    units: &Vec<ExecutionUnitInput>,
    territory: &TerritoryControl,
    hostility: &Vec<u8>,
    side_count: usize,
    reader: &mut Reader<'_>,
) -> (threat: Option<DefenderThreat>)
    requires
        old(reader).sound(),
        territory.well_formed(),
        hostility@.len() == side_count * side_count,
    ensures
        final(reader)@ == old(reader)@,
        final(reader).sound(),
        final(reader).complete() ==> old(reader).complete() && ({
            let scope = ThreatScope {
                units: units@,
                territory: *territory,
                hostility: hostility@,
                side_count,
            };
            match threat {
                Some(given) => naval_threat(old(reader)@, scope, *operation) == Some(given@),
                None => naval_threat(old(reader)@, scope, *operation) is None,
            }
        }),
        old(reader).complete() && invasion_supplied(
            old(reader)@,
            ThreatScope {
                units: units@,
                territory: *territory,
                hostility: hostility@,
                side_count,
            },
            *operation,
        ) ==> final(reader).complete(),
{
    if operation.kind != NavalOperationKind::Invasion {
        return None;
    }
    let phase = match operation.phase {
        NavalOperationPhase::Transit => DefenderThreatPhase::Transit,
        NavalOperationPhase::Landing => DefenderThreatPhase::Landing,
        _ => {
            return None;
        },
    };
    let holder = match operation.enemy_side {
        Some(side) => Some(side),
        None => controlled_side_at_point(territory, operation.target, reader),
    };
    let defender_side: usize = match holder {
        Some(side) => side,
        None => {
            return None;
        },
    };
    if defender_side == operation.side || !is_at_war(
        hostility,
        side_count,
        operation.side,
        defender_side,
    ) {
        return None;
    }
    let enemy_force: usize = if phase == DefenderThreatPhase::Transit {
        count_present(&operation.member_unit_ids, units)
    } else {
        count_near(units, operation.side, operation.target, Real::from_bits(N_4), reader)
    };
    Some(
        DefenderThreat {
            signature: operation.signature.clone(),
            defender_side,
            enemy_side: operation.side,
            kind: DefenderThreatKind::NavalInvasion,
            phase,
            target: operation.target,
            enemy_force,
            active: true,
        },
    )
}

fn find_land_threat(
    force: &OperationalTaskForce,
    units: &Vec<ExecutionUnitInput>,
    territory: &TerritoryControl,
    hostility: &Vec<u8>,
    side_count: usize,
    reader: &mut Reader<'_>,
) -> (threat: Option<DefenderThreat>)
    requires
        old(reader).sound(),
        territory.well_formed(),
        hostility@.len() == side_count * side_count,
    ensures
        final(reader)@ == old(reader)@,
        final(reader).sound(),
        final(reader).complete() ==> old(reader).complete() && ({
            let scope = ThreatScope {
                units: units@,
                territory: *territory,
                hostility: hostility@,
                side_count,
            };
            match threat {
                Some(given) => land_threat(old(reader)@, scope, force@) == Some(given@),
                None => land_threat(old(reader)@, scope, force@) is None,
            }
        }),
        old(reader).complete() && offensive_supplied(
            old(reader)@,
            ThreatScope {
                units: units@,
                territory: *territory,
                hostility: hostility@,
                side_count,
            },
            force@,
        ) ==> final(reader).complete(),
{
    if force.phase != TaskForcePhase::Attacking {
        return None;
    }
    let target = match force.target {
        Some(target) => target,
        None => {
            return None;
        },
    };
    let defender_side: usize = match controlled_side_at_point(territory, target, reader) {
        Some(side) => side,
        None => {
            return None;
        },
    };
    if defender_side == force.side_index || !is_at_war(
        hostility,
        side_count,
        force.side_index,
        defender_side,
    ) {
        return None;
    }
    let enemy_force: usize = count_near(
        units,
        force.side_index,
        target,
        Real::from_bits(N_9),
        reader,
    );
    Some(
        DefenderThreat {
            signature: force.plan_signature.clone(),
            defender_side,
            enemy_side: force.side_index,
            kind: DefenderThreatKind::LandOffensive,
            phase: DefenderThreatPhase::Execution,
            target,
            enemy_force,
            active: true,
        },
    )
}

/// The threats that defenders may answer.
pub fn defender_threats(
    execution: &OperationalExecutionState,
    operations: Option<&OperationalRuntimeState>,
    units: &Vec<ExecutionUnitInput>,
    territory: &TerritoryControl,
    hostility: &Vec<u8>,
    side_count: usize,
    reader: &mut Reader<'_>,
) -> (threats: Vec<DefenderThreat>)
    requires
        old(reader).sound(),
        territory.well_formed(),
        hostility@.len() == side_count * side_count,
    ensures
        final(reader)@ == old(reader)@,
        final(reader).sound(),
        final(reader).complete() ==> old(reader).complete() && views(threats@) == threats_of(
            old(reader)@,
            ThreatScope {
                units: units@,
                territory: *territory,
                hostility: hostility@,
                side_count,
            },
            execution.naval_operations@,
            forces_of(operations),
        ),
        old(reader).complete() && threats_supplied(
            old(reader)@,
            ThreatScope {
                units: units@,
                territory: *territory,
                hostility: hostility@,
                side_count,
            },
            execution.naval_operations@,
            forces_of(operations),
        ) ==> final(reader).complete(),
{
    let ghost results = reader@;
    let ghost untouched = reader.complete();
    let ghost scope = ThreatScope {
        units: units@,
        territory: *territory,
        hostility: hostility@,
        side_count,
    };
    let mut threats: Vec<DefenderThreat> = Vec::new();
    assert(views(threats@) =~= Seq::<ThreatModel>::empty());
    let mut at: usize = 0;
    while at < execution.naval_operations.len()
        invariant
            at <= execution.naval_operations@.len(),
            territory.well_formed(),
            hostility@.len() == side_count * side_count,
            scope == (ThreatScope {
                units: units@,
                territory: *territory,
                hostility: hostility@,
                side_count,
            }),
            reader@ == results,
            reader.sound(),
            reader.complete() ==> untouched && views(threats@) == naval_threats(
                results,
                scope,
                execution.naval_operations@,
                at as nat,
            ),
            untouched && threats_supplied(
                results,
                scope,
                execution.naval_operations@,
                forces_of(operations),
            ) ==> reader.complete(),
        decreases execution.naval_operations@.len() - at,
    {
        let found = find_naval_threat(
            &execution.naval_operations[at],
            units,
            territory,
            hostility,
            side_count,
            reader,
        );
        if let Some(threat) = found {
            proof {
                lemma_views_push(threats@, threat);
            }
            threats.push(threat);
        }
        at = at + 1;
    }
    let ghost naval = views(threats@);
    if let Some(state) = operations {
        let ghost forces = state@.task_forces;
        let mut index: usize = 0;
        while index < state.task_forces.len()
            invariant
                index <= state.task_forces@.len(),
                forces == state@.task_forces,
                territory.well_formed(),
                hostility@.len() == side_count * side_count,
                scope == (ThreatScope {
                    units: units@,
                    territory: *territory,
                    hostility: hostility@,
                    side_count,
                }),
                reader@ == results,
                reader.sound(),
                reader.complete() ==> untouched && naval == naval_threats(
                    results,
                    scope,
                    execution.naval_operations@,
                    execution.naval_operations@.len(),
                ) && views(threats@) == with_land_threats(
                    results,
                    scope,
                    naval,
                    forces,
                    index as nat,
                ),
                forces_of(operations) == Some(forces),
                untouched && threats_supplied(
                    results,
                    scope,
                    execution.naval_operations@,
                    forces_of(operations),
                ) ==> reader.complete() && offensives_supplied(
                    results,
                    scope,
                    forces,
                ),
            decreases state.task_forces@.len() - index,
        {
            assert(forces[index as int] == state.task_forces@[index as int]@);
            let found = find_land_threat(
                &state.task_forces[index],
                units,
                territory,
                hostility,
                side_count,
                reader,
            );
            if let Some(threat) = found {
                proof {
                    lemma_views_push(threats@, threat);
                }
                threats.push(threat);
            }
            index = index + 1;
        }
    }
    proof {
        lemma_sort_commutes(
            threats@,
            shown::<DefenderThreat>(),
            rank_order::<DefenderThreat>(),
            threat_order(),
        );
    }
    sort_stable(threats)
}

/// Where an operation sends a formation.
#[derive(Clone, Copy, Debug, PartialEq, Eq, Structural)]
pub struct SteeringEntry {
    pub unit_id: u64,
    pub movement_enabled: bool,
    pub dir_lat: Real,
    pub dir_lng: Real,
    pub speed_multiplier: Real,
}

/// The last steering for each unit among the first entries.
pub open spec fn steering_table(
    entries: Seq<SteeringEntry>,
    count: nat,
) -> Map<u64, SteeringEntry>
    decreases count,
{
    if count == 0 {
        Map::empty()
    } else {
        steering_table(entries, (count - 1) as nat).insert(
            entries[count - 1].unit_id,
            entries[count - 1],
        )
    }
}

/// An order after steering. Formations that fight or flee are left alone.
pub open spec fn steered_order(
    results: Map<Operation, u64>,
    orders: Seq<ResolvedUnitOrder>,
    table: Map<u64, SteeringEntry>,
    assignments: Seq<FrontAssignmentRecord>,
    reason: &'static str,
    at: int,
) -> Option<Result<ResolvedUnitOrder, RuntimeError>> {
    let order = orders[at];
    let steering = table[order.unit_id];
    if !table.contains_key(order.unit_id) || engaged(assignments, order.unit_id) {
        Some(Ok(order))
    } else {
        let speed = product(results, order.factors.plan_speed_mult, steering.speed_multiplier);
        if !speed.finite() {
            Some(Err(RuntimeError::InvalidCheckpoint(reason)))
        } else {
            Some(
                Ok(
                    ResolvedUnitOrder {
                        preferred_target_id: None,
                        movement_enabled: steering.movement_enabled,
                        dir_lat: steering.dir_lat,
                        dir_lng: steering.dir_lng,
                        factors: crate::units::MovementFactors {
                            plan_speed_mult: speed,
                            ..order.factors
                        },
                        ..order
                    },
                ),
            )
        }
    }
}

pub open spec fn steered_orders(
    results: Map<Operation, u64>,
    orders: Seq<ResolvedUnitOrder>,
    table: Map<u64, SteeringEntry>,
    assignments: Seq<FrontAssignmentRecord>,
    reason: &'static str,
) -> spec_fn(int) -> Option<Result<ResolvedUnitOrder, RuntimeError>> {
    |at: int| steered_order(results, orders, table, assignments, reason, at)
}

/// Whether a worksheet holds all that steering orders takes.
pub open spec fn orders_supplied(
    results: Map<Operation, u64>,
    orders: Seq<ResolvedUnitOrder>,
    table: Map<u64, SteeringEntry>,
    assignments: Seq<FrontAssignmentRecord>,
) -> bool {
    forall|k: int|
        0 <= k < orders.len() && table.contains_key((#[trigger] orders[k]).unit_id) && !engaged(
            assignments,
            orders[k].unit_id,
        ) ==> results.contains_key(
            Operation::Product(
                orders[k].factors.plan_speed_mult,
                table[orders[k].unit_id].speed_multiplier,
            ),
        )
}

/// Let operations steer the orders of a plan. Gives the units that they steer.
pub fn apply_operational_steering(
    orders: &Vec<ResolvedUnitOrder>,
    assignments: &Vec<FrontAssignmentRecord>,
    steering: &Vec<SteeringEntry>,
    reason: &'static str,
    reader: &mut Reader<'_>,
) -> (outcome: Result<(Vec<ResolvedUnitOrder>, BTreeSet<u64>), RuntimeError>)
    requires
        old(reader).sound(),
    ensures
        final(reader)@ == old(reader)@,
        final(reader).sound(),
        final(reader).complete() ==> old(reader).complete() && ({
            let table = steering_table(steering@, steering@.len());
            let expected = collected(
                steered_orders(old(reader)@, orders@, table, assignments@, reason),
                orders@.len(),
            );
            match outcome {
                Ok((steered, units)) => expected == Ok::<Seq<ResolvedUnitOrder>, RuntimeError>(
                    steered@,
                ) && units@ == table.dom(),
                Err(error) => expected == Err::<Seq<ResolvedUnitOrder>, RuntimeError>(error),
            }
        }),
        old(reader).complete() && orders_supplied(
            old(reader)@,
            orders@,
            steering_table(steering@, steering@.len()),
            assignments@,
        ) ==> final(reader).complete(),
{
    broadcast use vstd::std_specs::btree::group_btree_axioms;

    let ghost results = reader@;
    let ghost untouched = reader.complete();
    let mut table: BTreeMap<u64, SteeringEntry> = BTreeMap::new();
    let mut units: BTreeSet<u64> = BTreeSet::new();
    let mut index: usize = 0;
    assert(units@ =~= table@.dom());
    while index < steering.len()
        invariant
            index <= steering@.len(),
            table@ == steering_table(steering@, index as nat),
            units@ == table@.dom(),
        decreases steering@.len() - index,
    {
        broadcast use vstd::std_specs::btree::group_btree_axioms;

        let entry = steering[index];
        let ghost before = table@;
        table.insert(entry.unit_id, entry);
        units.insert(entry.unit_id);
        assert(table@.dom() =~= before.dom().insert(entry.unit_id));
        index = index + 1;
    }
    let fighting = engaged_units(assignments);
    let ghost entry = steered_orders(results, orders@, table@, assignments@, reason);
    let mut steered: Vec<ResolvedUnitOrder> = Vec::new();
    let mut at: usize = 0;
    while at < orders.len()
        invariant
            at <= orders@.len(),
            forall|id: u64| #[trigger] fighting@.contains(id) == engaged(assignments@, id),
            table@ == steering_table(steering@, steering@.len()),
            entry == steered_orders(results, orders@, table@, assignments@, reason),
            results == old(reader)@,
            untouched == old(reader).complete(),
            reader@ == results,
            reader.sound(),
            reader.complete() ==> untouched && collected(entry, at as nat) == Ok::<
                Seq<ResolvedUnitOrder>,
                RuntimeError,
            >(steered@),
            untouched && orders_supplied(results, orders@, table@, assignments@) ==>
                reader.complete(),
        decreases orders@.len() - at,
    {
        broadcast use vstd::std_specs::btree::group_btree_axioms;

        let mut order = orders[at];
        assert(entry(at as int) == steered_order(
            results,
            orders@,
            table@,
            assignments@,
            reason,
            at as int,
        ));
        if let Some(found) = table.get(&order.unit_id) {
            let given = *found;
            if !fighting.contains(&order.unit_id) {
                let speed = reader.product(order.factors.plan_speed_mult, given.speed_multiplier);
                if !speed.is_finite() {
                    proof {
                        if reader.complete() {
                            lemma_collected_fail(entry, (at + 1) as nat, orders@.len());
                        }
                    }
                    return Err(RuntimeError::InvalidCheckpoint(reason));
                }
                order.preferred_target_id = None;
                order.movement_enabled = given.movement_enabled;
                order.dir_lat = given.dir_lat;
                order.dir_lng = given.dir_lng;
                order.factors.plan_speed_mult = speed;
            }
        }
        steered.push(order);
        at = at + 1;
    }
    Ok((steered, units))
}

/// Whether a formation travels aboard ships from now on.
#[derive(Clone, Copy, Debug, PartialEq, Eq, Structural)]
pub struct TransportUpdate {
    pub unit_id: u64,
    pub transport: bool,
}

/// The last update for each unit among the first ones.
pub open spec fn transport_table(updates: Seq<TransportUpdate>, count: nat) -> Map<u64, bool>
    decreases count,
{
    if count == 0 {
        Map::empty()
    } else {
        transport_table(updates, (count - 1) as nat).insert(
            updates[count - 1].unit_id,
            updates[count - 1].transport,
        )
    }
}

pub open spec fn lives(units: Seq<SimulationUnit>, unit_id: u64) -> bool {
    exists|i: int| 0 <= i < units.len() && (#[trigger] units[i]).combat.id == unit_id
}

pub open spec fn embarked(
    units: Seq<SimulationUnit>,
    table: Map<u64, bool>,
) -> Seq<SimulationUnit> {
    Seq::new(
        units.len(),
        |i: int|
            if table.contains_key(units[i].combat.id) {
                SimulationUnit {
                    combat: crate::units::CombatUnit {
                        transport: table[units[i].combat.id],
                        ..units[i].combat
                    },
                    ..units[i]
                }
            } else {
                units[i]
            },
    )
}

/// The identifiers of all formations.
pub fn unit_ids(units: &Vec<SimulationUnit>) -> (ids: BTreeSet<u64>)
    ensures
        forall|id: u64| #[trigger] ids@.contains(id) == lives(units@, id),
{
    broadcast use vstd::std_specs::btree::group_btree_axioms;

    let mut ids: BTreeSet<u64> = BTreeSet::new();
    let mut at: usize = 0;
    while at < units.len()
        invariant
            at <= units@.len(),
            forall|id: u64|
                #[trigger] ids@.contains(id) <==> exists|i: int|
                    0 <= i < at && (#[trigger] units@[i]).combat.id == id,
        decreases units@.len() - at,
    {
        broadcast use vstd::std_specs::btree::group_btree_axioms;

        let own: u64 = units[at].combat.id;
        let ghost before = ids@;
        ids.insert(own);
        proof {
            assert forall|id: u64| #[trigger] ids@.contains(id) <==> exists|i: int|
                0 <= i < at + 1 && (#[trigger] units@[i]).combat.id == id by {
                assert(before.contains(id) <==> exists|i: int|
                    0 <= i < at && (#[trigger] units@[i]).combat.id == id);
                assert(units@[at as int].combat.id == own);
            }
        }
        at = at + 1;
    }
    ids
}

/// Take formations aboard or put them ashore.
pub fn apply_transport_updates(
    units: &mut Vec<SimulationUnit>,
    updates: &Vec<TransportUpdate>,
) -> (verdict: Result<(), RuntimeError>)
    ensures
        match verdict {
            Ok(_) => (forall|i: int|
                0 <= i < updates@.len() ==> lives(old(units)@, (#[trigger] updates@[i]).unit_id))
                && final(units)@ == embarked(
                old(units)@,
                transport_table(updates@, updates@.len()),
            ),
            Err(error) => !(forall|i: int|
                0 <= i < updates@.len() ==> lives(old(units)@, (#[trigger] updates@[i]).unit_id))
                && error == RuntimeError::InvalidCheckpoint(
                "execution transport update omitted a live unit",
            ) && final(units)@ == old(units)@,
        },
{
    broadcast use vstd::std_specs::btree::group_btree_axioms;

    let ghost before = units@;
    let ids = unit_ids(units);
    let mut table: BTreeMap<u64, bool> = BTreeMap::new();
    let mut index: usize = 0;
    while index < updates.len()
        invariant
            index <= updates@.len(),
            units@ == before,
            before == old(units)@,
            forall|id: u64| #[trigger] ids@.contains(id) == lives(before, id),
            forall|i: int| 0 <= i < index ==> lives(before, (#[trigger] updates@[i]).unit_id),
            table@ == transport_table(updates@, index as nat),
        decreases updates@.len() - index,
    {
        broadcast use vstd::std_specs::btree::group_btree_axioms;

        let update = updates[index];
        if !ids.contains(&update.unit_id) {
            assert(!lives(before, updates@[index as int].unit_id));
            return Err(
                RuntimeError::InvalidCheckpoint("execution transport update omitted a live unit"),
            );
        }
        table.insert(update.unit_id, update.transport);
        index = index + 1;
    }
    let mut at: usize = 0;
    while at < units.len()
        invariant
            at <= units@.len(),
            units@.len() == before.len(),
            table@ == transport_table(updates@, updates@.len()),
            forall|i: int| at <= i < units@.len() ==> #[trigger] units@[i] == before[i],
            forall|i: int|
                0 <= i < at ==> #[trigger] units@[i] == embarked(before, table@)[i],
        decreases units@.len() - at,
    {
        broadcast use vstd::std_specs::btree::group_btree_axioms;

        let mut unit = units[at];
        if let Some(transport) = table.get(&unit.combat.id) {
            unit.combat.transport = *transport;
        }
        units.set(at, unit);
        at = at + 1;
    }
    assert(units@ =~= embarked(before, table@));
    Ok(())
}

} // verus!
