//! Losses around a tick: formations that go into exile, attrition, directions that the battlefield
//! bends, and the bookkeeping of formations that are gone.

use std::collections::{BTreeMap, BTreeSet};
use vstd::prelude::*;
use crate::casualties::DamageCommand;
use crate::numbers::N_0_02;
use crate::order::{
    collected, lemma_collected_fail, rank_order, sort_stable, sort_unique, stable_sorted,
    strictly_sorted,
};
use crate::runtime::battlefield::{BattlefieldLocalUnitResult, BattlefieldUnitResult};
use crate::runtime::dynamics::capped_product;
use crate::runtime::error::RuntimeError;
use crate::runtime::orders::{find_aggregate, last_aggregate};
use crate::runtime::planning::{
    is_at_sea, optional_map, sails, AssignmentReason, FrontAssignmentRecord,
};
use crate::runtime::policy::{deploying, policies_view, unit_deploying, Policies, RuntimeUnitPolicy};
use crate::scalar::{real_of, Real};
use crate::strategic::CountryAggregate;
use crate::units::{CombatUnit, ResolvedUnitOrder, SimulationUnit, UnitKind};
use crate::worksheet::{integer, sum, Operation, Reader};

verus! {

/// People who leave a formation when it goes into exile.
pub open spec fn live_people(unit: CombatUnit, crew_per_vehicle: u64) -> u64 {
    if unit.kind is Armor {
        if unit.equipment * crew_per_vehicle > u64::MAX {
            u64::MAX
        } else {
            (unit.equipment * crew_per_vehicle) as u64
        }
    } else {
        unit.personnel
    }
}

/// Why the exiles could not be told.
#[derive(Clone, Copy, Debug, PartialEq, Eq)]
pub enum ExileHalt {
    Failed(RuntimeError),
    /// More random draws are needed.
    Draws,
}

/// Formations that go into exile.
#[derive(Debug)]
pub struct Exile {
    pub unit_ids: Vec<u64>,
    pub recovered_personnel: u64,
    pub reserves: BTreeMap<usize, Real>,
    pub draws_used: usize,
}

/// What an [`Exile`] says.
pub ghost struct ExileModel {
    pub unit_ids: Seq<u64>,
    pub recovered_personnel: u64,
    pub reserves: Map<usize, Real>,
    pub draws_used: nat,
}

impl View for Exile {
    type V = ExileModel;

    open spec fn view(&self) -> ExileModel {
        ExileModel {
            unit_ids: self.unit_ids@,
            recovered_personnel: self.recovered_personnel,
            reserves: self.reserves@,
            draws_used: self.draws_used as nat,
        }
    }
}

/// Everything that exile depends on.
pub ghost struct ExileScope {
    pub results: Map<Operation, u64>,
    pub units: Seq<SimulationUnit>,
    pub policies: Policies,
    pub resolved: Option<Map<u64, BattlefieldUnitResult>>,
    pub aggregates: Seq<CountryAggregate>,
    pub crew_per_vehicle: u64,
    pub tick: u64,
    pub draws: Seq<Real>,
}

/// Whether a formation is at sea and its country has no land left.
pub open spec fn homeless(scope: ExileScope, unit: SimulationUnit) -> bool {
    let aggregate = last_aggregate(
        scope.aggregates,
        unit.combat.sovereign as u16,
        scope.aggregates.len(),
    );
    sails(unit, scope.resolved) && (aggregate matches Some(count) && count.controlled == 0)
}

/// What becomes of one formation.
pub open spec fn unit_exiled(
    scope: ExileScope,
    model: ExileModel,
    unit: SimulationUnit,
) -> Result<ExileModel, ExileHalt> {
    let id = unit.combat.id;
    if unit.combat.sovereign > u16::MAX || last_aggregate(
        scope.aggregates,
        unit.combat.sovereign as u16,
        scope.aggregates.len(),
    ) is None {
        Ok(model)
    } else if !scope.policies.contains_key(id) {
        Err(ExileHalt::Failed(RuntimeError::InvalidUnitPolicy(id)))
    } else if deploying(scope.policies[id], scope.tick) || !homeless(scope, unit) {
        Ok(model)
    } else if model.draws_used >= scope.draws.len() {
        Err(ExileHalt::Draws)
    } else {
        let drawn = ExileModel { draws_used: model.draws_used + 1, ..model };
        let side = unit.combat.side as usize;
        if real_of(N_0_02).le(scope.draws[model.draws_used as int]) {
            Ok(drawn)
        } else if !model.reserves.contains_key(side) {
            Err(
                ExileHalt::Failed(
                    RuntimeError::InvalidCheckpoint("personnel reserve is missing a unit side"),
                ),
            )
        } else {
            let people = live_people(unit.combat, scope.crew_per_vehicle);
            let reserve = sum(scope.results, model.reserves[side], integer(scope.results, people));
            if !reserve.finite() {
                Err(
                    ExileHalt::Failed(
                        RuntimeError::InvalidCheckpoint("personnel reserve overflowed"),
                    ),
                )
            } else {
                Ok(
                    ExileModel {
                        unit_ids: model.unit_ids.push(id),
                        recovered_personnel: if model.recovered_personnel + people > u64::MAX {
                            u64::MAX
                        } else {
                            (model.recovered_personnel + people) as u64
                        },
                        reserves: model.reserves.insert(side, reserve),
                        draws_used: drawn.draws_used,
                    },
                )
            }
        }
    }
}

/// The last formations are gone through, from the end on.
pub open spec fn last_exiled(
    scope: ExileScope,
    reserves: Map<usize, Real>,
    count: nat,
) -> Result<ExileModel, ExileHalt>
    decreases count,
{
    if count == 0 {
        Ok(
            ExileModel {
                unit_ids: Seq::empty(),
                recovered_personnel: 0,
                reserves,
                draws_used: 0,
            },
        )
    } else {
        match last_exiled(scope, reserves, (count - 1) as nat) {
            Err(halt) => Err(halt),
            Ok(model) => unit_exiled(scope, model, scope.units[scope.units.len() - count]),
        }
    }
}

/// Who goes into exile, in ascending order.
pub open spec fn exiled(
    scope: ExileScope,
    reserves: Map<usize, Real>,
) -> Result<ExileModel, ExileHalt> {
    match last_exiled(scope, reserves, scope.units.len()) {
        Err(halt) => Err(halt),
        Ok(model) => Ok(
            ExileModel {
                unit_ids: stable_sorted(model.unit_ids, rank_order::<u64>()),
                ..model
            },
        ),
    }
}

proof fn lemma_exile_halt(scope: ExileScope, reserves: Map<usize, Real>, count: nat, whole: nat)
    requires
        count <= whole,
        last_exiled(scope, reserves, count) is Err,
    ensures
        last_exiled(scope, reserves, whole) == last_exiled(scope, reserves, count),
    decreases whole,
{
    if count < whole {
        lemma_exile_halt(scope, reserves, count, (whole - 1) as nat);
    }
}

/// Whether a worksheet holds all that sending a formation into exile takes.
pub open spec fn exile_supplied(
    results: Map<Operation, u64>,
    model: ExileModel,
    unit: SimulationUnit,
    crew_per_vehicle: u64,
) -> bool {
    let side = unit.combat.side as usize;
    let people = live_people(unit.combat, crew_per_vehicle);
    model.reserves.contains_key(side) ==> {
        &&& results.contains_key(Operation::Integer(people))
        &&& results.contains_key(
            Operation::Sum(model.reserves[side], integer(results, people)),
        )
    }
}

/// Whether a worksheet holds all that exile takes.
pub open spec fn exiles_supplied(scope: ExileScope, reserves: Map<usize, Real>) -> bool {
    forall|k: int|
        0 <= k < scope.units.len() ==> (last_exiled(
            scope,
            reserves,
            (scope.units.len() - k - 1) as nat,
        ) matches Ok(model) ==> exile_supplied(
            scope.results,
            model,
            #[trigger] scope.units[k],
            scope.crew_per_vehicle,
        ))
}

fn exile_unit(
    unit: &SimulationUnit,
    exile: &mut Exile,
    policies: &BTreeMap<u64, RuntimeUnitPolicy>,
    resolved: Option<&BTreeMap<u64, BattlefieldUnitResult>>,
    aggregates: &Vec<CountryAggregate>,
    crew_per_vehicle: u64,
    tick: u64,
    draws: &Vec<Real>,
    reader: &mut Reader<'_>,
    Ghost(scope): Ghost<ExileScope>,
) -> (outcome: Result<(), ExileHalt>)
    requires
        old(reader).sound(),
        old(exile).draws_used <= draws@.len(),
        scope.results == old(reader)@,
        scope.policies == policies_view(policies@),
        scope.resolved == optional_map(resolved),
        scope.aggregates == aggregates@,
        scope.crew_per_vehicle == crew_per_vehicle,
        scope.tick == tick,
        scope.draws == draws@,
    ensures
        final(reader)@ == old(reader)@,
        final(reader).sound(),
        final(exile).draws_used <= draws@.len(),
        final(reader).complete() ==> old(reader).complete() && (match outcome {
            Ok(_) => unit_exiled(scope, old(exile)@, *unit) == Ok::<ExileModel, ExileHalt>(
                final(exile)@,
            ),
            Err(halt) => unit_exiled(scope, old(exile)@, *unit) == Err::<ExileModel, ExileHalt>(
                halt,
            ),
        }),
        old(reader).complete() && exile_supplied(
            old(reader)@,
            old(exile)@,
            *unit,
            crew_per_vehicle,
        ) ==> final(reader).complete(),
{
    broadcast use vstd::std_specs::btree::group_btree_axioms;

    let id: u64 = unit.combat.id;
    if unit.combat.sovereign > 0xffff {
        return Ok(());
    }
    let controlled: u64 = match find_aggregate(aggregates, unit.combat.sovereign as u16) {
        None => {
            return Ok(());
        },
        Some(place) => aggregates[place].controlled,
    };
    assert(scope.policies.contains_key(id) == policies@.contains_key(id));
    let waits = match policies.get(&id) {
        None => {
            return Err(ExileHalt::Failed(RuntimeError::InvalidUnitPolicy(id)));
        },
        Some(policy) => {
            assert(scope.policies[id] == policy@);
            unit_deploying(policy, tick)
        },
    };
    if waits || !is_at_sea(unit, resolved) || controlled != 0 {
        return Ok(());
    }
    if exile.draws_used >= draws.len() {
        return Err(ExileHalt::Draws);
    }
    let draw = draws[exile.draws_used];
    exile.draws_used = exile.draws_used + 1;
    if Real::from_bits(N_0_02).at_most(draw) {
        return Ok(());
    }
    let side: usize = unit.combat.side as usize;
    let reserve = match exile.reserves.get(&side) {
        None => {
            return Err(
                ExileHalt::Failed(
                    RuntimeError::InvalidCheckpoint("personnel reserve is missing a unit side"),
                ),
            );
        },
        Some(amount) => *amount,
    };
    let people: u64 = if unit.combat.kind == UnitKind::Armor {
        capped_product(unit.combat.equipment, crew_per_vehicle)
    } else {
        unit.combat.personnel
    };
    let heads = reader.integer(people);
    let total = reader.sum(reserve, heads);
    if !total.is_finite() {
        return Err(
            ExileHalt::Failed(RuntimeError::InvalidCheckpoint("personnel reserve overflowed")),
        );
    }
    exile.reserves.insert(side, total);
    exile.recovered_personnel = exile.recovered_personnel.saturating_add(people);
    exile.unit_ids.push(id);
    Ok(())
}

/// Formations at sea whose country has lost all its land may go into exile: formations are gone
/// through from the last to the first, each one in question takes one draw, and whoever leaves
/// gives its people back to the reserve of its side.
pub fn stage_exile(
    units: &Vec<SimulationUnit>,
    policies: &BTreeMap<u64, RuntimeUnitPolicy>,
    resolved: Option<&BTreeMap<u64, BattlefieldUnitResult>>,
    aggregates: &Vec<CountryAggregate>,
    crew_per_vehicle: u64,
    reserves: &BTreeMap<usize, Real>,
    tick: u64,
    draws: &Vec<Real>,
    reader: &mut Reader<'_>,
) -> (outcome: Result<Exile, ExileHalt>)
    requires
        old(reader).sound(),
    ensures
        final(reader)@ == old(reader)@,
        final(reader).sound(),
        final(reader).complete() ==> old(reader).complete() && ({
            let expected = exiled(
                ExileScope {
                    results: old(reader)@,
                    units: units@,
                    policies: policies_view(policies@),
                    resolved: optional_map(resolved),
                    aggregates: aggregates@,
                    crew_per_vehicle,
                    tick,
                    draws: draws@,
                },
                reserves@,
            );
            match outcome {
                Ok(exile) => expected == Ok::<ExileModel, ExileHalt>(exile@),
                Err(halt) => expected == Err::<ExileModel, ExileHalt>(halt),
            }
        }),
        old(reader).complete() && exiles_supplied(
            ExileScope {
                results: old(reader)@,
                units: units@,
                policies: policies_view(policies@),
                resolved: optional_map(resolved),
                aggregates: aggregates@,
                crew_per_vehicle,
                tick,
                draws: draws@,
            },
            reserves@,
        ) ==> final(reader).complete(),
{
    let ghost scope = ExileScope {
        results: reader@,
        units: units@,
        policies: policies_view(policies@),
        resolved: optional_map(resolved),
        aggregates: aggregates@,
        crew_per_vehicle,
        tick,
        draws: draws@,
    };
    let ghost untouched = reader.complete();
    let mut exile = Exile {
        unit_ids: Vec::new(),
        recovered_personnel: 0,
        reserves: reserves.clone(),
        draws_used: 0,
    };
    assert(exile.unit_ids@ =~= Seq::<u64>::empty());
    let mut at: usize = units.len();
    while at > 0
        invariant
            at <= units@.len(),
            exile.draws_used <= draws@.len(),
            scope.results == old(reader)@,
            untouched == old(reader).complete(),
            scope == (ExileScope {
                results: old(reader)@,
                units: units@,
                policies: policies_view(policies@),
                resolved: optional_map(resolved),
                aggregates: aggregates@,
                crew_per_vehicle,
                tick,
                draws: draws@,
            }),
            reader@ == scope.results,
            reader.sound(),
            reader.complete() ==> untouched && last_exiled(
                scope,
                reserves@,
                (units@.len() - at) as nat,
            ) == Ok::<ExileModel, ExileHalt>(exile@),
            untouched && exiles_supplied(scope, reserves@) ==> reader.complete(),
        decreases at,
    {
        at = at - 1;
        assert(scope.units[at as int] == units@[at as int]);
        match exile_unit(
            &units[at],
            &mut exile,
            policies,
            resolved,
            aggregates,
            crew_per_vehicle,
            tick,
            draws,
            reader,
            Ghost(scope),
        ) {
            Ok(_) => {},
            Err(halt) => {
                proof {
                    if reader.complete() {
                        lemma_exile_halt(
                            scope,
                            reserves@,
                            (units@.len() - at) as nat,
                            units@.len(),
                        );
                    }
                }
                return Err(halt);
            },
        }
    }
    let Exile { unit_ids, recovered_personnel, reserves: left, draws_used } = exile;
    Ok(Exile { unit_ids: sort_stable(unit_ids), recovered_personnel, reserves: left, draws_used })
}

/// Damage that supply does to the first formations. A formation that deploys takes none.
pub open spec fn attrition_of(
    units: Seq<SimulationUnit>,
    policies: Policies,
    resolved: Map<u64, BattlefieldUnitResult>,
    tick: u64,
    count: nat,
) -> Seq<DamageCommand>
    decreases count,
{
    if count == 0 {
        Seq::empty()
    } else {
        let rest = attrition_of(units, policies, resolved, tick, (count - 1) as nat);
        let id = units[count - 1].combat.id;
        if policies.contains_key(id) && resolved.contains_key(id) && !deploying(policies[id], tick)
            && real_of(0).lt(resolved[id].attrition.damage) {
            rest.push(DamageCommand { unit_id: id, damage: resolved[id].attrition.damage })
        } else {
            rest
        }
    }
}

/// Damage that supply does to the formations.
pub fn attrition_commands(
    units: &Vec<SimulationUnit>,
    policies: &BTreeMap<u64, RuntimeUnitPolicy>,
    resolved: &BTreeMap<u64, BattlefieldUnitResult>,
    tick: u64,
) -> (commands: Vec<DamageCommand>)
    ensures
        commands@ == attrition_of(
            units@,
            policies_view(policies@),
            resolved@,
            tick,
            units@.len(),
        ),
{
    broadcast use vstd::std_specs::btree::group_btree_axioms;

    let ghost known = policies_view(policies@);
    let mut commands: Vec<DamageCommand> = Vec::new();
    let mut at: usize = 0;
    while at < units.len()
        invariant
            at <= units@.len(),
            known == policies_view(policies@),
            commands@ == attrition_of(units@, known, resolved@, tick, at as nat),
        decreases units@.len() - at,
    {
        broadcast use vstd::std_specs::btree::group_btree_axioms;

        let id: u64 = units[at].combat.id;
        assert(known.contains_key(id) == policies@.contains_key(id));
        if let Some(policy) = policies.get(&id) {
            assert(known[id] == policy@);
            if let Some(result) = resolved.get(&id) {
                if !unit_deploying(policy, tick) && Real::zero().less(result.attrition.damage) {
                    commands.push(DamageCommand { unit_id: id, damage: result.attrition.damage });
                }
            }
        }
        at = at + 1;
    }
    commands
}

/// An order as the battlefield bends its direction.
#[derive(Clone, Copy, Debug, PartialEq, Eq, Structural)]
pub struct BattlefieldDirectionInput {
    pub unit_id: u64,
    pub dir_lat: Real,
    pub dir_lng: Real,
    pub is_plan_unit: bool,
    pub at_sea: bool,
    pub active_retreat: bool,
    pub occupation_garrison_holding: bool,
}

/// Why a formation was assigned; without an assignment it holds. The last one counts.
pub open spec fn reason_of(
    assignments: Seq<FrontAssignmentRecord>,
    unit_id: u64,
    count: nat,
) -> AssignmentReason
    decreases count,
{
    if count == 0 {
        AssignmentReason::Hold
    } else if assignments[count - 1].unit_id == unit_id {
        assignments[count - 1].reason
    } else {
        reason_of(assignments, unit_id, (count - 1) as nat)
    }
}

pub open spec fn direction_input(
    orders: Seq<ResolvedUnitOrder>,
    assignments: Seq<FrontAssignmentRecord>,
    policies: Policies,
    resolved: Map<u64, BattlefieldUnitResult>,
    planned: Set<u64>,
    overridden: Set<u64>,
    at: int,
) -> Option<Result<BattlefieldDirectionInput, RuntimeError>> {
    let order = orders[at];
    let id = order.unit_id;
    let reason = reason_of(assignments, id, assignments.len());
    if !policies.contains_key(id) {
        Some(Err(RuntimeError::InvalidUnitPolicy(id)))
    } else if !resolved.contains_key(id) {
        Some(
            Err(RuntimeError::InvalidCheckpoint("battlefield result omitted an ordered unit")),
        )
    } else {
        Some(
            Ok(
                BattlefieldDirectionInput {
                    unit_id: id,
                    dir_lat: order.dir_lat,
                    dir_lng: order.dir_lng,
                    is_plan_unit: planned.contains(id) || reason is Front || reason is Reinforce,
                    at_sea: resolved[id].cell.at_sea,
                    active_retreat: reason is Retreat,
                    occupation_garrison_holding: policies[id].ai.garrison_excluded
                        || overridden.contains(id),
                },
            ),
        )
    }
}

pub open spec fn direction_inputs_of(
    orders: Seq<ResolvedUnitOrder>,
    assignments: Seq<FrontAssignmentRecord>,
    policies: Policies,
    resolved: Map<u64, BattlefieldUnitResult>,
    planned: Set<u64>,
    overridden: Set<u64>,
) -> spec_fn(int) -> Option<Result<BattlefieldDirectionInput, RuntimeError>> {
    |at: int|
        direction_input(orders, assignments, policies, resolved, planned, overridden, at)
}

pub open spec fn reasons_table(
    table: Map<u64, AssignmentReason>,
    assignments: Seq<FrontAssignmentRecord>,
    count: nat,
) -> bool {
    forall|unit_id: u64|
        #![trigger table.contains_key(unit_id)]
        reason_of(assignments, unit_id, count) == (if table.contains_key(unit_id) {
            table[unit_id]
        } else {
            AssignmentReason::Hold
        })
}

fn index_reasons(assignments: &Vec<FrontAssignmentRecord>) -> (table: BTreeMap<
    u64,
    AssignmentReason,
>)
    ensures
        reasons_table(table@, assignments@, assignments@.len()),
{
    broadcast use vstd::std_specs::btree::group_btree_axioms;

    let mut table: BTreeMap<u64, AssignmentReason> = BTreeMap::new();
    let mut at: usize = 0;
    while at < assignments.len()
        invariant
            at <= assignments@.len(),
            reasons_table(table@, assignments@, at as nat),
        decreases assignments@.len() - at,
    {
        broadcast use vstd::std_specs::btree::group_btree_axioms;

        let ghost before = table@;
        table.insert(assignments[at].unit_id, assignments[at].reason);
        proof {
            assert forall|unit_id: u64|
                #![trigger table@.contains_key(unit_id)]
                reason_of(assignments@, unit_id, (at + 1) as nat) == (if table@.contains_key(
                    unit_id,
                ) {
                    table@[unit_id]
                } else {
                    AssignmentReason::Hold
                }) by {
                assert(before.contains_key(unit_id) || !before.contains_key(unit_id));
            }
        }
        at = at + 1;
    }
    table
}

/// The orders as the battlefield bends their directions.
pub fn direction_inputs(
    orders: &Vec<ResolvedUnitOrder>,
    assignments: &Vec<FrontAssignmentRecord>,
    policies: &BTreeMap<u64, RuntimeUnitPolicy>,
    resolved: &BTreeMap<u64, BattlefieldUnitResult>,
    planned: &BTreeSet<u64>,
    overridden: &BTreeSet<u64>,
) -> (outcome: Result<Vec<BattlefieldDirectionInput>, RuntimeError>)
    ensures
        ({
            let expected = collected(
                direction_inputs_of(
                    orders@,
                    assignments@,
                    policies_view(policies@),
                    resolved@,
                    planned@,
                    overridden@,
                ),
                orders@.len(),
            );
            match outcome {
                Ok(inputs) => expected == Ok::<Seq<BattlefieldDirectionInput>, RuntimeError>(
                    inputs@,
                ),
                Err(error) => expected == Err::<Seq<BattlefieldDirectionInput>, RuntimeError>(
                    error,
                ),
            }
        }),
{
    broadcast use vstd::std_specs::btree::group_btree_axioms;

    let reasons = index_reasons(assignments);
    let ghost known = policies_view(policies@);
    let ghost entry = direction_inputs_of(
        orders@,
        assignments@,
        known,
        resolved@,
        planned@,
        overridden@,
    );
    let mut inputs: Vec<BattlefieldDirectionInput> = Vec::new();
    let mut at: usize = 0;
    while at < orders.len()
        invariant
            at <= orders@.len(),
            reasons_table(reasons@, assignments@, assignments@.len()),
            known == policies_view(policies@),
            entry == direction_inputs_of(
                orders@,
                assignments@,
                known,
                resolved@,
                planned@,
                overridden@,
            ),
            collected(entry, at as nat) == Ok::<Seq<BattlefieldDirectionInput>, RuntimeError>(
                inputs@,
            ),
        decreases orders@.len() - at,
    {
        broadcast use vstd::std_specs::btree::group_btree_axioms;

        let order = orders[at];
        let id: u64 = order.unit_id;
        assert(known.contains_key(id) == policies@.contains_key(id));
        assert(entry(at as int) == direction_input(
            orders@,
            assignments@,
            known,
            resolved@,
            planned@,
            overridden@,
            at as int,
        ));
        let reason: AssignmentReason = match reasons.get(&id) {
            Some(reason) => *reason,
            None => AssignmentReason::Hold,
        };
        assert(reasons@.contains_key(id) || !reasons@.contains_key(id));
        let garrison = match policies.get(&id) {
            None => {
                proof {
                    lemma_collected_fail(entry, (at + 1) as nat, orders@.len());
                }
                return Err(RuntimeError::InvalidUnitPolicy(id));
            },
            Some(policy) => {
                assert(known[id] == policy@);
                policy.ai.garrison_excluded
            },
        };
        let at_sea = match resolved.get(&id) {
            None => {
                proof {
                    lemma_collected_fail(entry, (at + 1) as nat, orders@.len());
                }
                return Err(
                    RuntimeError::InvalidCheckpoint("battlefield result omitted an ordered unit"),
                );
            },
            Some(result) => result.cell.at_sea,
        };
        inputs.push(
            BattlefieldDirectionInput {
                unit_id: id,
                dir_lat: order.dir_lat,
                dir_lng: order.dir_lng,
                is_plan_unit: planned.contains(&id) || reason == AssignmentReason::Front || reason
                    == AssignmentReason::Reinforce,
                at_sea,
                active_retreat: reason == AssignmentReason::Retreat,
                occupation_garrison_holding: garrison || overridden.contains(&id),
            },
        );
        at = at + 1;
    }
    Ok(inputs)
}

/// A direction as the battlefield bent it.
#[derive(Clone, Copy, Debug, PartialEq, Eq, Structural)]
pub struct BattlefieldDirection {
    pub unit_id: u64,
    pub dir_lat: Real,
    pub dir_lng: Real,
}

/// The last direction of a formation among the first.
pub open spec fn direction_of(
    directions: Seq<BattlefieldDirection>,
    unit_id: u64,
    count: nat,
) -> Option<BattlefieldDirection>
    decreases count,
{
    if count == 0 {
        None
    } else if directions[count - 1].unit_id == unit_id {
        Some(directions[count - 1])
    } else {
        direction_of(directions, unit_id, (count - 1) as nat)
    }
}

pub open spec fn bent_order(
    orders: Seq<ResolvedUnitOrder>,
    directions: Seq<BattlefieldDirection>,
    at: int,
) -> Option<Result<ResolvedUnitOrder, RuntimeError>> {
    match direction_of(directions, orders[at].unit_id, directions.len()) {
        None => Some(
            Err(RuntimeError::InvalidCheckpoint("battlefield direction omitted an order")),
        ),
        Some(direction) => Some(
            Ok(
                ResolvedUnitOrder {
                    dir_lat: direction.dir_lat,
                    dir_lng: direction.dir_lng,
                    ..orders[at]
                },
            ),
        ),
    }
}

pub open spec fn bent_orders(
    orders: Seq<ResolvedUnitOrder>,
    directions: Seq<BattlefieldDirection>,
) -> spec_fn(int) -> Option<Result<ResolvedUnitOrder, RuntimeError>> {
    |at: int| bent_order(orders, directions, at)
}

pub open spec fn directions_table(
    table: Map<u64, usize>,
    directions: Seq<BattlefieldDirection>,
    count: nat,
) -> bool {
    forall|unit_id: u64|
        #![trigger table.contains_key(unit_id)]
        match direction_of(directions, unit_id, count) {
            Some(direction) => table.contains_key(unit_id) && table[unit_id] < directions.len()
                && directions[table[unit_id] as int] == direction,
            None => !table.contains_key(unit_id),
        }
}

fn index_directions(directions: &Vec<BattlefieldDirection>) -> (table: BTreeMap<u64, usize>)
    ensures
        directions_table(table@, directions@, directions@.len()),
{
    broadcast use vstd::std_specs::btree::group_btree_axioms;

    let mut table: BTreeMap<u64, usize> = BTreeMap::new();
    let mut at: usize = 0;
    while at < directions.len()
        invariant
            at <= directions@.len(),
            directions_table(table@, directions@, at as nat),
        decreases directions@.len() - at,
    {
        broadcast use vstd::std_specs::btree::group_btree_axioms;

        let ghost before = table@;
        table.insert(directions[at].unit_id, at);
        proof {
            assert forall|unit_id: u64|
                #![trigger table@.contains_key(unit_id)]
                match direction_of(directions@, unit_id, (at + 1) as nat) {
                    Some(direction) => table@.contains_key(unit_id) && table@[unit_id]
                        < directions@.len() && directions@[table@[unit_id] as int] == direction,
                    None => !table@.contains_key(unit_id),
                } by {
                assert(before.contains_key(unit_id) || !before.contains_key(unit_id));
            }
        }
        at = at + 1;
    }
    table
}

/// The orders with the directions that the battlefield bent.
pub fn apply_directions(
    orders: &Vec<ResolvedUnitOrder>,
    directions: &Vec<BattlefieldDirection>,
) -> (outcome: Result<Vec<ResolvedUnitOrder>, RuntimeError>)
    ensures
        ({
            let expected = collected(bent_orders(orders@, directions@), orders@.len());
            match outcome {
                Ok(bent) => expected == Ok::<Seq<ResolvedUnitOrder>, RuntimeError>(bent@),
                Err(error) => expected == Err::<Seq<ResolvedUnitOrder>, RuntimeError>(error),
            }
        }),
{
    broadcast use vstd::std_specs::btree::group_btree_axioms;

    let table = index_directions(directions);
    let ghost entry = bent_orders(orders@, directions@);
    let mut bent: Vec<ResolvedUnitOrder> = Vec::new();
    let mut at: usize = 0;
    while at < orders.len()
        invariant
            at <= orders@.len(),
            directions_table(table@, directions@, directions@.len()),
            entry == bent_orders(orders@, directions@),
            collected(entry, at as nat) == Ok::<Seq<ResolvedUnitOrder>, RuntimeError>(bent@),
        decreases orders@.len() - at,
    {
        broadcast use vstd::std_specs::btree::group_btree_axioms;

        let mut order = orders[at];
        assert(entry(at as int) == bent_order(orders@, directions@, at as int));
        assert(table@.contains_key(order.unit_id) || !table@.contains_key(order.unit_id));
        match table.get(&order.unit_id) {
            None => {
                proof {
                    lemma_collected_fail(entry, (at + 1) as nat, orders@.len());
                }
                return Err(
                    RuntimeError::InvalidCheckpoint("battlefield direction omitted an order"),
                );
            },
            Some(place) => {
                let direction = directions[*place];
                order.dir_lat = direction.dir_lat;
                order.dir_lng = direction.dir_lng;
                bent.push(order);
            },
        }
        at = at + 1;
    }
    Ok(bent)
}

/// Whether every formation has a policy.
pub open spec fn policies_cover(policies: Policies, units: Seq<SimulationUnit>) -> bool {
    forall|i: int| 0 <= i < units.len() ==> policies.contains_key((#[trigger] units[i]).combat.id)
}

/// A formation as it enters the simulation, or why it cannot.
pub open spec fn prepared_unit(
    units: Seq<SimulationUnit>,
    policies: Policies,
    resolved: Map<u64, BattlefieldUnitResult>,
    local: Map<u64, BattlefieldLocalUnitResult>,
    weights: Map<u64, Real>,
    tick: u64,
    at: int,
) -> Option<Result<SimulationUnit, RuntimeError>> {
    let unit = units[at];
    let id = unit.combat.id;
    if !resolved.contains_key(id) {
        Some(Err(RuntimeError::InvalidCheckpoint("battlefield result omitted a live unit")))
    } else if !local.contains_key(id) {
        Some(Err(RuntimeError::InvalidCheckpoint("battlefield tactics omitted a live unit")))
    } else if !weights.contains_key(id) {
        Some(Err(RuntimeError::InvalidCheckpoint("battlefield ally weight omitted a live unit")))
    } else {
        Some(
            Ok(
                SimulationUnit {
                    combat: CombatUnit {
                        at_sea: resolved[id].cell.at_sea,
                        armor_supported: local[id].armor_supported,
                        victory_boost_ticks: if deploying(policies[id], tick)
                            || unit.combat.victory_boost_ticks == 0 {
                            unit.combat.victory_boost_ticks
                        } else {
                            (unit.combat.victory_boost_ticks - 1) as u64
                        },
                        ..unit.combat
                    },
                    ally_weight: weights[id],
                    ..unit
                },
            ),
        )
    }
}

pub open spec fn prepared_units(
    units: Seq<SimulationUnit>,
    policies: Policies,
    resolved: Map<u64, BattlefieldUnitResult>,
    local: Map<u64, BattlefieldLocalUnitResult>,
    weights: Map<u64, Real>,
    tick: u64,
) -> spec_fn(int) -> Option<Result<SimulationUnit, RuntimeError>> {
    |at: int| prepared_unit(units, policies, resolved, local, weights, tick, at)
}

/// The formations as they enter the simulation after the battlefield resolved them.
pub fn prepare_units(
    units: &Vec<SimulationUnit>,
    policies: &BTreeMap<u64, RuntimeUnitPolicy>,
    resolved: &BTreeMap<u64, BattlefieldUnitResult>,
    local: &BTreeMap<u64, BattlefieldLocalUnitResult>,
    weights: &BTreeMap<u64, Real>,
    tick: u64,
) -> (outcome: Result<Vec<SimulationUnit>, RuntimeError>)
    requires
        policies_cover(policies_view(policies@), units@),
    ensures
        ({
            let expected = collected(
                prepared_units(
                    units@,
                    policies_view(policies@),
                    resolved@,
                    local@,
                    weights@,
                    tick,
                ),
                units@.len(),
            );
            match outcome {
                Ok(prepared) => expected == Ok::<Seq<SimulationUnit>, RuntimeError>(prepared@),
                Err(error) => expected == Err::<Seq<SimulationUnit>, RuntimeError>(error),
            }
        }),
{
    broadcast use vstd::std_specs::btree::group_btree_axioms;

    let ghost known = policies_view(policies@);
    let ghost entry = prepared_units(units@, known, resolved@, local@, weights@, tick);
    let mut prepared: Vec<SimulationUnit> = Vec::new();
    let mut at: usize = 0;
    while at < units.len()
        invariant
            at <= units@.len(),
            known == policies_view(policies@),
            policies_cover(known, units@),
            entry == prepared_units(units@, known, resolved@, local@, weights@, tick),
            collected(entry, at as nat) == Ok::<Seq<SimulationUnit>, RuntimeError>(prepared@),
        decreases units@.len() - at,
    {
        broadcast use vstd::std_specs::btree::group_btree_axioms;

        let mut unit = units[at];
        let id: u64 = unit.combat.id;
        assert(known.contains_key(units@[at as int].combat.id));
        assert(entry(at as int) == prepared_unit(
            units@,
            known,
            resolved@,
            local@,
            weights@,
            tick,
            at as int,
        ));
        match resolved.get(&id) {
            None => {
                proof {
                    lemma_collected_fail(entry, (at + 1) as nat, units@.len());
                }
                return Err(
                    RuntimeError::InvalidCheckpoint("battlefield result omitted a live unit"),
                );
            },
            Some(result) => {
                unit.combat.at_sea = result.cell.at_sea;
            },
        }
        match local.get(&id) {
            None => {
                proof {
                    lemma_collected_fail(entry, (at + 1) as nat, units@.len());
                }
                return Err(
                    RuntimeError::InvalidCheckpoint("battlefield tactics omitted a live unit"),
                );
            },
            Some(result) => {
                unit.combat.armor_supported = result.armor_supported;
            },
        }
        match weights.get(&id) {
            None => {
                proof {
                    lemma_collected_fail(entry, (at + 1) as nat, units@.len());
                }
                return Err(
                    RuntimeError::InvalidCheckpoint("battlefield ally weight omitted a live unit"),
                );
            },
            Some(weight) => {
                unit.ally_weight = *weight;
            },
        }
        let policy = policies.get(&id).unwrap();
        assert(known[id] == policy@);
        if !unit_deploying(policy, tick) && unit.combat.victory_boost_ticks > 0 {
            unit.combat.victory_boost_ticks = unit.combat.victory_boost_ticks - 1;
        }
        prepared.push(unit);
        at = at + 1;
    }
    Ok(prepared)
}

/// The first formations that still deploy.
pub open spec fn waiting_units(
    units: Seq<SimulationUnit>,
    policies: Policies,
    tick: u64,
    count: nat,
) -> Seq<u64>
    decreases count,
{
    if count == 0 {
        Seq::empty()
    } else {
        let rest = waiting_units(units, policies, tick, (count - 1) as nat);
        let id = units[count - 1].combat.id;
        if policies.contains_key(id) && deploying(policies[id], tick) {
            rest.push(id)
        } else {
            rest
        }
    }
}

/// The formations that take no part in a tick, in ascending order.
pub fn inactive_units(
    units: &Vec<SimulationUnit>,
    policies: &BTreeMap<u64, RuntimeUnitPolicy>,
    tick: u64,
) -> (ids: Vec<u64>)
    ensures
        ids@ == stable_sorted(
            waiting_units(units@, policies_view(policies@), tick, units@.len()),
            rank_order::<u64>(),
        ),
{
    broadcast use vstd::std_specs::btree::group_btree_axioms;

    let ghost known = policies_view(policies@);
    let mut ids: Vec<u64> = Vec::new();
    let mut at: usize = 0;
    while at < units.len()
        invariant
            at <= units@.len(),
            known == policies_view(policies@),
            ids@ == waiting_units(units@, known, tick, at as nat),
        decreases units@.len() - at,
    {
        broadcast use vstd::std_specs::btree::group_btree_axioms;

        let id: u64 = units[at].combat.id;
        assert(known.contains_key(id) == policies@.contains_key(id));
        if let Some(policy) = policies.get(&id) {
            assert(known[id] == policy@);
            if unit_deploying(policy, tick) {
                ids.push(id);
            }
        }
        at = at + 1;
    }
    sort_stable(ids)
}

/// Everything that was removed, each id once and in ascending order.
pub fn merge_removed(parts: &Vec<Vec<u64>>) -> (merged: Vec<u64>)
    ensures
        strictly_sorted(merged@),
        forall|id: u64|
            #[trigger] merged@.contains(id) <==> exists|i: int|
                0 <= i < parts@.len() && (#[trigger] parts@[i])@.contains(id),
{
    let mut all: Vec<u64> = Vec::new();
    let mut at: usize = 0;
    while at < parts.len()
        invariant
            at <= parts@.len(),
            forall|id: u64|
                #[trigger] all@.contains(id) <==> exists|i: int|
                    0 <= i < at && (#[trigger] parts@[i])@.contains(id),
        decreases parts@.len() - at,
    {
        let ghost before = all@;
        let part = &parts[at];
        let mut within: usize = 0;
        while within < part.len()
            invariant
                within <= part@.len(),
                at < parts@.len(),
                part@ == parts@[at as int]@,
                all@ =~= before + part@.take(within as int),
            decreases part@.len() - within,
        {
            all.push(part[within]);
            within = within + 1;
        }
        proof {
            assert(part@.take(part@.len() as int) =~= part@);
            assert forall|id: u64| #[trigger] all@.contains(id) <==> exists|i: int|
                0 <= i < at + 1 && (#[trigger] parts@[i])@.contains(id) by {
                let added = parts@[at as int]@;
                if all@.contains(id) {
                    let k = choose|k: int| 0 <= k < all@.len() && all@[k] == id;
                    if k < before.len() {
                        assert(before[k] == id);
                        assert(before.contains(id));
                    } else {
                        assert(added[k - before.len()] == id);
                        assert(added.contains(id));
                    }
                }
                if before.contains(id) {
                    let k = choose|k: int| 0 <= k < before.len() && before[k] == id;
                    assert(all@[k] == id);
                }
                if added.contains(id) {
                    let k = choose|k: int| 0 <= k < added.len() && added[k] == id;
                    assert(all@[before.len() + k] == id);
                }
            }
        }
        at = at + 1;
    }
    sort_unique(all)
}

} // verus!
