//! Task forces: phases, steering and progress along their corridors.

use std::collections::{BTreeMap, BTreeSet};
use vstd::prelude::*;
use crate::numbers::{
    N_0_0001, N_0_02, N_0_1, N_0_2, N_0_25, N_0_35, N_0_4, N_0_45, N_0_5, N_0_55, N_0_58, N_0_65,
    N_0_7, N_0_72, N_0_75, N_0_8, N_0_85, N_1_05, N_1_3, N_1_4, N_1_55, N_1_65, N_1_85, N_2_15,
};
use crate::operations::{
    gap, has_member, member_exists, next_revision, ContactModel, ForceModel, IntelModel,
    OperationalContact, OperationalPoint, OperationalRuntimeState, OperationalSideState,
    OperationalTaskForce, OperationsModel, SideModel, TaskForceMember, TaskForcePhase,
    TaskForcePosture, TaskForceRole,
};
use crate::order::{
    lemma_filter_commutes, lemma_filter_contains, lemma_sort_commutes, permutation, rank_order,
    retain_with, sort_stable, stable_sort_orders, stable_sorted, Ranked,
};
use crate::scalar::{real_of, Real, INFINITY_BITS, ONE_BITS, SIGN_BIT};
use crate::views::{lemma_views_push, replicas, shown, views, Replica};
use crate::worksheet::{
    all_missing, difference, integer, longitude_delta, number_at, product, quotient, sum,
    Operation, Reader, Worksheet,
};

verus! {

/// How long a collapse of supply counts against a task force.
pub const SUPPLY_COLLAPSE_MEMORY_TICKS: u64 = 15;

/// How many ticks of encirclement are severe.
pub const SEVERE_ENCIRCLEMENT_TICKS: u64 = 60;

/// What task forces read of a unit.
#[derive(Clone, Copy, Debug, PartialEq, Eq, Structural)]
pub struct OperationalUnitInput {
    pub unit_id: u64,
    pub side_index: usize,
    pub country_id: u16,
    pub position: OperationalPoint,
    pub power: Real,
    pub readiness: Real,
    pub supply_collapsed_tick: Option<u64>,
    pub encircled_ticks: u64,
}

/// The last input for a unit.
pub open spec fn units_by_id(
    units: Seq<OperationalUnitInput>,
    count: nat,
) -> Map<u64, OperationalUnitInput>
    decreases count,
{
    if count == 0 {
        Map::empty()
    } else {
        units_by_id(units, (count - 1) as nat).insert(units[count - 1].unit_id, units[count - 1])
    }
}

pub(crate) fn index_units(units: &[OperationalUnitInput]) -> (by_id: BTreeMap<u64, OperationalUnitInput>)
    ensures
        by_id@ == units_by_id(units@, units@.len()),
{
    broadcast use vstd::std_specs::btree::group_btree_axioms;

    let mut by_id: BTreeMap<u64, OperationalUnitInput> = BTreeMap::new();
    let mut at: usize = 0;
    while at < units.len()
        invariant
            at <= units@.len(),
            by_id@ == units_by_id(units@, at as nat),
        decreases units@.len() - at,
    {
        broadcast use vstd::std_specs::btree::group_btree_axioms;

        by_id.insert(units[at].unit_id, units[at]);
        at = at + 1;
    }
    by_id
}

pub type UnitMap = Map<u64, OperationalUnitInput>;

pub open spec fn live_contact(by_id: UnitMap) -> spec_fn(ContactModel) -> bool {
    |contact: ContactModel| by_id.contains_key(contact.unit_id)
}

pub open spec fn loyal_member(by_id: UnitMap, side: usize) -> spec_fn(TaskForceMember) -> bool {
    |member: TaskForceMember|
        by_id.contains_key(member.unit_id) && by_id[member.unit_id].side_index == side
}

pub open spec fn member_of(members: Seq<TaskForceMember>) -> spec_fn(u64) -> bool {
    |unit_id: u64| has_member(members, unit_id)
}

/// A side without contacts that no longer exist.
pub open spec fn pruned_side(side: SideModel, by_id: UnitMap) -> SideModel {
    SideModel {
        intel: IntelModel {
            contacts: side.intel.contacts.filter(live_contact(by_id)),
            ..side.intel
        },
        ..side
    }
}

/// A task force without members that no longer exist or have changed sides.
pub open spec fn pruned_force(force: ForceModel, by_id: UnitMap) -> ForceModel {
    let members = force.members.filter(loyal_member(by_id, force.side_index));
    ForceModel {
        members,
        reserve_unit_ids: force.reserve_unit_ids.filter(member_of(members)),
        ..force
    }
}

pub open spec fn pruned_sides(sides: Seq<SideModel>, by_id: UnitMap) -> Seq<SideModel> {
    Seq::new(sides.len(), |i: int| pruned_side(sides[i], by_id))
}

fn prune_side(side: &mut OperationalSideState, by_id: &BTreeMap<u64, OperationalUnitInput>)
    ensures
        final(side)@ == pruned_side(old(side)@, by_id@),
{
    broadcast use vstd::std_specs::btree::group_btree_axioms;

    let mut contacts: Vec<OperationalContact> = Vec::new();
    core::mem::swap(&mut side.intel.contacts, &mut contacts);
    let ghost wanted = |contact: OperationalContact| by_id@.contains_key(contact.unit_id);
    let lives = |contact: &OperationalContact| -> (keep: bool)
        ensures
            keep == by_id@.contains_key(contact.unit_id),
        {
            broadcast use vstd::std_specs::btree::group_btree_axioms;

            by_id.contains_key(&contact.unit_id)
        };
    proof {
        lemma_filter_commutes(
            contacts@,
            shown::<OperationalContact>(),
            wanted,
            live_contact(by_id@),
        );
    }
    side.intel.contacts = retain_with(contacts, lives, Ghost(wanted));
}

fn prune_force(force: &mut OperationalTaskForce, by_id: &BTreeMap<u64, OperationalUnitInput>)
    ensures
        final(force)@ == pruned_force(old(force)@, by_id@),
{
    broadcast use vstd::std_specs::btree::group_btree_axioms;

    let side: usize = force.side_index;
    let mut members: Vec<TaskForceMember> = Vec::new();
    core::mem::swap(&mut force.members, &mut members);
    let loyal = |member: &TaskForceMember| -> (keep: bool)
        ensures
            keep == (by_id@.contains_key(member.unit_id) && by_id@[member.unit_id].side_index
                == side),
        {
            broadcast use vstd::std_specs::btree::group_btree_axioms;

            match by_id.get(&member.unit_id) {
                Some(unit) => unit.side_index == side,
                None => false,
            }
        };
    let kept = retain_with(members, loyal, Ghost(loyal_member(by_id@, side)));
    let mut reserve: Vec<u64> = Vec::new();
    core::mem::swap(&mut force.reserve_unit_ids, &mut reserve);
    let belongs = |unit_id: &u64| -> (keep: bool)
        ensures
            keep == has_member(kept@, *unit_id),
        {
            member_exists(&kept, *unit_id)
        };
    force.reserve_unit_ids = retain_with(reserve, belongs, Ghost(member_of(kept@)));
    force.members = kept;
}

/// Total power of the first members.
pub open spec fn member_power(
    results: Map<Operation, u64>,
    members: Seq<TaskForceMember>,
    by_id: UnitMap,
    count: nat,
) -> Real
    decreases count,
{
    if count == 0 {
        real_of(SIGN_BIT)
    } else {
        let rest = member_power(results, members, by_id, (count - 1) as nat);
        let id = members[count - 1].unit_id;
        if by_id.contains_key(id) {
            sum(results, rest, by_id[id].power.max_of(real_of(0)))
        } else {
            rest
        }
    }
}

/// Total readiness of the first members.
pub open spec fn member_readiness(
    results: Map<Operation, u64>,
    members: Seq<TaskForceMember>,
    by_id: UnitMap,
    count: nat,
) -> Real
    decreases count,
{
    if count == 0 {
        real_of(SIGN_BIT)
    } else {
        let rest = member_readiness(results, members, by_id, (count - 1) as nat);
        let id = members[count - 1].unit_id;
        if by_id.contains_key(id) {
            sum(results, rest, by_id[id].readiness.clamp_of(real_of(0), real_of(ONE_BITS)))
        } else {
            rest
        }
    }
}

pub open spec fn lately_collapsed(unit: OperationalUnitInput, tick: u64) -> bool {
    unit.supply_collapsed_tick matches Some(collapse) && collapse <= tick && tick - collapse
        <= SUPPLY_COLLAPSE_MEMORY_TICKS
}

/// How many of the first members have a property.
pub open spec fn count_members(
    members: Seq<TaskForceMember>,
    by_id: UnitMap,
    property: spec_fn(OperationalUnitInput) -> bool,
    count: nat,
) -> nat
    decreases count,
{
    if count == 0 {
        0
    } else {
        let rest = count_members(members, by_id, property, (count - 1) as nat);
        let id = members[count - 1].unit_id;
        if by_id.contains_key(id) && property(by_id[id]) {
            rest + 1
        } else {
            rest
        }
    }
}

pub open spec fn collapsed_at(tick: u64) -> spec_fn(OperationalUnitInput) -> bool {
    |unit: OperationalUnitInput| lately_collapsed(unit, tick)
}

pub open spec fn encircled() -> spec_fn(OperationalUnitInput) -> bool {
    |unit: OperationalUnitInput| unit.encircled_ticks >= SEVERE_ENCIRCLEMENT_TICKS
}

pub open spec fn arrived_at(
    results: Map<Operation, u64>,
    anchor: OperationalPoint,
) -> spec_fn(OperationalUnitInput) -> bool {
    |unit: OperationalUnitInput|
        distance_squared(results, unit.position, anchor).le(real_of(ONE_BITS))
}

pub open spec fn distance_squared(
    results: Map<Operation, u64>,
    left: OperationalPoint,
    right: OperationalPoint,
) -> Real {
    let lat = difference(results, right.lat, left.lat);
    let lng = longitude_delta(results, left.lng, right.lng);
    sum(results, product(results, lat, lat), product(results, lng, lng))
}

/// Whether a worksheet holds all that the way between two places takes.
pub open spec fn way_supplied(
    results: Map<Operation, u64>,
    left: OperationalPoint,
    right: OperationalPoint,
) -> bool {
    let lat = difference(results, right.lat, left.lat);
    let lng = longitude_delta(results, left.lng, right.lng);
    let lat_squared = product(results, lat, lat);
    let lng_squared = product(results, lng, lng);
    &&& results.contains_key(Operation::Difference(right.lat, left.lat))
    &&& results.contains_key(Operation::LongitudeDelta(left.lng, right.lng))
    &&& results.contains_key(Operation::Product(lat, lat))
    &&& results.contains_key(Operation::Product(lng, lng))
    &&& results.contains_key(Operation::Sum(lat_squared, lng_squared))
}

pub(crate) fn distance_sq(left: OperationalPoint, right: OperationalPoint, reader: &mut Reader<'_>) -> (
distance: Real)
    requires
        old(reader).sound(),
    ensures
        final(reader)@ == old(reader)@,
        final(reader).sound(),
        final(reader).complete() ==> old(reader).complete() && distance == distance_squared(
            old(reader)@,
            left,
            right,
        ),
        old(reader).complete() && way_supplied(old(reader)@, left, right) ==>
            final(reader).complete(),
{
    let lat = reader.difference(right.lat, left.lat);
    let lng = reader.longitude_delta(left.lng, right.lng);
    let lat_squared = reader.product(lat, lat);
    let lng_squared = reader.product(lng, lng);
    reader.sum(lat_squared, lng_squared)
}

/// How many members in trouble make the whole force give way.
pub open spec fn formation_threshold(results: Map<Operation, u64>, members: nat) -> u64 {
    results[Operation::Whole(
        number_at(
            results,
            Operation::Ceiling(
                product(results, integer(results, members as u64), real_of(N_0_35)),
            ),
        ),
    )]
}

/// A force with its strength and readiness brought up to date.
pub open spec fn assessed_force(
    results: Map<Operation, u64>,
    force: ForceModel,
    by_id: UnitMap,
) -> ForceModel {
    let power = member_power(results, force.members, by_id, force.members.len());
    ForceModel {
        current_power: power,
        peak_power: force.peak_power.max_of(power),
        readiness: quotient(
            results,
            member_readiness(results, force.members, by_id, force.members.len()),
            integer(results, force.members.len() as u64),
        ),
        ..force
    }
}

pub open spec fn transitioned(force: ForceModel, phase: TaskForcePhase, tick: u64) -> ForceModel {
    ForceModel { phase, phase_started_tick: tick, last_progress_tick: tick, ..force }
}

/// How far a member of a role should be along the corridor.
pub open spec fn role_progress(
    results: Map<Operation, u64>,
    phase: TaskForcePhase,
    role: TaskForceRole,
    progress: Real,
) -> Real {
    let bounded = progress.clamp_of(real_of(0), real_of(ONE_BITS));
    if !(phase is Attacking) {
        bounded
    } else {
        match role {
            TaskForceRole::Spearhead => sum(
                results,
                real_of(N_0_35),
                product(results, bounded, real_of(N_0_75)),
            ).min_of(real_of(ONE_BITS)),
            TaskForceRole::Line => sum(
                results,
                real_of(N_0_2),
                product(results, bounded, real_of(N_0_85)),
            ).min_of(real_of(ONE_BITS)),
            TaskForceRole::Support => sum(
                results,
                real_of(N_0_1),
                product(results, bounded, real_of(N_0_58)),
            ).min_of(real_of(N_0_72)),
            TaskForceRole::Reserve => if real_of(N_0_4).le(bounded) {
                product(results, bounded, real_of(N_0_5)).min_of(real_of(N_0_45))
            } else {
                real_of(0)
            },
        }
    }
}

/// A force whose members know how far they should be.
pub open spec fn aligned_force(results: Map<Operation, u64>, force: ForceModel) -> ForceModel {
    ForceModel {
        members: Seq::new(
            force.members.len(),
            |i: int|
                TaskForceMember {
                    route_progress: role_progress(
                        results,
                        force.phase,
                        force.members[i].role,
                        force.progress,
                    ),
                    ..force.members[i]
                },
        ),
        ..force
    }
}

pub open spec fn launch_readiness(posture: TaskForcePosture) -> Real {
    match posture {
        TaskForcePosture::Aggressive => real_of(N_0_65),
        TaskForcePosture::Balanced => real_of(N_0_75),
        TaskForcePosture::Defensive => real_of(N_0_85),
    }
}

/// A force that assembles attacks as soon as it is ready for its posture.
pub open spec fn assembling_step(force: ForceModel, tick: u64) -> ForceModel {
    if launch_readiness(force.posture).le(force.readiness) {
        ForceModel {
            launch_power: force.current_power.max_of(real_of(N_0_0001)),
            completion_reason: None,
            ..transitioned(force, TaskForcePhase::Attacking, tick)
        }
    } else {
        force
    }
}

/// Why an attack stops, if it does.
pub open spec fn culmination_reason(
    results: Map<Operation, u64>,
    force: ForceModel,
    by_id: UnitMap,
    tick: u64,
) -> Option<Seq<char>> {
    let threshold = formation_threshold(results, force.members.len());
    let ratio = quotient(
        results,
        force.current_power,
        force.launch_power.max_of(real_of(N_0_0001)),
    );
    if force.severe_surprise {
        Some("SEVERE_SURPRISE"@)
    } else if count_members(force.members, by_id, collapsed_at(tick), force.members.len())
        >= threshold {
        Some("SUPPLY_COLLAPSE"@)
    } else if count_members(force.members, by_id, encircled(), force.members.len()) >= threshold {
        Some("ENCIRCLEMENT_RISK"@)
    } else if ratio.lt(real_of(N_0_55)) {
        Some("POWER_LOSS"@)
    } else {
        None
    }
}

/// Whether the attack stops for want of supply.
pub open spec fn supply_fails(
    results: Map<Operation, u64>,
    force: ForceModel,
    by_id: UnitMap,
    tick: u64,
) -> bool {
    !force.severe_surprise && count_members(
        force.members,
        by_id,
        collapsed_at(tick),
        force.members.len(),
    ) >= formation_threshold(results, force.members.len())
}

/// An attack that has reached its objective consolidates; one in trouble culminates.
pub open spec fn attacking_step(
    results: Map<Operation, u64>,
    force: ForceModel,
    by_id: UnitMap,
    tick: u64,
) -> ForceModel {
    if real_of(ONE_BITS).le(force.progress) {
        ForceModel {
            completion_reason: None,
            ..transitioned(force, TaskForcePhase::Consolidating, tick)
        }
    } else {
        match culmination_reason(results, force, by_id, tick) {
            None => force,
            Some(reason) => {
                let stopped = ForceModel {
                    completion_reason: Some(reason),
                    ..transitioned(force, TaskForcePhase::Culminated, tick)
                };
                if supply_fails(results, force, by_id, tick) {
                    ForceModel {
                        supply_invalidated_tick: Some(tick),
                        intent_revision: next_revision(force.intent_revision),
                        ..stopped
                    }
                } else {
                    stopped
                }
            },
        }
    }
}

pub open spec fn first_point(
    first: Option<OperationalPoint>,
    second: Option<OperationalPoint>,
) -> Option<OperationalPoint> {
    match first {
        Some(point) => Some(point),
        None => second,
    }
}

/// A withdrawal ends when 65 of 100 members have arrived.
pub open spec fn withdrawing_step(
    results: Map<Operation, u64>,
    force: ForceModel,
    by_id: UnitMap,
    tick: u64,
) -> ForceModel {
    match first_point(force.withdrawal_anchor, force.staging_anchor) {
        None => force,
        Some(anchor) => if count_members(
            force.members,
            by_id,
            arrived_at(results, anchor),
            force.members.len(),
        ) * 100 >= force.members.len() * 65 {
            ForceModel {
                last_recovery_tick: tick,
                recovery_power: force.current_power,
                completion_reason: None,
                ..transitioned(force, TaskForcePhase::Regrouping, tick)
            }
        } else {
            force
        },
    }
}

/// A force regroups until it has 0.7 of its former power or has not recovered for long.
pub open spec fn regrouping_step(
    results: Map<Operation, u64>,
    force: ForceModel,
    tick: u64,
) -> ForceModel {
    let baseline = force.launch_power.max_of(force.peak_power).max_of(real_of(N_0_0001));
    let recovered = sum(
        results,
        force.recovery_power,
        product(results, baseline, real_of(N_0_02)),
    ).le(force.current_power);
    let noted = if recovered {
        ForceModel {
            recovery_power: force.current_power,
            last_recovery_tick: tick,
            ..force
        }
    } else {
        force
    };
    let restored = real_of(N_0_7).le(quotient(results, force.current_power, baseline));
    if restored || gap(tick, noted.last_recovery_tick) >= 1_200 {
        let outcome = if restored {
            "REGROUPED"@
        } else {
            "REGROUP_PLATEAU"@
        };
        ForceModel {
            completion_reason: Some(outcome),
            outcome: Some(outcome),
            ..transitioned(noted, TaskForcePhase::Complete, tick)
        }
    } else {
        noted
    }
}

/// One tick of an assessed force.
pub open spec fn phase_step(
    results: Map<Operation, u64>,
    force: ForceModel,
    by_id: UnitMap,
    tick: u64,
) -> ForceModel {
    match force.phase {
        TaskForcePhase::Assembling => assembling_step(force, tick),
        TaskForcePhase::Attacking => attacking_step(results, force, by_id, tick),
        TaskForcePhase::Culminated => if tick > force.phase_started_tick {
            transitioned(force, TaskForcePhase::Withdrawing, tick)
        } else {
            force
        },
        TaskForcePhase::Withdrawing => withdrawing_step(results, force, by_id, tick),
        TaskForcePhase::Regrouping => regrouping_step(results, force, tick),
        TaskForcePhase::Consolidating => if gap(tick, force.phase_started_tick) >= 300 {
            ForceModel {
                completion_reason: Some("OBJECTIVE_SECURED"@),
                outcome: Some("OBJECTIVE_SECURED"@),
                ..transitioned(force, TaskForcePhase::Complete, tick)
            }
        } else {
            force
        },
        TaskForcePhase::Complete => force,
    }
}

/// One tick of a force whose members were pruned.
pub open spec fn advanced_force(
    results: Map<Operation, u64>,
    force: ForceModel,
    by_id: UnitMap,
    collapsing: Set<usize>,
    tick: u64,
) -> ForceModel {
    if force.members.len() == 0 {
        ForceModel {
            completion_reason: Some("NO_LIVE_MEMBERS"@),
            outcome: Some("NO_LIVE_MEMBERS"@),
            ..transitioned(force, TaskForcePhase::Complete, tick)
        }
    } else {
        let assessed = assessed_force(results, force, by_id);
        if assessed.phase is Regrouping && collapsing.contains(assessed.side_index) {
            aligned_force(
                results,
                ForceModel {
                    plan_type: "DEFEND"@,
                    completion_reason: Some("COLLAPSING_DEFENSE"@),
                    outcome: None,
                    ..assessed
                },
            )
        } else {
            aligned_force(results, phase_step(results, assessed, by_id, tick))
        }
    }
}

/// The first forces after one tick, without those that are complete.
pub open spec fn advanced_forces(
    results: Map<Operation, u64>,
    forces: Seq<ForceModel>,
    by_id: UnitMap,
    collapsing: Set<usize>,
    tick: u64,
    count: nat,
) -> Seq<ForceModel>
    decreases count,
{
    if count == 0 {
        Seq::empty()
    } else {
        let rest = advanced_forces(results, forces, by_id, collapsing, tick, (count - 1) as nat);
        let advanced = advanced_force(
            results,
            pruned_force(forces[count - 1], by_id),
            by_id,
            collapsing,
            tick,
        );
        if advanced.phase is Complete {
            rest
        } else {
            rest.push(advanced)
        }
    }
}

/// Whether a worksheet holds all that the strength of members takes.
pub open spec fn power_supplied(
    results: Map<Operation, u64>,
    members: Seq<TaskForceMember>,
    by_id: UnitMap,
) -> bool {
    forall|k: int|
        0 <= k < members.len() && by_id.contains_key((#[trigger] members[k]).unit_id) ==> ({
            let unit = by_id[members[k].unit_id];
            &&& results.contains_key(
                Operation::Sum(
                    member_power(results, members, by_id, k as nat),
                    unit.power.max_of(real_of(0)),
                ),
            )
            &&& results.contains_key(
                Operation::Sum(
                    member_readiness(results, members, by_id, k as nat),
                    unit.readiness.clamp_of(real_of(0), real_of(ONE_BITS)),
                ),
            )
        })
}

fn total_member_power(
    members: &Vec<TaskForceMember>,
    by_id: &BTreeMap<u64, OperationalUnitInput>,
    reader: &mut Reader<'_>,
) -> (totals: (Real, Real))
    requires
        old(reader).sound(),
    ensures
        final(reader)@ == old(reader)@,
        final(reader).sound(),
        final(reader).complete() ==> old(reader).complete() && totals.0 == member_power(
            old(reader)@,
            members@,
            by_id@,
            members@.len(),
        ) && totals.1 == member_readiness(old(reader)@, members@, by_id@, members@.len()),
        old(reader).complete() && power_supplied(old(reader)@, members@, by_id@) ==>
            final(reader).complete(),
{
    broadcast use vstd::std_specs::btree::group_btree_axioms;

    let ghost results = reader@;
    let ghost untouched = reader.complete();
    let mut power = Real::from_bits(SIGN_BIT);
    let mut readiness = Real::from_bits(SIGN_BIT);
    let mut at: usize = 0;
    while at < members.len()
        invariant
            at <= members@.len(),
            reader@ == results,
            reader.sound(),
            reader.complete() ==> untouched && power == member_power(
                results,
                members@,
                by_id@,
                at as nat,
            ) && readiness == member_readiness(results, members@, by_id@, at as nat),
            untouched && power_supplied(results, members@, by_id@) ==> reader.complete(),
        decreases members@.len() - at,
    {
        broadcast use vstd::std_specs::btree::group_btree_axioms;

        if let Some(unit) = by_id.get(&members[at].unit_id) {
            power = reader.sum(power, unit.power.larger(Real::zero()));
            readiness = reader.sum(
                readiness,
                unit.readiness.clamped(Real::zero(), Real::one()),
            );
        }
        at = at + 1;
    }
    (power, readiness)
}

fn count_collapsed(
    members: &Vec<TaskForceMember>,
    by_id: &BTreeMap<u64, OperationalUnitInput>,
    tick: u64,
) -> (count: u64)
    ensures
        count == count_members(members@, by_id@, collapsed_at(tick), members@.len()),
{
    broadcast use vstd::std_specs::btree::group_btree_axioms;

    let mut count: u64 = 0;
    let mut at: usize = 0;
    assert(members@.len() == members.len());
    while at < members.len()
        invariant
            at <= members@.len(),
            members@.len() <= u64::MAX,
            count <= at,
            count == count_members(members@, by_id@, collapsed_at(tick), at as nat),
        decreases members@.len() - at,
    {
        broadcast use vstd::std_specs::btree::group_btree_axioms;

        if let Some(unit) = by_id.get(&members[at].unit_id) {
            if let Some(collapse) = unit.supply_collapsed_tick {
                if collapse <= tick && tick - collapse <= SUPPLY_COLLAPSE_MEMORY_TICKS {
                    count = count + 1;
                }
            }
        }
        at = at + 1;
    }
    count
}

fn count_encircled(
    members: &Vec<TaskForceMember>,
    by_id: &BTreeMap<u64, OperationalUnitInput>,
) -> (count: u64)
    ensures
        count == count_members(members@, by_id@, encircled(), members@.len()),
{
    broadcast use vstd::std_specs::btree::group_btree_axioms;

    let mut count: u64 = 0;
    let mut at: usize = 0;
    assert(members@.len() == members.len());
    while at < members.len()
        invariant
            at <= members@.len(),
            members@.len() <= u64::MAX,
            count <= at,
            count == count_members(members@, by_id@, encircled(), at as nat),
        decreases members@.len() - at,
    {
        broadcast use vstd::std_specs::btree::group_btree_axioms;

        if let Some(unit) = by_id.get(&members[at].unit_id) {
            if unit.encircled_ticks >= SEVERE_ENCIRCLEMENT_TICKS {
                count = count + 1;
            }
        }
        at = at + 1;
    }
    count
}

/// Whether a worksheet holds all that counting arrivals takes.
pub open spec fn arrival_supplied(
    results: Map<Operation, u64>,
    members: Seq<TaskForceMember>,
    by_id: UnitMap,
    anchor: OperationalPoint,
) -> bool {
    forall|k: int|
        0 <= k < members.len() && by_id.contains_key((#[trigger] members[k]).unit_id)
            ==> way_supplied(results, by_id[members[k].unit_id].position, anchor)
}

fn count_arrived(
    members: &Vec<TaskForceMember>,
    by_id: &BTreeMap<u64, OperationalUnitInput>,
    anchor: OperationalPoint,
    reader: &mut Reader<'_>,
) -> (count: u64)
    requires
        old(reader).sound(),
    ensures
        final(reader)@ == old(reader)@,
        final(reader).sound(),
        final(reader).complete() ==> old(reader).complete() && count == count_members(
            members@,
            by_id@,
            arrived_at(old(reader)@, anchor),
            members@.len(),
        ),
        old(reader).complete() && arrival_supplied(old(reader)@, members@, by_id@, anchor) ==>
            final(reader).complete(),
{
    broadcast use vstd::std_specs::btree::group_btree_axioms;

    let ghost results = reader@;
    let ghost untouched = reader.complete();
    let mut count: u64 = 0;
    let mut at: usize = 0;
    assert(members@.len() == members.len());
    while at < members.len()
        invariant
            at <= members@.len(),
            members@.len() <= u64::MAX,
            count <= at,
            reader@ == results,
            reader.sound(),
            reader.complete() ==> untouched && count == count_members(
                members@,
                by_id@,
                arrived_at(results, anchor),
                at as nat,
            ),
            untouched && arrival_supplied(results, members@, by_id@, anchor) ==> reader.complete(),
        decreases members@.len() - at,
    {
        broadcast use vstd::std_specs::btree::group_btree_axioms;

        if let Some(unit) = by_id.get(&members[at].unit_id) {
            let distance = distance_sq(unit.position, anchor, reader);
            if distance.at_most(Real::one()) {
                count = count + 1;
            }
        }
        at = at + 1;
    }
    count
}

fn transition_task_force(force: &mut OperationalTaskForce, phase: TaskForcePhase, tick: u64)
    ensures
        final(force)@ == transitioned(old(force)@, phase, tick),
        final(force).members@ == old(force).members@,
{
    force.phase = phase;
    force.phase_started_tick = tick;
    force.last_progress_tick = tick;
}

/// Whether a worksheet holds all that the progress of a role takes.
pub open spec fn role_supplied(
    results: Map<Operation, u64>,
    phase: TaskForcePhase,
    role: TaskForceRole,
    progress: Real,
) -> bool {
    let bounded = progress.clamp_of(real_of(0), real_of(ONE_BITS));
    phase is Attacking ==> match role {
        TaskForceRole::Spearhead => {
            let part = product(results, bounded, real_of(N_0_75));
            &&& results.contains_key(Operation::Product(bounded, real_of(N_0_75)))
            &&& results.contains_key(Operation::Sum(real_of(N_0_35), part))
        },
        TaskForceRole::Line => {
            let part = product(results, bounded, real_of(N_0_85));
            &&& results.contains_key(Operation::Product(bounded, real_of(N_0_85)))
            &&& results.contains_key(Operation::Sum(real_of(N_0_2), part))
        },
        TaskForceRole::Support => {
            let part = product(results, bounded, real_of(N_0_58));
            &&& results.contains_key(Operation::Product(bounded, real_of(N_0_58)))
            &&& results.contains_key(Operation::Sum(real_of(N_0_1), part))
        },
        TaskForceRole::Reserve => real_of(N_0_4).le(bounded) ==> results.contains_key(
            Operation::Product(bounded, real_of(N_0_5)),
        ),
    }
}

fn role_route_progress(
    phase: TaskForcePhase,
    role: TaskForceRole,
    progress: Real,
    reader: &mut Reader<'_>,
) -> (share: Real)
    requires
        old(reader).sound(),
    ensures
        final(reader)@ == old(reader)@,
        final(reader).sound(),
        final(reader).complete() ==> old(reader).complete() && share == role_progress(
            old(reader)@,
            phase,
            role,
            progress,
        ),
        old(reader).complete() && role_supplied(old(reader)@, phase, role, progress) ==>
            final(reader).complete(),
{
    let bounded = progress.clamped(Real::zero(), Real::one());
    if phase != TaskForcePhase::Attacking {
        return bounded;
    }
    match role {
        TaskForceRole::Spearhead => {
            let part = reader.product(bounded, Real::from_bits(N_0_75));
            reader.sum(Real::from_bits(N_0_35), part).smaller(Real::one())
        },
        TaskForceRole::Line => {
            let part = reader.product(bounded, Real::from_bits(N_0_85));
            reader.sum(Real::from_bits(N_0_2), part).smaller(Real::one())
        },
        TaskForceRole::Support => {
            let part = reader.product(bounded, Real::from_bits(N_0_58));
            reader.sum(Real::from_bits(N_0_1), part).smaller(Real::from_bits(N_0_72))
        },
        TaskForceRole::Reserve => {
            if Real::from_bits(N_0_4).at_most(bounded) {
                reader.product(bounded, Real::from_bits(N_0_5)).smaller(Real::from_bits(N_0_45))
            } else {
                Real::zero()
            }
        },
    }
}

/// Whether a worksheet holds all that aligning the members of a force takes.
pub open spec fn alignment_supplied(results: Map<Operation, u64>, force: ForceModel) -> bool {
    forall|k: int|
        0 <= k < force.members.len() ==> role_supplied(
            results,
            force.phase,
            (#[trigger] force.members[k]).role,
            force.progress,
        )
}

fn align_members(force: &mut OperationalTaskForce, reader: &mut Reader<'_>)
    requires
        old(reader).sound(),
    ensures
        final(reader)@ == old(reader)@,
        final(reader).sound(),
        final(force)@.phase == old(force)@.phase,
        final(reader).complete() ==> old(reader).complete() && final(force)@ == aligned_force(
            old(reader)@,
            old(force)@,
        ),
        old(reader).complete() && alignment_supplied(old(reader)@, old(force)@) ==>
            final(reader).complete(),
{
    let ghost results = reader@;
    let ghost untouched = reader.complete();
    let ghost before = force@;
    let mut aligned: Vec<TaskForceMember> = Vec::new();
    let mut at: usize = 0;
    while at < force.members.len()
        invariant
            at <= force.members@.len(),
            force@ == before,
            reader@ == results,
            reader.sound(),
            aligned@.len() == at,
            reader.complete() ==> untouched && forall|i: int|
                0 <= i < at ==> #[trigger] aligned@[i] == aligned_force(results, before).members[i],
            untouched && alignment_supplied(results, before) ==> reader.complete(),
        decreases force.members@.len() - at,
    {
        assert(before.members[at as int] == force.members@[at as int]);
        let mut member = force.members[at];
        member.route_progress =
        role_route_progress(force.phase, member.role, force.progress, reader);
        aligned.push(member);
        at = at + 1;
    }
    force.members = aligned;
    proof {
        if reader.complete() {
            assert(force.members@ =~= aligned_force(results, before).members);
        }
    }
}

/// Whether a worksheet holds all that assessing a force takes.
pub open spec fn assessment_supplied(
    results: Map<Operation, u64>,
    force: ForceModel,
    by_id: UnitMap,
) -> bool {
    let size = force.members.len() as u64;
    &&& power_supplied(results, force.members, by_id)
    &&& results.contains_key(Operation::Integer(size))
    &&& results.contains_key(
        Operation::Quotient(
            member_readiness(results, force.members, by_id, force.members.len()),
            integer(results, size),
        ),
    )
}

fn assess_force(
    force: &mut OperationalTaskForce,
    by_id: &BTreeMap<u64, OperationalUnitInput>,
    reader: &mut Reader<'_>,
)
    requires
        old(reader).sound(),
    ensures
        final(reader)@ == old(reader)@,
        final(reader).sound(),
        final(reader).complete() ==> old(reader).complete() && final(force)@ == assessed_force(
            old(reader)@,
            old(force)@,
            by_id@,
        ),
        old(reader).complete() && assessment_supplied(old(reader)@, old(force)@, by_id@) ==>
            final(reader).complete(),
{
    let totals = total_member_power(&force.members, by_id, reader);
    assert(force.members@.len() == force.members.len());
    let size = reader.integer(force.members.len() as u64);
    let readiness = reader.quotient(totals.1, size);
    force.current_power = totals.0;
    force.peak_power = force.peak_power.larger(totals.0);
    force.readiness = readiness;
}

fn step_assembling(force: &mut OperationalTaskForce, tick: u64)
    ensures
        final(force)@ == assembling_step(old(force)@, tick),
{
    let needed = match force.posture {
        TaskForcePosture::Aggressive => Real::from_bits(N_0_65),
        TaskForcePosture::Balanced => Real::from_bits(N_0_75),
        TaskForcePosture::Defensive => Real::from_bits(N_0_85),
    };
    if needed.at_most(force.readiness) {
        transition_task_force(force, TaskForcePhase::Attacking, tick);
        force.launch_power = force.current_power.larger(Real::from_bits(N_0_0001));
        force.completion_reason = None;
    }
}

/// Whether a worksheet holds all that a step of an attack takes.
pub open spec fn attack_supplied(results: Map<Operation, u64>, force: ForceModel) -> bool {
    !real_of(ONE_BITS).le(force.progress) ==> {
        let size = integer(results, force.members.len() as u64);
        let share = product(results, size, real_of(N_0_35));
        let raised = number_at(results, Operation::Ceiling(share));
        let launched = force.launch_power.max_of(real_of(N_0_0001));
        &&& results.contains_key(Operation::Integer(force.members.len() as u64))
        &&& results.contains_key(Operation::Product(size, real_of(N_0_35)))
        &&& results.contains_key(Operation::Ceiling(share))
        &&& results.contains_key(Operation::Whole(raised))
        &&& results.contains_key(Operation::Quotient(force.current_power, launched))
    }
}

fn step_attacking(
    force: &mut OperationalTaskForce,
    by_id: &BTreeMap<u64, OperationalUnitInput>,
    tick: u64,
    reader: &mut Reader<'_>,
)
    requires
        old(reader).sound(),
    ensures
        final(reader)@ == old(reader)@,
        final(reader).sound(),
        final(reader).complete() ==> old(reader).complete() && final(force)@ == attacking_step(
            old(reader)@,
            old(force)@,
            by_id@,
            tick,
        ),
        old(reader).complete() && attack_supplied(old(reader)@, old(force)@) ==>
            final(reader).complete(),
{
    if Real::one().at_most(force.progress) {
        transition_task_force(force, TaskForcePhase::Consolidating, tick);
        force.completion_reason = None;
        return ;
    }
    let collapsed: u64 = count_collapsed(&force.members, by_id, tick);
    let surrounded: u64 = count_encircled(&force.members, by_id);
    assert(force.members@.len() == force.members.len());
    let size = reader.integer(force.members.len() as u64);
    let share = reader.product(size, Real::from_bits(N_0_35));
    let raised = reader.gather_number(Operation::Ceiling(share));
    let threshold: u64 = reader.gather(Operation::Whole(raised));
    let ratio = reader.quotient(
        force.current_power,
        force.launch_power.larger(Real::from_bits(N_0_0001)),
    );
    if force.severe_surprise {
        transition_task_force(force, TaskForcePhase::Culminated, tick);
        force.completion_reason = Some("SEVERE_SURPRISE".to_owned());
    } else if collapsed >= threshold {
        let revision: u64 = force.intent_revision;
        transition_task_force(force, TaskForcePhase::Culminated, tick);
        force.completion_reason = Some("SUPPLY_COLLAPSE".to_owned());
        force.supply_invalidated_tick = Some(tick);
        force.intent_revision = revision.saturating_add(1);
    } else if surrounded >= threshold {
        transition_task_force(force, TaskForcePhase::Culminated, tick);
        force.completion_reason = Some("ENCIRCLEMENT_RISK".to_owned());
    } else if ratio.less(Real::from_bits(N_0_55)) {
        transition_task_force(force, TaskForcePhase::Culminated, tick);
        force.completion_reason = Some("POWER_LOSS".to_owned());
    }
}

/// Whether a worksheet holds all that a step of a withdrawal takes.
pub open spec fn withdrawal_supplied(
    results: Map<Operation, u64>,
    force: ForceModel,
    by_id: UnitMap,
) -> bool {
    first_point(force.withdrawal_anchor, force.staging_anchor) matches Some(anchor)
        ==> arrival_supplied(results, force.members, by_id, anchor)
}

fn step_withdrawing(
    force: &mut OperationalTaskForce,
    by_id: &BTreeMap<u64, OperationalUnitInput>,
    tick: u64,
    reader: &mut Reader<'_>,
)
    requires
        old(reader).sound(),
    ensures
        final(reader)@ == old(reader)@,
        final(reader).sound(),
        final(reader).complete() ==> old(reader).complete() && final(force)@ == withdrawing_step(
            old(reader)@,
            old(force)@,
            by_id@,
            tick,
        ),
        old(reader).complete() && withdrawal_supplied(old(reader)@, old(force)@, by_id@) ==>
            final(reader).complete(),
{
    let anchor = match force.withdrawal_anchor {
        Some(point) => Some(point),
        None => force.staging_anchor,
    };
    if let Some(place) = anchor {
        let arrived: u64 = count_arrived(&force.members, by_id, place, reader);
        assert(force.members@.len() == force.members.len());
        if (arrived as u128) * 100 >= (force.members.len() as u128) * 65 {
            transition_task_force(force, TaskForcePhase::Regrouping, tick);
            force.last_recovery_tick = tick;
            force.recovery_power = force.current_power;
            force.completion_reason = None;
        }
    }
}

/// Whether a worksheet holds all that a step of regrouping takes.
pub open spec fn regrouping_supplied(
    results: Map<Operation, u64>,
    force: ForceModel,
) -> bool {
    let baseline = force.launch_power.max_of(force.peak_power).max_of(real_of(N_0_0001));
    let margin = product(results, baseline, real_of(N_0_02));
    &&& results.contains_key(Operation::Product(baseline, real_of(N_0_02)))
    &&& results.contains_key(Operation::Sum(force.recovery_power, margin))
    &&& results.contains_key(Operation::Quotient(force.current_power, baseline))
}

fn step_regrouping(force: &mut OperationalTaskForce, tick: u64, reader: &mut Reader<'_>)
    requires
        old(reader).sound(),
    ensures
        final(reader)@ == old(reader)@,
        final(reader).sound(),
        final(reader).complete() ==> old(reader).complete() && final(force)@ == regrouping_step(
            old(reader)@,
            old(force)@,
            tick,
        ),
        old(reader).complete() && regrouping_supplied(old(reader)@, old(force)@) ==>
            final(reader).complete(),
{
    let baseline = force.launch_power.larger(force.peak_power).larger(Real::from_bits(N_0_0001));
    let margin = reader.product(baseline, Real::from_bits(N_0_02));
    let goal = reader.sum(force.recovery_power, margin);
    let ratio = reader.quotient(force.current_power, baseline);
    if goal.at_most(force.current_power) {
        force.recovery_power = force.current_power;
        force.last_recovery_tick = tick;
    }
    let restored = Real::from_bits(N_0_7).at_most(ratio);
    if restored || tick.saturating_sub(force.last_recovery_tick) >= 1_200 {
        transition_task_force(force, TaskForcePhase::Complete, tick);
        if restored {
            force.completion_reason = Some("REGROUPED".to_owned());
            force.outcome = Some("REGROUPED".to_owned());
        } else {
            force.completion_reason = Some("REGROUP_PLATEAU".to_owned());
            force.outcome = Some("REGROUP_PLATEAU".to_owned());
        }
    }
}

/// Whether a worksheet holds all that a step of a force takes.
pub open spec fn step_supplied(
    results: Map<Operation, u64>,
    force: ForceModel,
    by_id: UnitMap,
) -> bool {
    match force.phase {
        TaskForcePhase::Attacking => attack_supplied(results, force),
        TaskForcePhase::Withdrawing => withdrawal_supplied(results, force, by_id),
        TaskForcePhase::Regrouping => regrouping_supplied(results, force),
        _ => true,
    }
}

fn step_phase(
    force: &mut OperationalTaskForce,
    by_id: &BTreeMap<u64, OperationalUnitInput>,
    tick: u64,
    reader: &mut Reader<'_>,
)
    requires
        old(reader).sound(),
    ensures
        final(reader)@ == old(reader)@,
        final(reader).sound(),
        final(reader).complete() ==> old(reader).complete() && final(force)@ == phase_step(
            old(reader)@,
            old(force)@,
            by_id@,
            tick,
        ),
        old(reader).complete() && step_supplied(old(reader)@, old(force)@, by_id@) ==>
            final(reader).complete(),
{
    match force.phase {
        TaskForcePhase::Assembling => {
            step_assembling(force, tick);
        },
        TaskForcePhase::Attacking => {
            step_attacking(force, by_id, tick, reader);
        },
        TaskForcePhase::Culminated => {
            if tick > force.phase_started_tick {
                transition_task_force(force, TaskForcePhase::Withdrawing, tick);
            }
        },
        TaskForcePhase::Withdrawing => {
            step_withdrawing(force, by_id, tick, reader);
        },
        TaskForcePhase::Regrouping => {
            step_regrouping(force, tick, reader);
        },
        TaskForcePhase::Consolidating => {
            if tick.saturating_sub(force.phase_started_tick) >= 300 {
                transition_task_force(force, TaskForcePhase::Complete, tick);
                force.completion_reason = Some("OBJECTIVE_SECURED".to_owned());
                force.outcome = Some("OBJECTIVE_SECURED".to_owned());
            }
        },
        TaskForcePhase::Complete => {},
    }
}

/// Whether a worksheet holds all that advancing a force takes.
pub open spec fn advance_supplied(
    results: Map<Operation, u64>,
    force: ForceModel,
    by_id: UnitMap,
    collapsing: Set<usize>,
    tick: u64,
) -> bool {
    let assessed = assessed_force(results, force, by_id);
    force.members.len() > 0 ==> {
        &&& assessment_supplied(results, force, by_id)
        &&& if assessed.phase is Regrouping && collapsing.contains(assessed.side_index) {
            alignment_supplied(results, assessed)
        } else {
            &&& step_supplied(results, assessed, by_id)
            &&& alignment_supplied(results, phase_step(results, assessed, by_id, tick))
        }
    }
}

/// Whether a worksheet holds all that advancing all forces takes.
pub open spec fn advances_supplied(
    results: Map<Operation, u64>,
    forces: Seq<ForceModel>,
    by_id: UnitMap,
    collapsing: Set<usize>,
    tick: u64,
) -> bool {
    forall|k: int|
        0 <= k < forces.len() ==> advance_supplied(
            results,
            pruned_force(#[trigger] forces[k], by_id),
            by_id,
            collapsing,
            tick,
        )
}

fn advance_force(
    force: &mut OperationalTaskForce,
    by_id: &BTreeMap<u64, OperationalUnitInput>,
    collapsing_sides: &BTreeSet<usize>,
    tick: u64,
    reader: &mut Reader<'_>,
)
    requires
        old(reader).sound(),
    ensures
        final(reader)@ == old(reader)@,
        final(reader).sound(),
        final(reader).complete() ==> old(reader).complete() && final(force)@ == advanced_force(
            old(reader)@,
            old(force)@,
            by_id@,
            collapsing_sides@,
            tick,
        ),
        old(reader).complete() && advance_supplied(
            old(reader)@,
            old(force)@,
            by_id@,
            collapsing_sides@,
            tick,
        ) ==> final(reader).complete(),
{
    broadcast use vstd::std_specs::btree::group_btree_axioms;

    if force.members.len() == 0 {
        transition_task_force(force, TaskForcePhase::Complete, tick);
        force.completion_reason = Some("NO_LIVE_MEMBERS".to_owned());
        force.outcome = Some("NO_LIVE_MEMBERS".to_owned());
        return ;
    }
    assess_force(force, by_id, reader);
    if force.phase == TaskForcePhase::Regrouping && collapsing_sides.contains(&force.side_index) {
        force.plan_type = "DEFEND".to_owned();
        force.completion_reason = Some("COLLAPSING_DEFENSE".to_owned());
        force.outcome = None;
    } else {
        step_phase(force, by_id, tick, reader);
    }
    align_members(force, reader);
}

/// Neighbouring points that coincide count once.
pub open spec fn deduplicated(points: Seq<OperationalPoint>) -> Seq<OperationalPoint>
    decreases points.len(),
{
    if points.len() == 0 {
        points
    } else {
        let rest = deduplicated(points.drop_last());
        if rest.len() > 0 && rest.last().same(points.last()) {
            rest
        } else {
            rest.push(points.last())
        }
    }
}

pub open spec fn optional_point(point: Option<OperationalPoint>) -> Seq<OperationalPoint> {
    match point {
        Some(place) => seq![place],
        None => Seq::empty(),
    }
}

/// The way of a force: from its staging anchor along its route to its target.
pub open spec fn corridor_points(force: ForceModel) -> Seq<OperationalPoint> {
    deduplicated(optional_point(force.staging_anchor) + force.route + optional_point(force.target))
}

fn push_point(points: &mut Vec<OperationalPoint>, point: OperationalPoint, walked: Ghost<
    Seq<OperationalPoint>,
>)
    requires
        old(points)@ == deduplicated(walked@),
    ensures
        final(points)@ == deduplicated(walked@.push(point)),
{
    proof {
        assert(walked@.push(point).drop_last() =~= walked@);
    }
    if points.len() > 0 {
        if points[points.len() - 1].equals(point) {
            return ;
        }
    }
    points.push(point);
}

fn corridor(force: &OperationalTaskForce) -> (points: Vec<OperationalPoint>)
    ensures
        points@ == corridor_points(force@),
{
    let mut points: Vec<OperationalPoint> = Vec::new();
    let ghost mut walked = Seq::<OperationalPoint>::empty();
    if let Some(point) = force.staging_anchor {
        push_point(&mut points, point, Ghost(walked));
        proof {
            walked = walked.push(point);
        }
    }
    assert(walked =~= optional_point(force.staging_anchor));
    let ghost start = walked;
    assert(walked =~= start + force.route@.take(0));
    let mut at: usize = 0;
    while at < force.route.len()
        invariant
            at <= force.route@.len(),
            walked == start + force.route@.take(at as int),
            points@ == deduplicated(walked),
        decreases force.route@.len() - at,
    {
        push_point(&mut points, force.route[at], Ghost(walked));
        proof {
            walked = walked.push(force.route@[at as int]);
            assert(walked =~= start + force.route@.take(at + 1));
        }
        at = at + 1;
    }
    assert(walked =~= start + force.route@);
    if let Some(point) = force.target {
        push_point(&mut points, point, Ghost(walked));
        proof {
            walked = walked.push(point);
        }
    }
    assert(walked =~= optional_point(force.staging_anchor) + force.route@ + optional_point(
        force.target,
    ));
    points
}

/// The point at a share of the corridor, each leg counting alike.
pub open spec fn point_along(
    results: Map<Operation, u64>,
    points: Seq<OperationalPoint>,
    progress: Real,
) -> Option<OperationalPoint> {
    if points.len() == 0 {
        None
    } else if points.len() == 1 {
        Some(points[0])
    } else {
        let scaled = product(
            results,
            progress.clamp_of(real_of(0), real_of(ONE_BITS)),
            integer(results, (points.len() - 1) as u64),
        );
        let whole = results[Operation::Whole(number_at(results, Operation::Floor(scaled)))];
        let leg = if whole < points.len() - 2 {
            whole as int
        } else {
            points.len() - 2
        };
        let fraction = difference(results, scaled, integer(results, leg as u64));
        let left = points[leg];
        let right = points[leg + 1];
        Some(
            OperationalPoint {
                lat: sum(
                    results,
                    left.lat,
                    product(results, difference(results, right.lat, left.lat), fraction),
                ),
                lng: sum(
                    results,
                    left.lng,
                    product(results, longitude_delta(results, left.lng, right.lng), fraction),
                ),
            },
        )
    }
}

/// Whether a worksheet holds all that a point of a corridor takes.
pub open spec fn point_supplied(
    results: Map<Operation, u64>,
    points: Seq<OperationalPoint>,
    progress: Real,
) -> bool {
    points.len() > 1 ==> {
        let bounded = progress.clamp_of(real_of(0), real_of(ONE_BITS));
        let legs = integer(results, (points.len() - 1) as u64);
        let scaled = product(results, bounded, legs);
        let lowered = number_at(results, Operation::Floor(scaled));
        let whole = results[Operation::Whole(lowered)];
        let leg = if whole < points.len() - 2 {
            whole as int
        } else {
            points.len() - 2
        };
        let start = integer(results, leg as u64);
        let fraction = difference(results, scaled, start);
        let left = points[leg];
        let right = points[leg + 1];
        let rise = difference(results, right.lat, left.lat);
        let risen = product(results, rise, fraction);
        let lat = sum(results, left.lat, risen);
        let run = longitude_delta(results, left.lng, right.lng);
        let moved = product(results, run, fraction);
        let lng = sum(results, left.lng, moved);
        &&& results.contains_key(Operation::Integer((points.len() - 1) as u64))
        &&& results.contains_key(Operation::Product(bounded, legs))
        &&& results.contains_key(Operation::Floor(scaled))
        &&& results.contains_key(Operation::Whole(lowered))
        &&& results.contains_key(Operation::Integer(leg as u64))
        &&& results.contains_key(Operation::Difference(scaled, start))
        &&& results.contains_key(Operation::Difference(right.lat, left.lat))
        &&& results.contains_key(Operation::Product(rise, fraction))
        &&& results.contains_key(Operation::Sum(left.lat, risen))
        &&& results.contains_key(Operation::LongitudeDelta(left.lng, right.lng))
        &&& results.contains_key(Operation::Product(run, fraction))
        &&& results.contains_key(Operation::Sum(left.lng, moved))
    }
}

fn corridor_point(
    force: &OperationalTaskForce,
    progress: Real,
    reader: &mut Reader<'_>,
) -> (point: Option<OperationalPoint>)
    requires
        old(reader).sound(),
    ensures
        final(reader)@ == old(reader)@,
        final(reader).sound(),
        final(reader).complete() ==> old(reader).complete() && point == point_along(
            old(reader)@,
            corridor_points(force@),
            progress,
        ),
        old(reader).complete() && point_supplied(old(reader)@, corridor_points(force@), progress) ==>
            final(reader).complete(),
{
    let points = corridor(force);
    if points.len() == 0 {
        return None;
    }
    if points.len() == 1 {
        return Some(points[0]);
    }
    let legs = reader.integer((points.len() - 1) as u64);
    let scaled = reader.product(progress.clamped(Real::zero(), Real::one()), legs);
    let lowered = reader.gather_number(Operation::Floor(scaled));
    let whole: u64 = reader.gather(Operation::Whole(lowered));
    let leg: usize = if whole < (points.len() - 2) as u64 {
        whole as usize
    } else {
        points.len() - 2
    };
    let start = reader.integer(leg as u64);
    let fraction = reader.difference(scaled, start);
    let left = points[leg];
    let right = points[leg + 1];
    let rise = reader.difference(right.lat, left.lat);
    let risen = reader.product(rise, fraction);
    let lat = reader.sum(left.lat, risen);
    let run = reader.longitude_delta(left.lng, right.lng);
    let moved = reader.product(run, fraction);
    let lng = reader.sum(left.lng, moved);
    Some(OperationalPoint { lat, lng })
}

/// The nearest point of the first legs: its squared distance and its share of the corridor.
pub ghost struct Nearest {
    pub distance: Real,
    pub progress: Real,
}

pub open spec fn nearest_on_legs(
    results: Map<Operation, u64>,
    points: Seq<OperationalPoint>,
    position: OperationalPoint,
    legs: nat,
) -> Nearest
    decreases legs,
{
    if legs == 0 {
        Nearest { distance: real_of(INFINITY_BITS), progress: real_of(0) }
    } else {
        let best = nearest_on_legs(results, points, position, (legs - 1) as nat);
        let left = points[legs - 1];
        let right = points[legs as int];
        let delta_lat = difference(results, right.lat, left.lat);
        let delta_lng = longitude_delta(results, left.lng, right.lng);
        let from_lat = difference(results, position.lat, left.lat);
        let from_lng = longitude_delta(results, left.lng, position.lng);
        let denominator = sum(
            results,
            product(results, delta_lat, delta_lat),
            product(results, delta_lng, delta_lng),
        );
        let fraction = if real_of(0).lt(denominator) {
            quotient(
                results,
                sum(
                    results,
                    product(results, from_lat, delta_lat),
                    product(results, from_lng, delta_lng),
                ),
                denominator,
            ).clamp_of(real_of(0), real_of(ONE_BITS))
        } else {
            real_of(0)
        };
        let projected = OperationalPoint {
            lat: sum(results, left.lat, product(results, delta_lat, fraction)),
            lng: sum(results, left.lng, product(results, delta_lng, fraction)),
        };
        let distance = distance_squared(results, position, projected);
        let progress = quotient(
            results,
            sum(results, integer(results, (legs - 1) as u64), fraction),
            integer(results, (points.len() - 1) as u64),
        );
        if distance.lt(best.distance) || (distance.same(best.distance) && best.progress.lt(
            progress,
        )) {
            Nearest { distance, progress }
        } else {
            best
        }
    }
}

/// How far a position is along a corridor.
pub open spec fn progress_along(
    results: Map<Operation, u64>,
    points: Seq<OperationalPoint>,
    position: OperationalPoint,
) -> Real {
    if points.len() < 2 {
        real_of(0)
    } else {
        nearest_on_legs(results, points, position, (points.len() - 1) as nat).progress
    }
}

/// Whether a worksheet holds all that the progress along one leg takes.
pub open spec fn leg_supplied(
    results: Map<Operation, u64>,
    points: Seq<OperationalPoint>,
    position: OperationalPoint,
    leg: int,
) -> bool {
    let left = points[leg];
    let right = points[leg + 1];
    let delta_lat = difference(results, right.lat, left.lat);
    let delta_lng = longitude_delta(results, left.lng, right.lng);
    let from_lat = difference(results, position.lat, left.lat);
    let from_lng = longitude_delta(results, left.lng, position.lng);
    let lat_squared = product(results, delta_lat, delta_lat);
    let lng_squared = product(results, delta_lng, delta_lng);
    let denominator = sum(results, lat_squared, lng_squared);
    let lat_part = product(results, from_lat, delta_lat);
    let lng_part = product(results, from_lng, delta_lng);
    let shadow = sum(results, lat_part, lng_part);
    let fraction = if real_of(0).lt(denominator) {
        quotient(results, shadow, denominator).clamp_of(real_of(0), real_of(ONE_BITS))
    } else {
        real_of(0)
    };
    let risen = product(results, delta_lat, fraction);
    let moved = product(results, delta_lng, fraction);
    let projected_lat = sum(results, left.lat, risen);
    let projected_lng = sum(results, left.lng, moved);
    let projected = OperationalPoint { lat: projected_lat, lng: projected_lng };
    let before = integer(results, leg as u64);
    let covered = sum(results, before, fraction);
    let whole = integer(results, (points.len() - 1) as u64);
    &&& results.contains_key(Operation::Difference(right.lat, left.lat))
    &&& results.contains_key(Operation::LongitudeDelta(left.lng, right.lng))
    &&& results.contains_key(Operation::Difference(position.lat, left.lat))
    &&& results.contains_key(Operation::LongitudeDelta(left.lng, position.lng))
    &&& results.contains_key(Operation::Product(delta_lat, delta_lat))
    &&& results.contains_key(Operation::Product(delta_lng, delta_lng))
    &&& results.contains_key(Operation::Sum(lat_squared, lng_squared))
    &&& results.contains_key(Operation::Product(delta_lat, fraction))
    &&& results.contains_key(Operation::Product(delta_lng, fraction))
    &&& results.contains_key(Operation::Sum(left.lat, risen))
    &&& results.contains_key(Operation::Sum(left.lng, moved))
    &&& results.contains_key(Operation::Integer(leg as u64))
    &&& results.contains_key(Operation::Sum(before, fraction))
    &&& results.contains_key(Operation::Integer((points.len() - 1) as u64))
    &&& results.contains_key(Operation::Quotient(covered, whole))
    &&& real_of(0).lt(denominator) ==> {
        &&& results.contains_key(Operation::Product(from_lat, delta_lat))
        &&& results.contains_key(Operation::Product(from_lng, delta_lng))
        &&& results.contains_key(Operation::Sum(lat_part, lng_part))
        &&& results.contains_key(Operation::Quotient(shadow, denominator))
    }
    &&& way_supplied(results, position, projected)
}

/// Whether a worksheet holds all that the progress along a corridor takes.
pub open spec fn corridor_supplied(
    results: Map<Operation, u64>,
    points: Seq<OperationalPoint>,
    position: OperationalPoint,
) -> bool {
    forall|leg: int|
        0 <= leg < points.len() - 1 ==> #[trigger] leg_supplied(results, points, position, leg)
}

fn progress_along_corridor(
    points: &Vec<OperationalPoint>,
    position: OperationalPoint,
    reader: &mut Reader<'_>,
) -> (progress: Real)
    requires
        old(reader).sound(),
    ensures
        final(reader)@ == old(reader)@,
        final(reader).sound(),
        final(reader).complete() ==> old(reader).complete() && progress == progress_along(
            old(reader)@,
            points@,
            position,
        ),
        old(reader).complete() && corridor_supplied(old(reader)@, points@, position) ==>
            final(reader).complete(),
{
    if points.len() < 2 {
        return Real::zero();
    }
    let ghost results = reader@;
    let ghost untouched = reader.complete();
    let mut best_distance = Real::from_bits(INFINITY_BITS);
    let mut best_progress = Real::zero();
    let last: usize = points.len() - 1;
    let mut leg: usize = 0;
    while leg < last
        invariant
            leg <= last,
            last == points@.len() - 1,
            reader@ == results,
            reader.sound(),
            reader.complete() ==> untouched && (Nearest {
                distance: best_distance,
                progress: best_progress,
            }) == nearest_on_legs(results, points@, position, leg as nat),
            untouched && corridor_supplied(results, points@, position) ==> reader.complete(),
        decreases last - leg,
    {
        assert(corridor_supplied(results, points@, position) ==> leg_supplied(
            results,
            points@,
            position,
            leg as int,
        ));
        let left = points[leg];
        let right = points[leg + 1];
        let delta_lat = reader.difference(right.lat, left.lat);
        let delta_lng = reader.longitude_delta(left.lng, right.lng);
        let from_lat = reader.difference(position.lat, left.lat);
        let from_lng = reader.longitude_delta(left.lng, position.lng);
        let lat_squared = reader.product(delta_lat, delta_lat);
        let lng_squared = reader.product(delta_lng, delta_lng);
        let denominator = reader.sum(lat_squared, lng_squared);
        let fraction = if Real::zero().less(denominator) {
            let lat_part = reader.product(from_lat, delta_lat);
            let lng_part = reader.product(from_lng, delta_lng);
            let shadow = reader.sum(lat_part, lng_part);
            reader.quotient(shadow, denominator).clamped(Real::zero(), Real::one())
        } else {
            Real::zero()
        };
        let risen = reader.product(delta_lat, fraction);
        let moved = reader.product(delta_lng, fraction);
        let projected_lat = reader.sum(left.lat, risen);
        let projected_lng = reader.sum(left.lng, moved);
        let projected = OperationalPoint { lat: projected_lat, lng: projected_lng };
        let distance = distance_sq(position, projected, reader);
        let before = reader.integer(leg as u64);
        let covered = reader.sum(before, fraction);
        let whole = reader.integer(last as u64);
        let progress = reader.quotient(covered, whole);
        if distance.less(best_distance) || (distance.equals(best_distance) && best_progress.less(
            progress,
        )) {
            best_distance = distance;
            best_progress = progress;
        }
        leg = leg + 1;
    }
    best_progress
}

/// A unit vector, or none where there is no way to go.
pub open spec fn direction(
    results: Map<Operation, u64>,
    from: OperationalPoint,
    to: OperationalPoint,
) -> (Real, Real) {
    let lat = difference(results, to.lat, from.lat);
    let lng = longitude_delta(results, from.lng, to.lng);
    let magnitude = number_at(results, Operation::Hypotenuse(lat, lng));
    if real_of(0).lt(magnitude) && magnitude.finite() {
        (quotient(results, lat, magnitude), quotient(results, lng, magnitude))
    } else {
        (real_of(0), real_of(0))
    }
}

/// Whether a worksheet holds all that a direction takes.
pub open spec fn direction_supplied(
    results: Map<Operation, u64>,
    from: OperationalPoint,
    to: OperationalPoint,
) -> bool {
    let lat = difference(results, to.lat, from.lat);
    let lng = longitude_delta(results, from.lng, to.lng);
    let magnitude = number_at(results, Operation::Hypotenuse(lat, lng));
    &&& results.contains_key(Operation::Difference(to.lat, from.lat))
    &&& results.contains_key(Operation::LongitudeDelta(from.lng, to.lng))
    &&& results.contains_key(Operation::Hypotenuse(lat, lng))
    &&& real_of(0).lt(magnitude) && magnitude.finite() ==> results.contains_key(
        Operation::Quotient(lat, magnitude),
    ) && results.contains_key(Operation::Quotient(lng, magnitude))
}

fn normalized_direction(
    from: OperationalPoint,
    to: OperationalPoint,
    reader: &mut Reader<'_>,
) -> (way: (Real, Real))
    requires
        old(reader).sound(),
    ensures
        final(reader)@ == old(reader)@,
        final(reader).sound(),
        final(reader).complete() ==> old(reader).complete() && way == direction(
            old(reader)@,
            from,
            to,
        ),
        old(reader).complete() && direction_supplied(old(reader)@, from, to) ==>
            final(reader).complete(),
{
    let lat = reader.difference(to.lat, from.lat);
    let lng = reader.longitude_delta(from.lng, to.lng);
    let magnitude = reader.gather_number(Operation::Hypotenuse(lat, lng));
    if Real::zero().less(magnitude) && magnitude.is_finite() {
        let dir_lat = reader.quotient(lat, magnitude);
        let dir_lng = reader.quotient(lng, magnitude);
        (dir_lat, dir_lng)
    } else {
        (Real::zero(), Real::zero())
    }
}

/// Where a task force sends one of its members.
#[derive(Debug)]
pub struct OperationalSteering {
    pub unit_id: u64,
    pub task_force_id: String,
    pub phase: TaskForcePhase,
    pub role: TaskForceRole,
    pub target: OperationalPoint,
    pub dir_lat: Real,
    pub dir_lng: Real,
    pub speed_multiplier: Real,
    pub movement_enabled: bool,
}

/// What an [`OperationalSteering`] says.
pub struct SteeringModel {
    pub unit_id: u64,
    pub task_force_id: Seq<char>,
    pub phase: TaskForcePhase,
    pub role: TaskForceRole,
    pub target: OperationalPoint,
    pub dir_lat: Real,
    pub dir_lng: Real,
    pub speed_multiplier: Real,
    pub movement_enabled: bool,
}

impl View for OperationalSteering {
    type V = SteeringModel;

    open spec fn view(&self) -> SteeringModel {
        SteeringModel {
            unit_id: self.unit_id,
            task_force_id: self.task_force_id@,
            phase: self.phase,
            role: self.role,
            target: self.target,
            dir_lat: self.dir_lat,
            dir_lng: self.dir_lng,
            speed_multiplier: self.speed_multiplier,
            movement_enabled: self.movement_enabled,
        }
    }
}

impl Ranked for OperationalSteering {
    open spec fn ranks_before(self, other: Self) -> bool {
        self.unit_id < other.unit_id
    }

    fn is_before(&self, other: &Self) -> (answer: bool) {
        self.unit_id < other.unit_id
    }
}

pub open spec fn steering_order() -> spec_fn(SteeringModel, SteeringModel) -> bool {
    |left: SteeringModel, right: SteeringModel| left.unit_id < right.unit_id
}

/// Where a member heads, how fast, and whether it moves at all.
pub ghost struct Heading {
    pub target: Option<OperationalPoint>,
    pub speed: Real,
    pub moves: bool,
}

pub open spec fn member_heading(
    results: Map<Operation, u64>,
    force: ForceModel,
    member: TaskForceMember,
    position: OperationalPoint,
) -> Heading {
    match force.phase {
        TaskForcePhase::Assembling => Heading {
            target: first_point(force.staging_anchor, force.target),
            speed: if member.role is Reserve {
                real_of(N_1_05)
            } else {
                real_of(N_1_55)
            },
            moves: true,
        },
        TaskForcePhase::Attacking => Heading {
            target: point_along(results, corridor_points(force), member.route_progress),
            speed: match member.role {
                TaskForceRole::Spearhead => real_of(N_2_15),
                TaskForceRole::Line => real_of(N_1_65),
                TaskForceRole::Support => real_of(N_1_4),
                TaskForceRole::Reserve => if real_of(0).lt(member.route_progress) {
                    real_of(N_1_3)
                } else {
                    real_of(N_0_35)
                },
            },
            moves: true,
        },
        TaskForcePhase::Consolidating => Heading {
            target: force.target,
            speed: real_of(N_0_8),
            moves: true,
        },
        TaskForcePhase::Culminated => Heading {
            target: Some(position),
            speed: real_of(N_0_25),
            moves: false,
        },
        TaskForcePhase::Withdrawing => Heading {
            target: first_point(force.withdrawal_anchor, force.staging_anchor),
            speed: real_of(N_1_85),
            moves: true,
        },
        TaskForcePhase::Regrouping => Heading {
            target: first_point(force.withdrawal_anchor, force.staging_anchor),
            speed: real_of(N_0_45),
            moves: true,
        },
        TaskForcePhase::Complete => Heading { target: None, speed: real_of(0), moves: false },
    }
}

pub open spec fn steered(
    results: Map<Operation, u64>,
    force: ForceModel,
    member: TaskForceMember,
    position: OperationalPoint,
) -> Option<SteeringModel> {
    let heading = member_heading(results, force, member, position);
    match heading.target {
        None => None,
        Some(target) => {
            let way = direction(results, position, target);
            Some(
                SteeringModel {
                    unit_id: member.unit_id,
                    task_force_id: force.id,
                    phase: force.phase,
                    role: member.role,
                    target,
                    dir_lat: way.0,
                    dir_lng: way.1,
                    speed_multiplier: heading.speed,
                    movement_enabled: heading.moves && (!way.0.same(real_of(0)) || !way.1.same(
                        real_of(0),
                    )),
                },
            )
        },
    }
}

/// Steering of the first members of a force.
pub open spec fn steered_members(
    results: Map<Operation, u64>,
    force: ForceModel,
    by_id: UnitMap,
    count: nat,
) -> Seq<SteeringModel>
    decreases count,
{
    if count == 0 {
        Seq::empty()
    } else {
        let rest = steered_members(results, force, by_id, (count - 1) as nat);
        let member = force.members[count - 1];
        if !by_id.contains_key(member.unit_id) {
            rest
        } else {
            match steered(results, force, member, by_id[member.unit_id].position) {
                Some(steering) => rest.push(steering),
                None => rest,
            }
        }
    }
}

/// Steering of the first forces, force by force.
pub open spec fn steered_forces(
    results: Map<Operation, u64>,
    forces: Seq<ForceModel>,
    by_id: UnitMap,
    count: nat,
) -> Seq<SteeringModel>
    decreases count,
{
    if count == 0 {
        Seq::empty()
    } else {
        steered_forces(results, forces, by_id, (count - 1) as nat) + steered_members(
            results,
            forces[count - 1],
            by_id,
            forces[count - 1].members.len(),
        )
    }
}

/// Whether a worksheet holds all that steering a member takes.
pub open spec fn heading_supplied(
    results: Map<Operation, u64>,
    force: ForceModel,
    member: TaskForceMember,
    position: OperationalPoint,
) -> bool {
    &&& force.phase is Attacking ==> point_supplied(
        results,
        corridor_points(force),
        member.route_progress,
    )
    &&& member_heading(results, force, member, position).target matches Some(target)
        ==> direction_supplied(results, position, target)
}

/// Whether a worksheet holds all that steering the members of a force takes.
pub open spec fn force_steering_supplied(
    results: Map<Operation, u64>,
    force: ForceModel,
    by_id: UnitMap,
) -> bool {
    forall|k: int|
        0 <= k < force.members.len() && by_id.contains_key((#[trigger] force.members[k]).unit_id)
            ==> heading_supplied(
                results,
                force,
                force.members[k],
                by_id[force.members[k].unit_id].position,
            )
}

/// Whether a worksheet holds all that steering all forces takes.
pub open spec fn steering_supplied(
    results: Map<Operation, u64>,
    forces: Seq<ForceModel>,
    by_id: UnitMap,
) -> bool {
    forall|k: int|
        0 <= k < forces.len() ==> force_steering_supplied(results, #[trigger] forces[k], by_id)
}

fn head_member(
    force: &OperationalTaskForce,
    member: TaskForceMember,
    position: OperationalPoint,
    reader: &mut Reader<'_>,
) -> (steering: Option<OperationalSteering>)
    requires
        old(reader).sound(),
    ensures
        final(reader)@ == old(reader)@,
        final(reader).sound(),
        final(reader).complete() ==> old(reader).complete() && match steering {
            Some(given) => steered(old(reader)@, force@, member, position) == Some(given@),
            None => steered(old(reader)@, force@, member, position) is None,
        },
        old(reader).complete() && heading_supplied(old(reader)@, force@, member, position) ==>
            final(reader).complete(),
{
    let mut target: Option<OperationalPoint> = None;
    let mut speed = Real::zero();
    let mut moves = true;
    match force.phase {
        TaskForcePhase::Assembling => {
            target =
            match force.staging_anchor {
                Some(point) => Some(point),
                None => force.target,
            };
            speed =
            if member.role == TaskForceRole::Reserve {
                Real::from_bits(N_1_05)
            } else {
                Real::from_bits(N_1_55)
            };
        },
        TaskForcePhase::Attacking => {
            target = corridor_point(force, member.route_progress, reader);
            speed =
            match member.role {
                TaskForceRole::Spearhead => Real::from_bits(N_2_15),
                TaskForceRole::Line => Real::from_bits(N_1_65),
                TaskForceRole::Support => Real::from_bits(N_1_4),
                TaskForceRole::Reserve => if Real::zero().less(member.route_progress) {
                    Real::from_bits(N_1_3)
                } else {
                    Real::from_bits(N_0_35)
                },
            };
        },
        TaskForcePhase::Consolidating => {
            target = force.target;
            speed = Real::from_bits(N_0_8);
        },
        TaskForcePhase::Culminated => {
            target = Some(position);
            speed = Real::from_bits(N_0_25);
            moves = false;
        },
        TaskForcePhase::Withdrawing => {
            target =
            match force.withdrawal_anchor {
                Some(point) => Some(point),
                None => force.staging_anchor,
            };
            speed = Real::from_bits(N_1_85);
        },
        TaskForcePhase::Regrouping => {
            target =
            match force.withdrawal_anchor {
                Some(point) => Some(point),
                None => force.staging_anchor,
            };
            speed = Real::from_bits(N_0_45);
        },
        TaskForcePhase::Complete => {
            moves = false;
        },
    }
    match target {
        None => None,
        Some(place) => {
            let way = normalized_direction(position, place, reader);
            Some(
                OperationalSteering {
                    unit_id: member.unit_id,
                    task_force_id: force.id.clone(),
                    phase: force.phase,
                    role: member.role,
                    target: place,
                    dir_lat: way.0,
                    dir_lng: way.1,
                    speed_multiplier: speed,
                    movement_enabled: moves && (!way.0.equals(Real::zero()) || !way.1.equals(
                        Real::zero(),
                    )),
                },
            )
        },
    }
}

/// A force after its members moved: they never fall back along the corridor.
pub open spec fn moved_members(
    results: Map<Operation, u64>,
    force: ForceModel,
    by_id: UnitMap,
) -> Seq<TaskForceMember> {
    Seq::new(
        force.members.len(),
        |i: int|
            {
                let member = force.members[i];
                if by_id.contains_key(member.unit_id) {
                    TaskForceMember {
                        route_progress: member.route_progress.max_of(
                            progress_along(
                                results,
                                corridor_points(force),
                                by_id[member.unit_id].position,
                            ),
                        ).clamp_of(real_of(0), real_of(ONE_BITS)),
                        ..member
                    }
                } else {
                    member
                }
            },
    )
}

/// The farthest that the first members have come.
pub open spec fn best_progress(
    results: Map<Operation, u64>,
    force: ForceModel,
    by_id: UnitMap,
    count: nat,
) -> Real
    decreases count,
{
    if count == 0 {
        force.progress
    } else {
        let rest = best_progress(results, force, by_id, (count - 1) as nat);
        let id = force.members[count - 1].unit_id;
        if by_id.contains_key(id) {
            rest.max_of(progress_along(results, corridor_points(force), by_id[id].position))
        } else {
            rest
        }
    }
}

pub open spec fn moved_force(
    results: Map<Operation, u64>,
    force: ForceModel,
    by_id: UnitMap,
    tick: u64,
) -> ForceModel {
    let best = best_progress(results, force, by_id, force.members.len());
    let members = moved_members(results, force, by_id);
    if sum(results, force.progress, real_of(N_0_02)).lt(best) {
        ForceModel {
            members,
            progress: best.min_of(real_of(ONE_BITS)),
            last_progress_tick: tick,
            ..force
        }
    } else {
        ForceModel { members, ..force }
    }
}

/// The first forces after movement, without those that have no members left.
pub open spec fn moved_forces(
    results: Map<Operation, u64>,
    forces: Seq<ForceModel>,
    by_id: UnitMap,
    tick: u64,
    count: nat,
) -> Seq<ForceModel>
    decreases count,
{
    if count == 0 {
        Seq::empty()
    } else {
        let rest = moved_forces(results, forces, by_id, tick, (count - 1) as nat);
        let pruned = pruned_force(forces[count - 1], by_id);
        if pruned.members.len() == 0 {
            rest
        } else {
            rest.push(moved_force(results, pruned, by_id, tick))
        }
    }
}

/// Whether a worksheet holds all that moving a force takes.
pub open spec fn movement_supplied(
    results: Map<Operation, u64>,
    force: ForceModel,
    by_id: UnitMap,
) -> bool {
    &&& forall|k: int|
        0 <= k < force.members.len() && by_id.contains_key((#[trigger] force.members[k]).unit_id)
            ==> corridor_supplied(
                results,
                corridor_points(force),
                by_id[force.members[k].unit_id].position,
            )
    &&& results.contains_key(Operation::Sum(force.progress, real_of(N_0_02)))
}

/// Whether a worksheet holds all that moving all forces takes.
pub open spec fn movements_supplied(
    results: Map<Operation, u64>,
    forces: Seq<ForceModel>,
    by_id: UnitMap,
) -> bool {
    forall|k: int|
        0 <= k < forces.len() && pruned_force(#[trigger] forces[k], by_id).members.len() > 0
            ==> movement_supplied(results, pruned_force(forces[k], by_id), by_id)
}

fn move_force(
    force: &mut OperationalTaskForce,
    by_id: &BTreeMap<u64, OperationalUnitInput>,
    tick: u64,
    reader: &mut Reader<'_>,
)
    requires
        old(reader).sound(),
    ensures
        final(reader)@ == old(reader)@,
        final(reader).sound(),
        final(force)@.members.len() == old(force)@.members.len(),
        final(reader).complete() ==> old(reader).complete() && final(force)@ == moved_force(
            old(reader)@,
            old(force)@,
            by_id@,
            tick,
        ),
        old(reader).complete() && movement_supplied(old(reader)@, old(force)@, by_id@) ==>
            final(reader).complete(),
{
    broadcast use vstd::std_specs::btree::group_btree_axioms;

    let ghost results = reader@;
    let ghost untouched = reader.complete();
    let ghost before = force@;
    let points = corridor(force);
    let mut best = force.progress;
    let mut moved: Vec<TaskForceMember> = Vec::new();
    let mut at: usize = 0;
    while at < force.members.len()
        invariant
            at <= force.members@.len(),
            force@ == before,
            points@ == corridor_points(before),
            reader@ == results,
            reader.sound(),
            moved@.len() == at,
            reader.complete() ==> untouched && best == best_progress(
                results,
                before,
                by_id@,
                at as nat,
            ) && forall|i: int|
                0 <= i < at ==> #[trigger] moved@[i] == moved_members(results, before, by_id@)[i],
            untouched && movement_supplied(results, before, by_id@) ==> reader.complete(),
        decreases force.members@.len() - at,
    {
        assert(before.members[at as int] == force.members@[at as int]);
        broadcast use vstd::std_specs::btree::group_btree_axioms;

        let mut member = force.members[at];
        if let Some(unit) = by_id.get(&member.unit_id) {
            let actual = progress_along_corridor(&points, unit.position, reader);
            member.route_progress =
            member.route_progress.larger(actual).clamped(Real::zero(), Real::one());
            best = best.larger(actual);
        }
        moved.push(member);
        at = at + 1;
    }
    let goal = reader.sum(force.progress, Real::from_bits(N_0_02));
    force.members = moved;
    if goal.less(best) {
        force.progress = best.smaller(Real::one());
        force.last_progress_tick = tick;
    }
    proof {
        if reader.complete() {
            assert(force.members@ =~= moved_members(results, before, by_id@));
        }
    }
}

impl OperationalRuntimeState {
    fn pruned_copy(&self, by_id: &BTreeMap<u64, OperationalUnitInput>) -> (sides: Vec<
        OperationalSideState,
    >)
        ensures
            views(sides@) == pruned_sides(self@.sides, by_id@),
    {
        let mut staged = replicas(&self.sides);
        let ghost before = self@.sides;
        proof {
            assert(staged@.len() == views(staged@).len());
            assert(self.sides@.len() == views(self.sides@).len());
            assert forall|i: int| 0 <= i < staged@.len() implies (#[trigger] staged@[i])@
                == before[i] by {
                assert(views(staged@)[i] == staged@[i]@);
            }
        }
        let mut at: usize = 0;
        while at < staged.len()
            invariant
                at <= staged@.len(),
                before.len() == staged@.len(),
                forall|i: int| at <= i < staged@.len() ==> (#[trigger] staged@[i])@ == before[i],
                forall|i: int|
                    0 <= i < at ==> (#[trigger] staged@[i])@ == pruned_side(before[i], by_id@),
            decreases staged@.len() - at,
        {
            prune_side(&mut staged[at], by_id);
            at = at + 1;
        }
        assert(views(staged@) =~= pruned_sides(before, by_id@));
        staged
    }

    /// Drop what refers to units that are gone, then let every task force take one step.
    pub fn advance_task_forces(
        &mut self,
        tick: u64,
        units: &[OperationalUnitInput],
        collapsing_sides: &BTreeSet<usize>,
        sheet: &Worksheet,
    ) -> (outcome: Result<(), Vec<Operation>>)
        ensures
            outcome is Ok ==> final(self)@ == (OperationsModel {
                sides: pruned_sides(old(self)@.sides, units_by_id(units@, units@.len())),
                task_forces: advanced_forces(
                    sheet@,
                    old(self)@.task_forces,
                    units_by_id(units@, units@.len()),
                    collapsing_sides@,
                    tick,
                    old(self)@.task_forces.len(),
                ),
                ..old(self)@
            }),
            outcome matches Err(missing) ==> *final(self) == *old(self) && missing@.len() > 0
                && all_missing(missing@, sheet@)
                && !advances_supplied(
                    sheet@,
                    old(self)@.task_forces,
                    units_by_id(units@, units@.len()),
                    collapsing_sides@,
                    tick,
                ),
    {
        let by_id = index_units(units);
        let ghost before = self@;
        let mut reader = sheet.reader();
        let sides = self.pruned_copy(&by_id);
        let mut forces: Vec<OperationalTaskForce> = Vec::new();
        assert(views(forces@) =~= Seq::<ForceModel>::empty());
        let mut at: usize = 0;
        while at < self.task_forces.len()
            invariant
                at <= self.task_forces@.len(),
                before == self@,
                reader@ == sheet@,
                reader.sound(),
                reader.complete() ==> views(forces@) == advanced_forces(
                    sheet@,
                    before.task_forces,
                    by_id@,
                    collapsing_sides@,
                    tick,
                    at as nat,
                ),
                advances_supplied(sheet@, before.task_forces, by_id@, collapsing_sides@, tick)
                    ==> reader.complete(),
            decreases self.task_forces@.len() - at,
        {
            assert(before.task_forces[at as int] == self.task_forces@[at as int]@);
            let mut force = self.task_forces[at].replica();
            prune_force(&mut force, &by_id);
            advance_force(&mut force, &by_id, collapsing_sides, tick, &mut reader);
            if force.phase != TaskForcePhase::Complete {
                proof {
                    lemma_views_push(forces@, force);
                }
                forces.push(force);
            }
            at = at + 1;
        }
        if !reader.is_complete() {
            return Err(reader.into_missing());
        }
        self.sides = sides;
        self.task_forces = forces;
        Ok(())
    }

    /// Where every live member of a task force is sent, by unit.
    pub fn steering(&self, units: &[OperationalUnitInput], sheet: &Worksheet) -> (outcome: Result<
        Vec<OperationalSteering>,
        Vec<Operation>,
    >)
        ensures
            outcome matches Ok(steering) ==> views(steering@) == stable_sorted(
                steered_forces(
                    sheet@,
                    self@.task_forces,
                    units_by_id(units@, units@.len()),
                    self@.task_forces.len(),
                ),
                steering_order(),
            ),
            outcome matches Err(missing) ==> missing@.len() > 0 && all_missing(missing@, sheet@)
                && !steering_supplied(
                    sheet@,
                    self@.task_forces,
                    units_by_id(units@, units@.len()),
                ),
    {
        broadcast use vstd::std_specs::btree::group_btree_axioms;

        let by_id = index_units(units);
        let ghost forces = self@.task_forces;
        let mut reader = sheet.reader();
        let mut steering: Vec<OperationalSteering> = Vec::new();
        assert(views(steering@) =~= Seq::<SteeringModel>::empty());
        let mut at: usize = 0;
        while at < self.task_forces.len()
            invariant
                at <= self.task_forces@.len(),
                forces == self@.task_forces,
                reader@ == sheet@,
                reader.sound(),
                reader.complete() ==> views(steering@) == steered_forces(
                    sheet@,
                    forces,
                    by_id@,
                    at as nat,
                ),
                steering_supplied(sheet@, forces, by_id@) ==> reader.complete(),
            decreases self.task_forces@.len() - at,
        {
            let force = &self.task_forces[at];
            assert(forces[at as int] == force@);
            let ghost earlier = views(steering@);
            assert(earlier =~= earlier + steered_members(sheet@, force@, by_id@, 0));
            let mut index: usize = 0;
            while index < force.members.len()
                invariant
                    index <= force.members@.len(),
                    reader@ == sheet@,
                    reader.sound(),
                    reader.complete() ==> earlier == steered_forces(
                        sheet@,
                        forces,
                        by_id@,
                        at as nat,
                    ) && views(steering@) == earlier + steered_members(
                        sheet@,
                        force@,
                        by_id@,
                        index as nat,
                    ),
                    at < forces.len(),
                    forces[at as int] == force@,
                    steering_supplied(sheet@, forces, by_id@) ==> reader.complete(),
                decreases force.members@.len() - index,
            {
                assert(force@.members[index as int] == force.members@[index as int]);
                broadcast use vstd::std_specs::btree::group_btree_axioms;

                let member = force.members[index];
                if let Some(unit) = by_id.get(&member.unit_id) {
                    let given = head_member(force, member, unit.position, &mut reader);
                    if let Some(entry) = given {
                        proof {
                            lemma_views_push(steering@, entry);
                            assert((earlier + steered_members(
                                sheet@,
                                force@,
                                by_id@,
                                index as nat,
                            )).push(entry@) =~= earlier + steered_members(
                                sheet@,
                                force@,
                                by_id@,
                                index as nat,
                            ).push(entry@));
                        }
                        steering.push(entry);
                    }
                }
                index = index + 1;
            }
            at = at + 1;
        }
        if !reader.is_complete() {
            return Err(reader.into_missing());
        }
        proof {
            lemma_sort_commutes(
                steering@,
                shown::<OperationalSteering>(),
                rank_order::<OperationalSteering>(),
                steering_order(),
            );
        }
        Ok(sort_stable(steering))
    }

    /// Take note of how far the members of every task force have come.
    pub fn post_movement(
        &mut self,
        tick: u64,
        units: &[OperationalUnitInput],
        sheet: &Worksheet,
    ) -> (outcome: Result<(), Vec<Operation>>)
        ensures
            outcome is Ok ==> final(self)@ == (OperationsModel {
                sides: pruned_sides(old(self)@.sides, units_by_id(units@, units@.len())),
                task_forces: moved_forces(
                    sheet@,
                    old(self)@.task_forces,
                    units_by_id(units@, units@.len()),
                    tick,
                    old(self)@.task_forces.len(),
                ),
                ..old(self)@
            }),
            outcome matches Err(missing) ==> *final(self) == *old(self) && missing@.len() > 0
                && all_missing(missing@, sheet@)
                && !movements_supplied(
                    sheet@,
                    old(self)@.task_forces,
                    units_by_id(units@, units@.len()),
                ),
    {
        let by_id = index_units(units);
        let ghost before = self@;
        let mut reader = sheet.reader();
        let sides = self.pruned_copy(&by_id);
        let mut forces: Vec<OperationalTaskForce> = Vec::new();
        assert(views(forces@) =~= Seq::<ForceModel>::empty());
        let mut at: usize = 0;
        while at < self.task_forces.len()
            invariant
                at <= self.task_forces@.len(),
                before == self@,
                reader@ == sheet@,
                reader.sound(),
                reader.complete() ==> views(forces@) == moved_forces(
                    sheet@,
                    before.task_forces,
                    by_id@,
                    tick,
                    at as nat,
                ),
                movements_supplied(sheet@, before.task_forces, by_id@) ==> reader.complete(),
            decreases self.task_forces@.len() - at,
        {
            assert(before.task_forces[at as int] == self.task_forces@[at as int]@);
            let mut force = self.task_forces[at].replica();
            prune_force(&mut force, &by_id);
            if force.members.len() > 0 {
                move_force(&mut force, &by_id, tick, &mut reader);
                proof {
                    lemma_views_push(forces@, force);
                }
                forces.push(force);
            }
            at = at + 1;
        }
        if !reader.is_complete() {
            return Err(reader.into_missing());
        }
        self.sides = sides;
        self.task_forces = forces;
        Ok(())
    }
}

/// After pruning, only live units are known as contacts.
pub proof fn pruned_contacts_are_live(side: SideModel, by_id: UnitMap)
    ensures
        forall|i: int|
            0 <= i < pruned_side(side, by_id).intel.contacts.len() ==> by_id.contains_key(
                (#[trigger] pruned_side(side, by_id).intel.contacts[i]).unit_id,
            ),
{
    let kept = pruned_side(side, by_id).intel.contacts;
    assert forall|i: int| 0 <= i < kept.len() implies by_id.contains_key(
        (#[trigger] kept[i]).unit_id,
    ) by {
        assert(kept.contains(kept[i]));
        lemma_filter_contains(side.intel.contacts, live_contact(by_id), kept[i]);
    }
}

/// Membership is sticky: pruning keeps every live member that fights for the force's side, and
/// nobody else.
pub proof fn membership_is_sticky(force: ForceModel, by_id: UnitMap, member: TaskForceMember)
    ensures
        pruned_force(force, by_id).members.contains(member) <==> force.members.contains(member)
            && by_id.contains_key(member.unit_id) && by_id[member.unit_id].side_index
            == force.side_index,
{
    lemma_filter_contains(force.members, loyal_member(by_id, force.side_index), member);
}

/// A step neither adds nor removes nor reorders members, nor does it change their roles.
pub proof fn a_step_keeps_members(
    results: Map<Operation, u64>,
    force: ForceModel,
    by_id: UnitMap,
    collapsing: Set<usize>,
    tick: u64,
)
    ensures
        ({
            let advanced = advanced_force(results, force, by_id, collapsing, tick);
            &&& advanced.members.len() == force.members.len()
            &&& advanced.side_index == force.side_index
            &&& advanced.id == force.id
            &&& forall|i: int|
                0 <= i < force.members.len() ==> {
                    let member = #[trigger] advanced.members[i];
                    &&& member.unit_id == force.members[i].unit_id
                    &&& member.role == force.members[i].role
                    &&& member.assigned_tick == force.members[i].assigned_tick
                }
        }),
{
}

/// Which phase may follow which.
pub open spec fn may_follow(before: TaskForcePhase, after: TaskForcePhase) -> bool {
    before == after || after is Complete && (before is Regrouping || before is Consolidating)
        || match before {
        TaskForcePhase::Assembling => after is Attacking,
        TaskForcePhase::Attacking => after is Consolidating || after is Culminated,
        TaskForcePhase::Culminated => after is Withdrawing,
        TaskForcePhase::Withdrawing => after is Regrouping,
        _ => false,
    }
}

/// A task force with members only ever moves on to the next phase of its life.
pub proof fn phases_follow_in_order(
    results: Map<Operation, u64>,
    force: ForceModel,
    by_id: UnitMap,
    collapsing: Set<usize>,
    tick: u64,
)
    requires
        force.members.len() > 0,
    ensures
        may_follow(force.phase, advanced_force(results, force, by_id, collapsing, tick).phase),
{
}

/// A regrouping force of a collapsing side stays where it is and defends.
pub proof fn a_collapsing_side_defends(
    results: Map<Operation, u64>,
    force: ForceModel,
    by_id: UnitMap,
    collapsing: Set<usize>,
    tick: u64,
)
    requires
        force.members.len() > 0,
        force.phase is Regrouping,
        collapsing.contains(force.side_index),
    ensures
        ({
            let advanced = advanced_force(results, force, by_id, collapsing, tick);
            &&& advanced.phase is Regrouping
            &&& advanced.plan_type == "DEFEND"@
            &&& advanced.completion_reason == Some("COLLAPSING_DEFENSE"@)
            &&& advanced.outcome is None
        }),
{
}

/// A collapse of supply is the only step that withdraws a plan's supply, and it does so for the
/// attacking force alone.
pub proof fn only_a_supply_collapse_invalidates(
    results: Map<Operation, u64>,
    force: ForceModel,
    by_id: UnitMap,
    collapsing: Set<usize>,
    tick: u64,
)
    requires
        force.members.len() > 0,
    ensures
        ({
            let advanced = advanced_force(results, force, by_id, collapsing, tick);
            let assessed = assessed_force(results, force, by_id);
            if force.phase is Attacking && !real_of(ONE_BITS).le(force.progress) && supply_fails(
                results,
                assessed,
                by_id,
                tick,
            ) {
                advanced.supply_invalidated_tick == Some(tick) && advanced.completion_reason
                    == Some("SUPPLY_COLLAPSE"@)
            } else {
                advanced.supply_invalidated_tick == force.supply_invalidated_tick
                    && advanced.intent_revision == force.intent_revision
            }
        }),
{
}

/// What remains after a tick is not complete and has members.
pub proof fn remaining_forces_are_active(
    results: Map<Operation, u64>,
    forces: Seq<ForceModel>,
    by_id: UnitMap,
    collapsing: Set<usize>,
    tick: u64,
    count: nat,
)
    requires
        count <= forces.len(),
    ensures
        forall|i: int|
            0 <= i < advanced_forces(results, forces, by_id, collapsing, tick, count).len() ==> {
                let force = #[trigger] advanced_forces(
                    results,
                    forces,
                    by_id,
                    collapsing,
                    tick,
                    count,
                )[i];
                !(force.phase is Complete) && force.members.len() > 0
            },
    decreases count,
{
    if count > 0 {
        remaining_forces_are_active(
            results,
            forces,
            by_id,
            collapsing,
            tick,
            (count - 1) as nat,
        );
    }
}

/// Steering is in the order of units.
pub proof fn steering_is_ordered(entries: Seq<SteeringModel>)
    ensures
        permutation(stable_sorted(entries, steering_order()), entries),
        forall|i: int, j: int|
            #![trigger stable_sorted(entries, steering_order())[i], stable_sorted(
                entries,
                steering_order(),
            )[j]]
            0 <= i < j < stable_sorted(entries, steering_order()).len() ==> stable_sorted(
                entries,
                steering_order(),
            )[i].unit_id <= stable_sorted(entries, steering_order())[j].unit_id,
{
    stable_sort_orders(entries, steering_order());
    let ordered = stable_sorted(entries, steering_order());
    assert forall|i: int, j: int| #![trigger ordered[i], ordered[j]] 0 <= i < j
        < ordered.len() implies ordered[i].unit_id <= ordered[j].unit_id by {
        assert(!steering_order()(ordered[j], ordered[i]));
    }
}

/// A force is never stronger than it was at its peak.
pub proof fn strength_never_exceeds_its_peak(
    results: Map<Operation, u64>,
    force: ForceModel,
    by_id: UnitMap,
    collapsing: Set<usize>,
    tick: u64,
)
    requires
        force.members.len() > 0,
    ensures
        ({
            let advanced = advanced_force(results, force, by_id, collapsing, tick);
            !advanced.peak_power.lt(advanced.current_power) && !advanced.peak_power.lt(
                force.peak_power,
            )
        }),
{
}

/// Reserves of a force are members of it, and a step keeps them so.
pub proof fn reserves_are_members(
    results: Map<Operation, u64>,
    force: ForceModel,
    by_id: UnitMap,
    collapsing: Set<usize>,
    tick: u64,
    unit_id: u64,
)
    ensures
        ({
            let advanced = advanced_force(
                results,
                pruned_force(force, by_id),
                by_id,
                collapsing,
                tick,
            );
            advanced.reserve_unit_ids.contains(unit_id) ==> force.reserve_unit_ids.contains(
                unit_id,
            ) && exists|i: int|
                0 <= i < advanced.members.len() && (#[trigger] advanced.members[i]).unit_id
                    == unit_id
        }),
{
    let pruned = pruned_force(force, by_id);
    let advanced = advanced_force(results, pruned, by_id, collapsing, tick);
    lemma_filter_contains(force.reserve_unit_ids, member_of(pruned.members), unit_id);
    a_step_keeps_members(results, pruned, by_id, collapsing, tick);
    assert(advanced.reserve_unit_ids == pruned.reserve_unit_ids);
    if advanced.reserve_unit_ids.contains(unit_id) {
        assert(member_of(pruned.members)(unit_id));
        let i = choose|i: int|
            0 <= i < pruned.members.len() && (#[trigger] pruned.members[i]).unit_id == unit_id;
        assert(advanced.members[i].unit_id == unit_id);
    }
}

/// Whether places among old forces, in ascending order, say where each of the new ones stood.
pub open spec fn stood_at(places: Seq<int>, old_ones: Seq<ForceModel>, new_ones: Seq<ForceModel>) -> bool {
    &&& places.len() == new_ones.len()
    &&& forall|i: int|
        0 <= i < places.len() ==> 0 <= #[trigger] places[i] < old_ones.len() && new_ones[i].id
            == old_ones[places[i]].id
    &&& forall|i: int, j: int|
        #![trigger places[i], places[j]]
        0 <= i < j < places.len() ==> places[i] < places[j]
}

/// Forces leave, but none comes and none changes its place in the order: what remains after a tick
/// is a subsequence of what was there.
pub proof fn remaining_forces_keep_their_order(
    results: Map<Operation, u64>,
    forces: Seq<ForceModel>,
    by_id: UnitMap,
    collapsing: Set<usize>,
    tick: u64,
    count: nat,
) -> (places: Seq<int>)
    requires
        count <= forces.len(),
    ensures
        stood_at(
            places,
            forces,
            advanced_forces(results, forces, by_id, collapsing, tick, count),
        ),
        forall|i: int| 0 <= i < places.len() ==> #[trigger] places[i] < count,
    decreases count,
{
    if count == 0 {
        Seq::empty()
    } else {
        let rest = remaining_forces_keep_their_order(
            results,
            forces,
            by_id,
            collapsing,
            tick,
            (count - 1) as nat,
        );
        let pruned = pruned_force(forces[count - 1], by_id);
        a_step_keeps_members(results, pruned, by_id, collapsing, tick);
        if advanced_force(results, pruned, by_id, collapsing, tick).phase is Complete {
            rest
        } else {
            rest.push(count - 1)
        }
    }
}

} // verus!
