//! What operational state has to be before it is accepted.

use vstd::prelude::*;
use crate::operations::{
    claimed, claims, contact_valid, desperation_valid, event_valid, force_fault, force_fields_valid,
    forces_fault, has_member, member_valid, operations_fault, override_valid, side_fault,
    sides_fault, ForceModel, OperationalOverride, OperationsModel, OperationsScope, SideModel,
    TaskForceMember,
};
use crate::text::text_before;

verus! {

/// A list of sides without a fault has none at any place behind the first that was looked at.
proof fn lemma_sides_without_fault(
    sides: Seq<SideModel>,
    from: int,
    scope: OperationsScope,
    at: int,
)
    requires
        sides_fault(sides, from, scope) is None,
        0 <= from <= at < sides.len(),
    ensures
        side_fault(sides[at], at, scope) is None,
    decreases sides.len() - from,
{
    if from < at {
        lemma_sides_without_fault(sides, from + 1, scope, at);
    }
}

/// A list of task forces without a fault has none at any place behind the first that was looked
/// at.
proof fn lemma_forces_without_fault(
    forces: Seq<ForceModel>,
    from: int,
    scope: OperationsScope,
    at: int,
)
    requires
        forces_fault(forces, from, scope) is None,
        0 <= from <= at < forces.len(),
    ensures
        force_fault(forces, at, scope) is None,
    decreases forces.len() - from,
{
    if from < at {
        lemma_forces_without_fault(forces, from + 1, scope, at);
    }
}

/// In accepted operations every side stands at its own place, knows other sides of the war alone
/// as enemies, has scanned in the past, and expects a power that is no less than nothing of each
/// enemy in turn.
pub proof fn accepted_sides_know_their_enemies(
    state: OperationsModel,
    scope: OperationsScope,
    at: int,
    enemy: int,
)
    requires
        operations_fault(state, scope) is None,
        0 <= at < state.sides.len(),
    ensures
        state.sides.len() == scope.side_count,
        state.next_override_sequence > 0,
        state.sides[at].side_index == at,
        state.sides[at].intel.last_scan_tick <= scope.tick,
        state.sides[at].intel.config.scan_interval_ticks > 0,
        0 < state.sides[at].intel.config.fresh_ticks <= state.sides[at].intel.config.stale_ticks
            <= state.sides[at].intel.config.expire_ticks,
        state.sides[at].intel.prewar_enemy_power.len()
            == state.sides[at].hostile_side_indices.len(),
        0 <= enemy < state.sides[at].hostile_side_indices.len() ==> {
            let side = state.sides[at];
            &&& side.hostile_side_indices[enemy] < scope.side_count
            &&& side.hostile_side_indices[enemy] != at
            &&& side.intel.prewar_enemy_power[enemy].side_index == side.hostile_side_indices[enemy]
            &&& side.intel.prewar_enemy_power[enemy].power.finite_nonnegative()
        },
        state.sides[at].current_override matches Some(current) ==> {
            &&& current.started_tick <= scope.tick
            &&& current.sequence < scope.next_sequence
            &&& current.expires_tick matches Some(expires) ==> current.started_tick <= expires
        },
{
    lemma_sides_without_fault(state.sides, 0, scope, at);
}

/// In accepted operations every contact of a side has a name of its own behind the name before
/// it, shows a live formation of an enemy at a place on the globe, was seen in the past, and is no
/// older than that.
pub proof fn accepted_contacts_show_live_enemies(
    state: OperationsModel,
    scope: OperationsScope,
    at: int,
    which: int,
)
    requires
        operations_fault(state, scope) is None,
        0 <= at < state.sides.len(),
        0 <= which < state.sides[at].intel.contacts.len(),
    ensures
        ({
            let side = state.sides[at];
            let contact = side.intel.contacts[which];
            &&& contact.key.len() > 0
            &&& which > 0 ==> text_before(side.intel.contacts[which - 1].key, contact.key)
            &&& side.hostile_side_indices.contains(contact.enemy_side_index)
            &&& scope.live_units.contains_key(contact.unit_id)
            &&& contact.country_id matches Some(country) ==> scope.countries.contains(country)
            &&& contact.lat.finite() && contact.lng.finite()
            &&& contact.velocity_lat.finite() && contact.velocity_lng.finite()
            &&& contact.observed_power.finite_nonnegative()
            &&& contact.base_confidence.unit_interval()
            &&& contact.confidence.unit_interval()
            &&& contact.observed_tick + contact.age_ticks <= scope.tick
        }),
{
    lemma_sides_without_fault(state.sides, 0, scope, at);
    assert(contact_valid(state.sides[at], which, scope));
}

/// In accepted operations every task force has a name of its own behind the name before it,
/// belongs to a side of the war, wants at least one formation, and has lived in the past alone.
pub proof fn accepted_forces_are_in_order(state: OperationsModel, scope: OperationsScope, at: int)
    requires
        operations_fault(state, scope) is None,
        0 <= at < state.task_forces.len(),
    ensures
        ({
            let force = state.task_forces[at];
            &&& force.id.len() > 0
            &&& at > 0 ==> text_before(state.task_forces[at - 1].id, force.id)
            &&& force.side_index < scope.side_count
            &&& force.max_assigned_units > 0
            &&& force.desired_power.finite_nonnegative()
            &&& force.launch_power.finite_nonnegative()
            &&& force.current_power.finite_nonnegative()
            &&& force.peak_power.finite_nonnegative()
            &&& force.recovery_power.finite_nonnegative()
            &&& force.readiness.unit_interval()
            &&& force.progress.unit_interval()
            &&& force.created_tick <= scope.tick
            &&& force.phase_started_tick <= scope.tick
            &&& force.last_progress_tick <= scope.tick
            &&& force.last_recovery_tick <= scope.tick
            &&& force.supply_invalidated_tick matches Some(lost) ==> lost <= scope.tick
            &&& force.target matches Some(place) ==> place.lat.finite() && place.lng.finite()
            &&& force.staging_anchor matches Some(place) ==> place.lat.finite()
                && place.lng.finite()
            &&& force.withdrawal_anchor matches Some(place) ==> place.lat.finite()
                && place.lng.finite()
        }),
{
    lemma_forces_without_fault(state.task_forces, 0, scope, at);
    assert(force_fields_valid(state.task_forces, at, scope));
}

/// Members claim the formations that they name, and those that were claimed before stay claimed.
proof fn lemma_claims(
    base: Set<u64>,
    members: Seq<TaskForceMember>,
    count: nat,
    which: int,
    id: u64,
)
    requires
        count <= members.len(),
    ensures
        base.contains(id) ==> claims(base, members, count).contains(id),
        0 <= which < count ==> claims(base, members, count).contains(members[which].unit_id),
    decreases count,
{
    if count > 0 {
        lemma_claims(base, members, (count - 1) as nat, which, id);
    }
}

/// A task force before another has claimed its members.
proof fn lemma_claimed(forces: Seq<ForceModel>, count: nat, at: int, which: int)
    requires
        count <= forces.len(),
        0 <= at < count,
        0 <= which < forces[at].members.len(),
    ensures
        claimed(forces, count).contains(forces[at].members[which].unit_id),
    decreases count,
{
    let last = forces[count - 1];
    let base = claimed(forces, (count - 1) as nat);
    let id = forces[at].members[which].unit_id;
    if at < count - 1 {
        lemma_claimed(forces, (count - 1) as nat, at, which);
    }
    lemma_claims(base, last.members, last.members.len(), which, id);
}

/// In accepted operations every member of a task force is a live formation of the side that the
/// force belongs to, members come in the order of their ids, and a member joined in the past.
pub proof fn accepted_members_are_loyal(
    state: OperationsModel,
    scope: OperationsScope,
    at: int,
    which: int,
)
    requires
        operations_fault(state, scope) is None,
        0 <= at < state.task_forces.len(),
        0 <= which < state.task_forces[at].members.len(),
    ensures
        ({
            let force = state.task_forces[at];
            let member = force.members[which];
            &&& scope.live_units.contains_key(member.unit_id)
            &&& scope.live_units[member.unit_id] == force.side_index
            &&& which > 0 ==> force.members[which - 1].unit_id < member.unit_id
            &&& member.assigned_tick <= scope.tick
            &&& member.route_progress.unit_interval()
        }),
{
    lemma_forces_without_fault(state.task_forces, 0, scope, at);
    assert(member_valid(
        state.task_forces[at],
        which,
        claimed(state.task_forces, at as nat),
        scope,
    ));
}

/// In accepted operations no formation serves in two task forces.
pub proof fn accepted_forces_share_nobody(
    state: OperationsModel,
    scope: OperationsScope,
    first: int,
    second: int,
    one: int,
    other: int,
)
    requires
        operations_fault(state, scope) is None,
        0 <= first < second < state.task_forces.len(),
        0 <= one < state.task_forces[first].members.len(),
        0 <= other < state.task_forces[second].members.len(),
    ensures
        state.task_forces[first].members[one].unit_id
            != state.task_forces[second].members[other].unit_id,
{
    let forces = state.task_forces;
    lemma_forces_without_fault(forces, 0, scope, second);
    let before = claimed(forces, second as nat);
    assert(member_valid(forces[second], other, before, scope));
    lemma_claimed(forces, second as nat, first, one);
    lemma_claims(
        before,
        forces[second].members,
        other as nat,
        0,
        forces[first].members[one].unit_id,
    );
}

/// In accepted operations the reserve of a task force is drawn from its members.
pub proof fn accepted_reserves_are_members(
    state: OperationsModel,
    scope: OperationsScope,
    at: int,
    which: int,
)
    requires
        operations_fault(state, scope) is None,
        0 <= at < state.task_forces.len(),
        0 <= which < state.task_forces[at].reserve_unit_ids.len(),
    ensures
        exists|i: int|
            0 <= i < state.task_forces[at].members.len() && (
            #[trigger] state.task_forces[at].members[i]).unit_id
                == state.task_forces[at].reserve_unit_ids[which],
{
    lemma_forces_without_fault(state.task_forces, 0, scope, at);
    let id = state.task_forces[at].reserve_unit_ids[which];
    assert(has_member(state.task_forces[at].members, id));
}

/// In accepted operations desperation is kept of known countries in their order, and overrides
/// are remembered in the order of their numbers, of sides of the war and of the past.
pub proof fn accepted_histories_are_in_order(
    state: OperationsModel,
    scope: OperationsScope,
    country: int,
    event: int,
)
    requires
        operations_fault(state, scope) is None,
    ensures
        0 <= country < state.country_desperation.len() ==> {
            let kept = state.country_desperation;
            &&& scope.countries.contains(kept[country].country_id)
            &&& country > 0 ==> kept[country - 1].country_id < kept[country].country_id
            &&& kept[country].initial_manpower matches Some(number) ==> number.finite()
        },
        0 <= event < state.override_events.len() ==> {
            let kept = state.override_events;
            &&& 0 < kept[event].sequence < scope.next_sequence
            &&& event > 0 ==> kept[event - 1].sequence < kept[event].sequence
            &&& kept[event].side_index < scope.side_count
            &&& kept[event].started_tick <= scope.tick
            &&& kept[event].expires_tick matches Some(end) ==> kept[event].started_tick <= end
        },
{
    if 0 <= country < state.country_desperation.len() {
        assert(desperation_valid(state.country_desperation, country, scope));
    }
    if 0 <= event < state.override_events.len() {
        assert(event_valid(state.override_events, event, scope));
    }
}

/// An override that began in the past, does not end before it began and has a number that was
/// given out is accepted; one that fails in any of these is not.
pub proof fn overrides_are_accepted_for_what_they_are(
    current: OperationalOverride,
    scope: OperationsScope,
)
    ensures
        current.started_tick > scope.tick ==> !override_valid(current, scope),
        current.sequence >= scope.next_sequence ==> !override_valid(current, scope),
        current.started_tick <= scope.tick && current.sequence < scope.next_sequence
            && current.expires_tick is None ==> override_valid(current, scope),
        current.expires_tick matches Some(expires) ==> {
            &&& expires < current.started_tick ==> !override_valid(current, scope)
            &&& current.started_tick <= scope.tick && current.sequence < scope.next_sequence
                && current.started_tick <= expires ==> override_valid(current, scope)
        },
{
}

} // verus!
