//! What task forces do: where their members are sent and how fast, how far they have come, and
//! when a force attacks, gives way, withdraws and regroups.

use vstd::prelude::*;
use crate::numbers::{
    N_0_0001, N_0_02, N_0_1, N_0_2, N_0_25, N_0_35, N_0_4, N_0_45, N_0_5, N_0_55, N_0_58, N_0_65,
    N_0_7, N_0_72, N_0_75, N_0_8, N_0_85, N_1_05, N_1_3, N_1_4, N_1_55, N_1_65, N_1_85, N_2_15,
};
use crate::operations::{
    ForceModel, OperationalPoint, TaskForceMember, TaskForcePhase, TaskForcePosture, TaskForceRole,
};
use crate::scalar::{real_of, Real, ONE_BITS};
use crate::taskforce::{
    advanced_force, aligned_force, assembling_step, assessed_force, attacking_step, best_progress,
    corridor_points, count_members, deduplicated, member_power, moved_force, moved_members,
    phase_step, point_along, progress_along, pruned_force, regrouping_step, role_progress, steered,
    withdrawing_step, OperationalUnitInput, UnitMap,
};
use crate::worksheet::{
    difference, integer, longitude_delta, number_at, product, quotient, sum, Operation,
};

verus! {

// ---------------------------------------------------------------------------------------------
// Steering
// ---------------------------------------------------------------------------------------------

/// A member of a withdrawing or regrouping force goes back to the withdrawal anchor, or to the
/// staging anchor where there is none, and is not sent anywhere where there is neither. It
/// withdraws fast and regroups slowly.
pub proof fn withdrawing_members_go_back(
    results: Map<Operation, u64>,
    force: ForceModel,
    member: TaskForceMember,
    position: OperationalPoint,
)
    requires
        force.phase is Withdrawing || force.phase is Regrouping,
    ensures
        ({
            let sent = steered(results, force, member, position);
            &&& force.withdrawal_anchor matches Some(anchor) ==> (sent matches Some(order)
                && order.target == anchor)
            &&& force.withdrawal_anchor is None && force.staging_anchor is Some ==> (
            sent matches Some(order) && Some(order.target) == force.staging_anchor)
            &&& force.withdrawal_anchor is None && force.staging_anchor is None ==> sent is None
            &&& sent matches Some(order) ==> {
                &&& force.phase is Withdrawing ==> order.speed_multiplier == real_of(N_1_85)
                &&& force.phase is Regrouping ==> order.speed_multiplier == real_of(N_0_45)
            }
        }),
{
}

/// A member of an assembling force goes to the staging anchor, or to the target where there is
/// none; reserves take their time.
pub proof fn assembling_members_gather(
    results: Map<Operation, u64>,
    force: ForceModel,
    member: TaskForceMember,
    position: OperationalPoint,
)
    requires
        force.phase is Assembling,
    ensures
        ({
            let sent = steered(results, force, member, position);
            &&& force.staging_anchor matches Some(anchor) ==> (sent matches Some(order)
                && order.target == anchor)
            &&& force.staging_anchor is None && force.target is Some ==> (sent matches Some(order)
                && Some(order.target) == force.target)
            &&& force.staging_anchor is None && force.target is None ==> sent is None
            &&& sent matches Some(order) ==> {
                &&& member.role is Reserve ==> order.speed_multiplier == real_of(N_1_05)
                &&& !(member.role is Reserve) ==> order.speed_multiplier == real_of(N_1_55)
            }
        }),
{
}

/// A member of an attacking force goes to the place along the corridor that its own progress names:
/// the spearhead fastest, then the line, then supports; reserves follow once they were called.
pub proof fn attacking_members_follow_the_corridor(
    results: Map<Operation, u64>,
    force: ForceModel,
    member: TaskForceMember,
    position: OperationalPoint,
)
    requires
        force.phase is Attacking,
    ensures
        ({
            let sent = steered(results, force, member, position);
            let place = point_along(results, corridor_points(force), member.route_progress);
            &&& sent is Some <==> place is Some
            &&& sent matches Some(order) ==> {
                &&& Some(order.target) == place
                &&& member.role is Spearhead ==> order.speed_multiplier == real_of(N_2_15)
                &&& member.role is Line ==> order.speed_multiplier == real_of(N_1_65)
                &&& member.role is Support ==> order.speed_multiplier == real_of(N_1_4)
                &&& member.role is Reserve && real_of(0).lt(member.route_progress)
                    ==> order.speed_multiplier == real_of(N_1_3)
                &&& member.role is Reserve && !real_of(0).lt(member.route_progress)
                    ==> order.speed_multiplier == real_of(N_0_35)
            }
        }),
{
}

/// A consolidating force closes on its target; a culminated one stands where it is; one that is
/// complete sends nobody.
pub proof fn other_members_close_up_or_stand(
    results: Map<Operation, u64>,
    force: ForceModel,
    member: TaskForceMember,
    position: OperationalPoint,
)
    ensures
        ({
            let sent = steered(results, force, member, position);
            &&& force.phase is Consolidating ==> match force.target {
                Some(target) => sent matches Some(order) && order.target == target
                    && order.speed_multiplier == real_of(N_0_8),
                None => sent is None,
            }
            &&& force.phase is Culminated ==> (sent matches Some(order) && order.target == position
                && !order.movement_enabled && order.speed_multiplier == real_of(N_0_25))
            &&& force.phase is Complete ==> sent is None
        }),
{
}

/// Steering names the member, its force, its role and the phase, points from where the member is
/// to where it is sent, and lets it move exactly where there is a way to go, unless the force
/// culminated.
pub proof fn steering_points_the_way(
    results: Map<Operation, u64>,
    force: ForceModel,
    member: TaskForceMember,
    position: OperationalPoint,
)
    ensures
        steered(results, force, member, position) matches Some(order) ==> {
            let north = difference(results, order.target.lat, position.lat);
            let east = longitude_delta(results, position.lng, order.target.lng);
            let length = number_at(results, Operation::Hypotenuse(north, east));
            let far = real_of(0).lt(length) && length.finite();
            let still = order.dir_lat.same(real_of(0)) && order.dir_lng.same(real_of(0));
            &&& order.unit_id == member.unit_id
            &&& order.task_force_id == force.id
            &&& order.phase == force.phase
            &&& order.role == member.role
            &&& far ==> order.dir_lat == quotient(results, north, length) && order.dir_lng
                == quotient(results, east, length)
            &&& !far ==> order.dir_lat == real_of(0) && order.dir_lng == real_of(0)
                && !order.movement_enabled
            &&& force.phase is Culminated ==> !order.movement_enabled
            &&& !(force.phase is Culminated) ==> order.movement_enabled == !still
        },
{
}

/// The corridor of a force begins at its staging anchor and ends at its target, and never names a
/// place twice in a row.
pub proof fn corridors_lead_from_staging_to_target(force: ForceModel)
    requires
        force.staging_anchor is Some,
        force.target is Some,
    ensures
        ({
            let way = corridor_points(force);
            &&& way.len() > 0
            &&& way[0] == force.staging_anchor->0
            &&& way.last() == force.target->0 || way.last().same(force.target->0)
            &&& forall|i: int|
                0 < i < way.len() ==> !way[i - 1].same(#[trigger] way[i])
        }),
{
    let whole = seq![force.staging_anchor->0] + force.route + seq![force.target->0];
    assert(whole[0] == force.staging_anchor->0);
    assert(whole.last() == force.target->0);
    lemma_deduplicated(whole);
}

proof fn lemma_deduplicated(points: Seq<OperationalPoint>)
    ensures
        ({
            let kept = deduplicated(points);
            &&& points.len() > 0 <==> kept.len() > 0
            &&& points.len() > 0 ==> kept[0] == points[0]
            &&& points.len() > 0 ==> kept.last() == points.last() || kept.last().same(points.last())
            &&& forall|i: int| 0 < i < kept.len() ==> !kept[i - 1].same(#[trigger] kept[i])
            &&& kept.len() <= points.len()
        }),
    decreases points.len(),
{
    if points.len() > 0 {
        lemma_deduplicated(points.drop_last());
        let rest = deduplicated(points.drop_last());
        let kept = deduplicated(points);
        if points.len() > 1 {
            assert(points.drop_last()[0] == points[0]);
        }
        if kept != rest {
            assert(kept == rest.push(points.last()));
            assert forall|i: int| 0 < i < kept.len() implies !kept[i - 1].same(
                #[trigger] kept[i],
            ) by {
                if i < rest.len() {
                    assert(kept[i] == rest[i] && kept[i - 1] == rest[i - 1]);
                }
            }
        }
    }
}

/// A share of a corridor is a place on one of its legs: the leg that the share falls on, each
/// counting alike, and as far along it as the rest of the share says.
pub proof fn shares_of_a_corridor_lie_on_its_legs(
    results: Map<Operation, u64>,
    points: Seq<OperationalPoint>,
    progress: Real,
)
    ensures
        ({
            let place = point_along(results, points, progress);
            let legs = points.len() - 1;
            let share = if progress.lt(real_of(0)) {
                real_of(0)
            } else if real_of(ONE_BITS).lt(progress) {
                real_of(ONE_BITS)
            } else {
                progress
            };
            let along = product(results, share, integer(results, legs as u64));
            let whole = results[Operation::Whole(number_at(results, Operation::Floor(along)))];
            &&& place is None <==> points.len() == 0
            &&& points.len() == 1 ==> place == Some(points[0])
            &&& points.len() > 1 ==> exists|leg: int|
                #![trigger points[leg]]
                {
                    let rest = difference(results, along, integer(results, leg as u64));
                    let from = points[leg];
                    let to = points[leg + 1];
                    &&& 0 <= leg < legs
                    &&& whole < legs ==> leg == whole
                    &&& whole >= legs ==> leg == legs - 1
                    &&& place matches Some(at) && at.lat == sum(
                        results,
                        from.lat,
                        product(results, difference(results, to.lat, from.lat), rest),
                    ) && at.lng == sum(
                        results,
                        from.lng,
                        product(results, longitude_delta(results, from.lng, to.lng), rest),
                    )
                }
        }),
{
    let legs = points.len() - 1;
    if points.len() > 1 {
        let share = progress.clamp_of(real_of(0), real_of(ONE_BITS));
        let along = product(results, share, integer(results, legs as u64));
        let whole = results[Operation::Whole(number_at(results, Operation::Floor(along)))];
        let leg = if whole < legs - 1 {
            whole as int
        } else {
            legs - 1
        };
        let from = points[leg];
    }
}

// ---------------------------------------------------------------------------------------------
// Progress
// ---------------------------------------------------------------------------------------------

/// Members never fall back along the corridor, and their progress stays a share: each is as far as
/// it was or as the place where it stands, whichever is farther.
pub proof fn members_never_fall_back(
    results: Map<Operation, u64>,
    force: ForceModel,
    by_id: UnitMap,
    i: int,
)
    requires
        0 <= i < force.members.len(),
    ensures
        ({
            let before = force.members[i];
            let after = moved_members(results, force, by_id)[i];
            let stands = progress_along(
                results,
                corridor_points(force),
                by_id[before.unit_id].position,
            );
            &&& after.unit_id == before.unit_id && after.role == before.role && after.assigned_tick
                == before.assigned_tick
            &&& !by_id.contains_key(before.unit_id) ==> after == before
            &&& by_id.contains_key(before.unit_id) && before.route_progress.unit_interval() ==> {
                &&& before.route_progress.le(after.route_progress)
                &&& after.route_progress.unit_interval()
                &&& stands.unit_interval() ==> stands.le(after.route_progress) && (
                after.route_progress == stands || after.route_progress == before.route_progress)
                &&& stands.nan() ==> after.route_progress == before.route_progress
                &&& real_of(ONE_BITS).lt(stands) ==> after.route_progress == real_of(ONE_BITS)
            }
        }),
{
}

/// A force makes progress when one of its members is farther than the force was by more than a
/// fiftieth; it is then as far as its foremost member, and never beyond the end.
pub proof fn forces_advance_with_their_foremost(
    results: Map<Operation, u64>,
    force: ForceModel,
    by_id: UnitMap,
    tick: u64,
)
    requires
        !force.progress.nan(),
    ensures
        ({
            let after = moved_force(results, force, by_id, tick);
            let best = best_progress(results, force, by_id, force.members.len());
            let ahead = sum(results, force.progress, real_of(N_0_02)).lt(best);
            &&& force.progress.le(best)
            &&& forall|i: int|
                0 <= i < force.members.len() && by_id.contains_key(
                    (#[trigger] force.members[i]).unit_id,
                ) ==> ({
                    let stands = progress_along(
                        results,
                        corridor_points(force),
                        by_id[force.members[i].unit_id].position,
                    );
                    !stands.nan() ==> stands.le(best)
                })
            &&& !ahead ==> after.progress == force.progress && after.last_progress_tick
                == force.last_progress_tick
            &&& ahead ==> {
                &&& after.last_progress_tick == tick
                &&& after.progress.le(real_of(ONE_BITS))
                &&& best.le(real_of(ONE_BITS)) ==> after.progress == best
                &&& real_of(ONE_BITS).lt(best) ==> after.progress == real_of(ONE_BITS)
            }
            &&& after == (ForceModel {
                members: after.members,
                progress: after.progress,
                last_progress_tick: after.last_progress_tick,
                ..force
            })
        }),
{
    lemma_best(results, force, by_id, force.members.len());
}

proof fn lemma_best(
    results: Map<Operation, u64>,
    force: ForceModel,
    by_id: UnitMap,
    count: nat,
)
    requires
        !force.progress.nan(),
        count <= force.members.len(),
    ensures
        ({
            let best = best_progress(results, force, by_id, count);
            &&& force.progress.le(best)
            &&& forall|i: int|
                0 <= i < count && by_id.contains_key((#[trigger] force.members[i]).unit_id) ==> ({
                    let stands = progress_along(
                        results,
                        corridor_points(force),
                        by_id[force.members[i].unit_id].position,
                    );
                    !stands.nan() ==> stands.le(best)
                })
        }),
    decreases count,
{
    if count > 0 {
        lemma_best(results, force, by_id, (count - 1) as nat);
    }
}

/// How far a member should be along the corridor: in an attack the spearhead leads, the line
/// follows, supports stay behind seven tenths of the way, and reserves wait until the force is two
/// fifths along and never pass the first half; otherwise everybody is where the force is.
pub proof fn roles_keep_their_distance(
    results: Map<Operation, u64>,
    phase: TaskForcePhase,
    role: TaskForceRole,
    progress: Real,
)
    requires
        progress.unit_interval(),
    ensures
        ({
            let should = role_progress(results, phase, role, progress);
            let ahead = |start: Real, pace: Real|
                sum(results, start, product(results, progress, pace));
            let lead = ahead(real_of(N_0_35), real_of(N_0_75));
            let line = ahead(real_of(N_0_2), real_of(N_0_85));
            let rear = ahead(real_of(N_0_1), real_of(N_0_58));
            let called = product(results, progress, real_of(N_0_5));
            &&& !(phase is Attacking) ==> should == progress
            &&& phase is Attacking && role is Spearhead ==> should.le(real_of(ONE_BITS)) && (
            lead.le(real_of(ONE_BITS)) ==> should == lead)
            &&& phase is Attacking && role is Line ==> should.le(real_of(ONE_BITS)) && (line.le(
                real_of(ONE_BITS),
            ) ==> should == line)
            &&& phase is Attacking && role is Support ==> should.le(real_of(N_0_72)) && (rear.le(
                real_of(N_0_72),
            ) ==> should == rear)
            &&& phase is Attacking && role is Reserve && progress.lt(real_of(N_0_4)) ==> should
                == real_of(0)
            &&& phase is Attacking && role is Reserve && real_of(N_0_4).le(progress) ==> should.le(
                real_of(N_0_45),
            ) && (called.le(real_of(N_0_45)) ==> should == called)
        }),
{
}

/// Every member of a force is told the progress of its own role, and nothing else of it changes.
pub proof fn members_are_told_their_place(
    results: Map<Operation, u64>,
    force: ForceModel,
    i: int,
)
    requires
        0 <= i < force.members.len(),
    ensures
        ({
            let after = aligned_force(results, force);
            &&& after.members.len() == force.members.len()
            &&& after.members[i] == (TaskForceMember {
                route_progress: role_progress(
                    results,
                    force.phase,
                    force.members[i].role,
                    force.progress,
                ),
                ..force.members[i]
            })
            &&& after == (ForceModel { members: after.members, ..force })
        }),
{
}

// ---------------------------------------------------------------------------------------------
// Phases
// ---------------------------------------------------------------------------------------------

/// An assembling force attacks as soon as it is ready for its posture: at about two thirds where
/// it is aggressive, three quarters where it is balanced, and more where it defends. It remembers
/// with what power it set out.
pub proof fn forces_attack_when_ready(force: ForceModel, tick: u64)
    ensures
        ({
            let after = assembling_step(force, tick);
            let enough = match force.posture {
                TaskForcePosture::Aggressive => real_of(N_0_65).le(force.readiness),
                TaskForcePosture::Balanced => real_of(N_0_75).le(force.readiness),
                TaskForcePosture::Defensive => real_of(N_0_85).le(force.readiness),
            };
            &&& !enough ==> after == force
            &&& enough ==> {
                &&& after.phase is Attacking
                &&& after.phase_started_tick == tick && after.last_progress_tick == tick
                &&& after.completion_reason is None
                &&& force.current_power.le(real_of(N_0_0001)) ==> after.launch_power.same(
                    real_of(N_0_0001),
                )
                &&& real_of(N_0_0001).lt(force.current_power) ==> after.launch_power
                    == force.current_power
                &&& after.members == force.members && after.progress == force.progress
            }
        }),
{
}

/// How many members of a force are in trouble of a kind.
pub open spec fn troubled(
    force: ForceModel,
    by_id: UnitMap,
    trouble: spec_fn(OperationalUnitInput) -> bool,
) -> nat {
    force.members.filter(
        |member: TaskForceMember| by_id.contains_key(member.unit_id) && trouble(
            by_id[member.unit_id],
        ),
    ).len()
}

proof fn lemma_troubled(
    members: Seq<TaskForceMember>,
    by_id: UnitMap,
    trouble: spec_fn(OperationalUnitInput) -> bool,
    count: nat,
)
    requires
        count <= members.len(),
    ensures
        count_members(members, by_id, trouble, count) == members.take(count as int).filter(
            |member: TaskForceMember| by_id.contains_key(member.unit_id) && trouble(
                by_id[member.unit_id],
            ),
        ).len(),
    decreases count,
{
    reveal(Seq::filter);
    if count > 0 {
        lemma_troubled(members, by_id, trouble, (count - 1) as nat);
        assert(members.take(count as int).drop_last() =~= members.take(count - 1));
    }
}

/// An attack ends where the force arrived, and then consolidates. It culminates after a severe
/// surprise, where a good third of its members lost their supply within fifteen ticks or were
/// encircled for sixty, and where less than fifty-five hundredths of its power is left; the first
/// of these is the reason given. Otherwise it goes on.
pub proof fn attacks_culminate_for_a_reason(
    results: Map<Operation, u64>,
    force: ForceModel,
    by_id: UnitMap,
    tick: u64,
    enough: u64,
)
    requires
        enough == results[Operation::Whole(
            number_at(
                results,
                Operation::Ceiling(
                    product(
                        results,
                        integer(results, force.members.len() as u64),
                        real_of(N_0_35),
                    ),
                ),
            ),
        )],
    ensures
        ({
            let after = attacking_step(results, force, by_id, tick);
            let starved = troubled(
                force,
                by_id,
                |unit: OperationalUnitInput|
                    unit.supply_collapsed_tick matches Some(collapse) && collapse <= tick && tick
                        <= collapse + 15,
            );
            let cut_off = troubled(
                force,
                by_id,
                |unit: OperationalUnitInput| unit.encircled_ticks >= 60,
            );
            let left = quotient(
                results,
                force.current_power,
                force.launch_power.max_of(real_of(N_0_0001)),
            );
            let arrived = real_of(ONE_BITS).le(force.progress);
            let stops = force.severe_surprise || starved >= enough || cut_off >= enough || left.lt(
                real_of(N_0_55),
            );
            &&& arrived ==> after.phase is Consolidating && after.completion_reason is None
                && after.phase_started_tick == tick
            &&& !arrived && !stops ==> after == force
            &&& !arrived && stops ==> {
                &&& after.phase is Culminated
                &&& after.phase_started_tick == tick
                &&& force.severe_surprise ==> after.completion_reason == Some("SEVERE_SURPRISE"@)
                &&& !force.severe_surprise && starved >= enough ==> after.completion_reason == Some(
                    "SUPPLY_COLLAPSE"@,
                ) && after.supply_invalidated_tick == Some(tick)
                &&& !force.severe_surprise && starved < enough && cut_off >= enough
                    ==> after.completion_reason == Some("ENCIRCLEMENT_RISK"@)
                &&& !force.severe_surprise && starved < enough && cut_off < enough
                    ==> after.completion_reason == Some("POWER_LOSS"@)
                &&& force.severe_surprise || starved < enough ==> after.supply_invalidated_tick
                    == force.supply_invalidated_tick && after.intent_revision
                    == force.intent_revision
            }
            &&& after.members == force.members && after.target == force.target && after.progress
                == force.progress && after.current_power == force.current_power
        }),
{
    let whole = force.members.len();
    assert(force.members.take(whole as int) =~= force.members);
    let starved = |unit: OperationalUnitInput|
        unit.supply_collapsed_tick matches Some(collapse) && collapse <= tick && tick <= collapse
            + 15;
    let cut_off = |unit: OperationalUnitInput| unit.encircled_ticks >= 60;
    lemma_troubled(force.members, by_id, starved, whole);
    lemma_troubled(force.members, by_id, cut_off, whole);
    lemma_same_count(
        force.members,
        by_id,
        starved,
        crate::taskforce::collapsed_at(tick),
        whole,
    );
    lemma_same_count(force.members, by_id, cut_off, crate::taskforce::encircled(), whole);
}

proof fn lemma_same_count(
    members: Seq<TaskForceMember>,
    by_id: UnitMap,
    left: spec_fn(OperationalUnitInput) -> bool,
    right: spec_fn(OperationalUnitInput) -> bool,
    count: nat,
)
    requires
        forall|unit: OperationalUnitInput| #[trigger] left(unit) == right(unit),
    ensures
        count_members(members, by_id, left, count) == count_members(members, by_id, right, count),
    decreases count,
{
    if count > 0 {
        lemma_same_count(members, by_id, left, right, (count - 1) as nat);
        let unit = by_id[members[count - 1].unit_id];
        assert(left(unit) == right(unit));
    }
}

/// A withdrawal is over, and the force regroups, once sixty-five of a hundred members stand within
/// a degree of where they withdraw to.
pub proof fn withdrawals_end_when_most_arrived(
    results: Map<Operation, u64>,
    force: ForceModel,
    by_id: UnitMap,
    tick: u64,
    anchor: OperationalPoint,
)
    requires
        force.withdrawal_anchor == Some(anchor) || force.withdrawal_anchor is None
            && force.staging_anchor == Some(anchor),
    ensures
        ({
            let after = withdrawing_step(results, force, by_id, tick);
            let there = troubled(
                force,
                by_id,
                |unit: OperationalUnitInput|
                    {
                        let north = difference(results, anchor.lat, unit.position.lat);
                        let east = longitude_delta(results, unit.position.lng, anchor.lng);
                        sum(
                            results,
                            product(results, north, north),
                            product(results, east, east),
                        ).le(real_of(ONE_BITS))
                    },
            );
            let over = there * 100 >= force.members.len() * 65;
            &&& !over ==> after == force
            &&& over ==> {
                &&& after.phase is Regrouping
                &&& after.recovery_power == force.current_power
                &&& after.last_recovery_tick == tick && after.phase_started_tick == tick
                &&& after.completion_reason is None
                &&& after.members == force.members
            }
        }),
{
    let whole = force.members.len();
    assert(force.members.take(whole as int) =~= force.members);
    let near = |unit: OperationalUnitInput|
        {
            let north = difference(results, anchor.lat, unit.position.lat);
            let east = longitude_delta(results, unit.position.lng, anchor.lng);
            sum(results, product(results, north, north), product(results, east, east)).le(
                real_of(ONE_BITS),
            )
        };
    lemma_troubled(force.members, by_id, near, whole);
    lemma_same_count(
        force.members,
        by_id,
        near,
        crate::taskforce::arrived_at(results, anchor),
        whole,
    );
}

/// A force without anywhere to withdraw to goes on withdrawing.
pub proof fn withdrawals_need_an_anchor(
    results: Map<Operation, u64>,
    force: ForceModel,
    by_id: UnitMap,
    tick: u64,
)
    requires
        force.withdrawal_anchor is None,
        force.staging_anchor is None,
    ensures
        withdrawing_step(results, force, by_id, tick) == force,
{
}

/// A regrouping force is complete once it has seven tenths of the most it ever had, or has not
/// recovered for twelve hundred ticks; it recovers whenever it gains a fiftieth of that most.
pub proof fn forces_regroup_until_restored(
    results: Map<Operation, u64>,
    force: ForceModel,
    tick: u64,
    most: Real,
)
    requires
        most == force.launch_power.max_of(force.peak_power).max_of(real_of(N_0_0001)),
    ensures
        ({
            let after = regrouping_step(results, force, tick);
            let gained = sum(
                results,
                force.recovery_power,
                product(results, most, real_of(N_0_02)),
            ).le(force.current_power);
            let since = if gained {
                tick
            } else {
                force.last_recovery_tick
            };
            let restored = real_of(N_0_7).le(quotient(results, force.current_power, most));
            let stuck = tick >= since + 1_200;
            &&& after.last_recovery_tick == since
            &&& gained ==> after.recovery_power == force.current_power
            &&& !gained ==> after.recovery_power == force.recovery_power
            &&& after.phase is Complete <==> restored || stuck || force.phase is Complete
            &&& restored ==> after.outcome == Some("REGROUPED"@) && after.completion_reason == Some(
                "REGROUPED"@,
            )
            &&& !restored && stuck ==> after.outcome == Some("REGROUP_PLATEAU"@)
                && after.completion_reason == Some("REGROUP_PLATEAU"@)
            &&& !restored && !stuck ==> after.phase == force.phase && after.outcome
                == force.outcome
            &&& after.members == force.members
        }),
{
}

/// A culminated force withdraws in the next tick; a consolidated one is done after three hundred.
pub proof fn forces_do_not_linger(
    results: Map<Operation, u64>,
    force: ForceModel,
    by_id: UnitMap,
    tick: u64,
)
    ensures
        ({
            let after = phase_step(results, force, by_id, tick);
            &&& force.phase is Culminated && tick > force.phase_started_tick ==> after.phase
                is Withdrawing && after.phase_started_tick == tick
            &&& force.phase is Culminated && tick <= force.phase_started_tick ==> after == force
            &&& force.phase is Consolidating && tick >= force.phase_started_tick + 300 ==> after.phase
                is Complete && after.outcome == Some("OBJECTIVE_SECURED"@)
            &&& force.phase is Consolidating && tick < force.phase_started_tick + 300 ==> after
                == force
            &&& force.phase is Complete ==> after == force
        }),
{
}

/// Whoever is gone or changed sides is no member any more; a force without members is complete.
pub proof fn forces_lose_the_disloyal(force: ForceModel, by_id: UnitMap, member: TaskForceMember)
    ensures
        ({
            let after = pruned_force(force, by_id);
            &&& after.members.contains(member) <==> force.members.contains(member)
                && by_id.contains_key(member.unit_id) && by_id[member.unit_id].side_index
                == force.side_index
            &&& after == (ForceModel {
                members: after.members,
                reserve_unit_ids: after.reserve_unit_ids,
                ..force
            })
        }),
{
    crate::order::lemma_filter_contains(
        force.members,
        crate::taskforce::loyal_member(by_id, force.side_index),
        member,
    );
}

/// A force whose last member is gone is complete for that reason.
pub proof fn empty_forces_are_complete(
    results: Map<Operation, u64>,
    force: ForceModel,
    by_id: UnitMap,
    collapsing: Set<usize>,
    tick: u64,
)
    requires
        force.members.len() == 0,
    ensures
        ({
            let after = advanced_force(results, force, by_id, collapsing, tick);
            &&& after.phase is Complete
            &&& after.outcome == Some("NO_LIVE_MEMBERS"@)
            &&& after.completion_reason == Some("NO_LIVE_MEMBERS"@)
            &&& after.phase_started_tick == tick
        }),
{
}

/// The strength of a force is that of its members, those that count for nothing left out, and its
/// peak never sinks; its readiness is what its members have on average, each between nothing and
/// one.
pub proof fn forces_are_as_strong_as_their_members(
    results: Map<Operation, u64>,
    force: ForceModel,
    by_id: UnitMap,
    count: nat,
)
    requires
        0 < count <= force.members.len(),
        by_id.contains_key(force.members[count - 1].unit_id),
    ensures
        ({
            let unit = by_id[force.members[count - 1].unit_id];
            let before = (count - 1) as nat;
            let all = member_power(results, force.members, by_id, count);
            let ready = crate::taskforce::member_readiness(results, force.members, by_id, count);
            let power = member_power(results, force.members, by_id, before);
            let readiness = crate::taskforce::member_readiness(
                results,
                force.members,
                by_id,
                before,
            );
            let after = assessed_force(results, force, by_id);
            &&& real_of(0).le(unit.power) ==> all == sum(results, power, unit.power)
            &&& unit.power.lt(real_of(0)) || unit.power.nan() ==> all == sum(
                results,
                power,
                real_of(0),
            )
            &&& unit.readiness.unit_interval() ==> ready == sum(
                results,
                readiness,
                unit.readiness,
            )
            &&& real_of(ONE_BITS).lt(unit.readiness) ==> ready == sum(
                results,
                readiness,
                real_of(ONE_BITS),
            )
            &&& unit.readiness.lt(real_of(0)) ==> ready == sum(results, readiness, real_of(0))
            &&& count == force.members.len() ==> {
                &&& after.current_power == all
                &&& after.readiness == quotient(
                    results,
                    ready,
                    integer(results, force.members.len() as u64),
                )
                &&& !all.nan() ==> all.le(after.peak_power)
                &&& !force.peak_power.nan() ==> force.peak_power.le(after.peak_power)
                &&& after.peak_power == all || after.peak_power == force.peak_power
            }
        }),
{
}

} // verus!
