//! What happens in a tactical tick: who can act, whom it meets, under which terms it fights, how it
//! moves, and what is shown of it.

use vstd::prelude::*;
use crate::numbers::N_0_8;
use crate::scalar::{real_of, Real, ONE_BITS};
use crate::simulation::{
    accepted_with_id, after_exchange, casualties, combat_context_of, contacts_among, eligible,
    is_defeated, last_eligible, next_contact, order_for, reach_of, selected_target, snapshot_of,
    survivors, tactical_view, unit_fault, with_landing_flag, with_movement, within_reach,
    MovementOutput, NearUnit, SimulationError, TacticalUnit, Tick, TickAction, TickStage,
};
use crate::units::{CombatUnit, HostilityMatrix, ResolvedUnitOrder, SimulationUnit};
use crate::worksheet::{difference, longitude_delta, number_at, product, quotient, sum, Operation};

verus! {

/// The terms of every exchange that a formation opens are those of its order: it deals by the
/// dealt multiplier and takes by the taken one, on the ground that the order names, at the time of
/// the tick.
pub proof fn exchanges_follow_the_order(
    tick: Tick<'_>,
    units: Seq<SimulationUnit>,
    attacker: int,
    order: ResolvedUnitOrder,
)
    requires
        0 <= attacker < units.len(),
        tick.orders@.len() == units.len(),
        tick.orders@[attacker] == Some(order),
    ensures
        ({
            let context = combat_context_of(tick, tick.order_of(units, attacker).combat);
            &&& context.attacker_damage_dealt_multiplier == order.combat.dealt_multiplier
            &&& context.attacker_damage_taken_multiplier == order.combat.taken_multiplier
            &&& context.defense_bonus == order.combat.defense_bonus
            &&& context.long_war_defense == order.combat.long_war_defense
            &&& context.mountain == order.combat.mountain
            &&& context.urban == order.combat.urban
            &&& context.sim_tick == tick.tick
            &&& context.frame == tick.frame
            &&& context.war_grace_end == tick.war_grace_end
        }),
{
}

/// A formation without an order stays where it is, prefers nobody, and fights on even terms in the
/// open.
pub proof fn formations_without_orders_hold(
    tick: Tick<'_>,
    units: Seq<SimulationUnit>,
    attacker: int,
)
    requires
        0 <= attacker < units.len(),
        tick.orders@.len() == units.len(),
        tick.orders@[attacker] is None,
    ensures
        ({
            let order = tick.order_of(units, attacker);
            let context = combat_context_of(tick, order.combat);
            &&& order.unit_id == units[attacker].combat.id
            &&& !order.movement_enabled
            &&& order.preferred_target_id is None
            &&& order.factors.base_speed == real_of(0)
            &&& order.dir_lat == real_of(0) && order.dir_lng == real_of(0)
            &&& context.attacker_damage_dealt_multiplier == real_of(ONE_BITS)
            &&& context.attacker_damage_taken_multiplier == real_of(ONE_BITS)
            &&& context.defense_bonus == real_of(ONE_BITS)
            &&& context.long_war_defense == real_of(ONE_BITS)
            &&& !context.mountain && !context.urban
        }),
{
}

/// A formation acts while it lives, and on foot while it has men; it is gone once it is dead or its
/// kind has nothing left to fight with.
pub proof fn formations_act_while_they_can(unit: CombatUnit)
    ensures
        eligible(unit) ==> real_of(0).lt(unit.health),
        eligible(unit) && unit.kind is Army ==> unit.personnel > 0,
        real_of(0).lt(unit.health) && unit.kind is Armor ==> eligible(unit),
        real_of(0).lt(unit.health) && unit.personnel > 0 ==> eligible(unit),
        is_defeated(unit) && real_of(0).lt(unit.health) ==> (unit.kind is Army && unit.personnel
            == 0) || (unit.kind is Armor && unit.equipment == 0),
        unit.health.le(real_of(0)) ==> is_defeated(unit) && !eligible(unit),
        unit.kind is Army && unit.personnel == 0 ==> is_defeated(unit) && !eligible(unit),
        unit.kind is Armor && unit.equipment == 0 ==> is_defeated(unit),
{
}

/// Formations take their turns from the last one down, and only those that can still act.
pub proof fn turns_go_down(units: Seq<SimulationUnit>, below: int)
    requires
        0 <= below <= units.len(),
    ensures
        match last_eligible(units, below) {
            None => forall|i: int| 0 <= i < below ==> !eligible((#[trigger] units[i]).combat),
            Some(at) => {
                &&& 0 <= at < below
                &&& eligible(units[at].combat)
                &&& forall|i: int| at < i < below ==> !eligible((#[trigger] units[i]).combat)
            },
        },
    decreases below,
{
    if below > 0 {
        turns_go_down(units, below - 1);
    }
}

/// Whom a formation meets: those within reach that stood on a side to which its own was hostile
/// when the tick began.
pub proof fn contacts_are_hostile_and_in_reach(
    near: Seq<NearUnit>,
    tactical: Seq<TacticalUnit>,
    hostility: HostilityMatrix<'_>,
    attacker_side: u64,
    unit: NearUnit,
)
    ensures
        contacts_among(near, tactical, hostility, attacker_side).contains(unit) <==> near.contains(
            unit,
        ) && unit.within && (tactical[unit.index as int].side matches Some(side)
            && attacker_side != side && attacker_side < hostility.max_sides && side
            < hostility.max_sides && (hostility.relations matches Some(relations)
            ==> relations@[attacker_side * hostility.max_sides + side] == 1)),
{
    crate::order::lemma_filter_contains(
        near,
        |unit: NearUnit|
            crate::simulation::candidate(tactical, hostility, attacker_side, unit) && unit.within,
        unit,
    );
}

/// What the tactical grid sees of a formation: where it stands and on which side, and no side at
/// all where it cannot act.
pub proof fn the_grid_sees_who_can_act(unit: SimulationUnit)
    ensures
        ({
            let seen = tactical_view(unit);
            &&& seen.id == unit.combat.id
            &&& seen.lat == unit.combat.lat && seen.lng == unit.combat.lng
            &&& seen.side is Some <==> eligible(unit.combat)
            &&& seen.side matches Some(side) ==> unit.combat.side <= u16::MAX ==> side
                == unit.combat.side
            &&& seen.is_armor <==> unit.combat.kind is Armor
            &&& seen.is_support == unit.is_support
            &&& seen.ally_weight == unit.ally_weight
        }),
{
}

/// A formation is within reach where the square of the way to it, as it stood when the tick began,
/// is less than the square of the radius.
pub proof fn reach_is_a_circle(
    results: Map<Operation, u64>,
    attacker: CombatUnit,
    target: TacticalUnit,
    radius: Real,
    north: Real,
    east: Real,
)
    requires
        north == difference(results, target.lat, attacker.lat),
        east == longitude_delta(results, attacker.lng, target.lng),
    ensures
        within_reach(results, attacker, target, radius) <==> sum(
            results,
            product(results, north, north),
            product(results, east, east),
        ).lt(product(results, radius, radius)),
{
}

/// A formation fights directly the one that its order prefers where it met it, otherwise the first
/// of those it met; one that met nobody fights nobody.
pub proof fn preferred_targets_come_first(
    units: Seq<SimulationUnit>,
    accepted: Seq<usize>,
    preferred: Option<u64>,
)
    ensures
        ({
            let target = selected_target(units, accepted, preferred);
            let met = |id: u64|
                exists|k: int|
                    0 <= k < accepted.len() && units[#[trigger] accepted[k] as int].combat.id == id;
            &&& target is None <==> accepted.len() == 0
            &&& target matches Some(target) ==> accepted.contains(target)
            &&& preferred matches Some(id) ==> (met(id) ==> units[target->0 as int].combat.id == id)
            &&& preferred is None && accepted.len() > 0 ==> target == Some(accepted[0])
            &&& preferred matches Some(id) ==> (!met(id) && accepted.len() > 0 ==> target == Some(
                accepted[0],
            ))
        }),
{
    if let Some(id) = preferred {
        lemma_met(units, accepted, id, 0);
        if exists|k: int|
            0 <= k < accepted.len() && units[#[trigger] accepted[k] as int].combat.id == id {
            let k = choose|k: int|
                0 <= k < accepted.len() && units[#[trigger] accepted[k] as int].combat.id == id;
            assert(accepted_with_id(units, accepted, id, 0) is Some);
        }
    }
    if accepted.len() > 0 {
        assert(accepted.contains(accepted[0]));
    }
}

proof fn lemma_met(units: Seq<SimulationUnit>, accepted: Seq<usize>, id: u64, from: int)
    requires
        0 <= from,
    ensures
        match accepted_with_id(units, accepted, id, from) {
            None => forall|k: int|
                from <= k < accepted.len() ==> units[#[trigger] accepted[k] as int].combat.id != id,
            Some(found) => units[found as int].combat.id == id && exists|k: int|
                from <= k < accepted.len() && #[trigger] accepted[k] == found,
        },
    decreases accepted.len() - from,
{
    if from < accepted.len() {
        lemma_met(units, accepted, id, from + 1);
        if units[accepted[from] as int].combat.id == id {
            assert(accepted[from] == accepted_with_id(units, accepted, id, from)->0);
        }
    }
}

/// What a tick does next: those met fight at close range one after the other while they live, then
/// the chosen one directly while it lives, and then the formation moves where its order lets it
/// and holds where it does not.
pub proof fn a_turn_runs_its_course(
    tick: Tick<'_>,
    units: Seq<SimulationUnit>,
    attacker: usize,
    position: usize,
)
    requires
        tick.stage == (TickStage::Contacting { attacker, position }),
        position <= tick.accepted@.len(),
    ensures
        ({
            let alive = |k: int|
                !units[tick.accepted@[k] as int].combat.health.le(real_of(0));
            let due = tick.due(units);
            let moves = tick.order_of(units, attacker as int).movement_enabled;
            &&& due is Proximity <==> exists|k: int|
                #![trigger tick.accepted@[k]]
                position <= k < tick.accepted@.len() && alive(k)
            &&& due matches TickAction::Proximity { attacker: first, target } ==> {
                &&& first == attacker
                &&& exists|k: int|
                    #![trigger tick.accepted@[k]]
                    position <= k < tick.accepted@.len() && tick.accepted@[k] == target && alive(k)
                        && forall|j: int|
                        #![trigger tick.accepted@[j]]
                        position <= j < k ==> !alive(j)
            }
            &&& due matches TickAction::Direct { attacker: first, target } ==> first == attacker
                && tick.selected == Some(target) && real_of(0).lt(
                units[target as int].combat.health,
            )
            &&& !(due is Proximity) && (tick.selected matches Some(target) && real_of(0).lt(
                units[target as int].combat.health,
            )) ==> due is Direct
            &&& due is Move ==> moves && due->Move_attacker == attacker
            &&& due is Hold ==> !moves && due->Hold_attacker == attacker
            &&& due is Proximity || due is Direct || due is Move || due is Hold
        }),
{
    lemma_next(units, tick.accepted@, position as int);
}

proof fn lemma_next(units: Seq<SimulationUnit>, accepted: Seq<usize>, position: int)
    requires
        0 <= position,
    ensures
        match next_contact(units, accepted, position) {
            None => forall|k: int|
                position <= k < accepted.len()
                    ==> units[#[trigger] accepted[k] as int].combat.health.le(real_of(0)),
            Some(at) => {
                &&& position <= at < accepted.len()
                &&& !units[accepted[at] as int].combat.health.le(real_of(0))
                &&& forall|k: int|
                    position <= k < at ==> units[#[trigger] accepted[k] as int].combat.health.le(
                        real_of(0),
                    )
            },
        },
    decreases accepted.len() - position,
{
    if position < accepted.len() {
        lemma_next(units, accepted, position + 1);
    }
}

/// An exchange changes the two that fought and nobody else, each by what the kernel said of it, and
/// neither its name nor its march.
pub proof fn exchanges_concern_two(
    units: Seq<SimulationUnit>,
    attacker: int,
    target: int,
    pair: (CombatUnit, CombatUnit),
)
    requires
        0 <= attacker < units.len(),
        0 <= target < units.len(),
        attacker != target,
    ensures
        ({
            let after = after_exchange(units, attacker, target, pair);
            &&& after.len() == units.len()
            &&& forall|i: int|
                0 <= i < units.len() && i != attacker && i != target ==> #[trigger] after[i]
                    == units[i]
            &&& after[attacker].combat == (CombatUnit { id: units[attacker].combat.id, ..pair.0 })
            &&& after[target].combat == (CombatUnit { id: units[target].combat.id, ..pair.1 })
            &&& after[attacker] == (SimulationUnit {
                combat: after[attacker].combat,
                ..units[attacker]
            })
            &&& after[target] == (SimulationUnit { combat: after[target].combat, ..units[target] })
        }),
{
}

/// A move puts a formation where the kernel says and turns it the way it went; its strength stays.
pub proof fn moves_change_places(unit: SimulationUnit, output: MovementOutput)
    ensures
        ({
            let after = with_movement(unit, output);
            &&& after.combat == (CombatUnit { lat: output.lat, lng: output.lng, ..unit.combat })
            &&& after.dir_lat == output.applied_dir_lat && after.dir_lng == output.applied_dir_lng
            &&& after.coast_stuck_ticks == output.coast_stuck_ticks
            &&& after.armor_landing_penalty_until_tick == unit.armor_landing_penalty_until_tick
            &&& after.is_support == unit.is_support && after.ally_weight == unit.ally_weight
        }),
{
}

/// How far a formation goes is its speed times every factor of its order, and four fifths of that;
/// it goes that far in the direction of the order.
pub proof fn marches_follow_the_order(results: Map<Operation, u64>, order: ResolvedUnitOrder)
    ensures
        ({
            let reach = reach_of(results, order);
            let speed = product(results, order.factors.base_speed, order.factors.speed_mult);
            let planned = product(results, speed, order.factors.plan_speed_mult);
            let through = product(results, planned, order.factors.neutral_penalty);
            let away = product(results, through, order.factors.retreat_boost);
            let ready = product(results, away, order.factors.push_readiness);
            &&& reach.move_distance == product(results, ready, real_of(N_0_8))
            &&& reach.lat_step == product(results, order.dir_lat, reach.move_distance)
            &&& reach.lng_step == product(results, order.dir_lng, reach.move_distance)
        }),
{
}

/// A formation obeys the first order that names it.
pub proof fn the_first_order_counts(orders: Seq<ResolvedUnitOrder>, id: u64)
    ensures
        match order_for(orders, id) {
            None => forall|i: int| 0 <= i < orders.len() ==> (#[trigger] orders[i]).unit_id != id,
            Some(order) => exists|i: int|
                0 <= i < orders.len() && #[trigger] orders[i] == order && order.unit_id == id
                    && forall|k: int| 0 <= k < i ==> (#[trigger] orders[k]).unit_id != id,
        },
    decreases orders.len(),
{
    if orders.len() > 0 {
        let rest = orders.drop_last();
        the_first_order_counts(rest, id);
        assert forall|i: int| 0 <= i < rest.len() implies #[trigger] rest[i] == orders[i] by {}
        match order_for(rest, id) {
            Some(order) => {
                let i = choose|i: int|
                    0 <= i < rest.len() && #[trigger] rest[i] == order && order.unit_id == id
                        && forall|k: int| 0 <= k < i ==> (#[trigger] rest[k]).unit_id != id;
                assert(orders[i] == order);
                assert forall|k: int| 0 <= k < i implies (#[trigger] orders[k]).unit_id != id by {
                    assert(rest[k].unit_id != id);
                }
            },
            None => {
                assert forall|k: int| 0 <= k < rest.len() implies (#[trigger] orders[k]).unit_id
                    != id by {
                    assert(rest[k].unit_id != id);
                }
                assert(orders[orders.len() - 1] == orders.last());
            },
        }
    }
}

/// A frame shows of a formation what it is: its place, its strength, its march, and its health as a
/// share between nothing and one. The penalty of a landing shows until its tick has come.
pub proof fn frames_show_formations_as_they_are(
    results: Map<Operation, u64>,
    unit: SimulationUnit,
    tick: u64,
)
    requires
        unit.combat.side <= u16::MAX,
    ensures
        ({
            let shown = snapshot_of(results, unit, tick);
            let share = quotient(results, unit.combat.health, unit.combat.max_health);
            &&& shown.id == unit.combat.id
            &&& shown.side == unit.combat.side
            &&& shown.sovereign == unit.combat.sovereign
            &&& shown.kind == unit.combat.kind
            &&& shown.lat == unit.combat.lat && shown.lng == unit.combat.lng
            &&& shown.health == unit.combat.health && shown.max_health == unit.combat.max_health
            &&& share.unit_interval() ==> shown.health_fraction == number_at(
                results,
                Operation::Single(share),
            )
            &&& real_of(ONE_BITS).lt(share) ==> shown.health_fraction == number_at(
                results,
                Operation::Single(real_of(ONE_BITS)),
            )
            &&& share.lt(real_of(0)) ==> shown.health_fraction == number_at(
                results,
                Operation::Single(real_of(0)),
            )
            &&& shown.personnel == unit.combat.personnel
            &&& shown.personnel_capacity == unit.combat.personnel_capacity
            &&& shown.equipment == unit.combat.equipment
            &&& shown.max_equipment == unit.combat.max_equipment
            &&& shown.dir_lat == unit.dir_lat && shown.dir_lng == unit.dir_lng
            &&& shown.coast_stuck_ticks == unit.coast_stuck_ticks
            &&& shown.last_combat_tick == unit.combat.last_combat_tick
            &&& shown.victory_boost_ticks == unit.combat.victory_boost_ticks
            &&& shown.landing_penalty_active <==> tick < unit.armor_landing_penalty_until_tick
            &&& shown.transport == unit.combat.transport
            &&& shown.at_sea == unit.combat.at_sea
            &&& shown.armor_supported == unit.combat.armor_supported
            &&& !shown.is_alpenjager && shown.encircled_ticks == 0 && shown.mountain_intensity
                == real_of(0)
            &&& with_landing_flag(unit, tick).combat.landing_penalty_active
                == shown.landing_penalty_active
            &&& with_landing_flag(unit, tick) == (SimulationUnit {
                combat: CombatUnit {
                    landing_penalty_active: shown.landing_penalty_active,
                    ..unit.combat
                },
                ..unit
            })
        }),
{
}

/// At the end of a tick those are left that are not defeated, in their order.
pub proof fn the_undefeated_are_left(units: Seq<SimulationUnit>, unit: SimulationUnit)
    ensures
        ({
            let defeated = unit.combat.health.le(real_of(0)) || (unit.combat.kind is Army
                && unit.combat.personnel == 0) || (unit.combat.kind is Armor
                && unit.combat.equipment == 0);
            &&& survivors(units).contains(unit) <==> units.contains(unit) && !defeated
            &&& casualties(units).contains(unit) <==> units.contains(unit) && defeated
        }),
{
    crate::order::lemma_filter_contains(
        units,
        |unit: SimulationUnit| !is_defeated(unit.combat),
        unit,
    );
    crate::order::lemma_filter_contains(
        units,
        |unit: SimulationUnit| is_defeated(unit.combat),
        unit,
    );
}

/// A formation can enter a simulation exactly if its side is one of those declared and its place,
/// health, quality, march and weight are numbers that can be worked with.
pub proof fn formations_have_a_side_and_numbers(unit: SimulationUnit, max_sides: Option<usize>)
    ensures
        ({
            let sided = unit.combat.side <= u16::MAX && (max_sides matches Some(count)
                ==> unit.combat.side < count);
            let fault = unit_fault(unit, max_sides);
            &&& !sided <==> fault == Some(SimulationError::InvalidSide(unit.combat.side))
            &&& fault is None ==> {
                &&& unit.combat.lat.finite() && unit.combat.lng.finite()
                &&& unit.combat.health.finite() && unit.combat.quality.finite()
                &&& unit.combat.max_health.finite() && unit.combat.max_health.rank() > 0
                &&& unit.dir_lat.finite() && unit.dir_lng.finite()
                &&& unit.ally_weight.finite_nonnegative()
            }
            &&& sided && fault is Some ==> fault == Some(SimulationError::NonFiniteInput)
        }),
{
}

} // verus!
