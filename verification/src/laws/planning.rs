//! What formations are planned and ordered by: what the planner and the fronts see of them, who
//! holds, who goes home, what was sighted, and what the battlefield makes of them.

use vstd::prelude::*;
use crate::laws::losing::is_in_use;
use crate::numbers::{N_0_15, N_0_25, N_0_45, N_0_5, N_0_6, N_0_8, N_0_96, N_200, N_50};
use crate::production::ProductionCountry;
use crate::runtime::battlefield::{
    BattlefieldCountryState, BattlefieldLocalUnitResult, BattlefieldUnitResult,
    BattlefieldUnitState, SideDynamics,
};
use crate::runtime::counters::AiPlanningCounters;
use crate::runtime::orders::{
    country_input, last_aggregate, merged_plan, people_by_country, sighting, taken_back,
    with_sighting, ObservationModel,
};
use crate::runtime::planning::{
    ai_input, assigned_table, band_changes, garrison_order, homeward_order, layout_unit,
    objective_table, recommanded_policies, resolved_command, FrontAssignmentRecord, PlanningContact,
    PlanningScope, PriorModel, ResolvedCommandPolicy,
};
use crate::runtime::policy::{Policies, PolicyModel};
use crate::runtime::tactics::{
    ally_weights, answer_taken, battlefield_input, country_state, driven_country, local_input,
    resolved_memory, resolved_policy, BattlefieldModel, BattlefieldScope, BattlefieldUnitInput,
};
use crate::scalar::{real_of, Real, ONE_BITS};
use crate::strategic::CountryAggregate;
use crate::taskforce::OperationalUnitInput;
use crate::units::{ResolvedUnitOrder, SimulationUnit};
use crate::worksheet::{
    difference, integer, longitude_delta, number_at, product, quotient, sum, Operation,
};

verus! {

// ---------------------------------------------------------------------------------------------
// The planner and the fronts
// ---------------------------------------------------------------------------------------------

/// The planner sees exactly the formations that are in use, hold no garrison and have a policy. It
/// sees them as they are, at sea and weighted as the battlefield found them, keeps unclaimed ones
/// at their objective, and lets those that refuse to attack, and all of a side on the defensive,
/// only defend.
pub proof fn the_planner_sees_formations_as_they_are(scope: PlanningScope, at: int)
    requires
        0 <= at < scope.units.len(),
        scope.units[at].combat.side <= u16::MAX,
    ensures
        ({
            let unit = scope.units[at];
            let id = unit.combat.id;
            let policy = scope.policies[id];
            let side = unit.combat.side as usize;
            let planned = scope.policies.contains_key(id) && is_in_use(policy, scope.tick)
                && !policy.ai.garrison_excluded;
            let defends = scope.dynamics matches Some(table) && table.contains_key(side)
                && table[side].posture is Defensive;
            &&& ai_input(scope, at) is Some <==> planned
            &&& planned ==> (ai_input(scope, at) matches Some(Ok(seen)) && {
                &&& seen.id == id && seen.side == unit.combat.side
                &&& seen.sovereign == unit.combat.sovereign && seen.kind == unit.combat.kind
                &&& seen.lat == unit.combat.lat && seen.lng == unit.combat.lng
                &&& seen.health == unit.combat.health && seen.max_health == unit.combat.max_health
                &&& seen.combat_power == scope.strengths[at]
                &&& seen.transport == unit.combat.transport
                &&& seen.base_speed == policy.ai.base_speed
                &&& seen.movement == policy.ai.movement && seen.combat == policy.ai.combat
                &&& scope.resolved matches Some(table) ==> (table.contains_key(id) ==> seen.at_sea
                    == table[id].cell.at_sea)
                &&& scope.resolved is None ==> seen.at_sea == unit.combat.at_sea
                &&& scope.ally_weights matches Some(table) ==> (table.contains_key(id)
                    ==> seen.ally_weight == table[id])
                &&& scope.ally_weights is None ==> seen.ally_weight == unit.ally_weight
                &&& seen.operationally_claimed <==> scope.claimed.contains(id)
                &&& scope.claimed.contains(id) || !scope.priors.contains_key(id)
                    ==> seen.prior_front_objective_id is None
                &&& !scope.claimed.contains(id) && scope.priors.contains_key(id)
                    ==> seen.prior_front_objective_id == Some(scope.priors[id])
                &&& seen.is_reserve <==> policy.ai.is_reserve || policy.command.refuses_offense
                &&& seen.reinforcement_eligible == policy.ai.reinforcement_eligible
                &&& seen.encircled == policy.ai.encircled
                &&& seen.defensive_only <==> policy.command.refuses_offense || defends
            })
        }),
{
}

/// The fronts see every formation where it stands and where it stood in them before; those that
/// hold a garrison, refuse to attack or are claimed are left out, and those that deploy are
/// marked.
pub proof fn the_fronts_see_formations_as_they_are(
    units: Seq<SimulationUnit>,
    policies: Policies,
    priors: Map<u64, PriorModel>,
    claimed: Set<u64>,
    tick: u64,
    at: int,
)
    ensures
        layout_unit(units, policies, priors, claimed, tick, at) matches Some(Ok(seen)) ==> {
            let unit = units[at];
            let id = unit.combat.id;
            let policy = policies[id];
            &&& seen.id == id && seen.side_index == unit.combat.side
            &&& seen.lat == unit.combat.lat && seen.lng == unit.combat.lng
            &&& seen.garrison_excluded <==> policy.ai.garrison_excluded
                || policy.command.refuses_offense || claimed.contains(id)
            &&& seen.deploy_ticks > 0 <==> !is_in_use(policy, tick)
            &&& seen.deploy_ticks <= 1
            &&& priors.contains_key(id) ==> seen.previous_pair_key == Some(priors[id].pair_key)
                && seen.previous_segment_idx == Some(priors[id].segment_idx)
            &&& !priors.contains_key(id) ==> seen.previous_pair_key is None
                && seen.previous_segment_idx is None
        },
{
}

/// A garrison holds its ground, once deployed, with its own modifiers and no target; nobody else is
/// held by it.
pub proof fn garrisons_hold_their_ground(
    units: Seq<SimulationUnit>,
    policies: Policies,
    tick: u64,
    at: int,
)
    requires
        policies.contains_key(units[at].combat.id),
    ensures
        ({
            let id = units[at].combat.id;
            let policy = policies[id];
            let holds = policy.ai.garrison_excluded && is_in_use(policy, tick);
            &&& garrison_order(units, policies, tick, at) is Some <==> holds
            &&& holds ==> (garrison_order(units, policies, tick, at) matches Some(Ok(order)) && {
                &&& order.unit_id == id
                &&& !order.movement_enabled
                &&& order.preferred_target_id is None
                &&& order.combat == policy.ai.combat
                &&& order.dir_lat == real_of(0) && order.dir_lng == real_of(0)
                &&& order.factors.base_speed == real_of(0)
            })
        }),
{
}

/// A formation that is sent home marches straight there at four fifths of its pace; within fifteen
/// hundredths of a degree it is free, unless it only defends itself: then it holds.
pub proof fn formations_sent_home_march_there(
    results: Map<Operation, u64>,
    units: Seq<SimulationUnit>,
    policies: Policies,
    tick: u64,
    at: int,
)
    requires
        policies.contains_key(units[at].combat.id),
    ensures
        ({
            let unit = units[at];
            let id = unit.combat.id;
            let policy = policies[id];
            let told = homeward_order(results, units, policies, tick, at);
            let sent = policy.command.return_home && !policy.ai.garrison_excluded && is_in_use(
                policy,
                tick,
            ) && policy.command.home_target is Some;
            let home = policy.command.home_target->0;
            let north = difference(results, home.lat, unit.combat.lat);
            let east = longitude_delta(results, unit.combat.lng, home.lng);
            let way = number_at(results, Operation::Hypotenuse(north, east));
            let far = real_of(N_0_15).lt(way);
            &&& !sent ==> told is None
            &&& sent && way.le(real_of(N_0_15)) && !policy.command.self_defense_only ==> told
                is None
            &&& sent && far ==> (told matches Some(Ok(order)) && {
                &&& order.unit_id == id && order.movement_enabled
                &&& order.dir_lat == quotient(results, north, way) && order.dir_lng == quotient(
                    results,
                    east,
                    way,
                )
                &&& order.combat == policy.ai.combat && order.preferred_target_id is None
                &&& order.factors.base_speed == policy.ai.base_speed
                &&& order.factors.speed_mult == product(
                    results,
                    policy.ai.movement.terrain_speed_multiplier,
                    policy.ai.movement.speed_multiplier,
                )
                &&& order.factors.plan_speed_mult == product(
                    results,
                    policy.ai.movement.plan_speed_multiplier,
                    real_of(N_0_8),
                )
                &&& order.factors.neutral_penalty == policy.ai.movement.neutral_penalty
                &&& order.factors.retreat_boost == real_of(ONE_BITS)
                &&& order.factors.push_readiness == real_of(ONE_BITS)
            })
            &&& sent && !far && policy.command.self_defense_only ==> (told matches Some(Ok(order))
                && order.unit_id == id && !order.movement_enabled && order.combat
                == policy.ai.combat)
        }),
{
}

/// A command is what was resolved, from its cycle on.
pub proof fn commands_are_what_was_resolved(resolved: ResolvedCommandPolicy, cycle: u64)
    ensures
        ({
            let command = resolved_command(resolved, cycle);
            &&& command.band == resolved.band && command.discipline == resolved.discipline
            &&& command.refuses_offense == resolved.refuses_offense
            &&& command.return_home == resolved.return_home
            &&& command.self_defense_only == resolved.self_defense_only
            &&& command.home_target == resolved.home_target
            &&& command.transition_cycle == cycle
        }),
{
}

/// A formation whose band changed takes its new command, gives up reserve and garrison, and spreads
/// influence as one that attacks or refuses to. Every other formation keeps its policy.
pub proof fn new_bands_change_what_they_command(
    policies: Policies,
    resolved: Map<u64, ResolvedCommandPolicy>,
    changed: Seq<u64>,
    cycle: u64,
    id: u64,
)
    requires
        policies.contains_key(id),
    ensures
        ({
            let before = policies[id];
            let after = recommanded_policies(policies, resolved, changed, cycle)[id];
            &&& recommanded_policies(policies, resolved, changed, cycle).contains_key(id)
            &&& !changed.contains(id) ==> after == before
            &&& changed.contains(id) ==> {
                &&& after.command.band == resolved[id].band
                &&& after.command.home_target == resolved[id].home_target
                &&& after.command.transition_cycle == cycle
                &&& !after.ai.is_reserve && !after.ai.garrison_excluded
                &&& after.ai.base_speed == before.ai.base_speed && after.ai.deploy_until_tick
                    == before.ai.deploy_until_tick && after.ai.combat == before.ai.combat
                &&& after.influence is Some <==> before.influence is Some
                &&& after.influence matches Some(influence) ==> influence.refuses_offense
                    == resolved[id].refuses_offense && influence.radius
                    == before.influence->0.radius && influence.delta == before.influence->0.delta
                &&& after.unit_id == before.unit_id
            }
        }),
{
}

/// A band changes where the one resolved is another than the one held.
pub proof fn bands_change_where_they_differ(
    policies: Policies,
    resolved: Map<u64, ResolvedCommandPolicy>,
    id: u64,
)
    requires
        policies.contains_key(id),
        resolved.contains_key(id),
    ensures
        band_changes(policies, resolved, id) <==> policies[id].command.band != resolved[id].band,
{
}

/// The last place of a formation in the fronts, and its last assignment that has an objective,
/// count.
pub proof fn the_last_objective_counts(
    priors: Seq<PriorModel>,
    assignments: Seq<FrontAssignmentRecord>,
    count: nat,
)
    requires
        0 < count,
    ensures
        count <= priors.len() ==> objective_table(priors, count).contains_key(
            priors[count - 1].unit_id,
        ) && objective_table(priors, count)[priors[count - 1].unit_id]
            == priors[count - 1].objective_id,
        count <= assignments.len() ==> (assignments[count - 1].objective_id matches Some(objective)
            ==> assigned_table(assignments, count).contains_key(assignments[count - 1].unit_id)
            && assigned_table(assignments, count)[assignments[count - 1].unit_id] == objective),
        count <= assignments.len() ==> (assignments[count - 1].objective_id is None
            ==> assigned_table(assignments, count) == assigned_table(
            assignments,
            (count - 1) as nat,
        )),
{
}

// ---------------------------------------------------------------------------------------------
// Orders
// ---------------------------------------------------------------------------------------------

/// What a contact shows to the side of the formation that made it: the formation that it met,
/// whose it is, where, and how strong. A contact with nobody, or with one of whom nothing is
/// known, shows nothing.
pub proof fn contacts_show_whom_they_met(
    contact: PlanningContact,
    by_id: Map<u64, OperationalUnitInput>,
    units: Seq<SimulationUnit>,
)
    ensures
        ({
            let shown = sighting(contact, by_id, units);
            let known = contact.target_unit_id is Some && by_id.contains_key(contact.unit_id)
                && by_id.contains_key(contact.target_unit_id->0);
            &&& shown is Some <==> known
            &&& shown matches Some(seen) ==> {
                let target = by_id[contact.target_unit_id->0];
                &&& seen.observer_side == by_id[contact.unit_id].side_index
                &&& seen.enemy_side == target.side_index
                &&& Some(seen.target_unit_id) == contact.target_unit_id
                &&& seen.target_country_id == target.country_id
                &&& seen.target_position == target.position
                &&& seen.observed_power == target.power
            }
        }),
{
}

/// Sightings hold one of each formation for each side that saw it: the newest.
pub proof fn the_newest_sighting_counts(
    list: Seq<ObservationModel>,
    item: ObservationModel,
    from: int,
)
    requires
        0 <= from <= list.len(),
    ensures
        with_sighting(list, item, from).contains(item),
        forall|k: int|
            from <= k < list.len() && !((#[trigger] list[k]).observer_side == item.observer_side
                && list[k].target_unit_id == item.target_unit_id) ==> with_sighting(
                list,
                item,
                from,
            ).contains(list[k]),
    decreases list.len() - from,
{
    let after = with_sighting(list, item, from);
    if from >= list.len() {
        assert(after[list.len() as int] == item);
        assert forall|k: int| from <= k < list.len() implies after.contains(#[trigger] list[k]) by {
            assert(after[k] == list[k]);
        }
    } else if list[from].observer_side == item.observer_side && list[from].target_unit_id
        == item.target_unit_id {
        assert(after[from] == item);
        assert forall|k: int|
            from <= k < list.len() && !((#[trigger] list[k]).observer_side == item.observer_side
                && list[k].target_unit_id == item.target_unit_id) implies after.contains(
            list[k],
        ) by {
            assert(after[k] == list[k]);
        }
    } else if item.observer_side < list[from].observer_side || item.observer_side
        == list[from].observer_side && item.target_unit_id < list[from].target_unit_id {
        assert(after[from] == item);
        assert forall|k: int| from <= k < list.len() implies after.contains(#[trigger] list[k]) by {
            assert(after[k + 1] == list[k]);
        }
    } else {
        the_newest_sighting_counts(list, item, from + 1);
        assert(after.contains(list[from])) by {
            lemma_sightings_stay(list, item, from + 1, from);
        }
    }
}

proof fn lemma_sightings_stay(
    list: Seq<ObservationModel>,
    item: ObservationModel,
    from: int,
    k: int,
)
    requires
        0 <= k < from <= list.len(),
    ensures
        with_sighting(list, item, from).contains(list[k]),
    decreases list.len() - from,
{
    let after = with_sighting(list, item, from);
    if from >= list.len() {
        assert(after[k] == list[k]);
    } else if list[from].observer_side == item.observer_side && list[from].target_unit_id
        == item.target_unit_id {
        assert(after[k] == list[k]);
    } else if item.observer_side < list[from].observer_side || item.observer_side
        == list[from].observer_side && item.target_unit_id < list[from].target_unit_id {
        assert(after[k] == list[k]);
    } else {
        lemma_sightings_stay(list, item, from + 1, k);
    }
}

/// The people of a country are those of its formations: everybody on foot, and the crews of
/// vehicles.
pub proof fn people_are_counted_by_country(
    results: Map<Operation, u64>,
    units: Seq<SimulationUnit>,
    crew: u64,
    count: nat,
)
    requires
        0 < count <= units.len(),
        units[count - 1].combat.equipment * crew <= u64::MAX,
    ensures
        people_by_country(results, units, crew, count) matches Ok(after) ==> {
            let unit = units[count - 1];
            let country = unit.combat.sovereign as u16;
            let people = if unit.combat.kind is Armor {
                (unit.combat.equipment * crew) as u64
            } else {
                unit.combat.personnel
            };
            people_by_country(results, units, crew, (count - 1) as nat) matches Ok(before) && {
                &&& unit.combat.sovereign <= u16::MAX
                &&& after.contains_key(country) && after[country] == sum(
                    results,
                    if before.contains_key(country) { before[country] } else { real_of(0) },
                    integer(results, people),
                )
                &&& forall|other: u16|
                    other != country && #[trigger] after.contains_key(other) ==> before.contains_key(
                        other,
                    ) && after[other] == before[other]
            }
        },
{
}

/// What operations are told of a country: its first land, what it controls now, its cities and
/// people.
pub proof fn operations_know_the_country(
    people: Map<u16, Real>,
    aggregates: Seq<CountryAggregate>,
    country: ProductionCountry,
)
    ensures
        ({
            let told = country_input(people, aggregates, country);
            let counted = last_aggregate(aggregates, country.country_id, aggregates.len());
            &&& told.country_id == country.country_id
            &&& country.initial_core_cells > 0 ==> told.initial_land == country.initial_core_cells
            &&& country.initial_core_cells == 0 ==> told.initial_land == 1
            &&& counted matches Some(now) ==> told.controlled == now.controlled
                && told.cities_controlled == now.cities_controlled && now.country_id
                == country.country_id
            &&& counted is None ==> told.controlled == 0 && told.cities_controlled == 0
            &&& people.contains_key(country.country_id) ==> told.current_personnel
                == people[country.country_id]
            &&& !people.contains_key(country.country_id) ==> told.current_personnel == real_of(0)
            &&& told.offensive_role
        }),
{
    lemma_last(aggregates, country.country_id, aggregates.len());
}

proof fn lemma_last(aggregates: Seq<CountryAggregate>, country_id: u16, count: nat)
    requires
        count <= aggregates.len(),
    ensures
        last_aggregate(aggregates, country_id, count) matches Some(found) ==> found.country_id
            == country_id && aggregates.contains(found),
        last_aggregate(aggregates, country_id, count) is None ==> forall|i: int|
            0 <= i < count ==> (#[trigger] aggregates[i]).country_id != country_id,
    decreases count,
{
    if count > 0 {
        lemma_last(aggregates, country_id, (count - 1) as nat);
    }
}

/// A formation sent home is taken out of the plan, unless it fights or flees: its order replaces
/// any other, and its assignment becomes to hold. Everybody else's order and assignment stay.
pub proof fn commands_override_the_plan(
    orders: Seq<ResolvedUnitOrder>,
    assignments: Seq<FrontAssignmentRecord>,
    counters: AiPlanningCounters,
    garrisons: Seq<ResolvedUnitOrder>,
    commands: Seq<ResolvedUnitOrder>,
    priors: Map<u64, u64>,
    order: ResolvedUnitOrder,
)
    ensures
        ({
            let plan = merged_plan(orders, assignments, counters, garrisons, commands, priors);
            let busy = exists|i: int|
                0 <= i < assignments.len() && (#[trigger] assignments[i]).unit_id == order.unit_id
                    && (assignments[i].reason is Contact || assignments[i].reason is Retreat);
            plan.overrides.contains(order) <==> commands.contains(order) && !busy
        }),
{
    let plan = merged_plan(orders, assignments, counters, garrisons, commands, priors);
    crate::order::lemma_filter_contains(
        commands,
        crate::runtime::orders::unengaged(assignments),
        order,
    );
}

/// An assignment that is taken back is no longer counted, where it was counted.
pub proof fn assignments_taken_back_are_not_counted(
    counters: AiPlanningCounters,
    record: FrontAssignmentRecord,
    priors: Map<u64, u64>,
)
    ensures
        ({
            let after = taken_back(counters, record, priors);
            let less = |count: usize| if count > 0 { (count - 1) as usize } else { 0 };
            let stuck = record.objective_id is Some && priors.contains_key(record.unit_id)
                && Some(priors[record.unit_id]) == record.objective_id;
            &&& record.reason is Front && stuck ==> after == (AiPlanningCounters {
                sticky_assignments: less(counters.sticky_assignments),
                ..counters
            })
            &&& record.reason is Front && !stuck ==> after == (AiPlanningCounters {
                front_assignments: less(counters.front_assignments),
                ..counters
            })
            &&& record.reason is Reinforce ==> after == (AiPlanningCounters {
                reinforcement_assignments: less(counters.reinforcement_assignments),
                ..counters
            })
            &&& record.reason is Field ==> after == (AiPlanningCounters {
                field_orders: less(counters.field_orders),
                ..counters
            })
            &&& record.reason is Hold ==> after == (AiPlanningCounters {
                hold_orders: less(counters.hold_orders),
                ..counters
            })
            &&& record.reason is Contact || record.reason is Retreat ==> after == counters
        }),
{
}

// ---------------------------------------------------------------------------------------------
// The battlefield
// ---------------------------------------------------------------------------------------------

/// What the battlefield looks at around a formation: itself as it stands, its march, its strength,
/// its force, and whether it refuses to attack.
pub proof fn the_battlefield_looks_around_formations(
    units: Seq<SimulationUnit>,
    strengths: Seq<Real>,
    policies: Policies,
    keys: Map<u64, u64>,
    at: int,
)
    ensures
        local_input(units, strengths, policies, keys, at) matches Some(Ok(seen)) ==> {
            let unit = units[at];
            let id = unit.combat.id;
            &&& seen.id == id && seen.side == unit.combat.side && seen.sovereign
                == unit.combat.sovereign
            &&& seen.kind == unit.combat.kind
            &&& seen.lat == unit.combat.lat && seen.lng == unit.combat.lng
            &&& seen.formation_strength == strengths[at]
            &&& seen.previous_dir_lat == unit.dir_lat && seen.previous_dir_lng == unit.dir_lng
            &&& seen.refuses_offense <==> (policies[id].influence is Some
                && policies[id].influence->0.refuses_offense)
            &&& keys.contains_key(id) ==> seen.task_force_key == Some(keys[id])
            &&& !keys.contains_key(id) ==> seen.task_force_key is None
        },
{
}

/// What the battlefield is told of a formation: itself as it stands, what it remembers of it, and
/// its country. It counts against a surrender while it lives and has men on foot or vehicles.
pub proof fn the_battlefield_knows_its_formations(scope: BattlefieldScope, at: int)
    ensures
        battlefield_input(scope, at) matches Some(Ok(seen)) ==> {
            let unit = scope.units[at];
            let memory = scope.memories[unit.combat.id];
            &&& seen.id == unit.combat.id && seen.side == unit.combat.side as usize as u16
                && seen.sovereign == unit.combat.sovereign
            &&& seen.kind == unit.combat.kind && seen.transport == unit.combat.transport
            &&& seen.lat == unit.combat.lat && seen.lng == unit.combat.lng
            &&& seen.formation_strength == scope.strengths[at]
            &&& seen.counts_for_capitulation <==> real_of(0).lt(unit.combat.health) && (
            unit.combat.kind is Army || unit.combat.equipment > 0)
            &&& seen.armor_supported == unit.combat.armor_supported
            &&& seen.is_alpenjager == memory.is_alpenjager
            &&& seen.encircled_ticks == memory.encircled_ticks
            &&& seen.last_ally_count == memory.last_ally_count
            &&& seen.victory_boost_ticks == unit.combat.victory_boost_ticks
            &&& unit.combat.last_combat_tick == 0 ==> seen.last_combat_frame is None
            &&& unit.combat.last_combat_tick > 0 ==> seen.last_combat_frame == Some(
                unit.combat.last_combat_tick,
            )
            &&& seen.near_sovereign_city == scope.near_city[at]
        },
{
}

/// A country fights as its side fares: its phase is that of its side, and on the defensive it is no
/// faster than ninety-six hundredths, less a fifth below half of its people and two fifths below a
/// quarter. Without momentum it fights as it did.
pub proof fn countries_fight_as_their_side_fares(
    results: Map<Operation, u64>,
    country: BattlefieldCountryState,
    dynamics: Option<Map<usize, SideDynamics>>,
    side: usize,
)
    ensures
        ({
            let after = driven_country(results, country, dynamics, side);
            let known = dynamics is Some && dynamics->0.contains_key(side);
            let state = dynamics->0[side];
            let ratio = quotient(results, state.current_personnel, state.initial_personnel);
            let few = !real_of(0).lt(state.initial_personnel) || ratio.nan() || ratio.lt(
                real_of(N_0_25),
            );
            let pace = product(
                results,
                real_of(N_0_96),
                if few {
                    real_of(N_0_6)
                } else if ratio.lt(real_of(N_0_5)) {
                    real_of(N_0_8)
                } else {
                    real_of(ONE_BITS)
                },
            );
            &&& !known ==> after == country
            &&& known ==> {
                &&& after.war_phase is Advancing <==> state.phase is Advancing
                &&& after.war_phase is Collapsing <==> state.phase is Collapsing
                &&& after.war_phase is Stable <==> state.phase is Retreating || state.phase
                    is Stalemate
                &&& !(state.posture is Defensive) ==> after.ai_speed_multiplier
                    == country.ai_speed_multiplier
                &&& state.posture is Defensive && pace.lt(country.ai_speed_multiplier)
                    ==> after.ai_speed_multiplier == pace
                &&& state.posture is Defensive && country.ai_speed_multiplier.le(pace)
                    ==> after.ai_speed_multiplier == country.ai_speed_multiplier
                &&& after.influence_buff == country.influence_buff
            }
        }),
{
}

/// A country has lost its capital exactly where a side to which its own is hostile dominates it.
pub proof fn capitals_are_lost_to_enemies(scope: BattlefieldScope, sovereign: u16, side: usize)
    ensures
        country_state(scope, sovereign, side) matches Ok(state) ==> {
            let entry = crate::runtime::enlistment::first_entry(scope.countries, sovereign, 0);
            entry matches Some(country) ==> (country.capital_cell matches Some(cell) ==> {
                let holder = scope.territory.dominant_side@[cell as int];
                state.capital_lost <==> 0 <= holder < scope.territory.max_sides && holder != side
                    && side < scope.territory.max_sides && scope.hostility[side
                    * scope.territory.max_sides + holder] == 1
            })
        },
{
}

/// Among allies a formation weighs its strength, fiftyfold where its country is favoured and two
/// hundredfold where it is favoured most.
pub proof fn favoured_formations_weigh_more(
    results: Map<Operation, u64>,
    inputs: Seq<BattlefieldUnitInput>,
    count: nat,
)
    requires
        0 < count <= inputs.len(),
    ensures
        ({
            let input = inputs[count - 1];
            let weight = ally_weights(results, inputs, count)[input.id];
            let times = |factor: Real| product(results, input.formation_strength, factor);
            &&& ally_weights(results, inputs, count).contains_key(input.id)
            &&& input.country.influence_buff is Super ==> weight == times(real_of(N_200))
            &&& input.country.influence_buff is Buff ==> weight == times(real_of(N_50))
            &&& !(input.country.influence_buff is Super) && !(input.country.influence_buff is Buff)
                ==> weight == times(real_of(ONE_BITS))
        }),
{
}

/// What the battlefield found is taken over into a formation's policy: its pace, its terms, its
/// encirclement and its influence; it may be reinforced below forty-five hundredths of its health.
pub proof fn policies_follow_the_battlefield(
    results: Map<Operation, u64>,
    policy: PolicyModel,
    unit: SimulationUnit,
    found: BattlefieldUnitResult,
)
    ensures
        ({
            let after = resolved_policy(results, policy, unit, found);
            let whole = if real_of(ONE_BITS).le(unit.combat.max_health) {
                unit.combat.max_health
            } else {
                real_of(ONE_BITS)
            };
            &&& after.ai.base_speed == found.base_speed
            &&& after.ai.movement == found.movement && after.ai.combat == found.combat
            &&& after.ai.encircled == found.encircled
            &&& after.ai.reinforcement_eligible <==> quotient(
                results,
                unit.combat.health,
                whole,
            ).lt(real_of(N_0_45))
            &&& after.ai.is_reserve == policy.ai.is_reserve && after.ai.garrison_excluded
                == policy.ai.garrison_excluded && after.ai.deploy_until_tick
                == policy.ai.deploy_until_tick
            &&& after.command == policy.command && after.unit_id == policy.unit_id
            &&& after.influence is Some <==> policy.influence is Some
            &&& after.influence matches Some(influence) ==> influence.radius
                == found.influence.radius && influence.delta == found.influence.delta
                && influence.concentration_bonus == found.influence.concentration_bonus
                && influence.refuses_offense == policy.influence->0.refuses_offense
        }),
{
}

/// What the battlefield remembers of a formation: how long it has been encircled and, where it was
/// looked at, when its supply collapsed, both only once it is deployed; its support and its allies
/// always.
pub proof fn the_battlefield_remembers(
    memory: BattlefieldUnitState,
    waits: bool,
    tick: u64,
    found: BattlefieldUnitResult,
    local: BattlefieldLocalUnitResult,
)
    ensures
        ({
            let after = resolved_memory(memory, waits, tick, found, local);
            &&& waits ==> after.encircled_ticks == memory.encircled_ticks
                && after.supply_collapsed_tick == memory.supply_collapsed_tick
            &&& !waits ==> after.encircled_ticks == found.encircled_ticks
            &&& !waits && !found.attrition.supply_collapse_sampled ==> after.supply_collapsed_tick
                == memory.supply_collapsed_tick
            &&& !waits && found.attrition.supply_collapse_sampled
                && found.attrition.supply_collapsed ==> after.supply_collapsed_tick == Some(tick)
            &&& !waits && found.attrition.supply_collapse_sampled
                && !found.attrition.supply_collapsed ==> after.supply_collapsed_tick is None
            &&& after.armor_support_last_tick == local.armor_support_last_tick
            &&& after.last_ally_count == local.last_ally_count
            &&& after.is_alpenjager == memory.is_alpenjager && after.cohesion_seed
                == memory.cohesion_seed
        }),
{
}

/// One answer of the battlefield concerns one formation: its policy, its memory and what was found
/// of it, and that it spreads influence where it may and can. Nobody else changes.
pub proof fn answers_concern_one_formation(
    results: Map<Operation, u64>,
    units: Seq<SimulationUnit>,
    model: BattlefieldModel,
    tick: u64,
    answer: BattlefieldUnitResult,
    other: u64,
)
    requires
        other != answer.unit_id,
    ensures
        answer_taken(results, units, model, tick, answer) matches Ok(after) ==> {
            let id = answer.unit_id;
            &&& after.resolved_by_id.contains_key(id) && after.resolved_by_id[id] == answer
            &&& after.policies[id].ai.combat == answer.combat
            &&& after.influence_eligible.contains(id) <==> model.influence_eligible.contains(id)
                || model.policies[id].influence is Some && answer.influence.eligible
            &&& after.policies.contains_key(other) ==> model.policies.contains_key(other)
                && after.policies[other] == model.policies[other]
            &&& after.next_unit_state.contains_key(other) ==> after.next_unit_state[other]
                == model.next_unit_state[other]
            &&& after.influence_eligible.contains(other) == model.influence_eligible.contains(other)
            &&& after.local_by_id == model.local_by_id && after.ally_weight_by_id
                == model.ally_weight_by_id
        },
{
}

} // verus!
