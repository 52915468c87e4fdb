//! What operations on land, at sea and in the air are told and made of: claims, threats, steering,
//! transports, influence, airfields, targets, logistics and what a frame adds to formations.

use vstd::prelude::*;
use crate::air::AirPowerState;
use crate::casualties::{DamageCommand, LandDamage};
use crate::economy::EconomyState;
use crate::laws::losing::is_in_use;
use crate::numbers::{
    N_0_05, N_0_1, N_0_2, N_0_4, N_0_8, N_0_9, N_0_95, N_100, N_1000, N_2147483647, N_3, N_4, N_50,
    N_500, N_50000, N_600, N_8, N_9,
};
use crate::operations::{ForceModel, OperationalPoint};
use crate::production::{cell_at, ProductionCity, ProductionCountry};
use crate::runtime::airstage::{
    air_target, damage_by_unit, damage_orders, paid_coverage, priority_area,
};
use crate::runtime::battlefield::{
    BattlefieldRuntimeState, BattlefieldUnitResult, BattlefieldUnitState,
};
use crate::runtime::execution::{
    embarked, execution_input, land_threat, members_present, naval_threat, operational_input,
    steered_order, steering_table, transport_table, units_near, ExecutionUnitInput, NavalOperation,
    SteeringEntry, ThreatScope, TransportUpdate,
};
use crate::runtime::influence::{
    in_turn, influence_budgets, influence_source, stamp_of, timed_influence, TurnScope,
};
use crate::runtime::logistics::{
    armor_profile, armor_tallies, first_ashore, first_capital, first_held_cell, home_of, tally_of,
    ArmorMuster,
};
use crate::runtime::mobilization::{armor_policy, maintenance_of, MobilizationScope};
use crate::runtime::planning::FrontAssignmentRecord;
use crate::runtime::policy::{InfluenceModel, Policies};
use crate::runtime::tactics::StagedBattlefieldTick;
use crate::runtime::visuals::shown_unit;
use crate::runtime::world::{
    captor_of, controlled_land, diplomacy_fault, enemy_land, holder_of, RuntimeDiplomacy,
    TerritoryControl,
};
use crate::scalar::{real_of, Real, ONE_BITS};
use crate::simulation::UnitSnapshot;
use crate::strategic::CountryAggregate;
use crate::units::{CombatUnit, ResolvedUnitOrder, SimulationUnit};
use crate::worksheet::{
    difference, integer, longitude_delta, number_at, product, quotient, sum, Operation,
};

verus! {

// ---------------------------------------------------------------------------------------------
// Execution
// ---------------------------------------------------------------------------------------------

/// Operations see a formation where it stands, with its strength but not below nothing, ready by
/// its share of health, and with what the battlefield knows of its supply and encirclement.
pub proof fn operations_see_formations_as_they_are(
    results: Map<Operation, u64>,
    units: Seq<SimulationUnit>,
    strengths: Seq<Real>,
    resolved: Option<Map<u64, BattlefieldUnitResult>>,
    memory: Option<Map<u64, BattlefieldUnitState>>,
    at: int,
)
    ensures
        operational_input(results, units, strengths, resolved, memory, at) matches Some(
            Ok(seen),
        ) ==> {
            let unit = units[at];
            let id = unit.combat.id;
            let share = quotient(results, unit.combat.health, unit.combat.max_health);
            let whole = real_of(0).lt(unit.combat.max_health);
            &&& seen.unit_id == id && seen.side_index == unit.combat.side as usize
                && seen.country_id == unit.combat.sovereign
            &&& seen.position.lat == unit.combat.lat && seen.position.lng == unit.combat.lng
            &&& real_of(0).le(strengths[at]) ==> seen.power == strengths[at]
            &&& strengths[at].lt(real_of(0)) || strengths[at].nan() ==> seen.power == real_of(0)
            &&& !whole ==> seen.readiness == real_of(0)
            &&& whole && share.unit_interval() ==> seen.readiness == share
            &&& whole && share.lt(real_of(0)) ==> seen.readiness == real_of(0)
            &&& whole && real_of(ONE_BITS).lt(share) ==> seen.readiness == real_of(ONE_BITS)
            &&& memory matches Some(table) ==> (table.contains_key(id) ==> seen.supply_collapsed_tick
                == table[id].supply_collapsed_tick)
            &&& memory is None ==> seen.supply_collapsed_tick is None
            &&& resolved matches Some(table) ==> (table.contains_key(id) ==> seen.encircled_ticks
                == table[id].encircled_ticks)
            &&& resolved is None ==> seen.encircled_ticks == 0
        },
{
}

/// Execution sees a formation where it stands, whether it sails, deploys or fights, and whether a
/// task force or a garrison already has it.
pub proof fn execution_sees_formations_as_they_are(
    units: Seq<SimulationUnit>,
    policies: Policies,
    tick: u64,
    resolved: Option<Map<u64, BattlefieldUnitResult>>,
    assignments: Seq<FrontAssignmentRecord>,
    forces: Option<Seq<ForceModel>>,
    at: int,
)
    ensures
        execution_input(units, policies, tick, resolved, assignments, forces, at) matches Some(
            Ok(seen),
        ) ==> {
            let unit = units[at];
            let id = unit.combat.id;
            let busy = exists|i: int|
                0 <= i < assignments.len() && (#[trigger] assignments[i]).unit_id == id && (
                assignments[i].reason is Contact || assignments[i].reason is Retreat);
            &&& seen.unit_id == id && seen.side == unit.combat.side && seen.country
                == unit.combat.sovereign
            &&& seen.position.lat == unit.combat.lat && seen.position.lng == unit.combat.lng
            &&& seen.transport == unit.combat.transport
            &&& resolved is None ==> seen.at_sea == unit.combat.at_sea
            &&& resolved matches Some(table) ==> (table.contains_key(id) ==> seen.at_sea
                == table[id].cell.at_sea)
            &&& seen.deploying <==> !is_in_use(policies[id], tick)
            &&& seen.engaged <==> busy
            &&& policies[id].ai.garrison_excluded ==> seen.operationally_assigned
            &&& !policies[id].ai.garrison_excluded && forces is None ==> !seen.operationally_assigned
        },
{
}

/// A threat comes from an invasion under way or landing, against the side that it is aimed at or
/// else that holds the place, where the two are at war. On the way all its members count that are
/// still there; at the beach everybody of its side within two degrees.
pub proof fn invasions_threaten_their_target(
    results: Map<Operation, u64>,
    scope: ThreatScope,
    operation: NavalOperation,
)
    ensures
        ({
            let threat = naval_threat(results, scope, operation);
            let defender = match operation.enemy_side {
                Some(side) => Some(side),
                None => holder_of(results, scope.territory, operation.target),
            };
            let comes = operation.kind is Invasion && (operation.phase is Transit || operation.phase
                is Landing);
            &&& threat is Some ==> comes && defender is Some && defender->0 != operation.side
                && scope.hostility[operation.side * scope.side_count + defender->0] == 1
            &&& comes && defender is Some && defender->0 != operation.side && operation.side
                < scope.side_count && defender->0 < scope.side_count
                && scope.hostility[operation.side * scope.side_count + defender->0] == 1
                ==> threat is Some
            &&& threat matches Some(seen) ==> {
                &&& seen.signature == operation.signature@
                &&& Some(seen.defender_side) == defender
                &&& seen.enemy_side == operation.side
                &&& seen.target == operation.target
                &&& seen.kind is NavalInvasion && seen.active
                &&& operation.phase is Transit ==> seen.phase is Transit && seen.enemy_force
                    == operation.member_unit_ids@.filter(
                    |id: u64|
                        exists|i: int|
                            0 <= i < scope.units.len() && (#[trigger] scope.units[i]).unit_id == id,
                ).len()
                &&& operation.phase is Landing ==> seen.phase is Landing && seen.enemy_force
                    == near_count(
                    results,
                    scope.units,
                    operation.side,
                    operation.target,
                    real_of(N_4),
                )
            }
        }),
{
    lemma_present(
        operation.member_unit_ids@,
        scope.units,
        operation.member_unit_ids@.len(),
    );
    assert(operation.member_unit_ids@.take(operation.member_unit_ids@.len() as int)
        =~= operation.member_unit_ids@);
    lemma_near(
        results,
        scope.units,
        operation.side,
        operation.target,
        real_of(N_4),
        scope.units.len(),
    );
    assert(scope.units.take(scope.units.len() as int) =~= scope.units);
}

/// How many formations of a side stand closer to a place than a squared way.
pub open spec fn near_count(
    results: Map<Operation, u64>,
    units: Seq<ExecutionUnitInput>,
    side: usize,
    target: OperationalPoint,
    limit: Real,
) -> nat {
    units.filter(
        |unit: ExecutionUnitInput|
            {
                let north = difference(results, target.lat, unit.position.lat);
                let east = longitude_delta(results, unit.position.lng, target.lng);
                unit.side == side && sum(
                    results,
                    product(results, north, north),
                    product(results, east, east),
                ).lt(limit)
            },
    ).len()
}

proof fn lemma_near(
    results: Map<Operation, u64>,
    units: Seq<ExecutionUnitInput>,
    side: usize,
    target: OperationalPoint,
    limit: Real,
    count: nat,
)
    requires
        count <= units.len(),
    ensures
        units_near(results, units, side, target, limit, count) == near_count(
            results,
            units.take(count as int),
            side,
            target,
            limit,
        ),
    decreases count,
{
    reveal(Seq::filter);
    if count > 0 {
        lemma_near(results, units, side, target, limit, (count - 1) as nat);
        assert(units.take(count as int).drop_last() =~= units.take(count - 1));
    }
}

proof fn lemma_present(members: Seq<u64>, units: Seq<ExecutionUnitInput>, count: nat)
    requires
        count <= members.len(),
    ensures
        members_present(members, units, count) == members.take(count as int).filter(
            |id: u64| exists|i: int| 0 <= i < units.len() && (#[trigger] units[i]).unit_id == id,
        ).len(),
    decreases count,
{
    reveal(Seq::filter);
    if count > 0 {
        lemma_present(members, units, (count - 1) as nat);
        assert(members.take(count as int).drop_last() =~= members.take(count - 1));
    }
}

/// A threat on land comes from a task force that attacks a place held by a side with which it is
/// at war; everybody of its side within three degrees counts.
pub proof fn attacks_threaten_their_target(
    results: Map<Operation, u64>,
    scope: ThreatScope,
    force: ForceModel,
)
    ensures
        ({
            let threat = land_threat(results, scope, force);
            let defender = holder_of(results, scope.territory, force.target->0);
            let comes = force.phase is Attacking && force.target is Some;
            &&& threat is Some ==> comes && defender is Some && defender->0 != force.side_index
                && scope.hostility[force.side_index * scope.side_count + defender->0] == 1
            &&& comes && defender is Some && defender->0 != force.side_index && force.side_index
                < scope.side_count && defender->0 < scope.side_count
                && scope.hostility[force.side_index * scope.side_count + defender->0] == 1
                ==> threat is Some
            &&& threat matches Some(seen) ==> {
                &&& seen.signature == force.plan_signature
                &&& Some(seen.defender_side) == defender && seen.enemy_side == force.side_index
                &&& Some(seen.target) == force.target
                &&& seen.kind is LandOffensive && seen.phase is Execution && seen.active
                &&& seen.enemy_force == near_count(
                    results,
                    scope.units,
                    force.side_index,
                    seen.target,
                    real_of(N_9),
                )
            }
        }),
{
    if force.target is Some {
        lemma_near(
            results,
            scope.units,
            force.side_index,
            force.target->0,
            real_of(N_9),
            scope.units.len(),
        );
        assert(scope.units.take(scope.units.len() as int) =~= scope.units);
    }
}

/// Steering replaces the direction of an order, whether it moves and whom it prefers, and
/// multiplies its pace; a formation that fights or flees, or that nobody steers, keeps its order.
pub proof fn steering_turns_orders(
    results: Map<Operation, u64>,
    orders: Seq<ResolvedUnitOrder>,
    table: Map<u64, SteeringEntry>,
    assignments: Seq<FrontAssignmentRecord>,
    reason: &'static str,
    at: int,
)
    ensures
        ({
            let order = orders[at];
            let entry = table[order.unit_id];
            let busy = exists|i: int|
                0 <= i < assignments.len() && (#[trigger] assignments[i]).unit_id == order.unit_id
                    && (assignments[i].reason is Contact || assignments[i].reason is Retreat);
            steered_order(results, orders, table, assignments, reason, at) matches Some(
                Ok(after),
            ) ==> {
                &&& !table.contains_key(order.unit_id) || busy ==> after == order
                &&& table.contains_key(order.unit_id) && !busy ==> {
                    &&& after.preferred_target_id is None
                    &&& after.movement_enabled == entry.movement_enabled
                    &&& after.dir_lat == entry.dir_lat && after.dir_lng == entry.dir_lng
                    &&& after.factors.plan_speed_mult == product(
                        results,
                        order.factors.plan_speed_mult,
                        entry.speed_multiplier,
                    )
                    &&& after.factors.base_speed == order.factors.base_speed
                    &&& after.unit_id == order.unit_id && after.combat == order.combat
                }
            }
        }),
{
}

/// The last steering and the last transport update of a formation count.
pub proof fn the_last_word_counts(
    entries: Seq<SteeringEntry>,
    updates: Seq<TransportUpdate>,
    count: nat,
)
    requires
        0 < count,
    ensures
        count <= entries.len() ==> steering_table(entries, count).contains_key(
            entries[count - 1].unit_id,
        ) && steering_table(entries, count)[entries[count - 1].unit_id] == entries[count - 1],
        count <= updates.len() ==> transport_table(updates, count).contains_key(
            updates[count - 1].unit_id,
        ) && transport_table(updates, count)[updates[count - 1].unit_id]
            == updates[count - 1].transport,
{
}

/// Embarking changes nothing but whether a formation is transported, and only where an update says
/// so.
pub proof fn formations_embark_as_told(
    units: Seq<SimulationUnit>,
    table: Map<u64, bool>,
    i: int,
)
    requires
        0 <= i < units.len(),
    ensures
        ({
            let after = embarked(units, table)[i];
            &&& embarked(units, table).len() == units.len()
            &&& table.contains_key(units[i].combat.id) ==> after.combat.transport
                == table[units[i].combat.id]
            &&& !table.contains_key(units[i].combat.id) ==> after == units[i]
            &&& after == (SimulationUnit {
                combat: CombatUnit { transport: after.combat.transport, ..units[i].combat },
                ..units[i]
            })
        }),
{
}

// ---------------------------------------------------------------------------------------------
// Influence
// ---------------------------------------------------------------------------------------------

/// Without a seed a formation's influence is what its policy says. With one it grows over six
/// hundred ticks from a twentieth to all of it, and both its reach and its strength waver.
pub proof fn influence_grows_and_wavers(
    results: Map<Operation, u64>,
    influence: InfluenceModel,
    tick: u64,
)
    ensures
        ({
            let (radius, delta) = timed_influence(results, influence, tick);
            let time = integer(results, tick);
            let grown = sum(
                results,
                real_of(N_0_05),
                product(results, quotient(results, time, real_of(N_600)), real_of(N_0_95)),
            );
            let wave = |scale: Real, pace: Real|
                number_at(
                    results,
                    Operation::Sine(
                        sum(
                            results,
                            product(results, influence.browser_temporal_seed->0, scale),
                            product(results, time, pace),
                        ),
                    ),
                );
            &&& influence.browser_temporal_seed is None ==> radius == influence.radius && delta
                == influence.delta
            &&& influence.browser_temporal_seed is Some ==> {
                &&& radius == product(
                    results,
                    influence.radius,
                    sum(
                        results,
                        real_of(N_0_9),
                        product(results, wave(real_of(N_500), real_of(N_0_1)), real_of(N_0_2)),
                    ),
                )
                &&& ({
                    let noise = sum(
                        results,
                        real_of(N_0_8),
                        product(results, wave(real_of(N_1000), real_of(N_0_05)), real_of(N_0_4)),
                    );
                    &&& grown.lt(real_of(ONE_BITS)) ==> delta == product(
                        results,
                        product(results, influence.delta, grown),
                        noise,
                    )
                    &&& real_of(ONE_BITS).lt(grown) ==> delta == product(
                        results,
                        product(results, influence.delta, real_of(ONE_BITS)),
                        noise,
                    )
                })
            }
        }),
{
}

/// A formation spreads influence where it lives, is in use, may and has some: from where it
/// stands, for its side, its country and whoever benefits.
pub proof fn the_living_spread_influence(
    results: Map<Operation, u64>,
    units: Seq<UnitSnapshot>,
    policies: Policies,
    tick: u64,
    eligible: Option<Set<u64>>,
    at: int,
)
    requires
        policies.contains_key(units[at].id),
    ensures
        ({
            let unit = units[at];
            let policy = policies[unit.id];
            let told = influence_source(results, units, policies, tick, eligible, at);
            let spreads = real_of(0).lt(unit.health) && is_in_use(policy, tick) && (eligible is None
                || eligible->0.contains(unit.id)) && policy.influence is Some;
            &&& told is Some <==> spreads
            &&& told matches Some(Ok(source)) ==> {
                let influence = policy.influence->0;
                &&& source.id == unit.id && source.side == unit.side && source.sovereign
                    == unit.sovereign
                &&& source.lat == unit.lat && source.lng == unit.lng
                &&& influence.beneficiary matches Some(country) ==> source.beneficiary == country
                &&& influence.beneficiary is None ==> source.beneficiary == unit.sovereign
                &&& source.concentration_bonus == influence.concentration_bonus
                &&& source.refuses_offense == influence.refuses_offense
                &&& source.owner_ally_country_ids == influence.owner_ally_country_ids
                &&& source.protected_owner_ids == influence.protected_owner_ids
                &&& influence.browser_temporal_seed is None ==> source.radius == influence.radius
                    && source.delta == influence.delta
            }
        }),
{
}

/// How many formations may spread influence in a tick, and how many cells: with two sides three
/// hundred and sixteen hundred; with more, an even part of twice that, but never fewer than fifty
/// and four hundred.
pub proof fn influence_has_a_budget(sides: usize)
    ensures
        ({
            let (formations, cells) = influence_budgets(sides);
            &&& sides <= 2 ==> formations == 300 && cells == 1_600
            &&& sides > 2 ==> formations >= 50 && cells >= 400
            &&& sides > 2 && sides <= 8 ==> formations == 600int / (sides as int) && cells == 3_200int
                / (sides as int)
            &&& sides >= 12 ==> formations == 50
            &&& sides >= 8 ==> cells == 400
        }),
{
    if sides > 2 {
        let n = sides as int;
        if n <= 8 {
            assert(600int / n >= 75) by (nonlinear_arith)
                requires
                    2 < n <= 8,
            ;
            assert(3_200int / n >= 400) by (nonlinear_arith)
                requires
                    2 < n <= 8,
            ;
        }
        if n >= 12 {
            assert(600int / n <= 50) by (nonlinear_arith)
                requires
                    n >= 12,
            ;
        }
        if n >= 8 {
            assert(3_200int / n <= 400) by (nonlinear_arith)
                requires
                    n >= 8,
            ;
        }
    }
}

/// A formation takes its turn every third tick, by its seed, once deployed and not within five
/// frames of a fight.
pub proof fn formations_take_turns(
    results: Map<Operation, u64>,
    scope: TurnScope,
    unit: SimulationUnit,
    seed: Real,
)
    requires
        scope.policies[unit.combat.id].influence matches Some(influence)
            && influence.browser_temporal_seed == Some(seed),
    ensures
        ({
            let scaled = number_at(
                results,
                Operation::Floor(product(results, seed.absolute(), real_of(N_2147483647))),
            );
            let group = if scaled.finite() {
                (results[Operation::Wrapped(scaled)] % 0x1_0000_0000) as int % 3
            } else {
                0
            };
            in_turn(results, scope, unit) <==> group == scope.tick as int % 3 && is_in_use(
                scope.policies[unit.combat.id],
                scope.tick,
            ) && scope.frame > unit.combat.last_combat_tick + 5
        }),
{
}

/// In its turn a formation spreads the influence of three ticks from where it stands.
pub proof fn a_turn_makes_up_for_three_ticks(
    results: Map<Operation, u64>,
    scope: TurnScope,
    unit: SimulationUnit,
)
    ensures
        stamp_of(results, scope, unit) matches Ok(source) ==> {
            let influence = scope.policies[unit.combat.id].influence->Some_0;
            let timed = timed_influence(results, influence, scope.tick);
            &&& source.id == unit.combat.id
            &&& source.side == unit.combat.side && source.sovereign == unit.combat.sovereign
            &&& source.lat == unit.combat.lat && source.lng == unit.combat.lng
            &&& source.radius == timed.0
            &&& source.delta == product(results, timed.1, real_of(N_3))
        },
{
}

// ---------------------------------------------------------------------------------------------
// The world
// ---------------------------------------------------------------------------------------------

/// A place is held by the side that dominates it; where none does, by that of the country that
/// occupies it, or else controls it.
pub proof fn places_are_held_by_who_dominates(
    results: Map<Operation, u64>,
    territory: TerritoryControl,
    point: OperationalPoint,
    cell: int,
)
    requires
        cell_at(results, territory.grid, point.lat, point.lng) == Some(cell),
    ensures
        ({
            let holder = holder_of(results, territory, point);
            let dominant = territory.dominant_side@[cell];
            let occupier = territory.primary_occupier@[cell];
            let owner = territory.world_control@[cell];
            let sides = territory.country_to_side@;
            &&& dominant >= 0 ==> holder == Some(dominant as usize)
            &&& dominant < 0 && occupier != 0 && sides.contains_key(occupier) ==> holder == Some(
                sides[occupier],
            )
            &&& dominant < 0 && occupier == 0 && sides.contains_key(owner) ==> holder == Some(
                sides[owner],
            )
            &&& dominant < 0 && occupier != 0 && !sides.contains_key(occupier) ==> holder is None
        }),
{
}

/// An airfield falls to another side that dominates its place: to the occupier of the place where
/// that is a country of the side, otherwise to the side's first country.
pub proof fn airfields_fall_to_who_dominates(
    results: Map<Operation, u64>,
    territory: TerritoryControl,
    lat: Real,
    lng: Real,
    side: usize,
    controller: u16,
    cell: int,
)
    requires
        cell_at(results, territory.grid, lat, lng) == Some(cell),
    ensures
        ({
            let captor = captor_of(results, territory, lat, lng, side, controller);
            let dominant = territory.dominant_side@[cell];
            let occupier = territory.primary_occupier@[cell];
            let sides = territory.country_to_side@;
            &&& captor is Some <==> 0 <= dominant < territory.max_sides && dominant != side
            &&& captor matches Some(taker) ==> {
                &&& taker.side == dominant
                &&& sides.contains_key(occupier) && sides[occupier] == dominant
                    ==> taker.controller_country_id == occupier
            }
        }),
{
}

/// The land against a side is what all sides control to which it is hostile.
pub proof fn enemies_hold_the_land_against_a_side(
    results: Map<Operation, u64>,
    countries: Seq<CountryAggregate>,
    country_to_side: Map<u16, usize>,
    hostility: Seq<u8>,
    side_count: usize,
    side: int,
    count: nat,
)
    requires
        0 < count <= side_count,
    ensures
        ({
            let before = enemy_land(
                results,
                countries,
                country_to_side,
                hostility,
                side_count,
                side,
                (count - 1) as nat,
            );
            let after = enemy_land(
                results,
                countries,
                country_to_side,
                hostility,
                side_count,
                side,
                count,
            );
            let enemy = hostility[side * side_count + (count - 1)] == 1;
            &&& enemy ==> after == sum(
                results,
                before,
                controlled_land(
                    results,
                    countries,
                    country_to_side,
                    (count - 1) as usize,
                    countries.len(),
                ),
            )
            &&& !enemy ==> after == before
        }),
{
}

/// A side's land is that of its countries, added up.
pub proof fn land_adds_up_by_side(
    results: Map<Operation, u64>,
    countries: Seq<CountryAggregate>,
    country_to_side: Map<u16, usize>,
    side: usize,
    count: nat,
)
    requires
        0 < count <= countries.len(),
    ensures
        ({
            let country = countries[count - 1];
            let before = controlled_land(
                results,
                countries,
                country_to_side,
                side,
                (count - 1) as nat,
            );
            let after = controlled_land(results, countries, country_to_side, side, count);
            let mine = country_to_side.contains_key(country.country_id)
                && country_to_side[country.country_id] == side;
            &&& mine ==> after == sum(results, before, integer(results, country.controlled))
            &&& !mine ==> after == before
            &&& controlled_land(results, countries, country_to_side, side, 0) == real_of(0)
        }),
{
}

/// Diplomacy is accepted exactly where it agrees with the territory, says yes or no of every pair
/// and no of a side with itself, and names active sides once each and only declared ones.
pub proof fn diplomacy_agrees_with_the_territory(
    diplomacy: RuntimeDiplomacy,
    territory: TerritoryControl,
    i: int,
    j: int,
)
    requires
        diplomacy_fault(diplomacy, territory) is None,
    ensures
        diplomacy.hostility@ == territory.hostility@,
        diplomacy.hostility@.len() == territory.max_sides * territory.max_sides,
        0 <= i < territory.max_sides && 0 <= j < territory.max_sides ==> {
            let relation = diplomacy.hostility@[i * territory.max_sides + j];
            relation <= 1 && (i == j ==> relation == 0)
        },
        0 <= i < diplomacy.active_sides@.len() ==> diplomacy.active_sides@[i] < territory.max_sides,
        0 <= i < j < diplomacy.active_sides@.len() ==> diplomacy.active_sides@[i]
            != diplomacy.active_sides@[j],
{
}

// ---------------------------------------------------------------------------------------------
// The air
// ---------------------------------------------------------------------------------------------

/// A formation is a target as it stands: on foot it counts as one, armor by its vehicles.
pub proof fn formations_are_targets_as_they_stand(
    results: Map<Operation, u64>,
    unit: SimulationUnit,
)
    ensures
        air_target(results, unit) matches Ok(target) ==> {
            &&& target.id == unit.combat.id && target.side == unit.combat.side && target.country_id
                == unit.combat.sovereign
            &&& target.lat == unit.combat.lat && target.lng == unit.combat.lng
            &&& unit.combat.kind is Army ==> target.kind is Army && target.strength == real_of(
                ONE_BITS,
            )
            &&& unit.combat.kind is Armor ==> target.kind is Armor && target.strength == integer(
                results,
                unit.combat.equipment,
            )
            &&& !target.priority_area
        },
{
}

/// Task forces that assemble, attack or consolidate want support at their target, or where they
/// assemble if they have none; others want none.
pub proof fn forces_want_support_where_they_fight(force: ForceModel, radius_km: Real)
    ensures
        ({
            let area = priority_area(force, radius_km);
            let wants = force.phase is Assembling || force.phase is Attacking || force.phase
                is Consolidating;
            &&& !wants ==> area is None
            &&& wants && force.target is None && force.staging_anchor is None ==> area is None
            &&& wants ==> (force.target matches Some(place) ==> (area matches Some(found)
                && found.lat == place.lat && found.lng == place.lng))
            &&& wants && force.target is None ==> (force.staging_anchor matches Some(place) ==> (
            area matches Some(found) && found.lat == place.lat && found.lng == place.lng))
            &&& area matches Some(found) ==> found.side == force.side_index && found.radius_km
                == radius_km
        }),
{
}

/// Wings fly for their country as far as its operations are paid for; those of one that gave up do
/// not.
pub proof fn wings_fly_as_far_as_they_are_paid(
    economies: Map<u16, EconomyState>,
    air_power: AirPowerState,
    count: nat,
)
    requires
        0 < count <= air_power.country_coverage@.len(),
    ensures
        ({
            let entry = air_power.country_coverage@[count - 1];
            let paid = paid_coverage(economies, air_power, count);
            let beaten = economies.contains_key(entry.country_id)
                && economies[entry.country_id].capitulated;
            &&& paid.contains_key(entry.country_id)
            &&& beaten ==> paid[entry.country_id] == real_of(0)
            &&& !beaten ==> paid[entry.country_id] == entry.operations_coverage
        }),
{
}

/// Damage from the air adds up by formation, and becomes a command where it is a number above
/// nothing.
pub proof fn strikes_add_up_by_formation(
    results: Map<Operation, u64>,
    damage: Seq<LandDamage>,
    totals: Map<u64, Real>,
    keys: Seq<u64>,
    count: nat,
)
    requires
        0 < count,
    ensures
        count <= damage.len() ==> ({
            let hit = damage[count - 1];
            let before = damage_by_unit(results, damage, (count - 1) as nat);
            let after = damage_by_unit(results, damage, count);
            &&& after.contains_key(hit.unit_id)
            &&& after[hit.unit_id] == sum(
                results,
                if before.contains_key(hit.unit_id) { before[hit.unit_id] } else { real_of(0) },
                hit.damage,
            )
            &&& forall|other: u64|
                other != hit.unit_id && #[trigger] after.contains_key(other) ==> after[other]
                    == before[other]
        }),
        count <= keys.len() ==> ({
            let id = keys[count - 1];
            let before = damage_orders(totals, keys, (count - 1) as nat);
            let after = damage_orders(totals, keys, count);
            let hurts = totals[id].finite() && real_of(0).lt(totals[id]);
            &&& hurts ==> after == before.push(DamageCommand { unit_id: id, damage: totals[id] })
            &&& !hurts ==> after == before
        }),
{
}

// ---------------------------------------------------------------------------------------------
// Logistics
// ---------------------------------------------------------------------------------------------

/// The armor of a country is what its armored formations have or can have, whichever is more, and
/// its quality is weighted by that.
pub proof fn armor_is_mustered_by_country(
    results: Map<Operation, u64>,
    units: Seq<SimulationUnit>,
    count: nat,
)
    requires
        0 < count <= units.len(),
    ensures
        armor_tallies(results, units, count) matches Ok(after) ==> (armor_tallies(
            results,
            units,
            (count - 1) as nat,
        ) matches Ok(before) && ({
            let unit = units[count - 1].combat;
            let country = unit.sovereign as u16;
            let room = if unit.max_equipment >= unit.equipment {
                unit.max_equipment
            } else {
                unit.equipment
            };
            &&& unit.kind is Army ==> after == before
            &&& unit.kind is Armor ==> {
                &&& unit.sovereign <= u16::MAX
                &&& tally_of(after, country).vehicles == tally_of(before, country).vehicles + room
                &&& tally_of(after, country).weighted_quality == sum(
                    results,
                    tally_of(before, country).weighted_quality,
                    product(results, unit.quality, integer(results, room)),
                )
            }
        })),
{
}

/// A country maintains as many vehicles as it has or as its size and wealth let it expect,
/// whichever is more; their quality is what they have on average, or fifty without any, between
/// nothing and a hundred.
pub proof fn countries_maintain_armor(
    results: Map<Operation, u64>,
    country: ProductionCountry,
    economy: EconomyState,
    tally: ArmorMuster,
)
    ensures
        ({
            let (room, quality) = armor_profile(results, country, economy, tally);
            let wealth = product(
                results,
                country.expected_army_units.max_of(real_of(0)),
                economy.economic_strength.max_of(real_of(0)),
            );
            let expected = results[Operation::Whole(
                number_at(
                    results,
                    Operation::Round(
                        product(
                            results,
                            number_at(results, Operation::Root(wealth)),
                            real_of(N_8),
                        ),
                    ),
                ).clamp_of(real_of(0), real_of(N_50000)),
            )];
            let average = quotient(
                results,
                tally.weighted_quality,
                integer(results, tally.vehicles),
            );
            &&& room >= expected && room >= tally.vehicles
            &&& room == expected || room == tally.vehicles
            &&& tally.vehicles == 0 ==> quality == real_of(N_50)
            &&& tally.vehicles > 0 && real_of(0).le(average) && average.le(real_of(N_100))
                ==> quality == average
            &&& tally.vehicles > 0 && average.lt(real_of(0)) ==> quality == real_of(0)
            &&& tally.vehicles > 0 && real_of(N_100).lt(average) ==> quality == real_of(N_100)
        }),
{
}

/// A country is at home in its first capital that it still holds; failing that, with its first
/// formation ashore; failing that, in its first cell.
pub proof fn countries_are_at_home_in_their_capital(
    results: Map<Operation, u64>,
    units: Seq<SimulationUnit>,
    cities: Seq<ProductionCity>,
    territory: TerritoryControl,
    country_id: u16,
    side: usize,
)
    ensures
        ({
            let home = home_of(results, units, cities, territory, country_id, side);
            let capital = first_capital(territory, cities, country_id, side, 0);
            let ashore = first_ashore(units, country_id, 0);
            let cell = first_held_cell(territory, country_id, side, 0);
            &&& capital matches Some(city) ==> home == Some((city.lat, city.lng))
            &&& capital is None ==> (ashore matches Some(unit) ==> home == Some(
                (unit.combat.lat, unit.combat.lng),
            ))
            &&& capital is None && ashore is None && cell is None ==> home is None
            &&& capital is None && ashore is None && cell is Some ==> home is Some
        }),
{
}

/// A capital is home only while its country owns and controls it and its side dominates it; a
/// formation only while it is its country's and not at sea; a cell only while both hold it.
pub proof fn homes_are_held(
    units: Seq<SimulationUnit>,
    cities: Seq<ProductionCity>,
    territory: TerritoryControl,
    country_id: u16,
    side: usize,
    from: int,
)
    requires
        0 <= from,
    ensures
        first_capital(territory, cities, country_id, side, from) matches Some(city) ==> {
            &&& city.capital && city.owner_id == country_id
            &&& city.cell < territory.land@.len()
            &&& territory.world_control@[city.cell as int] == country_id
            &&& territory.dominant_side@[city.cell as int] == side
        },
    decreases cities.len() - from,
{
    if from < cities.len() {
        homes_are_held(units, cities, territory, country_id, side, from + 1);
    }
}

/// The formation with which a country is at home is its own and ashore.
pub proof fn homes_with_formations_are_ashore(
    units: Seq<SimulationUnit>,
    country_id: u16,
    from: int,
)
    requires
        0 <= from,
    ensures
        first_ashore(units, country_id, from) matches Some(unit) ==> unit.combat.sovereign
            == country_id && !unit.combat.at_sea,
        first_ashore(units, country_id, from) is None ==> forall|i: int|
            from <= i < units.len() ==> (#[trigger] units[i]).combat.sovereign != country_id
                || units[i].combat.at_sea,
    decreases units.len() - from,
{
    if from < units.len() {
        homes_with_formations_are_ashore(units, country_id, from + 1);
    }
}

/// The cell in which a country is at home is its own and its side's.
pub proof fn homes_in_cells_are_held(
    territory: TerritoryControl,
    country_id: u16,
    side: usize,
    from: int,
)
    requires
        0 <= from,
        territory.land@.len() <= usize::MAX,
    ensures
        first_held_cell(territory, country_id, side, from) matches Some(cell) ==> {
            &&& from <= cell < territory.land@.len()
            &&& territory.world_control@[cell as int] == country_id
            &&& territory.dominant_side@[cell as int] == side
            &&& forall|i: int|
                from <= i < cell ==> territory.world_control@[i] != country_id || (
                #[trigger] territory.dominant_side@[i]) != side
        },
    decreases territory.land@.len() - from,
{
    if from < territory.land@.len() {
        homes_in_cells_are_held(territory, country_id, side, from + 1);
    }
}

/// New armor deploys for thirty ticks, shares influence with the countries of its side, obeys as
/// the first formation of its country does or is about to, and as one that is paid where there is
/// none.
pub proof fn new_armor_is_told_what_it_needs(scope: MobilizationScope, unit: SimulationUnit)
    requires
        scope.tick + 30 <= u64::MAX,
    ensures
        ({
            let policy = armor_policy(scope, unit);
            let first = crate::runtime::mobilization::first_of_country(
                scope.previous,
                unit.combat.sovereign,
                0,
            );
            &&& policy.unit_id == unit.combat.id
            &&& policy.ai.deploy_until_tick == scope.tick + 30
            &&& policy.influence matches Some(influence) && {
                &&& influence.browser_temporal_seed == Some(integer(scope.results, unit.combat.id))
                &&& forall|country: u16| #[trigger]
                    influence.owner_ally_country_ids.contains(country)
                        == (scope.country_to_side.contains_key(country)
                        && scope.country_to_side[country] == unit.combat.side as usize)
            }
            &&& first matches Some(source) ==> {
                let staged = scope.commands is Some && scope.commands->0.resolved.contains_key(
                    source,
                );
                &&& scope.policies.contains_key(source) && !staged ==> policy.command
                    == scope.policies[source].command
                &&& scope.policies.contains_key(source) && staged ==> policy.command.band
                    == scope.commands->0.resolved[source].band && policy.command.home_target
                    == scope.commands->0.resolved[source].home_target
                    && policy.command.transition_cycle == scope.commands->0.cycle
            }
            &&& first is None ==> policy.command.discipline == scope.disciplines[unit.combat.id]
        }),
{
}

/// What maintenance cost a country is what its treasury lost, where it lost anything.
pub proof fn maintenance_is_what_treasuries_lost(
    results: Map<Operation, u64>,
    before: Map<u16, Real>,
    after: Map<u16, EconomyState>,
    keys: Seq<u16>,
    count: nat,
)
    requires
        0 < count <= keys.len(),
    ensures
        ({
            let country = keys[count - 1];
            let lost = difference(results, before[country], after[country].treasury);
            let rest = maintenance_of(results, before, after, keys, (count - 1) as nat);
            let all = maintenance_of(results, before, after, keys, count);
            &&& real_of(0).lt(lost) ==> all == rest.push((country, lost))
            &&& !real_of(0).lt(lost) ==> all == rest
        }),
{
}

// ---------------------------------------------------------------------------------------------
// Frames
// ---------------------------------------------------------------------------------------------

/// A frame adds to a formation what the battlefield knows of it: its support, its kind of troops,
/// how long it has been encircled and how mountainous its place is; everything else is shown as it
/// is.
pub proof fn frames_add_what_the_battlefield_knows(
    results: Map<Operation, u64>,
    battlefield: BattlefieldRuntimeState,
    territory: TerritoryControl,
    staged: Option<&StagedBattlefieldTick>,
    units: Seq<UnitSnapshot>,
    at: int,
)
    ensures
        shown_unit(results, battlefield, territory, staged, units, at) matches Some(Ok(shown))
            ==> {
            let unit = units[at];
            let fresh = staged is Some && staged->0.next_unit_state@.contains_key(unit.id);
            let found = staged is Some && staged->0.resolved_by_id@.contains_key(unit.id);
            let looked = staged is Some && staged->0.local_by_id@.contains_key(unit.id);
            let memory = if fresh {
                staged->0.next_unit_state@[unit.id]
            } else {
                battlefield.units@[unit.id]
            };
            &&& shown.is_alpenjager == memory.is_alpenjager
            &&& found ==> shown.encircled_ticks == staged->0.resolved_by_id@[unit.id].encircled_ticks
            &&& !found ==> shown.encircled_ticks == memory.encircled_ticks
            &&& looked ==> shown.armor_supported == staged->0.local_by_id@[unit.id].armor_supported
            &&& !looked ==> shown.armor_supported == unit.armor_supported
            &&& shown.mountain_intensity.unit_interval()
            &&& found ==> shown.mountain_intensity == number_at(
                results,
                Operation::Single(staged->0.resolved_by_id@[unit.id].cell.mountain_intensity),
            )
            &&& !found && !battlefield.mountains_enabled ==> shown.mountain_intensity == real_of(0)
            &&& !found && battlefield.mountains_enabled ==> (cell_at(
                results,
                territory.grid,
                unit.lat,
                unit.lng,
            ) matches Some(cell) ==> shown.mountain_intensity
                == battlefield.terrain_intensity@[cell])
            &&& shown == (UnitSnapshot {
                armor_supported: shown.armor_supported,
                is_alpenjager: shown.is_alpenjager,
                encircled_ticks: shown.encircled_ticks,
                mountain_intensity: shown.mountain_intensity,
                ..unit
            })
        },
{
}

} // verus!
