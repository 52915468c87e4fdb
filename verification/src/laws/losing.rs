//! What losses cost and to whom they are put down: in combat, from the air, by attrition,
//! desertion and exile; and what sides are told of their strength.

use vstd::prelude::*;
use crate::casualties::{
    account, aircrew_ledger, aircrew_toll, attrition_toll, combat_entry, combat_ledger, combat_toll,
    damage_shares, share_total, shared_loss, toll_of, DamageCommand, DamageResult, LandDamage,
    Ledger, Toll, WingLoss,
};
use crate::numbers::N_0_02;
use crate::runtime::battlefield::{BattlefieldLocalUnitResult, BattlefieldUnitResult, SideDynamics};
use crate::runtime::dynamics::{
    cells_of, collapsing_sides, deserters, desertions_by_side, directive_for, enemy_deployed,
    enemy_strength, losses_by_side, side_amount, side_deployed, side_strength, DynamicsDirective,
    DynamicsScope,
};
use crate::runtime::losses::{
    attrition_of, bent_order, direction_input, direction_of, prepared_unit, reason_of, unit_exiled,
    waiting_units, BattlefieldDirection, ExileModel, ExileScope,
};
use crate::runtime::planning::FrontAssignmentRecord;
use crate::runtime::policy::{Policies, PolicyModel};
use crate::scalar::{real_of, Real, ONE_BITS};
use crate::strategic::CountryAggregate;
use crate::units::{CombatEvent, CombatUnit, ResolvedUnitOrder, SimulationUnit};
use crate::worksheet::{difference, integer, number_at, product, quotient, sum, Operation};

verus! {

/// Whether a formation may be used: it never waited, or its deployment is over.
pub open spec fn is_in_use(policy: PolicyModel, tick: u64) -> bool {
    policy.ai.deploy_until_tick == 0 || policy.ai.deploy_until_tick < tick
}

// ---------------------------------------------------------------------------------------------
// Tolls and ledgers
// ---------------------------------------------------------------------------------------------

/// An exchange costs both countries their own men: the target's those of the target, the attacker's
/// those of the attacker. No third country pays.
pub proof fn both_sides_count_their_dead(
    results: Map<Operation, u64>,
    toll: Toll,
    owners: Map<u64, u16>,
    events: Seq<CombatEvent>,
    count: nat,
)
    requires
        0 < count <= events.len(),
        owners.contains_key(events[count - 1].target_id),
        owners.contains_key(events[count - 1].attacker_id),
        owners[events[count - 1].target_id] != owners[events[count - 1].attacker_id],
    ensures
        ({
            let event = events[count - 1];
            let attacker = owners[event.attacker_id];
            let target = owners[event.target_id];
            let before = combat_toll(results, toll, owners, events, (count - 1) as nat);
            let after = combat_toll(results, toll, owners, events, count);
            &&& toll_of(after, target) == sum(
                results,
                toll_of(before, target),
                integer(results, event.target_personnel_loss),
            )
            &&& toll_of(after, attacker) == sum(
                results,
                toll_of(before, attacker),
                integer(results, event.attacker_personnel_loss),
            )
            &&& forall|other: u16|
                other != attacker && other != target ==> #[trigger] toll_of(after, other)
                    == toll_of(before, other)
        }),
{
}

/// What a country lost in an exchange is put down to the country that it fought: the target's
/// losses to the attacker, and the attacker's to the target. Nothing is put down within one
/// country.
pub proof fn losses_are_put_down_to_the_enemy(
    results: Map<Operation, u64>,
    ledger: Ledger,
    attacker: u16,
    target: u16,
    event: CombatEvent,
)
    ensures
        ({
            let after = combat_entry(results, ledger, attacker, target, event);
            let owed = |ledger: Ledger, victim: u16, by: u16| toll_of(account(ledger, victim), by);
            &&& attacker == target ==> after == ledger
            &&& attacker != target ==> {
                &&& event.target_personnel_loss > 0 ==> owed(after, target, attacker) == sum(
                    results,
                    owed(ledger, target, attacker),
                    integer(results, event.target_personnel_loss),
                )
                &&& event.target_personnel_loss == 0 ==> owed(after, target, attacker) == owed(
                    ledger,
                    target,
                    attacker,
                )
                &&& event.attacker_personnel_loss > 0 ==> owed(after, attacker, target) == sum(
                    results,
                    owed(ledger, attacker, target),
                    integer(results, event.attacker_personnel_loss),
                )
                &&& event.attacker_personnel_loss == 0 ==> owed(after, attacker, target) == owed(
                    ledger,
                    attacker,
                    target,
                )
                &&& forall|victim: u16, by: u16|
                    #![trigger toll_of(account(after, victim), by)]
                    !(victim == target && by == attacker) && !(victim == attacker && by == target)
                        ==> toll_of(account(after, victim), by) == toll_of(
                        account(ledger, victim),
                        by,
                    )
            }
        }),
{
}

/// An event is put down only where both formations have an owner, and by whom the owners are.
pub proof fn events_concern_their_owners(
    results: Map<Operation, u64>,
    ledger: Ledger,
    owners: Map<u64, u16>,
    events: Seq<CombatEvent>,
    count: nat,
)
    requires
        0 < count <= events.len(),
    ensures
        ({
            let event = events[count - 1];
            let before = combat_ledger(results, ledger, owners, events, (count - 1) as nat);
            let after = combat_ledger(results, ledger, owners, events, count);
            let owned = owners.contains_key(event.attacker_id) && owners.contains_key(
                event.target_id,
            );
            &&& !owned ==> after == before
            &&& owned && owners[event.attacker_id] != owners[event.target_id]
                && event.target_personnel_loss > 0 && event.attacker_personnel_loss == 0 ==> after
                == before.insert(
                owners[event.target_id],
                account(before, owners[event.target_id]).insert(
                    owners[event.attacker_id],
                    sum(
                        results,
                        toll_of(
                            account(before, owners[event.target_id]),
                            owners[event.attacker_id],
                        ),
                        integer(results, event.target_personnel_loss),
                    ),
                ),
            )
        }),
{
}

/// Damage outside combat costs the country of the formation its men, and nobody else.
pub proof fn attrition_costs_its_country(
    results: Map<Operation, u64>,
    toll: Toll,
    owners: Map<u64, u16>,
    damage: Seq<DamageResult>,
    count: nat,
)
    requires
        0 < count <= damage.len(),
    ensures
        ({
            let hit = damage[count - 1];
            let before = attrition_toll(results, toll, owners, damage, (count - 1) as nat);
            let after = attrition_toll(results, toll, owners, damage, count);
            let counts = hit.personnel_loss > 0 && owners.contains_key(hit.unit_id);
            &&& !counts ==> after == before
            &&& counts ==> toll_of(after, owners[hit.unit_id]) == sum(
                results,
                toll_of(before, owners[hit.unit_id]),
                integer(results, hit.personnel_loss),
            )
            &&& forall|other: u16|
                (counts ==> other != owners[hit.unit_id]) ==> #[trigger] toll_of(after, other)
                    == toll_of(before, other)
        }),
{
}

/// A lost aircraft costs the country of its wing one man, put down to the country that shot it down
/// unless that is the country itself.
pub proof fn aircrews_are_lost_with_aircraft(
    results: Map<Operation, u64>,
    toll: Toll,
    ledger: Ledger,
    wing_owners: Map<u64, u16>,
    losses: Seq<WingLoss>,
    count: nat,
)
    requires
        0 < count <= losses.len(),
        wing_owners.contains_key(losses[count - 1].wing_id),
    ensures
        ({
            let loss = losses[count - 1];
            let owner = wing_owners[loss.wing_id];
            let men = product(results, integer(results, loss.aircraft as u64), integer(results, 1));
            let before = aircrew_toll(results, toll, wing_owners, losses, (count - 1) as nat);
            let after = aircrew_toll(results, toll, wing_owners, losses, count);
            let noted = aircrew_ledger(results, ledger, wing_owners, losses, (count - 1) as nat);
            let written = aircrew_ledger(results, ledger, wing_owners, losses, count);
            &&& toll_of(after, owner) == sum(results, toll_of(before, owner), men)
            &&& owner == loss.attacker ==> written == noted
            &&& owner != loss.attacker ==> toll_of(account(written, owner), loss.attacker) == sum(
                results,
                toll_of(account(noted, owner), loss.attacker),
                men,
            )
        }),
{
}

/// Damage from the air counts for an attacker with what it dealt to the formation, where that is
/// more than nothing.
pub proof fn strikes_count_for_who_dealt_them(
    results: Map<Operation, u64>,
    damage: Seq<LandDamage>,
    unit_id: u64,
    count: nat,
)
    requires
        0 < count <= damage.len(),
    ensures
        ({
            let hit = damage[count - 1];
            let before = damage_shares(results, damage, unit_id, (count - 1) as nat);
            let after = damage_shares(results, damage, unit_id, count);
            let counts = hit.unit_id == unit_id && hit.damage.finite() && real_of(0).lt(hit.damage);
            &&& !counts ==> after == before
            &&& counts ==> toll_of(after, hit.attacker) == sum(
                results,
                toll_of(before, hit.attacker),
                hit.damage,
            )
            &&& forall|other: u16|
                other != hit.attacker ==> #[trigger] toll_of(after, other) == toll_of(before, other)
        }),
{
}

/// Men lost to strikes are divided among those who dealt them, each by its share of all the
/// damage; what a country did to its own is put down to nobody.
pub proof fn strikes_share_the_losses(
    results: Map<Operation, u64>,
    ledger: Ledger,
    victim: u16,
    loss: u64,
    shares: Toll,
    total: Real,
    keys: Seq<u16>,
    count: nat,
)
    requires
        0 < count <= keys.len(),
    ensures
        ({
            let by = keys[count - 1];
            let before = shared_loss(
                results,
                ledger,
                victim,
                loss,
                shares,
                total,
                keys,
                (count - 1) as nat,
            );
            let after = shared_loss(results, ledger, victim, loss, shares, total, keys, count);
            &&& by == victim ==> after == before
            &&& by != victim ==> toll_of(account(after, victim), by) == sum(
                results,
                toll_of(account(before, victim), by),
                quotient(results, product(results, integer(results, loss), shares[by]), total),
            )
            &&& forall|other: u16|
                other != victim ==> #[trigger] account(after, other) == account(before, other)
            &&& share_total(results, shares, keys, count) == sum(
                results,
                share_total(results, shares, keys, (count - 1) as nat),
                shares[by],
            )
        }),
{
}

// ---------------------------------------------------------------------------------------------
// Sides
// ---------------------------------------------------------------------------------------------

/// The land of a side is what all its countries control, and nothing else.
pub proof fn sides_hold_what_their_countries_hold(
    countries: Seq<CountryAggregate>,
    country_to_side: Map<u16, usize>,
    side: usize,
    count: nat,
)
    requires
        0 < count <= countries.len(),
    ensures
        ({
            let country = countries[count - 1];
            let mine = country_to_side.contains_key(country.country_id)
                && country_to_side[country.country_id] == side;
            &&& cells_of(countries, country_to_side, side, 0) == 0
            &&& cells_of(countries, country_to_side, side, count) - cells_of(
                countries,
                country_to_side,
                side,
                (count - 1) as nat,
            ) == (if mine { country.controlled as int } else { 0 })
        }),
{
}

/// A side is as strong as its formations that are past their deployment, each with what it is
/// worth but not below nothing; its enemies are as strong as all sides to which it is hostile.
pub proof fn sides_are_as_strong_as_their_formations(
    results: Map<Operation, u64>,
    units: Seq<SimulationUnit>,
    strengths: Seq<Real>,
    policies: Policies,
    tick: u64,
    side: int,
    count: nat,
)
    requires
        0 < count <= units.len(),
        strengths.len() == units.len(),
    ensures
        ({
            let unit = units[count - 1];
            let policy = policies[unit.combat.id];
            let fights = unit.combat.side == side && is_in_use(policy, tick);
            let before = side_strength(
                results,
                units,
                strengths,
                policies,
                tick,
                side,
                (count - 1) as nat,
            );
            let after = side_strength(results, units, strengths, policies, tick, side, count);
            &&& !fights ==> after == before
            &&& fights && real_of(0).le(strengths[count - 1]) ==> after == sum(
                results,
                before,
                strengths[count - 1],
            )
            &&& fights && strengths[count - 1].lt(real_of(0)) ==> after == sum(
                results,
                before,
                real_of(0),
            )
            &&& side_deployed(units, policies, tick, side, count) <==> side_deployed(
                units,
                policies,
                tick,
                side,
                (count - 1) as nat,
            ) || fights
        }),
{
}

/// Enemies count where the table of hostility says so, from the side's own row.
pub proof fn enemies_count_by_the_table(
    results: Map<Operation, u64>,
    strengths: Seq<Real>,
    deployed: Seq<bool>,
    hostility: Seq<u8>,
    side_count: int,
    side: int,
    count: nat,
)
    requires
        0 < count,
    ensures
        ({
            let enemy = hostility[side * side_count + (count - 1)] == 1;
            let before = enemy_strength(
                results,
                strengths,
                hostility,
                side_count,
                side,
                (count - 1) as nat,
            );
            let after = enemy_strength(results, strengths, hostility, side_count, side, count);
            &&& enemy ==> after == sum(results, before, strengths[count - 1])
            &&& !enemy ==> after == before
            &&& enemy_deployed(deployed, hostility, side_count, side, count) <==> enemy_deployed(
                deployed,
                hostility,
                side_count,
                side,
                (count - 1) as nat,
            ) || enemy && deployed[count - 1]
        }),
{
}

/// A side that takes no part any more is retired. Any other one is judged: by what it believes and
/// by the posture imposed on it where there is intelligence, otherwise by what stands against it.
/// Land is sampled exactly when it is due.
pub proof fn sides_are_judged_while_they_take_part(
    results: Map<Operation, u64>,
    scope: DynamicsScope,
    side: usize,
)
    ensures
        ({
            let told = directive_for(results, scope, side);
            let takes_part = exists|i: int|
                0 <= i < scope.active_sides.len() && #[trigger] scope.active_sides[i] == side;
            &&& told is Retire <==> !takes_part
            &&& takes_part ==> (told is Intelligence <==> scope.operations is Some)
            &&& told matches DynamicsDirective::Intelligence {
                sample,
                posture_override,
                deployed,
                strength,
                known_hostile,
            } ==> {
                let sides = scope.operations->Some_0;
                &&& sample is Some <==> scope.sample_due
                &&& side < sides.len() && sides[side as int].current_override is None
                    ==> posture_override is None
                &&& side >= sides.len() ==> posture_override is None && known_hostile is None
                &&& side < sides.len() && (sides[side as int].current_override matches Some(imposed)
                    && imposed.posture is Defensive) ==> posture_override == Some(
                    crate::operations::WarPosture::Defensive,
                )
                &&& side < sides.len() && (sides[side as int].current_override matches Some(imposed)
                    && imposed.posture is Offensive) ==> posture_override == Some(
                    crate::operations::WarPosture::Offensive,
                )
            }
            &&& told matches DynamicsDirective::Direct {
                sample,
                deployed,
                strength,
                hostile_deployed,
                hostile_strength,
            } ==> (sample is Some <==> scope.sample_due)
        }),
{
}

/// What a side lost since the last count is what its countries lost; no country gains by it.
pub proof fn sides_lose_what_their_countries_lose(
    results: Map<Operation, u64>,
    previous: Map<u16, Real>,
    next: Map<u16, Real>,
    country_to_side: Map<u16, usize>,
    keys: Seq<u16>,
    count: nat,
)
    requires
        0 < count <= keys.len(),
    ensures
        ({
            let country = keys[count - 1];
            let earlier = if previous.contains_key(country) {
                previous[country]
            } else {
                real_of(0)
            };
            let lost = difference(results, next[country], earlier);
            let side = country_to_side[country];
            let before = losses_by_side(
                results,
                previous,
                next,
                country_to_side,
                keys,
                (count - 1) as nat,
            );
            let after = losses_by_side(results, previous, next, country_to_side, keys, count);
            &&& !country_to_side.contains_key(country) ==> after == before
            &&& country_to_side.contains_key(country) && real_of(0).le(lost) ==> side_amount(
                after,
                side,
            ) == sum(results, side_amount(before, side), lost)
            &&& country_to_side.contains_key(country) && lost.lt(real_of(0)) ==> side_amount(
                after,
                side,
            ) == sum(results, side_amount(before, side), real_of(0))
            &&& forall|other: usize|
                other != side ==> #[trigger] side_amount(after, other) == side_amount(before, other)
        }),
{
}

/// Deserters on foot are a share of the men by the rate, but no more than there are; from a
/// formation left with hardly any health everybody else goes too.
pub proof fn deserters_leave_by_the_rate(
    results: Map<Operation, u64>,
    unit: SimulationUnit,
    rate: Real,
    unit_health: Real,
    crew: u64,
)
    requires
        unit.combat.kind is Army,
    ensures
        ({
            let men = integer(results, unit.combat.personnel);
            let share = product(results, men, rate);
            let going = if men.lt(share) || share.nan() { men } else { share };
            let lost = product(results, unit.combat.health, rate);
            let health = difference(
                results,
                unit.combat.health,
                if lost.lt(real_of(0)) || lost.nan() { real_of(0) } else { lost },
            );
            let broken = health.le(real_of(ONE_BITS));
            let left = results[Operation::Whole(
                number_at(
                    results,
                    Operation::Round(difference(results, men, going)),
                ).max_of(real_of(0)),
            )];
            let gone = deserters(results, unit, rate, unit_health, crew);
            &&& !broken ==> gone == sum(results, going, real_of(0))
            &&& broken ==> gone == sum(results, going, integer(results, left))
        }),
{
}

/// Deserters from armor go with the vehicles that the lost health takes out of use, by the crew of
/// each; from a formation left with hardly any health the crews of the rest go too.
pub proof fn crews_desert_with_their_vehicles(
    results: Map<Operation, u64>,
    unit: SimulationUnit,
    rate: Real,
    unit_health: Real,
    crew: u64,
)
    requires
        unit.combat.kind is Armor,
        unit.combat.max_equipment > 0,
        unit.combat.equipment * crew <= u64::MAX,
    ensures
        ({
            let lost = product(results, unit.combat.health, rate);
            let health = difference(
                results,
                unit.combat.health,
                if lost.lt(real_of(0)) || lost.nan() { real_of(0) } else { lost },
            );
            let kept = results[Operation::Whole(
                number_at(
                    results,
                    Operation::Ceiling(
                        product(
                            results,
                            integer(results, unit.combat.max_equipment),
                            quotient(results, health, unit_health),
                        ),
                    ),
                ).max_of(real_of(0)),
            )];
            let had = unit.combat.equipment;
            let left = if kept < had { kept } else { had };
            let gone = deserters(results, unit, rate, unit_health, crew);
            let men = integer(results, ((had - left) * crew) as u64);
            &&& !health.le(real_of(ONE_BITS)) ==> gone == men
            &&& health.le(real_of(ONE_BITS)) ==> gone == sum(
                results,
                men,
                integer(results, (left * crew) as u64),
            )
        }),
{
    let had = unit.combat.equipment;
    let lost = product(results, unit.combat.health, rate);
    let health = difference(results, unit.combat.health, lost.max_of(real_of(0)));
    let kept = results[Operation::Whole(
        number_at(
            results,
            Operation::Ceiling(
                product(
                    results,
                    integer(results, unit.combat.max_equipment),
                    quotient(results, health, unit_health),
                ),
            ),
        ).max_of(real_of(0)),
    )];
    let left = if kept < had { kept } else { had };
    assert((had - left) * crew <= had * crew) by (nonlinear_arith)
        requires
            0 <= left <= had,
            0 <= crew,
    ;
    assert(left * crew <= had * crew) by (nonlinear_arith)
        requires
            0 <= left <= had,
            0 <= crew,
    ;
    assert(0 <= (had - left) * crew) by (nonlinear_arith)
        requires
            0 <= left <= had,
            0 <= crew,
    ;
}

/// Only formations of a country told to desert lose deserters, at the rate that was told last.
pub proof fn only_countries_told_to_desert_do(
    results: Map<Operation, u64>,
    units: Seq<SimulationUnit>,
    rates: Map<u16, Real>,
    unit_health: Real,
    crew: u64,
    count: nat,
)
    requires
        0 < count <= units.len(),
    ensures
        ({
            let unit = units[count - 1];
            let country = unit.combat.sovereign as u16;
            let side = unit.combat.side as usize;
            let before = desertions_by_side(
                results,
                units,
                rates,
                unit_health,
                crew,
                (count - 1) as nat,
            );
            let after = desertions_by_side(results, units, rates, unit_health, crew, count);
            let deserts = unit.combat.sovereign <= u16::MAX && rates.contains_key(country)
                && !rates[country].le(real_of(0));
            &&& !deserts ==> after == before
            &&& deserts ==> side_amount(after, side) == sum(
                results,
                side_amount(before, side),
                deserters(results, unit, rates[country], unit_health, crew),
            )
        }),
{
}

/// The sides that collapse are those in that phase.
pub proof fn sides_collapse_by_their_phase(dynamics: Map<usize, SideDynamics>, side: usize)
    ensures
        collapsing_sides(dynamics).contains(side) <==> dynamics.contains_key(side)
            && dynamics[side].phase is Collapsing,
{
}

// ---------------------------------------------------------------------------------------------
// Exile and attrition
// ---------------------------------------------------------------------------------------------

/// Who goes into exile: a formation past its deployment, at sea, whose country controls nothing
/// any more, where the draw is below a fiftieth. Its men join the reserve of its side: everybody
/// on foot, or the crews of its vehicles.
pub proof fn exiles_join_the_reserve(
    scope: ExileScope,
    model: ExileModel,
    unit: SimulationUnit,
)
    ensures
        ({
            let people: int = if unit.combat.kind is Armor {
                unit.combat.equipment * scope.crew_per_vehicle
            } else {
                unit.combat.personnel as int
            };
            let side = unit.combat.side as usize;
            unit_exiled(scope, model, unit) matches Ok(after) ==> {
                &&& after.draws_used == model.draws_used || after.draws_used == model.draws_used + 1
                &&& after.unit_ids == model.unit_ids ==> after.reserves == model.reserves
                    && after.recovered_personnel == model.recovered_personnel
                &&& after.unit_ids != model.unit_ids ==> {
                    &&& after.unit_ids == model.unit_ids.push(unit.combat.id)
                    &&& is_in_use(scope.policies[unit.combat.id], scope.tick)
                    &&& scope.draws[model.draws_used as int].lt(real_of(N_0_02))
                        || scope.draws[model.draws_used as int].nan()
                    &&& crate::runtime::orders::last_aggregate(
                        scope.aggregates,
                        unit.combat.sovereign as u16,
                        scope.aggregates.len(),
                    ) matches Some(counted) && counted.controlled == 0
                    &&& crate::runtime::planning::sails(unit, scope.resolved)
                    &&& people <= u64::MAX ==> side_amount(after.reserves, side) == sum(
                        scope.results,
                        side_amount(model.reserves, side),
                        integer(scope.results, people as u64),
                    )
                    &&& model.recovered_personnel + people <= u64::MAX ==> after.recovered_personnel
                        == model.recovered_personnel + people
                    &&& forall|other: usize|
                        other != side ==> #[trigger] side_amount(after.reserves, other)
                            == side_amount(model.reserves, other)
                }
            }
        }),
{
    let id = unit.combat.id;
    if unit_exiled(scope, model, unit) is Ok {
        assert(model.unit_ids.push(id).len() == model.unit_ids.len() + 1);
    }
}

/// Lack of supply hurts a formation by what the battlefield said, where that is more than nothing
/// and the formation is past its deployment.
pub proof fn attrition_hurts_the_deployed(
    units: Seq<SimulationUnit>,
    policies: Policies,
    resolved: Map<u64, BattlefieldUnitResult>,
    tick: u64,
    count: nat,
)
    requires
        0 < count <= units.len(),
    ensures
        ({
            let id = units[count - 1].combat.id;
            let before = attrition_of(units, policies, resolved, tick, (count - 1) as nat);
            let after = attrition_of(units, policies, resolved, tick, count);
            let hurt = policies.contains_key(id) && resolved.contains_key(id) && is_in_use(
                policies[id],
                tick,
            ) && real_of(0).lt(resolved[id].attrition.damage);
            &&& !hurt ==> after == before
            &&& hurt ==> after == before.push(
                DamageCommand { unit_id: id, damage: resolved[id].attrition.damage },
            )
        }),
{
}

/// A formation enters combat at sea, supported and weighted as the battlefield found it, and the
/// boost of a victory runs out tick by tick once it is deployed. Nothing else of it changes.
pub proof fn formations_enter_combat_as_found(
    units: Seq<SimulationUnit>,
    policies: Policies,
    resolved: Map<u64, BattlefieldUnitResult>,
    local: Map<u64, BattlefieldLocalUnitResult>,
    weights: Map<u64, Real>,
    tick: u64,
    at: int,
)
    ensures
        prepared_unit(units, policies, resolved, local, weights, tick, at) matches Some(
            Ok(after),
        ) ==> {
            let unit = units[at];
            let id = unit.combat.id;
            let waits = !is_in_use(policies[id], tick);
            &&& after.combat.at_sea == resolved[id].cell.at_sea
            &&& after.combat.armor_supported == local[id].armor_supported
            &&& after.ally_weight == weights[id]
            &&& waits ==> after.combat.victory_boost_ticks == unit.combat.victory_boost_ticks
            &&& !waits && unit.combat.victory_boost_ticks > 0 ==> after.combat.victory_boost_ticks
                == unit.combat.victory_boost_ticks - 1
            &&& unit.combat.victory_boost_ticks == 0 ==> after.combat.victory_boost_ticks == 0
            &&& after == (SimulationUnit {
                combat: CombatUnit {
                    at_sea: after.combat.at_sea,
                    armor_supported: after.combat.armor_supported,
                    victory_boost_ticks: after.combat.victory_boost_ticks,
                    ..unit.combat
                },
                ally_weight: after.ally_weight,
                ..unit
            })
        },
{
}

/// Those wait that have a policy and whose deployment is not over.
pub proof fn the_undeployed_wait(
    units: Seq<SimulationUnit>,
    policies: Policies,
    tick: u64,
    count: nat,
    id: u64,
)
    requires
        count <= units.len(),
    ensures
        waiting_units(units, policies, tick, count).contains(id) <==> policies.contains_key(id)
            && !is_in_use(policies[id], tick) && exists|i: int|
            0 <= i < count && (#[trigger] units[i]).combat.id == id,
    decreases count,
{
    if count > 0 {
        let before = (count - 1) as nat;
        the_undeployed_wait(units, policies, tick, before, id);
        let rest = waiting_units(units, policies, tick, before);
        crate::order::lemma_push_contains(rest, units[before as int].combat.id, id);
        if exists|i: int| 0 <= i < count && (#[trigger] units[i]).combat.id == id {
            let i = choose|i: int| 0 <= i < count && (#[trigger] units[i]).combat.id == id;
            if i < before {
                assert(units[i].combat.id == id);
            }
        }
    }
}

/// What the battlefield is told before it bends an order: its direction, whether a plan or a front
/// stands behind it, whether the formation retreats or is held, and whether it is at sea.
pub proof fn directions_are_bent_knowingly(
    orders: Seq<ResolvedUnitOrder>,
    assignments: Seq<FrontAssignmentRecord>,
    policies: Policies,
    resolved: Map<u64, BattlefieldUnitResult>,
    planned: Set<u64>,
    overridden: Set<u64>,
    at: int,
)
    ensures
        direction_input(
            orders,
            assignments,
            policies,
            resolved,
            planned,
            overridden,
            at,
        ) matches Some(Ok(told)) ==> {
            let order = orders[at];
            let reason = reason_of(assignments, order.unit_id, assignments.len());
            &&& told.unit_id == order.unit_id
            &&& told.dir_lat == order.dir_lat && told.dir_lng == order.dir_lng
            &&& told.at_sea == resolved[order.unit_id].cell.at_sea
            &&& told.active_retreat <==> reason is Retreat
            &&& told.is_plan_unit <==> planned.contains(order.unit_id) || reason is Front || reason
                is Reinforce
            &&& told.occupation_garrison_holding <==> policies[order.unit_id].ai.garrison_excluded
                || overridden.contains(order.unit_id)
        },
{
}

/// A bent order goes the way it was bent and is otherwise the same.
pub proof fn bent_orders_only_turn(
    orders: Seq<ResolvedUnitOrder>,
    directions: Seq<BattlefieldDirection>,
    at: int,
)
    ensures
        bent_order(orders, directions, at) matches Some(Ok(after)) ==> {
            &&& direction_of(directions, orders[at].unit_id, directions.len()) matches Some(way)
                && after.dir_lat == way.dir_lat && after.dir_lng == way.dir_lng
            &&& after == (ResolvedUnitOrder {
                dir_lat: after.dir_lat,
                dir_lng: after.dir_lng,
                ..orders[at]
            })
        },
{
}

/// The last assignment of a formation is the reason that counts; without one it holds.
pub proof fn the_last_assignment_counts(
    assignments: Seq<FrontAssignmentRecord>,
    unit_id: u64,
    count: nat,
)
    requires
        0 < count <= assignments.len(),
    ensures
        reason_of(assignments, unit_id, 0) is Hold,
        assignments[count - 1].unit_id == unit_id ==> reason_of(assignments, unit_id, count)
            == assignments[count - 1].reason,
        assignments[count - 1].unit_id != unit_id ==> reason_of(assignments, unit_id, count)
            == reason_of(assignments, unit_id, (count - 1) as nat),
{
}

/// The last direction that a formation was given counts.
pub proof fn the_last_direction_counts(
    directions: Seq<BattlefieldDirection>,
    unit_id: u64,
    count: nat,
)
    requires
        0 < count <= directions.len(),
    ensures
        direction_of(directions, unit_id, 0) is None,
        directions[count - 1].unit_id == unit_id ==> direction_of(directions, unit_id, count)
            == Some(directions[count - 1]),
        directions[count - 1].unit_id != unit_id ==> direction_of(directions, unit_id, count)
            == direction_of(directions, unit_id, (count - 1) as nat),
{
}

} // verus!
