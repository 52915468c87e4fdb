//! What sides know and believe of their enemies, how countries judge their situation, and which
//! posture a side is made to take.

use vstd::prelude::*;
use crate::numbers::{
    N_0_002, N_0_15, N_0_2, N_0_22, N_0_3, N_0_35, N_0_4, N_0_45, N_0_5, N_0_6, N_0_75, N_0_85,
    N_0_88,
};
use crate::operations::{
    accepts, aged_contact, aged_contacts, believed_strength, contact_key, contact_position, decayed,
    desired_override, hostile_strength, initial_operations, judged_countries, judged_country,
    observed_side, observed_strength, overrides_evolved, prewar_power, recent_events, stalled,
    ContactModel, CountryDesperationMode, CountryDesperationState, CountryOperationalInput,
    IntelModel, OperationalIntelConfig, OperationsModel, SideModel, TacticalContactObservation,
};
use crate::scalar::{real_of, Real, ONE_BITS};
use crate::worksheet::{
    difference, integer, longitude_delta, number_at, product, quotient, sum, Operation,
};

verus! {

/// At the outbreak every side knows its declared enemies, with their strength of before the war,
/// and has met nobody.
pub proof fn wars_begin_with_what_is_declared(
    hostility: Seq<u8>,
    strength: Seq<Real>,
    side_count: usize,
    side: int,
    enemy: usize,
)
    requires
        0 <= side < side_count,
        hostility.len() == side_count * side_count,
    ensures
        ({
            let state = initial_operations(hostility, strength, side_count);
            let known = state.sides[side];
            &&& state.sides.len() == side_count
            &&& state.task_forces.len() == 0 && state.country_desperation.len() == 0
            &&& state.override_events.len() == 0 && state.next_override_sequence == 1
            &&& known.side_index == side
            &&& known.current_override is None
            &&& known.intel.contacts.len() == 0
            &&& known.intel.last_scan_tick == 0 && known.intel.revision == 0
            &&& known.intel.config.scan_interval_ticks == 150 && known.intel.config.fresh_ticks
                == 300 && known.intel.config.stale_ticks == 1_200 && known.intel.config.expire_ticks
                == 1_800
            &&& known.hostile_side_indices.contains(enemy) <==> enemy < side_count
                && hostility[side * side_count + enemy] == 1
            &&& known.intel.prewar_enemy_power.len() == known.hostile_side_indices.len()
            &&& forall|i: int|
                0 <= i < known.hostile_side_indices.len() ==> {
                    let record = #[trigger] known.intel.prewar_enemy_power[i];
                    let named = known.hostile_side_indices[i];
                    &&& record.side_index == named
                    &&& named < strength.len() && real_of(0).le(strength[named as int])
                        ==> record.power.same(strength[named as int])
                    &&& named >= strength.len() || strength[named as int].lt(real_of(0))
                        ==> record.power.same(real_of(0))
                }
        }),
{
    lemma_enemies(hostility, side_count, side, side_count as nat, enemy);
    if enemy < side_count {
        assert(side * side_count + enemy < side_count * side_count) by (nonlinear_arith)
            requires
                0 <= side < side_count,
                0 <= enemy < side_count,
        ;
    }
}

proof fn lemma_enemies(
    hostility: Seq<u8>,
    side_count: usize,
    side: int,
    count: nat,
    enemy: usize,
)
    requires
        count <= side_count,
    ensures
        crate::operations::enemies_below(hostility, side_count, side, count).contains(enemy)
            <==> enemy < count && (side * side_count + enemy) < hostility.len() && hostility[side
            * side_count + enemy] == 1,
    decreases count,
{
    if count > 0 {
        let before = (count - 1) as nat;
        lemma_enemies(hostility, side_count, side, before, enemy);
        let rest = crate::operations::enemies_below(hostility, side_count, side, before);
        crate::order::lemma_push_contains(rest, before as usize, enemy);
    }
}

/// What is known of a contact grows old: it is fresh for a time, then stale, then degraded.
/// Nothing but its age, its standing and the confidence in it changes.
pub proof fn contacts_grow_old(
    results: Map<Operation, u64>,
    contact: ContactModel,
    config: OperationalIntelConfig,
    tick: u64,
)
    requires
        config.fresh_ticks <= config.stale_ticks,
    ensures
        ({
            let after = aged_contact(results, contact, config, tick);
            &&& tick >= contact.observed_tick ==> after.age_ticks == tick - contact.observed_tick
            &&& tick < contact.observed_tick ==> after.age_ticks == 0
            &&& after.status is Fresh <==> after.age_ticks <= config.fresh_ticks
            &&& after.status is Degraded <==> after.age_ticks > config.stale_ticks
            &&& after.status is Stale <==> config.fresh_ticks < after.age_ticks
                <= config.stale_ticks
            &&& after == (ContactModel {
                age_ticks: after.age_ticks,
                status: after.status,
                confidence: after.confidence,
                ..contact
            })
        }),
{
}

/// Confidence in a contact is a share. It starts from what it was when the contact was seen and
/// loses fifteen hundredths while the contact is fresh, half while it is stale and three tenths
/// while it is degraded.
pub proof fn confidence_fades(
    results: Map<Operation, u64>,
    base: Real,
    age: u64,
    config: OperationalIntelConfig,
    elapsed: Real,
    fresh: Real,
    stale: Real,
)
    requires
        elapsed == integer(results, age),
        fresh == integer(results, config.fresh_ticks),
        stale == integer(results, config.stale_ticks),
        config.fresh_ticks < config.stale_ticks < config.expire_ticks,
    ensures
        ({
            let confidence = decayed(results, base, age, config);
            let while_fresh = product(
                results,
                base,
                difference(
                    results,
                    real_of(ONE_BITS),
                    quotient(results, product(results, real_of(N_0_15), elapsed), fresh),
                ),
            );
            let while_stale = product(
                results,
                base,
                difference(
                    results,
                    real_of(N_0_85),
                    product(
                        results,
                        quotient(
                            results,
                            difference(results, elapsed, fresh),
                            integer(results, (config.stale_ticks - config.fresh_ticks) as u64),
                        ),
                        real_of(N_0_5),
                    ),
                ),
            );
            let afterwards = product(
                results,
                base,
                difference(
                    results,
                    real_of(N_0_35),
                    product(
                        results,
                        quotient(
                            results,
                            difference(results, elapsed, stale),
                            integer(results, (config.expire_ticks - config.stale_ticks) as u64),
                        ),
                        real_of(N_0_3),
                    ),
                ),
            );
            let raw = if elapsed.le(fresh) {
                while_fresh
            } else if elapsed.le(stale) {
                while_stale
            } else {
                afterwards
            };
            &&& !raw.nan() ==> confidence.unit_interval()
            &&& raw.unit_interval() ==> confidence == raw
            &&& raw.lt(real_of(0)) ==> confidence == real_of(0)
            &&& real_of(ONE_BITS).lt(raw) ==> confidence == real_of(ONE_BITS)
        }),
{
}

/// A contact is forgotten exactly when it is older than its side keeps contacts.
pub proof fn old_contacts_are_forgotten(
    results: Map<Operation, u64>,
    contacts: Seq<ContactModel>,
    config: OperationalIntelConfig,
    tick: u64,
    count: nat,
)
    requires
        count <= contacts.len(),
    ensures
        forall|k: int|
            0 <= k < aged_contacts(results, contacts, config, tick, count).len() ==> (
            #[trigger] aged_contacts(results, contacts, config, tick, count)[k]).age_ticks
                <= config.expire_ticks,
        forall|i: int|
            0 <= i < count && tick <= (#[trigger] contacts[i]).observed_tick + config.expire_ticks
                ==> aged_contacts(results, contacts, config, tick, count).contains(
                aged_contact(results, contacts[i], config, tick),
            ),
    decreases count,
{
    if count > 0 {
        let before = (count - 1) as nat;
        old_contacts_are_forgotten(results, contacts, config, tick, before);
        let rest = aged_contacts(results, contacts, config, tick, before);
        let all = aged_contacts(results, contacts, config, tick, count);
        assert forall|k: int| 0 <= k < all.len() implies (#[trigger] all[k]).age_ticks
            <= config.expire_ticks by {
            if k < rest.len() {
                assert(all[k] == rest[k]);
            }
        }
        assert forall|i: int|
            0 <= i < count && tick <= (#[trigger] contacts[i]).observed_tick + config.expire_ticks
            implies all.contains(aged_contact(results, contacts[i], config, tick)) by {
            let aged = aged_contact(results, contacts[i], config, tick);
            if i < before {
                assert(rest.contains(aged));
                let k = rest.index_of(aged);
                assert(all[k] == aged);
            } else {
                assert(all.last() == aged);
            }
        }
    }
}

/// What one contact adds to the belief in an enemy: the power that was seen, from three fifths of
/// it where there is no confidence to all of it where there is full confidence. Contacts of other
/// enemies add nothing.
pub proof fn contacts_count_by_confidence(
    results: Map<Operation, u64>,
    contacts: Seq<ContactModel>,
    enemy: usize,
    count: nat,
)
    requires
        0 < count <= contacts.len(),
    ensures
        ({
            let contact = contacts[count - 1];
            let before = observed_strength(results, contacts, enemy, (count - 1) as nat);
            let after = observed_strength(results, contacts, enemy, count);
            &&& contact.enemy_side_index != enemy ==> after == before
            &&& contact.enemy_side_index == enemy ==> after == sum(
                results,
                before,
                product(
                    results,
                    contact.observed_power,
                    sum(
                        results,
                        real_of(N_0_6),
                        product(results, contact.confidence, real_of(N_0_4)),
                    ),
                ),
            )
            &&& observed_strength(results, contacts, enemy, 0) == real_of(0)
        }),
{
}

/// A side believes of an enemy that it never met what was known before the war, and of one that it
/// met what it sees, but never less than two fifths of that.
pub proof fn enemies_are_never_thought_too_weak(
    results: Map<Operation, u64>,
    intel: IntelModel,
    enemy: usize,
)
    ensures
        ({
            let belief = believed_strength(results, intel, enemy);
            let met = exists|i: int|
                0 <= i < intel.contacts.len() && (#[trigger] intel.contacts[i]).enemy_side_index
                    == enemy;
            let before = prewar_power(intel.prewar_enemy_power, enemy, 0);
            let seen = observed_strength(results, intel.contacts, enemy, intel.contacts.len());
            let least = product(results, before, real_of(N_0_4));
            &&& !met ==> belief == before
            &&& met && !seen.nan() ==> seen.le(belief)
            &&& met && !least.nan() ==> least.le(belief)
            &&& met ==> belief == seen || belief == least
        }),
{
    if exists|i: int|
        0 <= i < intel.contacts.len() && (#[trigger] intel.contacts[i]).enemy_side_index == enemy {
        let i = choose|i: int|
            0 <= i < intel.contacts.len() && (#[trigger] intel.contacts[i]).enemy_side_index
                == enemy;
        assert(crate::operations::has_contact(intel.contacts, enemy, intel.contacts.len()));
    }
}

/// The strength of before the war is that of the first record of an enemy, or nothing.
pub proof fn the_first_record_counts(
    records: Seq<crate::operations::PrewarEnemyPower>,
    enemy: usize,
    from: int,
)
    requires
        0 <= from,
    ensures
        ({
            let power = prewar_power(records, enemy, from);
            ||| power == real_of(0) && forall|i: int|
                from <= i < records.len() ==> (#[trigger] records[i]).side_index != enemy
            ||| exists|i: int|
                from <= i < records.len() && (#[trigger] records[i]).side_index == enemy
                    && records[i].power == power && forall|k: int|
                    from <= k < i ==> (#[trigger] records[k]).side_index != enemy
        }),
    decreases records.len() - from,
{
    if from < records.len() && records[from].side_index != enemy {
        the_first_record_counts(records, enemy, from + 1);
        let power = prewar_power(records, enemy, from + 1);
        if exists|i: int|
            from + 1 <= i < records.len() && (#[trigger] records[i]).side_index == enemy
                && records[i].power == power && forall|k: int|
                from + 1 <= k < i ==> (#[trigger] records[k]).side_index != enemy {
            let i = choose|i: int|
                from + 1 <= i < records.len() && (#[trigger] records[i]).side_index == enemy
                    && records[i].power == power && forall|k: int|
                    from + 1 <= k < i ==> (#[trigger] records[k]).side_index != enemy;
            assert(records[i].side_index == enemy && records[i].power == power);
        }
    } else if from < records.len() {
        assert(records[from].side_index == enemy);
    }
}

/// A side with enemies has a belief in their strength that is not below zero; one without has none.
pub proof fn beliefs_are_about_enemies(
    results: Map<Operation, u64>,
    sides: Seq<SideModel>,
    observer: usize,
)
    requires
        observer < sides.len(),
        sides[observer as int].side_index == observer,
    ensures
        ({
            let belief = hostile_strength(results, sides, observer);
            &&& belief is Some <==> sides[observer as int].hostile_side_indices.len() > 0
            &&& belief matches Some(strength) ==> real_of(0).le(strength)
        }),
{
}

/// What a side learns when it sees an enemy: where it is, what it is, how strong, and when; the
/// way it went since it was last seen, by the tick; and a confidence of eighty-eight hundredths.
pub proof fn sightings_are_kept_as_seen(
    results: Map<Operation, u64>,
    side: SideModel,
    seen: TacticalContactObservation,
    tick: u64,
)
    ensures
        ({
            let after = observed_side(results, side, seen, tick);
            let contact = after.intel.contacts.last();
            let key = contact_key(seen.enemy_side, seen.target_unit_id);
            let at = contact_position(side.intel.contacts, key, 0);
            let known = at < side.intel.contacts.len();
            let last = side.intel.contacts[at];
            let ticks = integer(
                results,
                if tick > last.observed_tick { (tick - last.observed_tick) as u64 } else { 1 },
            );
            &&& after.intel.last_scan_tick == tick
            &&& contact.key == key
            &&& contact.enemy_side_index == seen.enemy_side
            &&& contact.unit_id == seen.target_unit_id
            &&& contact.country_id == Some(seen.target_country_id)
            &&& contact.kind == seen.kind@
            &&& contact.lat == seen.target_position.lat && contact.lng == seen.target_position.lng
            &&& contact.observed_power == seen.observed_power
            &&& contact.confidence == real_of(N_0_88) && contact.base_confidence == real_of(N_0_88)
            &&& contact.observed_tick == tick && contact.age_ticks == 0
            &&& contact.status is Fresh
            &&& !known ==> contact.velocity_lat == real_of(0) && contact.velocity_lng == real_of(0)
            &&& known ==> contact.velocity_lat == quotient(
                results,
                difference(results, seen.target_position.lat, last.lat),
                ticks,
            ) && contact.velocity_lng == quotient(
                results,
                longitude_delta(results, last.lng, seen.target_position.lng),
                ticks,
            )
            &&& forall|other: ContactModel|
                other.key != key ==> (#[trigger] after.intel.contacts.contains(other)
                    <==> side.intel.contacts.contains(other))
            &&& after.hostile_side_indices == side.hostile_side_indices && after.current_override
                == side.current_override && after.side_index == side.side_index
        }),
{
    let key = contact_key(seen.enemy_side, seen.target_unit_id);
    let after = observed_side(results, side, seen, tick);
    let kept = side.intel.contacts.filter(crate::operations::other_key(key));
    assert forall|other: ContactModel| other.key != key implies (
    #[trigger] after.intel.contacts.contains(other) <==> side.intel.contacts.contains(other)) by {
        crate::order::lemma_filter_contains(
            side.intel.contacts,
            crate::operations::other_key(key),
            other,
        );
        crate::order::lemma_push_contains(kept, after.intel.contacts.last(), other);
    }
}

/// A side takes in what it sees of a declared enemy, at a place on the globe, with a power that is
/// not below zero; and nothing else.
pub proof fn only_enemies_are_sighted(side: SideModel, seen: TacticalContactObservation)
    ensures
        accepts(side, seen) ==> {
            &&& side.hostile_side_indices.contains(seen.enemy_side)
            &&& seen.observed_power.finite() && !seen.observed_power.lt(real_of(0))
            &&& seen.target_position.lat.finite() && seen.target_position.lng.finite()
            &&& real_of(crate::numbers::MINUS_N_90).le(seen.target_position.lat)
                && seen.target_position.lat.le(real_of(crate::numbers::N_90))
        },
{
}

// ---------------------------------------------------------------------------------------------
// Desperation
// ---------------------------------------------------------------------------------------------

/// How a country judges its situation: a last stand with hardly any land or cities left, defensive
/// desperation with few, offensive desperation where an attacker that still holds its ground has
/// made no headway for long, too few men under arms, or none of these; the worst comes first.
pub proof fn countries_judge_by_what_is_left(
    results: Map<Operation, u64>,
    state: CountryDesperationState,
    input: CountryOperationalInput,
    tick: u64,
    interval: u64,
    land: Real,
    cities: Real,
    men: Real,
)
    requires
        input.initial_land > 0,
        land == quotient(
            results,
            integer(results, input.controlled),
            integer(results, input.initial_land),
        ),
        state.initial_cities matches Some(first) && first > 0 && cities == quotient(
            results,
            integer(results, input.cities_controlled),
            integer(results, first),
        ),
        state.initial_manpower matches Some(first) && men == quotient(
            results,
            input.current_personnel.max_of(real_of(0)),
            first.max_of(real_of(ONE_BITS)),
        ),
    ensures
        ({
            let after = judged_country(results, state, input, tick, interval);
            let lost = land.le(real_of(N_0_22)) || cities.le(real_of(N_0_2));
            let hard = land.le(real_of(N_0_4)) || cities.le(real_of(N_0_35));
            let stuck = input.offensive_role && tick >= 1_200 && after.stall_ticks >= 900
                && real_of(N_0_45).lt(land);
            &&& after.mode is LastStand <==> lost
            &&& after.mode is DefensiveDesperation <==> !lost && hard
            &&& after.mode is OffensiveDesperation <==> !lost && !hard && stuck
            &&& after.mode is UnderMobilized <==> !lost && !hard && !stuck && men.lt(
                real_of(N_0_75),
            )
            &&& after.mode is Normal <==> !lost && !hard && !stuck && !men.lt(real_of(N_0_75))
        }),
{
}

/// A country remembers with how many cities and men it began, and how much land it held last.
pub proof fn countries_remember_their_beginnings(
    results: Map<Operation, u64>,
    state: CountryDesperationState,
    input: CountryOperationalInput,
    tick: u64,
    interval: u64,
)
    ensures
        ({
            let after = judged_country(results, state, input, tick, interval);
            &&& after.country_id == state.country_id
            &&& after.previous_controlled == Some(input.controlled)
            &&& state.initial_cities is Some ==> after.initial_cities == state.initial_cities
            &&& state.initial_cities is None ==> after.initial_cities == Some(
                input.cities_controlled,
            )
            &&& state.initial_manpower is Some ==> after.initial_manpower == state.initial_manpower
            &&& state.initial_manpower is None && real_of(0).le(input.current_personnel)
                ==> after.initial_manpower == Some(input.current_personnel)
            &&& state.initial_manpower is None && input.current_personnel.lt(real_of(0))
                ==> after.initial_manpower == Some(real_of(0))
        }),
{
}

/// A country that gains or loses no more than five hundredths of a hundredth of its land, but at
/// least a cell, makes no headway and stalls for the time that passed; one that does works twice
/// that time off.
pub proof fn stalling_is_worked_off(
    results: Map<Operation, u64>,
    state: CountryDesperationState,
    input: CountryOperationalInput,
    interval: u64,
    slack: u64,
)
    requires
        input.initial_land > 0,
        slack == results[Operation::Whole(
            number_at(
                results,
                Operation::Floor(
                    product(results, integer(results, input.initial_land), real_of(N_0_002)),
                ),
            ),
        )],
    ensures
        ({
            let after = stalled(results, state, input, interval);
            let before = match state.previous_controlled {
                Some(controlled) => controlled,
                None => input.controlled,
            };
            let moved: int = if input.controlled >= before {
                input.controlled - before
            } else {
                before - input.controlled
            };
            let still = moved <= slack || moved <= 1 && slack == 0;
            &&& still && state.stall_ticks + interval <= u64::MAX ==> after == state.stall_ticks
                + interval
            &&& !still && state.stall_ticks >= 2 * interval ==> after == state.stall_ticks - 2
                * interval
            &&& !still && state.stall_ticks < 2 * interval ==> after == 0
        }),
{
}

/// Only countries of which something is told judge their situation anew.
pub proof fn only_countries_told_of_judge(
    results: Map<Operation, u64>,
    states: Seq<CountryDesperationState>,
    inputs: Map<u16, CountryOperationalInput>,
    tick: u64,
    interval: u64,
    i: int,
)
    requires
        0 <= i < states.len(),
    ensures
        ({
            let after = judged_countries(results, states, inputs, tick, interval);
            &&& after.len() == states.len()
            &&& after[i].country_id == states[i].country_id
            &&& !inputs.contains_key(states[i].country_id) ==> after[i] == states[i]
            &&& inputs.contains_key(states[i].country_id) ==> after[i].previous_controlled == Some(
                inputs[states[i].country_id].controlled,
            )
        }),
{
}

// ---------------------------------------------------------------------------------------------
// Postures
// ---------------------------------------------------------------------------------------------

/// Whether a country of a side is in a mode.
pub open spec fn some_country_is(
    state: OperationsModel,
    country_to_side: Map<u16, usize>,
    side: usize,
    mode: CountryDesperationMode,
) -> bool {
    exists|i: int|
        0 <= i < state.country_desperation.len() && (
        #[trigger] state.country_desperation[i]).mode == mode && country_to_side.contains_key(
            state.country_desperation[i].country_id,
        ) && country_to_side[state.country_desperation[i].country_id] == side
}

/// A last stand, a supply collapse within three hundred ticks or defensive desperation puts a side
/// on the defensive, in this order; offensive desperation sends it to attack where a force of it
/// can; and otherwise nothing is imposed.
pub proof fn desperate_sides_take_a_posture(
    state: OperationsModel,
    country_to_side: Map<u16, usize>,
    side: usize,
    tick: u64,
)
    ensures
        ({
            let wanted = desired_override(state, country_to_side, side, tick);
            let last = some_country_is(
                state,
                country_to_side,
                side,
                CountryDesperationMode::LastStand,
            );
            let starved = exists|i: int|
                0 <= i < state.task_forces.len() && (#[trigger] state.task_forces[i]).side_index
                    == side && (state.task_forces[i].supply_invalidated_tick matches Some(collapse)
                    && tick <= collapse + 300);
            let hard = some_country_is(
                state,
                country_to_side,
                side,
                CountryDesperationMode::DefensiveDesperation,
            );
            let stuck = some_country_is(
                state,
                country_to_side,
                side,
                CountryDesperationMode::OffensiveDesperation,
            );
            let able = exists|i: int|
                0 <= i < state.task_forces.len() && (#[trigger] state.task_forces[i]).side_index
                    == side && (state.task_forces[i].phase is Assembling
                    || state.task_forces[i].phase is Attacking);
            &&& last ==> (wanted matches Some(posture) && posture.posture is Defensive
                && posture.source is LastStand && posture.expires_tick is None)
            &&& !last && starved ==> (wanted matches Some(posture) && posture.posture is Defensive
                && posture.source is SupplyCollapse && (tick + 300 <= u64::MAX
                ==> posture.expires_tick == Some((tick + 300) as u64)))
            &&& !last && !starved && hard ==> (wanted matches Some(posture) && posture.posture
                is Defensive && posture.source is DefensiveDesperation && posture.expires_tick
                is None)
            &&& !last && !starved && !hard && able && stuck ==> (wanted matches Some(posture)
                && posture.posture is Offensive && posture.source is OffensiveDesperation
                && posture.expires_tick is None)
            &&& !last && !starved && !hard && !(able && stuck) ==> wanted is None
        }),
{
    let starved = exists|i: int|
        0 <= i < state.task_forces.len() && (#[trigger] state.task_forces[i]).side_index == side
            && (state.task_forces[i].supply_invalidated_tick matches Some(collapse) && tick
            <= collapse + 300);
    if starved {
        let i = choose|i: int|
            0 <= i < state.task_forces.len() && (#[trigger] state.task_forces[i]).side_index
                == side && (state.task_forces[i].supply_invalidated_tick matches Some(collapse)
                && tick <= collapse + 300);
        assert(crate::operations::recent_supply_collapse(state.task_forces, side, tick));
    }
}

/// The history of postures keeps the newest sixty-four events, in their order.
pub proof fn postures_are_remembered(
    events: Seq<crate::operations::OperationalOverrideEvent>,
)
    ensures
        ({
            let kept = recent_events(events);
            &&& kept.len() <= 64
            &&& events.len() <= 64 ==> kept == events
            &&& events.len() > 64 ==> kept.len() == 64
            &&& forall|i: int|
                0 <= i < kept.len() ==> #[trigger] kept[i] == events[events.len() - kept.len() + i]
        }),
{
}

/// Bringing one more side up to date: its posture is the one called for, begun in this tick with
/// the next number, and an event says so; where the one in force is called for, nothing happens.
pub proof fn postures_change_with_an_event(
    state: OperationsModel,
    country_to_side: Map<u16, usize>,
    tick: u64,
    count: nat,
)
    requires
        0 < count <= state.sides.len() <= usize::MAX,
        overrides_evolved(state, country_to_side, tick, (count - 1) as nat).sides.len()
            == state.sides.len(),
    ensures
        ({
            let before = overrides_evolved(state, country_to_side, tick, (count - 1) as nat);
            let after = overrides_evolved(state, country_to_side, tick, count);
            let side = count - 1;
            let wanted = desired_override(state, country_to_side, side as usize, tick);
            let had = before.sides[side].current_override;
            let has = after.sides[side].current_override;
            let event = after.override_events.last();
            let same = match (had, wanted) {
                (None, None) => true,
                (Some(held), Some(posture)) => held.posture == posture.posture && held.source
                    == posture.source,
                _ => false,
            };
            &&& same ==> after == before
            &&& !same ==> {
                &&& after.override_events.len() == before.override_events.len() + 1
                &&& event.side_index == side && event.sequence == before.next_override_sequence
                &&& event.started_tick == tick
                &&& before.next_override_sequence < u64::MAX ==> after.next_override_sequence
                    == before.next_override_sequence + 1
                &&& wanted is None ==> has is None && event.posture is None && event.source
                    == (had->0).source && event.expires_tick == Some(tick)
                &&& wanted matches Some(posture) ==> {
                    &&& has matches Some(held) && held.posture == posture.posture && held.source
                        == posture.source && held.started_tick == tick && held.expires_tick
                        == posture.expires_tick && held.sequence == before.next_override_sequence
                    &&& event.posture == Some(posture.posture) && event.source == posture.source
                        && event.expires_tick == posture.expires_tick
                }
            }
            &&& forall|i: int|
                0 <= i < state.sides.len() && i != side ==> #[trigger] after.sides[i]
                    == before.sides[i]
        }),
{
}

} // verus!
