//! Losses: who lost how many people, and to whom.

use std::collections::BTreeMap;
use vstd::prelude::*;
use crate::scalar::{real_of, Real, SIGN_BIT};
use crate::tables::{ascending, ordered_countries};
use crate::units::CombatEvent;
use crate::worksheet::{integer, product, quotient, sum, Operation, Reader};

verus! {

/// Damage to be dealt to a formation outside combat.
#[derive(Clone, Copy, Debug, PartialEq, Eq, Structural)]
pub struct DamageCommand {
    pub unit_id: u64,
    pub damage: Real,
}

/// What damage did to a formation.
#[derive(Clone, Copy, Debug, PartialEq, Eq, Structural)]
pub struct DamageResult {
    pub unit_id: u64,
    pub personnel_loss: u64,
    pub equipment_loss: u64,
}

#[derive(Debug)]
pub struct DamageOutcome {
    pub results: Vec<DamageResult>,
    pub removed_ids: Vec<u64>,
}

/// Aircraft of a wing lost to a country.
#[derive(Clone, Copy, Debug, PartialEq, Eq, Structural)]
pub struct WingLoss {
    pub wing_id: u64,
    pub attacker: u16,
    pub aircraft: u32,
}

/// Damage that a country's aircraft dealt to a formation.
#[derive(Clone, Copy, Debug, PartialEq, Eq, Structural)]
pub struct LandDamage {
    pub unit_id: u64,
    pub attacker: u16,
    pub damage: Real,
}

/// What the air kernel reports of a tick.
#[derive(Debug)]
pub struct AirAdvanceOutcome {
    pub updated: bool,
    pub missions_selected: u32,
    pub interceptions_completed: u32,
    pub strikes_completed: u32,
    pub wings_destroyed: u32,
    pub airfield_captures: Vec<u64>,
    pub wing_losses: Vec<WingLoss>,
    pub land_damage: Vec<LandDamage>,
}

/// People lost by each country.
pub type Toll = Map<u16, Real>;

/// People lost by each country to each other one.
pub type Ledger = Map<u16, Map<u16, Real>>;

pub open spec fn toll_of(toll: Toll, country: u16) -> Real {
    if toll.contains_key(country) {
        toll[country]
    } else {
        real_of(0)
    }
}

pub open spec fn account(ledger: Ledger, victim: u16) -> Toll {
    if ledger.contains_key(victim) {
        ledger[victim]
    } else {
        Map::empty()
    }
}

/// A toll with some more people on one country's account.
pub open spec fn charged(
    results: Map<Operation, u64>,
    toll: Toll,
    country: u16,
    amount: Real,
) -> Toll {
    toll.insert(country, sum(results, toll_of(toll, country), amount))
}

/// A ledger with some more people whom a victim lost to an attacker.
pub open spec fn attributed(
    results: Map<Operation, u64>,
    ledger: Ledger,
    victim: u16,
    attacker: u16,
    amount: Real,
) -> Ledger {
    ledger.insert(victim, charged(results, account(ledger, victim), attacker, amount))
}

pub open spec fn ledger_view(ledger: Map<u16, BTreeMap<u16, Real>>) -> Ledger {
    ledger.map_values(|row: BTreeMap<u16, Real>| row@)
}

/// Whether a worksheet holds all that a charge takes.
pub open spec fn charge_supplied(
    results: Map<Operation, u64>,
    toll: Toll,
    country: u16,
    amount: Real,
) -> bool {
    results.contains_key(Operation::Sum(toll_of(toll, country), amount))
}

fn charge(
    toll: &mut BTreeMap<u16, Real>,
    country: u16,
    amount: Real,
    reader: &mut Reader<'_>,
)
    requires
        old(reader).sound(),
    ensures
        final(reader)@ == old(reader)@,
        final(reader).sound(),
        final(reader).complete() ==> old(reader).complete() && final(toll)@ == charged(
            old(reader)@,
            old(toll)@,
            country,
            amount,
        ),
        old(reader).complete() && charge_supplied(old(reader)@, old(toll)@, country, amount) ==>
            final(reader).complete(),
{
    broadcast use vstd::std_specs::btree::group_btree_axioms;

    let present = match toll.get(&country) {
        Some(amount) => *amount,
        None => Real::zero(),
    };
    let total = reader.sum(present, amount);
    toll.insert(country, total);
}

fn attribute(
    ledger: &mut BTreeMap<u16, BTreeMap<u16, Real>>,
    victim: u16,
    attacker: u16,
    amount: Real,
    reader: &mut Reader<'_>,
)
    requires
        old(reader).sound(),
    ensures
        final(reader)@ == old(reader)@,
        final(reader).sound(),
        final(reader).complete() ==> old(reader).complete() && ledger_view(final(ledger)@)
            == attributed(old(reader)@, ledger_view(old(ledger)@), victim, attacker, amount),
        old(reader).complete() && charge_supplied(
            old(reader)@,
            account(ledger_view(old(ledger)@), victim),
            attacker,
            amount,
        ) ==> final(reader).complete(),
{
    broadcast use vstd::std_specs::btree::group_btree_axioms;

    let ghost before = ledger@;
    let mut row: BTreeMap<u16, Real> = match ledger.remove(&victim) {
        Some(row) => row,
        None => BTreeMap::new(),
    };
    assert(row@ =~= account(ledger_view(before), victim));
    charge(&mut row, attacker, amount, reader);
    let ghost charged_row = row@;
    ledger.insert(victim, row);
    assert(ledger_view(ledger@) =~= ledger_view(before).insert(victim, charged_row));
}

/// A copy of a ledger.
pub fn copy_ledger(ledger: &BTreeMap<u16, BTreeMap<u16, Real>>) -> (copy: BTreeMap<
    u16,
    BTreeMap<u16, Real>,
>)
    ensures
        ledger_view(copy@) == ledger_view(ledger@),
{
    broadcast use vstd::std_specs::btree::group_btree_axioms;

    let keys = ordered_countries(ledger);
    let mut copy: BTreeMap<u16, BTreeMap<u16, Real>> = BTreeMap::new();
    let mut at: usize = 0;
    while at < keys.len()
        invariant
            at <= keys@.len(),
            forall|i: int| 0 <= i < keys@.len() ==> ledger@.contains_key(#[trigger] keys@[i]),
            forall|key: u16|
                #[trigger] copy@.contains_key(key) == keys@.take(at as int).contains(key),
            forall|key: u16|
                #[trigger] copy@.contains_key(key) ==> ledger@.contains_key(key) && copy@[key]@
                    == ledger@[key]@,
        decreases keys@.len() - at,
    {
        broadcast use vstd::std_specs::btree::group_btree_axioms;

        let key: u16 = keys[at];
        let row = ledger.get(&key).unwrap().clone();
        let ghost before = copy@;
        copy.insert(key, row);
        proof {
            assert(keys@.take(at + 1) =~= keys@.take(at as int).push(key));
            assert forall|other: u16| #[trigger] copy@.contains_key(other) == keys@.take(
                at + 1,
            ).contains(other) by {
                crate::order::lemma_push_contains(keys@.take(at as int), key, other);
                assert(before.contains_key(other) == keys@.take(at as int).contains(other));
            }
            assert forall|other: u16| #[trigger] copy@.contains_key(other) implies ledger@
                .contains_key(other) && copy@[other]@ == ledger@[other]@ by {
                if other != key {
                    assert(before.contains_key(other));
                }
            }
        }
        at = at + 1;
    }
    proof {
        assert(keys@.take(keys@.len() as int) =~= keys@);
        assert forall|key: u16| ledger_view(copy@).contains_key(key) == ledger_view(
            ledger@,
        ).contains_key(key) by {
            assert(copy@.contains_key(key) == keys@.contains(key));
            if ledger@.contains_key(key) {
                assert(keys@.contains(key));
            }
        }
        assert(ledger_view(copy@) =~= ledger_view(ledger@));
    }
    copy
}

/// The toll after the first events of a tick: the target's losses first, then the attacker's.
pub open spec fn combat_toll(
    results: Map<Operation, u64>,
    toll: Toll,
    owners: Map<u64, u16>,
    events: Seq<CombatEvent>,
    count: nat,
) -> Toll
    decreases count,
{
    if count == 0 {
        toll
    } else {
        let before = combat_toll(results, toll, owners, events, (count - 1) as nat);
        let event = events[count - 1];
        let hit = if owners.contains_key(event.target_id) {
            charged(
                results,
                before,
                owners[event.target_id],
                integer(results, event.target_personnel_loss),
            )
        } else {
            before
        };
        if owners.contains_key(event.attacker_id) {
            charged(
                results,
                hit,
                owners[event.attacker_id],
                integer(results, event.attacker_personnel_loss),
            )
        } else {
            hit
        }
    }
}

/// Whether a worksheet holds all that charging the losses of one event takes.
pub open spec fn event_supplied(
    results: Map<Operation, u64>,
    before: Toll,
    owners: Map<u64, u16>,
    event: CombatEvent,
) -> bool {
    let hurt = integer(results, event.target_personnel_loss);
    let hit = if owners.contains_key(event.target_id) {
        charged(results, before, owners[event.target_id], hurt)
    } else {
        before
    };
    &&& owners.contains_key(event.target_id) ==> results.contains_key(
        Operation::Integer(event.target_personnel_loss),
    ) && charge_supplied(results, before, owners[event.target_id], hurt)
    &&& owners.contains_key(event.attacker_id) ==> results.contains_key(
        Operation::Integer(event.attacker_personnel_loss),
    ) && charge_supplied(
        results,
        hit,
        owners[event.attacker_id],
        integer(results, event.attacker_personnel_loss),
    )
}

/// Whether a worksheet holds all that the toll of combat takes.
pub open spec fn toll_supplied(
    results: Map<Operation, u64>,
    toll: Toll,
    owners: Map<u64, u16>,
    events: Seq<CombatEvent>,
) -> bool {
    forall|k: int|
        0 <= k < events.len() ==> event_supplied(
            results,
            combat_toll(results, toll, owners, events, k as nat),
            owners,
            #[trigger] events[k],
        )
}

/// The toll after a tick of combat.
pub fn next_casualties(
    previous: &BTreeMap<u16, Real>,
    owners: &BTreeMap<u64, u16>,
    events: &Vec<CombatEvent>,
    reader: &mut Reader<'_>,
) -> (toll: BTreeMap<u16, Real>)
    requires
        old(reader).sound(),
    ensures
        final(reader)@ == old(reader)@,
        final(reader).sound(),
        final(reader).complete() ==> old(reader).complete() && toll@ == combat_toll(
            old(reader)@,
            previous@,
            owners@,
            events@,
            events@.len(),
        ),
        old(reader).complete() && toll_supplied(old(reader)@, previous@, owners@, events@) ==>
            final(reader).complete(),
{
    broadcast use vstd::std_specs::btree::group_btree_axioms;

    let ghost results = reader@;
    let ghost untouched = reader.complete();
    let mut toll = previous.clone();
    let mut at: usize = 0;
    while at < events.len()
        invariant
            at <= events@.len(),
            reader@ == results,
            reader.sound(),
            reader.complete() ==> untouched && toll@ == combat_toll(
                results,
                previous@,
                owners@,
                events@,
                at as nat,
            ),
            untouched && toll_supplied(results, previous@, owners@, events@) ==> reader.complete(),
        decreases events@.len() - at,
    {
        broadcast use vstd::std_specs::btree::group_btree_axioms;

        let event = events[at];
        if let Some(country) = owners.get(&event.target_id) {
            let loss = reader.integer(event.target_personnel_loss);
            charge(&mut toll, *country, loss, reader);
        }
        if let Some(country) = owners.get(&event.attacker_id) {
            let loss = reader.integer(event.attacker_personnel_loss);
            charge(&mut toll, *country, loss, reader);
        }
        at = at + 1;
    }
    toll
}

/// The ledger after one event between two countries.
pub open spec fn combat_entry(
    results: Map<Operation, u64>,
    ledger: Ledger,
    attacker: u16,
    target: u16,
    event: CombatEvent,
) -> Ledger {
    if attacker == target {
        ledger
    } else {
        let hit = if event.target_personnel_loss > 0 {
            attributed(
                results,
                ledger,
                target,
                attacker,
                integer(results, event.target_personnel_loss),
            )
        } else {
            ledger
        };
        if event.attacker_personnel_loss > 0 {
            attributed(
                results,
                hit,
                attacker,
                target,
                integer(results, event.attacker_personnel_loss),
            )
        } else {
            hit
        }
    }
}

/// The ledger after the first events of a tick.
pub open spec fn combat_ledger(
    results: Map<Operation, u64>,
    ledger: Ledger,
    owners: Map<u64, u16>,
    events: Seq<CombatEvent>,
    count: nat,
) -> Ledger
    decreases count,
{
    if count == 0 {
        ledger
    } else {
        let before = combat_ledger(results, ledger, owners, events, (count - 1) as nat);
        let event = events[count - 1];
        if owners.contains_key(event.attacker_id) && owners.contains_key(event.target_id) {
            combat_entry(
                results,
                before,
                owners[event.attacker_id],
                owners[event.target_id],
                event,
            )
        } else {
            before
        }
    }
}

/// Whether a worksheet holds all that attributing the losses of one event takes.
pub open spec fn entry_supplied(
    results: Map<Operation, u64>,
    ledger: Ledger,
    attacker: u16,
    target: u16,
    event: CombatEvent,
) -> bool {
    let hurt = integer(results, event.target_personnel_loss);
    let hit = if event.target_personnel_loss > 0 {
        attributed(results, ledger, target, attacker, hurt)
    } else {
        ledger
    };
    attacker != target ==> {
        &&& event.target_personnel_loss > 0 ==> results.contains_key(
            Operation::Integer(event.target_personnel_loss),
        ) && charge_supplied(results, account(ledger, target), attacker, hurt)
        &&& event.attacker_personnel_loss > 0 ==> results.contains_key(
            Operation::Integer(event.attacker_personnel_loss),
        ) && charge_supplied(
            results,
            account(hit, attacker),
            target,
            integer(results, event.attacker_personnel_loss),
        )
    }
}

/// Whether a worksheet holds all that the ledger of combat takes.
pub open spec fn ledger_supplied(
    results: Map<Operation, u64>,
    ledger: Ledger,
    owners: Map<u64, u16>,
    events: Seq<CombatEvent>,
) -> bool {
    forall|k: int|
        0 <= k < events.len() && owners.contains_key((#[trigger] events[k]).attacker_id)
            && owners.contains_key(events[k].target_id) ==> entry_supplied(
                results,
                combat_ledger(results, ledger, owners, events, k as nat),
                owners[events[k].attacker_id],
                owners[events[k].target_id],
                events[k],
            )
}

/// The ledger after a tick of combat. Countries lose nobody to themselves.
pub fn next_casualties_by_victim(
    previous: &BTreeMap<u16, BTreeMap<u16, Real>>,
    owners: &BTreeMap<u64, u16>,
    events: &Vec<CombatEvent>,
    reader: &mut Reader<'_>,
) -> (ledger: BTreeMap<u16, BTreeMap<u16, Real>>)
    requires
        old(reader).sound(),
    ensures
        final(reader)@ == old(reader)@,
        final(reader).sound(),
        final(reader).complete() ==> old(reader).complete() && ledger_view(ledger@)
            == combat_ledger(
            old(reader)@,
            ledger_view(previous@),
            owners@,
            events@,
            events@.len(),
        ),
        old(reader).complete() && ledger_supplied(
            old(reader)@,
            ledger_view(previous@),
            owners@,
            events@,
        ) ==> final(reader).complete(),
{
    broadcast use vstd::std_specs::btree::group_btree_axioms;

    let ghost results = reader@;
    let ghost untouched = reader.complete();
    let mut ledger = copy_ledger(previous);
    let mut at: usize = 0;
    while at < events.len()
        invariant
            at <= events@.len(),
            reader@ == results,
            reader.sound(),
            reader.complete() ==> untouched && ledger_view(ledger@) == combat_ledger(
                results,
                ledger_view(previous@),
                owners@,
                events@,
                at as nat,
            ),
            untouched && ledger_supplied(results, ledger_view(previous@), owners@, events@)
                ==> reader.complete(),
        decreases events@.len() - at,
    {
        broadcast use vstd::std_specs::btree::group_btree_axioms;

        let event = events[at];
        if let Some(attacker) = owners.get(&event.attacker_id) {
            if let Some(target) = owners.get(&event.target_id) {
                if *attacker != *target {
                    if event.target_personnel_loss > 0 {
                        let loss = reader.integer(event.target_personnel_loss);
                        attribute(&mut ledger, *target, *attacker, loss, reader);
                    }
                    if event.attacker_personnel_loss > 0 {
                        let loss = reader.integer(event.attacker_personnel_loss);
                        attribute(&mut ledger, *attacker, *target, loss, reader);
                    }
                }
            }
        }
        at = at + 1;
    }
    ledger
}

/// The toll after the first results of damage outside combat.
pub open spec fn attrition_toll(
    results: Map<Operation, u64>,
    toll: Toll,
    owners: Map<u64, u16>,
    damage: Seq<DamageResult>,
    count: nat,
) -> Toll
    decreases count,
{
    if count == 0 {
        toll
    } else {
        let before = attrition_toll(results, toll, owners, damage, (count - 1) as nat);
        let result = damage[count - 1];
        if result.personnel_loss > 0 && owners.contains_key(result.unit_id) {
            charged(
                results,
                before,
                owners[result.unit_id],
                integer(results, result.personnel_loss),
            )
        } else {
            before
        }
    }
}

/// Whether a worksheet holds all that the toll of damage takes.
pub open spec fn attrition_supplied(
    results: Map<Operation, u64>,
    toll: Toll,
    owners: Map<u64, u16>,
    damage: Seq<DamageResult>,
) -> bool {
    forall|k: int|
        0 <= k < damage.len() && (#[trigger] damage[k]).personnel_loss > 0 && owners.contains_key(
            damage[k].unit_id,
        ) ==> results.contains_key(Operation::Integer(damage[k].personnel_loss))
            && charge_supplied(
                results,
                attrition_toll(results, toll, owners, damage, k as nat),
                owners[damage[k].unit_id],
                integer(results, damage[k].personnel_loss),
            )
}

pub fn add_attrition_casualties(
    casualties: &mut BTreeMap<u16, Real>,
    owners: &BTreeMap<u64, u16>,
    outcome: Option<&DamageOutcome>,
    reader: &mut Reader<'_>,
)
    requires
        old(reader).sound(),
    ensures
        final(reader)@ == old(reader)@,
        final(reader).sound(),
        final(reader).complete() ==> old(reader).complete() && final(casualties)@ == (
        match outcome {
            Some(damage) => attrition_toll(
                old(reader)@,
                old(casualties)@,
                owners@,
                damage.results@,
                damage.results@.len(),
            ),
            None => old(casualties)@,
        }),
        old(reader).complete() && (outcome matches Some(damage) ==> attrition_supplied(
            old(reader)@,
            old(casualties)@,
            owners@,
            damage.results@,
        )) ==> final(reader).complete(),
{
    broadcast use vstd::std_specs::btree::group_btree_axioms;

    let ghost results = reader@;
    let ghost untouched = reader.complete();
    let ghost before = casualties@;
    if let Some(damage) = outcome {
        let mut at: usize = 0;
        while at < damage.results.len()
            invariant
                at <= damage.results@.len(),
                reader@ == results,
                reader.sound(),
                reader.complete() ==> untouched && casualties@ == attrition_toll(
                    results,
                    before,
                    owners@,
                    damage.results@,
                    at as nat,
                ),
                untouched && attrition_supplied(results, before, owners@, damage.results@)
                    ==> reader.complete(),
            decreases damage.results@.len() - at,
        {
            broadcast use vstd::std_specs::btree::group_btree_axioms;

            let result = damage.results[at];
            if result.personnel_loss > 0 {
                if let Some(country) = owners.get(&result.unit_id) {
                    let loss = reader.integer(result.personnel_loss);
                    charge(casualties, *country, loss, reader);
                }
            }
            at = at + 1;
        }
    }
}

/// The people aboard some aircraft: one each.
pub open spec fn aircrew(results: Map<Operation, u64>, aircraft: u32) -> Real {
    product(results, integer(results, aircraft as u64), integer(results, 1))
}

/// The toll after the first losses of wings.
pub open spec fn aircrew_toll(
    results: Map<Operation, u64>,
    toll: Toll,
    wing_owners: Map<u64, u16>,
    losses: Seq<WingLoss>,
    count: nat,
) -> Toll
    decreases count,
{
    if count == 0 {
        toll
    } else {
        let before = aircrew_toll(results, toll, wing_owners, losses, (count - 1) as nat);
        let loss = losses[count - 1];
        if wing_owners.contains_key(loss.wing_id) {
            charged(
                results,
                before,
                wing_owners[loss.wing_id],
                aircrew(results, loss.aircraft),
            )
        } else {
            before
        }
    }
}

/// Whether a worksheet holds all that counting an aircrew takes.
pub open spec fn aircrew_supplied(results: Map<Operation, u64>, aircraft: u32) -> bool {
    &&& results.contains_key(Operation::Integer(aircraft as u64))
    &&& results.contains_key(Operation::Integer(1))
    &&& results.contains_key(
        Operation::Product(integer(results, aircraft as u64), integer(results, 1)),
    )
}

fn count_aircrew(aircraft: u32, reader: &mut Reader<'_>) -> (people: Real)
    requires
        old(reader).sound(),
    ensures
        final(reader)@ == old(reader)@,
        final(reader).sound(),
        final(reader).complete() ==> old(reader).complete() && people == aircrew(
            old(reader)@,
            aircraft,
        ),
        old(reader).complete() && aircrew_supplied(old(reader)@, aircraft) ==>
            final(reader).complete(),
{
    let lost = reader.integer(aircraft as u64);
    let crew = reader.integer(1);
    reader.product(lost, crew)
}

/// Whether a worksheet holds all that the toll of lost wings takes.
pub open spec fn crews_supplied(
    results: Map<Operation, u64>,
    toll: Toll,
    wing_owners: Map<u64, u16>,
    losses: Seq<WingLoss>,
) -> bool {
    forall|k: int|
        0 <= k < losses.len() && wing_owners.contains_key((#[trigger] losses[k]).wing_id)
            ==> aircrew_supplied(results, losses[k].aircraft) && charge_supplied(
                results,
                aircrew_toll(results, toll, wing_owners, losses, k as nat),
                wing_owners[losses[k].wing_id],
                aircrew(results, losses[k].aircraft),
            )
}

pub fn add_aircrew_casualties(
    casualties: &mut BTreeMap<u16, Real>,
    wing_owners: &BTreeMap<u64, u16>,
    outcome: Option<&AirAdvanceOutcome>,
    reader: &mut Reader<'_>,
)
    requires
        old(reader).sound(),
    ensures
        final(reader)@ == old(reader)@,
        final(reader).sound(),
        final(reader).complete() ==> old(reader).complete() && final(casualties)@ == (
        match outcome {
            Some(air) => aircrew_toll(
                old(reader)@,
                old(casualties)@,
                wing_owners@,
                air.wing_losses@,
                air.wing_losses@.len(),
            ),
            None => old(casualties)@,
        }),
        old(reader).complete() && (outcome matches Some(air) ==> crews_supplied(
            old(reader)@,
            old(casualties)@,
            wing_owners@,
            air.wing_losses@,
        )) ==> final(reader).complete(),
{
    broadcast use vstd::std_specs::btree::group_btree_axioms;

    let ghost results = reader@;
    let ghost untouched = reader.complete();
    let ghost before = casualties@;
    if let Some(air) = outcome {
        let mut at: usize = 0;
        while at < air.wing_losses.len()
            invariant
                at <= air.wing_losses@.len(),
                reader@ == results,
                reader.sound(),
                reader.complete() ==> untouched && casualties@ == aircrew_toll(
                    results,
                    before,
                    wing_owners@,
                    air.wing_losses@,
                    at as nat,
                ),
                untouched && crews_supplied(results, before, wing_owners@, air.wing_losses@)
                    ==> reader.complete(),
            decreases air.wing_losses@.len() - at,
        {
            broadcast use vstd::std_specs::btree::group_btree_axioms;

            let loss = air.wing_losses[at];
            if let Some(country) = wing_owners.get(&loss.wing_id) {
                let people = count_aircrew(loss.aircraft, reader);
                charge(casualties, *country, people, reader);
            }
            at = at + 1;
        }
    }
}

/// The ledger after the first losses of wings.
pub open spec fn aircrew_ledger(
    results: Map<Operation, u64>,
    ledger: Ledger,
    wing_owners: Map<u64, u16>,
    losses: Seq<WingLoss>,
    count: nat,
) -> Ledger
    decreases count,
{
    if count == 0 {
        ledger
    } else {
        let before = aircrew_ledger(results, ledger, wing_owners, losses, (count - 1) as nat);
        let loss = losses[count - 1];
        if wing_owners.contains_key(loss.wing_id) && wing_owners[loss.wing_id] != loss.attacker {
            attributed(
                results,
                before,
                wing_owners[loss.wing_id],
                loss.attacker,
                aircrew(results, loss.aircraft),
            )
        } else {
            before
        }
    }
}

/// A finite amount above zero.
pub open spec fn counts_as_damage(amount: Real) -> bool {
    amount.finite() && real_of(0).lt(amount)
}

/// How much damage each attacker dealt to one unit.
pub open spec fn damage_shares(
    results: Map<Operation, u64>,
    damage: Seq<LandDamage>,
    unit_id: u64,
    count: nat,
) -> Toll
    decreases count,
{
    if count == 0 {
        Map::empty()
    } else {
        let before = damage_shares(results, damage, unit_id, (count - 1) as nat);
        let entry = damage[count - 1];
        if entry.unit_id == unit_id && counts_as_damage(entry.damage) {
            charged(results, before, entry.attacker, entry.damage)
        } else {
            before
        }
    }
}

/// The shares of the first attackers, added up.
pub open spec fn share_total(
    results: Map<Operation, u64>,
    shares: Toll,
    keys: Seq<u16>,
    count: nat,
) -> Real
    decreases count,
{
    if count == 0 {
        real_of(SIGN_BIT)
    } else {
        sum(
            results,
            share_total(results, shares, keys, (count - 1) as nat),
            shares[keys[count - 1]],
        )
    }
}

/// The ledger after the first attackers took their share of a loss.
pub open spec fn shared_loss(
    results: Map<Operation, u64>,
    ledger: Ledger,
    victim: u16,
    loss: u64,
    shares: Toll,
    total: Real,
    keys: Seq<u16>,
    count: nat,
) -> Ledger
    decreases count,
{
    if count == 0 {
        ledger
    } else {
        let before = shared_loss(
            results,
            ledger,
            victim,
            loss,
            shares,
            total,
            keys,
            (count - 1) as nat,
        );
        let attacker = keys[count - 1];
        if attacker != victim {
            attributed(
                results,
                before,
                victim,
                attacker,
                quotient(
                    results,
                    product(results, integer(results, loss), shares[attacker]),
                    total,
                ),
            )
        } else {
            before
        }
    }
}

/// The ledger after one damaged unit's losses were divided among those who dealt the damage.
pub open spec fn divided_loss(
    results: Map<Operation, u64>,
    ledger: Ledger,
    owners: Map<u64, u16>,
    damage: Seq<LandDamage>,
    result: DamageResult,
) -> Ledger {
    let shares = damage_shares(results, damage, result.unit_id, damage.len());
    let keys = ascending(shares.dom());
    let total = share_total(results, shares, keys, keys.len());
    if result.personnel_loss > 0 && keys.len() > 0 && owners.contains_key(result.unit_id)
        && !total.le(real_of(0)) {
        shared_loss(
            results,
            ledger,
            owners[result.unit_id],
            result.personnel_loss,
            shares,
            total,
            keys,
            keys.len(),
        )
    } else {
        ledger
    }
}

/// The ledger after the first damaged units.
pub open spec fn strike_ledger(
    results: Map<Operation, u64>,
    ledger: Ledger,
    owners: Map<u64, u16>,
    damage: Seq<LandDamage>,
    outcome: Seq<DamageResult>,
    count: nat,
) -> Ledger
    decreases count,
{
    if count == 0 {
        ledger
    } else {
        divided_loss(
            results,
            strike_ledger(results, ledger, owners, damage, outcome, (count - 1) as nat),
            owners,
            damage,
            outcome[count - 1],
        )
    }
}

/// Whether a worksheet holds all that the shares of attackers takes.
pub open spec fn shares_supplied(
    results: Map<Operation, u64>,
    damage: Seq<LandDamage>,
    unit_id: u64,
) -> bool {
    forall|k: int|
        0 <= k < damage.len() && (#[trigger] damage[k]).unit_id == unit_id && counts_as_damage(
            damage[k].damage,
        ) ==> charge_supplied(
            results,
            damage_shares(results, damage, unit_id, k as nat),
            damage[k].attacker,
            damage[k].damage,
        )
}

fn gather_shares(damage: &Vec<LandDamage>, unit_id: u64, reader: &mut Reader<'_>) -> (shares:
    BTreeMap<u16, Real>)
    requires
        old(reader).sound(),
    ensures
        final(reader)@ == old(reader)@,
        final(reader).sound(),
        final(reader).complete() ==> old(reader).complete() && shares@ == damage_shares(
            old(reader)@,
            damage@,
            unit_id,
            damage@.len(),
        ),
        old(reader).complete() && shares_supplied(old(reader)@, damage@, unit_id) ==>
            final(reader).complete(),
{
    broadcast use vstd::std_specs::btree::group_btree_axioms;

    let ghost results = reader@;
    let ghost untouched = reader.complete();
    let mut shares: BTreeMap<u16, Real> = BTreeMap::new();
    let mut at: usize = 0;
    while at < damage.len()
        invariant
            at <= damage@.len(),
            reader@ == results,
            reader.sound(),
            reader.complete() ==> untouched && shares@ == damage_shares(
                results,
                damage@,
                unit_id,
                at as nat,
            ),
            untouched && shares_supplied(results, damage@, unit_id) ==> reader.complete(),
        decreases damage@.len() - at,
    {
        let entry = damage[at];
        if entry.unit_id == unit_id && entry.damage.is_finite() && Real::zero().less(
            entry.damage,
        ) {
            charge(&mut shares, entry.attacker, entry.damage, reader);
        }
        at = at + 1;
    }
    shares
}

/// Whether a worksheet holds all that dividing a loss among attackers takes.
pub open spec fn division_supplied(
    results: Map<Operation, u64>,
    ledger: Ledger,
    owners: Map<u64, u16>,
    damage: Seq<LandDamage>,
    result: DamageResult,
) -> bool {
    let shares = damage_shares(results, damage, result.unit_id, damage.len());
    let keys = ascending(shares.dom());
    let total = share_total(results, shares, keys, keys.len());
    let victim = owners[result.unit_id];
    let people = integer(results, result.personnel_loss);
    result.personnel_loss > 0 ==> {
        &&& shares_supplied(results, damage, result.unit_id)
        &&& owners.contains_key(result.unit_id) ==> {
            &&& forall|k: int|
                0 <= k < keys.len() ==> results.contains_key(
                    Operation::Sum(
                        share_total(results, shares, keys, k as nat),
                        shares[#[trigger] keys[k]],
                    ),
                )
            &&& !total.le(real_of(0)) ==> forall|k: int|
                0 <= k < keys.len() && #[trigger] keys[k] != victim ==> ({
                    let weighted = product(results, people, shares[keys[k]]);
                    let before = shared_loss(
                        results,
                        ledger,
                        victim,
                        result.personnel_loss,
                        shares,
                        total,
                        keys,
                        k as nat,
                    );
                    &&& results.contains_key(Operation::Integer(result.personnel_loss))
                    &&& results.contains_key(Operation::Product(people, shares[keys[k]]))
                    &&& results.contains_key(Operation::Quotient(weighted, total))
                    &&& charge_supplied(
                        results,
                        account(before, victim),
                        keys[k],
                        quotient(results, weighted, total),
                    )
                })
        }
    }
}

fn divide_loss(
    ledger: &mut BTreeMap<u16, BTreeMap<u16, Real>>,
    owners: &BTreeMap<u64, u16>,
    damage: &Vec<LandDamage>,
    result: DamageResult,
    reader: &mut Reader<'_>,
)
    requires
        old(reader).sound(),
    ensures
        final(reader)@ == old(reader)@,
        final(reader).sound(),
        final(reader).complete() ==> old(reader).complete() && ledger_view(final(ledger)@)
            == divided_loss(
            old(reader)@,
            ledger_view(old(ledger)@),
            owners@,
            damage@,
            result,
        ),
        old(reader).complete() && division_supplied(
            old(reader)@,
            ledger_view(old(ledger)@),
            owners@,
            damage@,
            result,
        ) ==> final(reader).complete(),
{
    broadcast use vstd::std_specs::btree::group_btree_axioms;

    let ghost results = reader@;
    let ghost untouched = reader.complete();
    let ghost before = ledger_view(ledger@);
    if result.personnel_loss == 0 {
        return ;
    }
    let shares = gather_shares(damage, result.unit_id, reader);
    let keys = ordered_countries(&shares);
    let victim: u16 = match owners.get(&result.unit_id) {
        Some(country) => *country,
        None => {
            return ;
        },
    };
    if keys.len() == 0 {
        return ;
    }
    let mut total = Real::from_bits(SIGN_BIT);
    let mut at: usize = 0;
    while at < keys.len()
        invariant
            at <= keys@.len(),
            reader@ == results,
            reader.sound(),
            forall|i: int| 0 <= i < keys@.len() ==> shares@.contains_key(#[trigger] keys@[i]),
            reader.complete() ==> untouched && shares@ == damage_shares(
                results,
                damage@,
                result.unit_id,
                damage@.len(),
            ) && total == share_total(results, shares@, keys@, at as nat),
            result.personnel_loss > 0,
            owners@.contains_key(result.unit_id),
            victim == owners@[result.unit_id],
            keys@ == ascending(shares@.dom()),
            untouched && division_supplied(
                results,
                before,
                owners@,
                damage@,
                result,
            ) ==> reader.complete(),
        decreases keys@.len() - at,
    {
        broadcast use vstd::std_specs::btree::group_btree_axioms;

        let share = *shares.get(&keys[at]).unwrap();
        total = reader.sum(total, share);
        at = at + 1;
    }
    if total.at_most(Real::zero()) {
        return ;
    }
    let mut index: usize = 0;
    while index < keys.len()
        invariant
            index <= keys@.len(),
            reader@ == results,
            reader.sound(),
            forall|i: int| 0 <= i < keys@.len() ==> shares@.contains_key(#[trigger] keys@[i]),
            reader.complete() ==> untouched && shares@ == damage_shares(
                results,
                damage@,
                result.unit_id,
                damage@.len(),
            ) && total == share_total(results, shares@, keys@, keys@.len()) && ledger_view(
                ledger@,
            ) == shared_loss(
                results,
                before,
                victim,
                result.personnel_loss,
                shares@,
                total,
                keys@,
                index as nat,
            ),
            result.personnel_loss > 0,
            owners@.contains_key(result.unit_id),
            victim == owners@[result.unit_id],
            keys@ == ascending(shares@.dom()),
            reader.complete() ==> !total.le(real_of(0)),
            untouched && division_supplied(
                results,
                before,
                owners@,
                damage@,
                result,
            ) ==> reader.complete(),
        decreases keys@.len() - index,
    {
        broadcast use vstd::std_specs::btree::group_btree_axioms;

        let attacker: u16 = keys[index];
        if attacker != victim {
            let weight = *shares.get(&attacker).unwrap();
            let people = reader.integer(result.personnel_loss);
            let weighted = reader.product(people, weight);
            let part = reader.quotient(weighted, total);
            attribute(ledger, victim, attacker, part, reader);
        }
        index = index + 1;
    }
}

/// The ledger after a tick of air war.
pub open spec fn air_ledger(
    results: Map<Operation, u64>,
    ledger: Ledger,
    owners: Map<u64, u16>,
    wing_owners: Map<u64, u16>,
    outcome: Option<&AirAdvanceOutcome>,
    damage: Option<&DamageOutcome>,
) -> Ledger {
    match outcome {
        None => ledger,
        Some(air) => {
            let aircrews = aircrew_ledger(
                results,
                ledger,
                wing_owners,
                air.wing_losses@,
                air.wing_losses@.len(),
            );
            match damage {
                None => aircrews,
                Some(dealt) => strike_ledger(
                    results,
                    aircrews,
                    owners,
                    air.land_damage@,
                    dealt.results@,
                    dealt.results@.len(),
                ),
            }
        },
    }
}

/// Whether a worksheet holds all that attributing lost aircrews takes.
pub open spec fn aircrews_supplied(
    results: Map<Operation, u64>,
    ledger: Ledger,
    wing_owners: Map<u64, u16>,
    losses: Seq<WingLoss>,
) -> bool {
    forall|k: int|
        0 <= k < losses.len() && wing_owners.contains_key((#[trigger] losses[k]).wing_id)
            && wing_owners[losses[k].wing_id] != losses[k].attacker ==> aircrew_supplied(
                results,
                losses[k].aircraft,
            ) && charge_supplied(
                results,
                account(
                    aircrew_ledger(results, ledger, wing_owners, losses, k as nat),
                    wing_owners[losses[k].wing_id],
                ),
                losses[k].attacker,
                aircrew(results, losses[k].aircraft),
            )
}

/// Whether a worksheet holds all that attributing the losses of strikes takes.
pub open spec fn strikes_supplied(
    results: Map<Operation, u64>,
    ledger: Ledger,
    owners: Map<u64, u16>,
    damage: Seq<LandDamage>,
    outcome: Seq<DamageResult>,
) -> bool {
    forall|k: int|
        0 <= k < outcome.len() ==> division_supplied(
            results,
            strike_ledger(results, ledger, owners, damage, outcome, k as nat),
            owners,
            damage,
            #[trigger] outcome[k],
        )
}

/// Whether a worksheet holds all that attributing air losses takes.
pub open spec fn air_ledger_supplied(
    results: Map<Operation, u64>,
    ledger: Ledger,
    owners: Map<u64, u16>,
    wing_owners: Map<u64, u16>,
    outcome: Option<&AirAdvanceOutcome>,
    damage: Option<&DamageOutcome>,
) -> bool {
    outcome matches Some(air) ==> {
        let losses = air.wing_losses@;
        &&& aircrews_supplied(results, ledger, wing_owners, losses)
        &&& damage matches Some(dealt) ==> strikes_supplied(
            results,
            aircrew_ledger(results, ledger, wing_owners, losses, losses.len()),
            owners,
            air.land_damage@,
            dealt.results@,
        )
    }
}

pub fn add_air_casualty_attribution(
    ledger: &mut BTreeMap<u16, BTreeMap<u16, Real>>,
    owners: &BTreeMap<u64, u16>,
    wing_owners: &BTreeMap<u64, u16>,
    outcome: Option<&AirAdvanceOutcome>,
    damage: Option<&DamageOutcome>,
    reader: &mut Reader<'_>,
)
    requires
        old(reader).sound(),
    ensures
        final(reader)@ == old(reader)@,
        final(reader).sound(),
        final(reader).complete() ==> old(reader).complete() && ledger_view(final(ledger)@)
            == air_ledger(
            old(reader)@,
            ledger_view(old(ledger)@),
            owners@,
            wing_owners@,
            outcome,
            damage,
        ),
        old(reader).complete() && air_ledger_supplied(
            old(reader)@,
            ledger_view(old(ledger)@),
            owners@,
            wing_owners@,
            outcome,
            damage,
        ) ==> final(reader).complete(),
{
    broadcast use vstd::std_specs::btree::group_btree_axioms;

    let ghost results = reader@;
    let ghost untouched = reader.complete();
    let ghost before = ledger_view(ledger@);
    if let Some(air) = outcome {
        let mut at: usize = 0;
        while at < air.wing_losses.len()
            invariant
                at <= air.wing_losses@.len(),
                reader@ == results,
                reader.sound(),
                reader.complete() ==> untouched && ledger_view(ledger@) == aircrew_ledger(
                    results,
                    before,
                    wing_owners@,
                    air.wing_losses@,
                    at as nat,
                ),
                untouched && aircrews_supplied(results, before, wing_owners@, air.wing_losses@)
                    ==> reader.complete(),
            decreases air.wing_losses@.len() - at,
        {
            broadcast use vstd::std_specs::btree::group_btree_axioms;

            let loss = air.wing_losses[at];
            if let Some(victim) = wing_owners.get(&loss.wing_id) {
                if *victim != loss.attacker {
                    let people = count_aircrew(loss.aircraft, reader);
                    attribute(ledger, *victim, loss.attacker, people, reader);
                }
            }
            at = at + 1;
        }
        if let Some(dealt) = damage {
            let ghost aircrews = ledger_view(ledger@);
            let mut index: usize = 0;
            while index < dealt.results.len()
                invariant
                    index <= dealt.results@.len(),
                    reader@ == results,
                    reader.sound(),
                    reader.complete() ==> untouched && aircrews == aircrew_ledger(
                        results,
                        before,
                        wing_owners@,
                        air.wing_losses@,
                        air.wing_losses@.len(),
                    ) && ledger_view(ledger@) == strike_ledger(
                        results,
                        aircrews,
                        owners@,
                        air.land_damage@,
                        dealt.results@,
                        index as nat,
                    ),
                    outcome == Some(air),
                    damage == Some(dealt),
                    untouched && air_ledger_supplied(
                        results,
                        before,
                        owners@,
                        wing_owners@,
                        outcome,
                        damage,
                    ) ==> reader.complete() && strikes_supplied(
                        results,
                        aircrews,
                        owners@,
                        air.land_damage@,
                        dealt.results@,
                    ),
                decreases dealt.results@.len() - index,
            {
                divide_loss(ledger, owners, &air.land_damage, dealt.results[index], reader);
                index = index + 1;
            }
        }
    }
}

} // verus!
