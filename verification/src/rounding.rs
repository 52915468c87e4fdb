//! What follows from the rules of rounding: treasuries and reserves are never overdrawn, and the
//! power and readiness of task forces stay within their bounds.

use vstd::prelude::*;
use crate::air::{AirRole, AirWing, Airfield, HUNDRED_BITS};
use crate::casualties::toll_of;
use crate::economy::EconomyState;
use crate::operations::ForceModel;
use crate::paycycle::{
    air_countries_supplied, air_cycle, air_operation_supplied, aircraft_supplied, buy_aircraft,
    defeated_before, home_of, material_countries_supplied, material_cycle, operation_supplied,
    settle_air_countries, settle_air_country, settle_material_countries, settle_material_country,
    upkeep_of, upkeep_supplied, CycleModel,
};
use crate::reinforcement::{
    aircraft_in_wings, armor_in_formations, flying_aircraft, MaterialLogisticsCountry,
    ReinforcementCountry,
};
use crate::runtime::dynamics::side_amount;
use crate::runtime::enlistment::{
    affordable, attempt_supplied, attempted, attempts_made, attempts_supplied, country_strengths,
    first_entry, largest_id, recruit_people, recruited, recruitment_case, recruitment_order,
    recruitment_start, recruitment_supplied, slot_supplied, slots_recruited,
    slots_supplied, sovereigns_fit, treasuries_of, RecruitmentInput, RecruitmentModel,
    RecruitmentSlot, RecruitmentTurn,
};
use crate::runtime::orders::last_aggregate;
use crate::runtime::recruitment::recruitment_plan;
use crate::scalar::{real_of, Real, ONE_BITS};
use crate::settlement::{
    funding_of, funding_supplied, payment, purchase_of, purchase_supplied, repair_supplied, repairs,
    repairs_supplied, AIRFIELD_REPAIR_COST_BITS, ARMOR_REPLACEMENT_COST_BITS,
    FIGHTER_OPERATIONS_PER_100_BITS, FIGHTER_REPLACEMENT_COST_BITS, STRIKE_OPERATIONS_PER_100_BITS,
    STRIKE_REPLACEMENT_COST_BITS,
};
use crate::taskforce::{
    advance_supplied, advanced_force, advanced_forces, advances_supplied, assessed_force,
    loyal_member, member_power, member_readiness, power_supplied, pruned_force, UnitMap,
};
use crate::units::SimulationUnit;
use crate::worksheet::{difference, integer, product, quotient, sum, Operation};

verus! {

/// A number, infinity included, that is not below zero.
pub open spec fn not_below_zero(value: Real) -> bool {
    !value.nan() && value.rank() >= 0
}

/// A number above zero, infinity included.
pub open spec fn above_zero(value: Real) -> bool {
    !value.nan() && value.rank() > 0
}

/// Whether the results on a worksheet keep order and sign, as correct rounding does.
pub open spec fn rounded(results: Map<Operation, u64>) -> bool {
    &&& forall|value: u64| #[trigger]
        results.contains_key(Operation::Integer(value)) ==> integer(
            results,
            value,
        ).finite_nonnegative()
    &&& forall|left: Real, right: Real| #[trigger]
        results.contains_key(Operation::Sum(left, right)) && not_below_zero(left)
            && not_below_zero(right) ==> not_below_zero(sum(results, left, right))
    &&& forall|left: Real, right: Real| #[trigger]
        results.contains_key(Operation::Difference(left, right)) && left.finite_nonnegative()
            && not_below_zero(right) ==> {
            &&& difference(results, left, right).le(left)
            &&& right.le(left) ==> difference(results, left, right).finite_nonnegative()
        }
    &&& forall|left: Real, right: Real| #[trigger]
        results.contains_key(Operation::Product(left, right)) && not_below_zero(left)
            && right.finite() && above_zero(right) ==> not_below_zero(product(results, left, right))
    &&& forall|left: Real, right: Real| #[trigger]
        results.contains_key(Operation::Quotient(left, right)) && left.finite_nonnegative()
            && above_zero(right) ==> {
            &&& not_below_zero(quotient(results, left, right))
            &&& left.le(right) ==> quotient(results, left, right).unit_interval()
        }
}

/// Whether `whole` gives the numbers that stand for integers, as they are read off a worksheet, and
/// counting by shares on that worksheet stays below them. Integers up to `EXACT` are exact.
pub open spec fn counts(results: Map<Operation, u64>, whole: spec_fn(nat) -> Real) -> bool {
    &&& whole(0).rank() == 0
    &&& forall|value: nat| #[trigger] whole(value).finite_nonnegative()
    &&& forall|value: nat| value > 0 ==> (#[trigger] whole(value)).rank() > 0
    &&& forall|value: u64| #[trigger]
        results.contains_key(Operation::Integer(value)) ==> integer(results, value) == whole(
            value as nat,
        )
    &&& forall|low: nat, high: nat|
        low <= high ==> (#[trigger] whole(low)).rank() <= (#[trigger] whole(high)).rank()
    &&& forall|value: nat, left: Real, right: Real|
        #![trigger results.contains_key(Operation::Sum(left, right)), whole(value)]
        results.contains_key(Operation::Sum(left, right)) && value < EXACT && not_below_zero(left)
            && left.le(whole(value)) && right.unit_interval() ==> {
            &&& not_below_zero(sum(results, left, right))
            &&& sum(results, left, right).le(whole(value + 1))
        }
}

/// Up to this integer every one is a number.
pub const EXACT: u64 = 0x20_0000_0000_0000;

// ---------------------------------------------------------------------------------------------
// Treasuries
// ---------------------------------------------------------------------------------------------

/// Air operations are paid within the treasury: what is spent and what is left are between nothing
/// and what was there, and coverage is a share.
pub proof fn operations_are_paid_within_the_treasury(
    results: Map<Operation, u64>,
    economy: EconomyState,
    fighters: u64,
    strike: u64,
)
    requires
        rounded(results),
        funding_supplied(results, economy, fighters, strike),
        economy.treasury.finite_nonnegative(),
    ensures
        ({
            let funding = funding_of(results, economy, fighters, strike);
            &&& not_below_zero(funding.due)
            &&& funding.spent.finite_nonnegative()
            &&& funding.spent.le(economy.treasury)
            &&& funding.treasury.finite_nonnegative()
            &&& funding.treasury.le(economy.treasury)
            &&& funding.coverage.unit_interval()
        }),
{
    let hundred = real_of(HUNDRED_BITS);
    let fighter_share = quotient(results, integer(results, fighters), hundred);
    let strike_share = quotient(results, integer(results, strike), hundred);
    assert(above_zero(hundred));
    assert(above_zero(real_of(FIGHTER_OPERATIONS_PER_100_BITS)));
    assert(above_zero(real_of(STRIKE_OPERATIONS_PER_100_BITS)));
    assert(not_below_zero(fighter_share) && not_below_zero(strike_share));
    let funding = funding_of(results, economy, fighters, strike);
    assert(not_below_zero(funding.due));
    assert(not_below_zero(funding.spent));
    assert(difference(results, economy.treasury, funding.spent).le(economy.treasury));
}

/// Replacements are paid within the treasury: what is left is between nothing and what was there.
pub proof fn purchases_are_paid_within_the_treasury(
    results: Map<Operation, u64>,
    capacity: int,
    current: int,
    cost: Real,
    treasury: Real,
)
    requires
        rounded(results),
        purchase_supplied(results, capacity, current, cost, treasury),
        cost.finite() && above_zero(cost),
        treasury.finite_nonnegative(),
    ensures
        ({
            let bought = purchase_of(results, capacity, current, cost, treasury);
            let (left, spent) = payment(results, treasury, bought, cost);
            &&& not_below_zero(spent)
            &&& left.finite_nonnegative()
            &&& left.le(treasury)
        }),
{
    let count = purchase_of(results, capacity, current, cost, treasury) as u64;
    let spent = product(results, integer(results, count), cost);
    assert(results.contains_key(Operation::Product(integer(results, count), cost)));
    assert(results.contains_key(Operation::Difference(treasury, spent)));
}

/// Repairs are paid within the treasury, field after field: what is left is between nothing and what
/// was there.
pub proof fn repairs_are_paid_within_the_treasury(
    results: Map<Operation, u64>,
    fields: Seq<Airfield>,
    country: u16,
    treasury: Real,
    count: int,
)
    requires
        rounded(results),
        repairs_supplied(results, fields, country, treasury),
        treasury.finite_nonnegative(),
        count <= fields.len(),
    ensures
        repairs(results, fields, country, treasury, count).treasury.finite_nonnegative(),
        repairs(results, fields, country, treasury, count).treasury.le(treasury),
    decreases count,
{
    if count > 0 {
        repairs_are_paid_within_the_treasury(results, fields, country, treasury, count - 1);
        let before = repairs(results, fields, country, treasury, count - 1);
        assert(repair_supplied(results, before, country, count - 1));
        let cost = real_of(AIRFIELD_REPAIR_COST_BITS);
        assert(not_below_zero(cost));
        if !before.treasury.lt(cost) {
            assert(cost.le(before.treasury));
        }
    }
}

/// Whether no country that had an economy before has a treasury below zero or above what it was.
pub open spec fn purses_shrink(
    before: Map<u16, EconomyState>,
    after: Map<u16, EconomyState>,
) -> bool {
    forall|country: u16| #[trigger]
        before.contains_key(country) ==> {
            &&& after.contains_key(country)
            &&& after[country].treasury.finite_nonnegative()
            &&& after[country].treasury.le(before[country].treasury)
        }
}

proof fn lemma_aircraft_within(
    results: Map<Operation, u64>,
    wings: Seq<AirWing>,
    record: ReinforcementCountry,
    treasury: Real,
)
    requires
        rounded(results),
        aircraft_supplied(results, wings, record, treasury),
        treasury.finite_nonnegative(),
    ensures
        buy_aircraft(results, wings, record, treasury) matches Ok(purchase)
            ==> purchase.treasury.finite_nonnegative() && purchase.treasury.le(treasury),
{
    let fighter_cost = real_of(FIGHTER_REPLACEMENT_COST_BITS);
    let strike_cost = real_of(STRIKE_REPLACEMENT_COST_BITS);
    if buy_aircraft(results, wings, record, treasury) is Ok {
        let fighters_owned = record.reserve_fighters + aircraft_in_wings(
            wings,
            record.country_id,
            AirRole::Fighter,
        );
        let strike_owned = record.reserve_strike + aircraft_in_wings(
            wings,
            record.country_id,
            AirRole::Strike,
        );
        let fighters = purchase_of(
            results,
            record.fighter_capacity as int,
            fighters_owned,
            fighter_cost,
            treasury,
        );
        let left = payment(results, treasury, fighters, fighter_cost).0;
        assert(fighter_cost.finite() && above_zero(fighter_cost));
        assert(strike_cost.finite() && above_zero(strike_cost));
        purchases_are_paid_within_the_treasury(
            results,
            record.fighter_capacity as int,
            fighters_owned,
            fighter_cost,
            treasury,
        );
        purchases_are_paid_within_the_treasury(
            results,
            record.strike_capacity as int,
            strike_owned,
            strike_cost,
            left,
        );
    }
}

proof fn lemma_upkeep_within(
    results: Map<Operation, u64>,
    units: Seq<SimulationUnit>,
    wings: Seq<AirWing>,
    fields: Seq<Airfield>,
    record: ReinforcementCountry,
    stock: MaterialLogisticsCountry,
    treasury: Real,
)
    requires
        rounded(results),
        upkeep_supplied(results, units, wings, fields, record, stock, treasury),
        treasury.finite_nonnegative(),
    ensures
        upkeep_of(results, units, wings, fields, record, stock, treasury) matches Ok(upkeep)
            ==> upkeep.treasury.finite_nonnegative() && upkeep.treasury.le(treasury),
{
    let count = fields.len() as int;
    let cost = real_of(ARMOR_REPLACEMENT_COST_BITS);
    assert(cost.finite() && above_zero(cost));
    if upkeep_of(results, units, wings, fields, record, stock, treasury) is Ok {
        repairs_are_paid_within_the_treasury(results, fields, record.country_id, treasury, count);
        let repair = repairs(results, fields, record.country_id, treasury, count);
        let owned = stock.reserve_armor + armor_in_formations(units, stock.country_id as u64);
        let armor = purchase_of(results, stock.armor_capacity as int, owned, cost, repair.treasury);
        purchases_are_paid_within_the_treasury(
            results,
            stock.armor_capacity as int,
            owned,
            cost,
            repair.treasury,
        );
        lemma_aircraft_within(
            results,
            wings,
            record,
            payment(results, repair.treasury, armor, cost).0,
        );
    }
}

proof fn lemma_air_country_within(
    results: Map<Operation, u64>,
    before: Map<u16, EconomyState>,
    model: CycleModel,
    index: int,
    side: usize,
)
    requires
        rounded(results),
        purses_shrink(before, model.economies),
        !model.economies[model.records[index].country_id].capitulated ==> air_operation_supplied(
            results,
            model,
            index,
            side,
        ),
    ensures
        settle_air_country(results, model, index, side) matches Ok((next, _)) ==> purses_shrink(
            before,
            next.economies,
        ),
{
    let record = model.records[index];
    let country = record.country_id;
    let economy = model.economies[country];
    if before.contains_key(country) && !economy.capitulated && settle_air_country(
        results,
        model,
        index,
        side,
    ) is Ok {
        let fighters = flying_aircraft(model.wings, country, AirRole::Fighter) as u64;
        let strike = flying_aircraft(model.wings, country, AirRole::Strike) as u64;
        let funding = funding_of(results, economy, fighters, strike);
        operations_are_paid_within_the_treasury(results, economy, fighters, strike);
        if funding.fully_funded {
            lemma_aircraft_within(
                results,
                model.wings,
                ReinforcementCountry {
                    air_operations_due: funding.due,
                    operations_coverage: funding.coverage,
                    replacement_spent: real_of(0),
                    ..record
                },
                funding.treasury,
            );
        }
    }
}

proof fn lemma_air_countries_within(
    results: Map<Operation, u64>,
    start: CycleModel,
    country_to_side: Map<u16, usize>,
    count: int,
)
    requires
        rounded(results),
        purses_shrink(start.economies, start.economies),
        air_countries_supplied(results, start, country_to_side),
        count <= start.records.len(),
    ensures
        settle_air_countries(results, start, country_to_side, count) matches Ok((model, _))
            ==> purses_shrink(start.economies, model.economies),
    decreases count,
{
    if count > 0 {
        lemma_air_countries_within(results, start, country_to_side, count - 1);
        if let Ok((model, _)) = settle_air_countries(results, start, country_to_side, count - 1) {
            lemma_air_country_within(
                results,
                start.economies,
                model,
                count - 1,
                country_to_side[start.records[count - 1].country_id],
            );
        }
    }
}

/// Over a whole air cycle no treasury rises, and none falls below zero.
pub proof fn air_cycles_never_raise_a_treasury(
    results: Map<Operation, u64>,
    verdicts: Seq<bool>,
    schema: Seq<char>,
    start: CycleModel,
    country_to_side: Map<u16, usize>,
    side_count: usize,
)
    requires
        rounded(results),
        air_countries_supplied(results, start, country_to_side),
        forall|country: u16| #[trigger]
            start.economies.contains_key(country)
                ==> start.economies[country].treasury.finite_nonnegative(),
    ensures
        air_cycle(results, verdicts, schema, start, country_to_side, side_count) matches Ok(
            (model, _),
        ) ==> purses_shrink(start.economies, model.economies),
{
    lemma_air_countries_within(results, start, country_to_side, start.records.len() as int);
}

proof fn lemma_material_country_within(
    results: Map<Operation, u64>,
    before: Map<u16, EconomyState>,
    air_accepted: bool,
    model: CycleModel,
    index: int,
    side: usize,
    home: Option<(Real, Real)>,
    max_units_per_side: u32,
)
    requires
        rounded(results),
        purses_shrink(before, model.economies),
        !model.economies[model.records[index].country_id].capitulated ==> operation_supplied(
            results,
            model,
            index,
            side,
            home,
            max_units_per_side,
        ),
    ensures
        settle_material_country(
            results,
            air_accepted,
            model,
            index,
            side,
            home,
            max_units_per_side,
        ) matches Ok((next, _)) ==> purses_shrink(before, next.economies),
{
    let record = model.records[index];
    let country = record.country_id;
    let economy = model.economies[country];
    if before.contains_key(country) && !economy.capitulated && settle_material_country(
        results,
        air_accepted,
        model,
        index,
        side,
        home,
        max_units_per_side,
    ) is Ok {
        let fighters = flying_aircraft(model.wings, country, AirRole::Fighter) as u64;
        let strike = flying_aircraft(model.wings, country, AirRole::Strike) as u64;
        let funding = funding_of(results, economy, fighters, strike);
        operations_are_paid_within_the_treasury(results, economy, fighters, strike);
        if funding.fully_funded {
            lemma_upkeep_within(
                results,
                model.units,
                model.wings,
                model.fields,
                ReinforcementCountry {
                    air_operations_due: funding.due,
                    operations_coverage: funding.coverage,
                    replacement_spent: real_of(0),
                    ..record
                },
                MaterialLogisticsCountry {
                    armor_replacement_spent: real_of(0),
                    airfield_repair_spent: real_of(0),
                    ..model.stocks[index]
                },
                funding.treasury,
            );
        }
    }
}

proof fn lemma_material_countries_within(
    results: Map<Operation, u64>,
    verdicts: Seq<bool>,
    start: CycleModel,
    country_to_side: Map<u16, usize>,
    homes: Map<u16, (Real, Real)>,
    max_units_per_side: u32,
    count: int,
)
    requires
        rounded(results),
        purses_shrink(start.economies, start.economies),
        material_countries_supplied(
            results,
            verdicts,
            start,
            country_to_side,
            homes,
            max_units_per_side,
        ),
        count <= start.records.len(),
    ensures
        settle_material_countries(
            results,
            verdicts,
            start,
            country_to_side,
            homes,
            max_units_per_side,
            count,
        ) matches Ok((model, _)) ==> purses_shrink(start.economies, model.economies),
    decreases count,
{
    if count > 0 {
        let country = start.records[count - 1].country_id;
        lemma_material_countries_within(
            results,
            verdicts,
            start,
            country_to_side,
            homes,
            max_units_per_side,
            count - 1,
        );
        if let Ok((model, _)) = settle_material_countries(
            results,
            verdicts,
            start,
            country_to_side,
            homes,
            max_units_per_side,
            count - 1,
        ) {
            lemma_material_country_within(
                results,
                start.economies,
                verdicts[1 + defeated_before(start.economies, start.records, count - 1)],
                model,
                count - 1,
                country_to_side[country],
                home_of(homes, country),
                max_units_per_side,
            );
        }
    }
}

/// Over a whole material cycle no treasury rises, and none falls below zero.
pub proof fn material_cycles_never_raise_a_treasury(
    results: Map<Operation, u64>,
    verdicts: Seq<bool>,
    schema: Seq<char>,
    material_schema: Seq<char>,
    start: CycleModel,
    country_to_side: Map<u16, usize>,
    side_count: usize,
    homes: Map<u16, (Real, Real)>,
    max_units_per_side: u32,
)
    requires
        rounded(results),
        material_countries_supplied(
            results,
            verdicts,
            start,
            country_to_side,
            homes,
            max_units_per_side,
        ),
        forall|country: u16| #[trigger]
            start.economies.contains_key(country)
                ==> start.economies[country].treasury.finite_nonnegative(),
    ensures
        material_cycle(
            results,
            verdicts,
            schema,
            material_schema,
            start,
            country_to_side,
            side_count,
            homes,
            max_units_per_side,
        ) matches Ok((model, _)) ==> purses_shrink(start.economies, model.economies),
{
    lemma_material_countries_within(
        results,
        verdicts,
        start,
        country_to_side,
        homes,
        max_units_per_side,
        start.records.len() as int,
    );
}

// ---------------------------------------------------------------------------------------------
// Recruits
// ---------------------------------------------------------------------------------------------

/// Whether no treasury and no reserve is below zero or above what it was.
pub open spec fn within_means(
    reserves: Map<usize, Real>,
    treasuries: Map<u16, Real>,
    after: RecruitmentModel,
) -> bool {
    &&& forall|side: usize| #[trigger]
        side_amount(after.reserves, side).finite_nonnegative() && side_amount(
            after.reserves,
            side,
        ).le(side_amount(reserves, side))
    &&& forall|country: u16| #[trigger]
        toll_of(after.treasuries, country).finite_nonnegative() && toll_of(
            after.treasuries,
            country,
        ).le(toll_of(treasuries, country))
}

proof fn lemma_attempt_within(
    results: Map<Operation, u64>,
    source: RecruitmentInput<'_>,
    reserves: Map<usize, Real>,
    treasuries: Map<u16, Real>,
    model: RecruitmentModel,
    turn: RecruitmentTurn,
)
    requires
        rounded(results),
        source.rules.cost.finite_nonnegative(),
        within_means(reserves, treasuries, model),
        attempt_supplied(results, source, model, turn),
    ensures
        attempted(results, source, model, turn) matches Ok(after) ==> within_means(
            reserves,
            treasuries,
            after,
        ),
{
    if let Ok(after) = attempted(results, source, model, turn) {
        if after.reserves != model.reserves || after.treasuries != model.treasuries {
            let cost = source.rules.cost;
            let men = integer(results, recruit_people(turn));
            let reserve = side_amount(model.reserves, turn.side);
            let treasury = toll_of(model.treasuries, turn.country_id);
            assert(affordable(results, source, model, turn));
            assert(results.contains_key(Operation::Integer(recruit_people(turn))));
            assert(results.contains_key(Operation::Difference(reserve, men)));
            assert(results.contains_key(Operation::Difference(treasury, cost)));
            assert(men.le(reserve) && cost.le(treasury));
            assert forall|side: usize| #[trigger]
                side_amount(after.reserves, side).finite_nonnegative() && side_amount(
                    after.reserves,
                    side,
                ).le(side_amount(reserves, side)) by {
                assert(side_amount(model.reserves, side).finite_nonnegative());
            }
            assert forall|country: u16| #[trigger]
                toll_of(after.treasuries, country).finite_nonnegative() && toll_of(
                    after.treasuries,
                    country,
                ).le(toll_of(treasuries, country)) by {
                assert(toll_of(model.treasuries, country).finite_nonnegative());
            }
        }
    }
}

proof fn lemma_attempts_within(
    results: Map<Operation, u64>,
    source: RecruitmentInput<'_>,
    reserves: Map<usize, Real>,
    treasuries: Map<u16, Real>,
    model: RecruitmentModel,
    turn: RecruitmentTurn,
    count: nat,
    whole: nat,
)
    requires
        rounded(results),
        source.rules.cost.finite_nonnegative(),
        within_means(reserves, treasuries, model),
        attempts_supplied(results, source, model, turn, whole),
        count <= whole,
    ensures
        attempts_made(results, source, model, turn, count) matches Ok(after) ==> within_means(
            reserves,
            treasuries,
            after,
        ),
    decreases count,
{
    if count > 0 {
        let before = (count - 1) as nat;
        lemma_attempts_within(results, source, reserves, treasuries, model, turn, before, whole);
        if let Ok(reached) = attempts_made(results, source, model, turn, before) {
            lemma_attempt_within(results, source, reserves, treasuries, reached, turn);
        }
    }
}

proof fn lemma_slots_within(
    results: Map<Operation, u64>,
    source: RecruitmentInput<'_>,
    reserves: Map<usize, Real>,
    treasuries: Map<u16, Real>,
    strengths: Map<u16, Real>,
    model: RecruitmentModel,
    slots: Seq<RecruitmentSlot>,
    count: nat,
)
    requires
        rounded(results),
        source.rules.cost.finite_nonnegative(),
        within_means(reserves, treasuries, model),
        slots_supplied(results, source, strengths, model, slots),
        count <= slots.len(),
    ensures
        slots_recruited(results, source, strengths, model, slots, count) matches Ok(after)
            ==> within_means(reserves, treasuries, after),
    decreases count,
{
    if count > 0 {
        let before = (count - 1) as nat;
        lemma_slots_within(
            results,
            source,
            reserves,
            treasuries,
            strengths,
            model,
            slots,
            before,
        );
        if let Ok(reached) = slots_recruited(results, source, strengths, model, slots, before) {
            let slot = slots[before as int];
            assert(slot_supplied(results, source, strengths, reached, slot));
            let economy = source.strategic.economies@[slot.country_id];
            let case = recruitment_case(
                source,
                first_entry(source.countries@, slot.country_id, 0)->0,
                last_aggregate(
                    source.aggregates@,
                    slot.country_id,
                    source.aggregates@.len(),
                )->0.controlled,
                economy,
                slot.side,
                toll_of(strengths, slot.country_id),
                side_amount(reached.reserves, slot.side),
            );
            let plan = recruitment_plan(results, case, source.config, source.frame);
            let turn = RecruitmentTurn {
                country_id: slot.country_id,
                side: slot.side,
                economy,
                chance: plan->0.chance,
            };
            if plan is Some && attempts_supplied(
                results,
                source,
                reached,
                turn,
                plan->0.attempts as nat,
            ) {
                lemma_attempts_within(
                    results,
                    source,
                    reserves,
                    treasuries,
                    reached,
                    turn,
                    plan->0.attempts as nat,
                    plan->0.attempts as nat,
                );
            }
        }
    }
}

/// Recruitment stays within its means: over the whole stage no reserve and no treasury rises, and
/// none falls below zero.
pub proof fn recruitment_stays_within_its_means(
    results: Map<Operation, u64>,
    source: RecruitmentInput<'_>,
    next_unit_id: u64,
    reserves: Map<usize, Real>,
)
    requires
        rounded(results),
        recruitment_supplied(results, source, next_unit_id, reserves),
        source.rules.cost.finite_nonnegative(),
        forall|side: usize|
            reserves.contains_key(side) ==> (#[trigger] reserves[side]).finite_nonnegative(),
        forall|country: u16| #[trigger]
            source.strategic.economies@.contains_key(country)
                ==> source.strategic.economies@[country].treasury.finite_nonnegative(),
    ensures
        recruited(results, source, next_unit_id, reserves) matches Ok(after) ==> within_means(
            reserves,
            treasuries_of(source.strategic.economies@),
            after,
        ),
{
    let treasuries = treasuries_of(source.strategic.economies@);
    let start = recruitment_start(source, next_unit_id, reserves);
    let slots = recruitment_order(source.territory.country_to_side@);
    assert(within_means(reserves, treasuries, start)) by {
        assert forall|country: u16| #[trigger]
            toll_of(treasuries, country).finite_nonnegative() by {
            if treasuries.contains_key(country) {
                assert(source.strategic.economies@.contains_key(country));
            }
        }
    }
    if next_unit_id > largest_id(source.units@, source.units@.len()) && sovereigns_fit(
        source.units@,
    ) {
        lemma_slots_within(
            results,
            source,
            reserves,
            treasuries,
            country_strengths(results, source.units@, source.strengths@, source.units@.len()),
            start,
            slots,
            slots.len(),
        );
    }
}

// ---------------------------------------------------------------------------------------------
// Task forces
// ---------------------------------------------------------------------------------------------

proof fn lemma_member_power(
    results: Map<Operation, u64>,
    force: ForceModel,
    by_id: UnitMap,
    count: nat,
)
    requires
        rounded(results),
        power_supplied(results, force.members, by_id),
        count <= force.members.len(),
    ensures
        not_below_zero(member_power(results, force.members, by_id, count)),
    decreases count,
{
    if count > 0 {
        let before = (count - 1) as nat;
        lemma_member_power(results, force, by_id, before);
        let id = force.members[before as int].unit_id;
        if by_id.contains_key(id) {
            assert(not_below_zero(by_id[id].power.max_of(real_of(0))));
        }
    }
}

proof fn lemma_member_readiness(
    results: Map<Operation, u64>,
    whole: spec_fn(nat) -> Real,
    force: ForceModel,
    by_id: UnitMap,
    count: nat,
)
    requires
        counts(results, whole),
        power_supplied(results, force.members, by_id),
        forall|id: u64| #[trigger] by_id.contains_key(id) ==> !by_id[id].readiness.nan(),
        count <= force.members.len() <= EXACT,
    ensures
        not_below_zero(member_readiness(results, force.members, by_id, count)),
        member_readiness(results, force.members, by_id, count).le(whole(count)),
    decreases count,
{
    if count > 0 {
        let before = (count - 1) as nat;
        lemma_member_readiness(results, whole, force, by_id, before);
        let id = force.members[before as int].unit_id;
        let rest = member_readiness(results, force.members, by_id, before);
        assert(whole(before).rank() <= whole(count).rank());
        assert(whole(count).finite_nonnegative());
        if by_id.contains_key(id) {
            let share = by_id[id].readiness.clamp_of(real_of(0), real_of(ONE_BITS));
            assert(share.unit_interval());
            assert(results.contains_key(Operation::Sum(rest, share)));
            assert(sum(results, rest, share).le(whole(before + 1)));
        }
    }
}

/// Whether a force has a power not below zero and a readiness that is a share.
pub open spec fn in_bounds(force: ForceModel) -> bool {
    not_below_zero(force.current_power) && force.readiness.unit_interval()
}

proof fn lemma_assessed_in_bounds(
    results: Map<Operation, u64>,
    whole: spec_fn(nat) -> Real,
    force: ForceModel,
    by_id: UnitMap,
    collapsing: Set<usize>,
    tick: u64,
)
    requires
        rounded(results),
        counts(results, whole),
        advance_supplied(results, force, by_id, collapsing, tick),
        forall|id: u64| #[trigger] by_id.contains_key(id) ==> !by_id[id].readiness.nan(),
        0 < force.members.len() <= EXACT,
    ensures
        in_bounds(advanced_force(results, force, by_id, collapsing, tick)),
{
    let size = force.members.len();
    lemma_member_power(results, force, by_id, size);
    lemma_member_readiness(results, whole, force, by_id, size);
    let total = member_readiness(results, force.members, by_id, size);
    assert(integer(results, size as u64) == whole(size));
    assert(whole(size).rank() > 0 && whole(size).finite_nonnegative());
    assert(total.finite_nonnegative());
    assert(results.contains_key(Operation::Quotient(total, whole(size))));
    assert(in_bounds(assessed_force(results, force, by_id)));
}

/// After a tick every task force has a power not below zero and a readiness that is a share, where
/// the readiness of every formation is a number.
pub proof fn task_forces_stay_in_bounds(
    results: Map<Operation, u64>,
    whole: spec_fn(nat) -> Real,
    forces: Seq<ForceModel>,
    by_id: UnitMap,
    collapsing: Set<usize>,
    tick: u64,
    count: nat,
)
    requires
        rounded(results),
        counts(results, whole),
        advances_supplied(results, forces, by_id, collapsing, tick),
        forall|id: u64| #[trigger] by_id.contains_key(id) ==> !by_id[id].readiness.nan(),
        forall|k: int| 0 <= k < forces.len() ==> (#[trigger] forces[k]).members.len() <= EXACT,
        count <= forces.len(),
    ensures
        forall|i: int|
            0 <= i < advanced_forces(results, forces, by_id, collapsing, tick, count).len()
                ==> in_bounds(
                #[trigger] advanced_forces(results, forces, by_id, collapsing, tick, count)[i],
            ),
    decreases count,
{
    if count > 0 {
        let before = (count - 1) as nat;
        task_forces_stay_in_bounds(results, whole, forces, by_id, collapsing, tick, before);
        let pruned = pruned_force(forces[before as int], by_id);
        assert(advance_supplied(results, pruned, by_id, collapsing, tick));
        assert(pruned.members.len() <= forces[before as int].members.len()) by {
            forces[before as int].members.lemma_filter_len(
                loyal_member(by_id, forces[before as int].side_index),
            );
        }
        if pruned.members.len() > 0 {
            lemma_assessed_in_bounds(results, whole, pruned, by_id, collapsing, tick);
        }
        let rest = advanced_forces(results, forces, by_id, collapsing, tick, before);
        let advanced = advanced_force(results, pruned, by_id, collapsing, tick);
        let all = advanced_forces(results, forces, by_id, collapsing, tick, count);
        assert forall|i: int| 0 <= i < all.len() implies in_bounds(#[trigger] all[i]) by {
            if i < rest.len() {
                assert(all[i] == rest[i]);
            } else {
                assert(all[i] == advanced);
            }
        }
    }
}

} // verus!
