//! What a pay cycle comes to for a country: what it pays for, in which order, what it reports,
//! what a defeat leaves it, and with what it all begins.

use vstd::prelude::*;
use crate::air::{AirModel, AirRole, AirWing, Airfield};
use crate::numbers::{N_0_05, N_0_15, N_0_2, N_100};
use crate::paycycle::{
    buy_aircraft, operate_air, operate_country, settle_air_country, settle_material_country,
    upkeep_of, CycleModel,
};
use crate::reinforcement::{
    aircraft_in_wings, armor_in_formations, economy_valid, flying_aircraft, land_unit_fault,
    record_fault, reserve_state_fault, reserves_valid, starting_record, starting_stock, stock_fault,
    topology_valid, wing_room, ArmorTally, MaterialLogisticsCountry, ReinforcementCountry,
};
use crate::scalar::{real_of, Real, ONE_BITS};
use crate::settlement::{funding_of, payment, purchase_of, repairs};
use crate::units::SimulationUnit;
use crate::worksheet::{integer, product, sum, Operation};

verus! {

/// Fighters are bought first, at fifteen hundredths each, and strike aircraft from what is left,
/// at two tenths each; both go to the reserve of their role, and the treasury keeps the rest.
pub proof fn fighters_are_bought_before_strike_aircraft(
    results: Map<Operation, u64>,
    wings: Seq<AirWing>,
    record: ReinforcementCountry,
    treasury: Real,
)
    ensures
        buy_aircraft(results, wings, record, treasury) matches Ok(bought) ==> {
            let owned = |role: AirRole, held: u32|
                held + aircraft_in_wings(wings, record.country_id, role);
            let fighters = purchase_of(
                results,
                record.fighter_capacity as int,
                owned(AirRole::Fighter, record.reserve_fighters),
                real_of(N_0_15),
                treasury,
            );
            let left = payment(results, treasury, fighters, real_of(N_0_15)).0;
            let strike = purchase_of(
                results,
                record.strike_capacity as int,
                owned(AirRole::Strike, record.reserve_strike),
                real_of(N_0_2),
                left,
            );
            &&& bought.fighters == fighters as u32 && bought.strike == strike as u32
            &&& bought.treasury == payment(results, left, strike, real_of(N_0_2)).0
            &&& bought.fighter_spent == product(
                results,
                integer(results, fighters as u64),
                real_of(N_0_15),
            )
            &&& bought.strike_spent == product(
                results,
                integer(results, strike as u64),
                real_of(N_0_2),
            )
            &&& bought.record.reserve_fighters == (record.reserve_fighters + fighters) as u32
            &&& bought.record.reserve_strike == (record.reserve_strike + strike) as u32
            &&& bought.record == (ReinforcementCountry {
                reserve_fighters: bought.record.reserve_fighters,
                reserve_strike: bought.record.reserve_strike,
                ..record
            })
        },
{
}

/// A country repairs its airfields first, then buys armor at a twentieth each, then aircraft, each
/// from what is left, and writes down what it spent on which.
pub proof fn repairs_come_before_replacements(
    results: Map<Operation, u64>,
    units: Seq<SimulationUnit>,
    wings: Seq<AirWing>,
    fields: Seq<Airfield>,
    record: ReinforcementCountry,
    stock: MaterialLogisticsCountry,
    treasury: Real,
)
    ensures
        upkeep_of(results, units, wings, fields, record, stock, treasury) matches Ok(upkeep) ==> {
            let repair = repairs(
                results,
                fields,
                record.country_id,
                treasury,
                fields.len() as int,
            );
            let armor = purchase_of(
                results,
                stock.armor_capacity as int,
                stock.reserve_armor + armor_in_formations(units, stock.country_id as u64),
                real_of(N_0_05),
                repair.treasury,
            );
            let (left, spent) = payment(results, repair.treasury, armor, real_of(N_0_05));
            &&& upkeep.fields == repair.fields && upkeep.repaired == repair.repaired
            &&& upkeep.armor == armor as u64
            &&& upkeep.stock.reserve_armor == (stock.reserve_armor + armor) as u64
            &&& upkeep.stock.armor_replacement_spent == spent
            &&& upkeep.stock.airfield_repair_spent == repair.spent
            &&& upkeep.stock.armor_capacity == stock.armor_capacity && upkeep.stock.armor_quality
                == stock.armor_quality
            &&& buy_aircraft(results, wings, record, left) matches Ok(bought) && {
                &&& upkeep.treasury == bought.treasury
                &&& upkeep.fighters == bought.fighters && upkeep.strike == bought.strike
                &&& upkeep.record.reserve_fighters == bought.record.reserve_fighters
                &&& upkeep.record.reserve_strike == bought.record.reserve_strike
                &&& upkeep.record.replacement_spent == sum(
                    results,
                    sum(results, spent, bought.fighter_spent),
                    bought.strike_spent,
                )
            }
        },
{
}

/// A cycle of a country's air force: what flies is paid for, what is paid for in full may be
/// replaced, and nobody else is touched but its own record, coverage and treasury, and the reserve
/// of its side.
pub proof fn air_forces_are_settled_country_by_country(
    results: Map<Operation, u64>,
    model: CycleModel,
    index: int,
    side: usize,
)
    requires
        0 <= index < model.records.len(),
    ensures
        operate_air(results, model, index, side) matches Ok((after, report)) ==> {
            let country = model.records[index].country_id;
            let economy = model.economies[country];
            let funding = funding_of(
                results,
                economy,
                flying_aircraft(model.wings, country, AirRole::Fighter) as u64,
                flying_aircraft(model.wings, country, AirRole::Strike) as u64,
            );
            &&& report.country_id == country
            &&& report.operations_spent == funding.spent
            &&& !funding.fully_funded ==> report.fighters_purchased == 0 && report.strike_purchased
                == 0 && after.economies[country].treasury == funding.treasury
            &&& funding.fully_funded ==> (buy_aircraft(
                results,
                model.wings,
                ReinforcementCountry {
                    air_operations_due: funding.due,
                    operations_coverage: funding.coverage,
                    replacement_spent: real_of(0),
                    ..model.records[index]
                },
                funding.treasury,
            ) matches Ok(bought) && report.fighters_purchased == bought.fighters
                && report.strike_purchased == bought.strike && after.economies[country].treasury
                == bought.treasury)
            &&& after.economies[country] == (crate::economy::EconomyState {
                treasury: after.economies[country].treasury,
                ..economy
            })
            &&& forall|other: u16|
                other != country && #[trigger] after.economies.contains_key(other)
                    ==> after.economies[other] == model.economies[other]
            &&& forall|other: usize|
                other != side && #[trigger] after.reserves.contains_key(other)
                    ==> after.reserves[other] == model.reserves[other]
            &&& forall|i: int|
                0 <= i < model.records.len() && i != index ==> #[trigger] after.records[i]
                    == model.records[i]
            &&& after.units == model.units && after.fields == model.fields && after.stocks
                == model.stocks
            &&& report.wing_creation.len() == 2 && report.wing_creation[0].role is Fighter
                && report.wing_creation[1].role is Strike
        },
{
    if let Ok((after, report)) = operate_air(results, model, index, side) {
        assert(report.wing_creation.len() == 2);
    }
}

/// A cycle of a country's whole force: likewise, with its airfields, its armor and its formations.
pub proof fn forces_are_settled_country_by_country(
    results: Map<Operation, u64>,
    model: CycleModel,
    index: int,
    side: usize,
    home: Option<(Real, Real)>,
    max_units_per_side: u32,
)
    requires
        0 <= index < model.records.len(),
        0 <= index < model.stocks.len(),
    ensures
        operate_country(results, model, index, side, home, max_units_per_side) matches Ok(
            (after, report),
        ) ==> {
            let country = model.records[index].country_id;
            let economy = model.economies[country];
            let funding = funding_of(
                results,
                economy,
                flying_aircraft(model.wings, country, AirRole::Fighter) as u64,
                flying_aircraft(model.wings, country, AirRole::Strike) as u64,
            );
            let upkeep = upkeep_of(
                results,
                model.units,
                model.wings,
                model.fields,
                ReinforcementCountry {
                    air_operations_due: funding.due,
                    operations_coverage: funding.coverage,
                    replacement_spent: real_of(0),
                    ..model.records[index]
                },
                MaterialLogisticsCountry {
                    armor_replacement_spent: real_of(0),
                    airfield_repair_spent: real_of(0),
                    ..model.stocks[index]
                },
                funding.treasury,
            );
            &&& report.country_id == country && report.air.country_id == country
            &&& report.air.operations_spent == funding.spent
            &&& report.evacuated_aircraft == 0 && report.lost_aircraft == 0
            &&& !funding.fully_funded ==> {
                &&& report.armor_purchased == 0 && report.airfields_repaired == 0
                &&& report.air.fighters_purchased == 0 && report.air.strike_purchased == 0
                &&& after.fields == model.fields
                &&& after.economies[country].treasury == funding.treasury
            }
            &&& funding.fully_funded ==> (upkeep matches Ok(kept) && {
                &&& report.armor_purchased == kept.armor
                &&& report.airfields_repaired == kept.repaired
                &&& report.airfield_repair_spent == kept.stock.airfield_repair_spent
                &&& report.air.fighters_purchased == kept.fighters
                &&& report.air.strike_purchased == kept.strike
                &&& after.fields == kept.fields
                &&& after.economies[country].treasury == kept.treasury
            })
            &&& after.economies[country] == (crate::economy::EconomyState {
                treasury: after.economies[country].treasury,
                ..economy
            })
            &&& forall|other: u16|
                other != country && #[trigger] after.economies.contains_key(other)
                    ==> after.economies[other] == model.economies[other]
            &&& forall|other: usize|
                other != side && #[trigger] after.reserves.contains_key(other)
                    ==> after.reserves[other] == model.reserves[other]
            &&& forall|i: int|
                0 <= i < model.records.len() && i != index ==> #[trigger] after.records[i]
                    == model.records[i]
            &&& forall|i: int|
                0 <= i < model.stocks.len() && i != index ==> #[trigger] after.stocks[i]
                    == model.stocks[i]
        },
{
}

/// A country that gave up pays for nothing in an air cycle: it is not covered and flies nothing,
/// and keeps its treasury, its men and its aircraft.
pub proof fn the_defeated_do_not_fly(
    results: Map<Operation, u64>,
    model: CycleModel,
    index: int,
    side: usize,
)
    requires
        0 <= index < model.records.len(),
        model.economies[model.records[index].country_id].capitulated,
    ensures
        settle_air_country(results, model, index, side) matches Ok((after, report)) ==> {
            let record = after.records[index];
            &&& record.air_operations_due == real_of(0) && record.operations_coverage == real_of(0)
                && record.replacement_spent == real_of(0)
            &&& record.reserve_fighters == model.records[index].reserve_fighters
                && record.reserve_strike == model.records[index].reserve_strike
            &&& after.economies == model.economies && after.reserves == model.reserves
                && after.wings == model.wings
            &&& report.operations_spent == real_of(0) && report.fighters_purchased == 0
                && report.strike_purchased == 0 && report.fighters_reinforced == 0
                && report.strike_reinforced == 0
        },
{
}

/// A country that gave up loses its reserves of aircraft and vehicles in a material cycle; its
/// treasury, its men, its fields and its formations stay.
pub proof fn the_defeated_are_disarmed(
    results: Map<Operation, u64>,
    air_accepted: bool,
    model: CycleModel,
    index: int,
    side: usize,
    home: Option<(Real, Real)>,
    max_units_per_side: u32,
)
    requires
        0 <= index < model.records.len(),
        0 <= index < model.stocks.len(),
        model.economies[model.records[index].country_id].capitulated,
    ensures
        settle_material_country(
            results,
            air_accepted,
            model,
            index,
            side,
            home,
            max_units_per_side,
        ) matches Ok((after, report)) ==> {
            let record = after.records[index];
            &&& air_accepted
            &&& record.reserve_fighters == 0 && record.reserve_strike == 0
            &&& record.operations_coverage == real_of(0)
            &&& after.stocks[index].reserve_armor == 0
            &&& after.economies == model.economies && after.reserves == model.reserves
            &&& after.units == model.units && after.fields == model.fields
            &&& report.armor_purchased == 0 && report.armor_reinforced == 0
                && report.airfields_repaired == 0
            &&& report.armor_creation.created_unit_id is None
            &&& report.air.fighters_purchased == 0 && report.air.operations_spent == real_of(0)
        },
{
}

// ---------------------------------------------------------------------------------------------
// Beginnings
// ---------------------------------------------------------------------------------------------

/// A country begins with room for the aircraft that its wings can hold, nothing in reserve, and
/// paid up.
pub proof fn air_forces_begin_with_their_wings(country: u16, wings: Seq<AirWing>)
    requires
        wing_room(wings, country, AirRole::Fighter) <= u32::MAX,
        wing_room(wings, country, AirRole::Strike) <= u32::MAX,
        wing_room(wings, country, AirRole::Fighter) >= 0,
        wing_room(wings, country, AirRole::Strike) >= 0,
    ensures
        ({
            let record = starting_record(country, wings);
            &&& record.country_id == country
            &&& record.fighter_capacity == wing_room(wings, country, AirRole::Fighter)
            &&& record.strike_capacity == wing_room(wings, country, AirRole::Strike)
            &&& record.reserve_fighters == 0 && record.reserve_strike == 0
            &&& record.operations_coverage == real_of(ONE_BITS)
            &&& record.air_operations_due == real_of(0) && record.replacement_spent == real_of(0)
        }),
{
}

/// A country begins with room for the vehicles that its profile grants or its formations hold,
/// whichever is more, up to fifty thousand, of a quality between nothing and a hundred.
pub proof fn armor_begins_with_its_profile(
    country: u16,
    profile: (u64, Real),
    units: Seq<SimulationUnit>,
)
    requires
        crate::reinforcement::armor_room(units, country as u64) >= 0,
    ensures
        ({
            let stock = starting_stock(country, profile, units);
            let held = crate::reinforcement::armor_room(units, country as u64);
            let wanted: int = if profile.0 >= held { profile.0 as int } else { held };
            &&& stock.country_id == country
            &&& wanted <= 50_000 ==> stock.armor_capacity == wanted
            &&& wanted > 50_000 ==> stock.armor_capacity == 50_000
            &&& stock.reserve_armor == 0
            &&& real_of(0).le(profile.1) && profile.1.le(real_of(N_100)) ==> stock.armor_quality
                == profile.1
            &&& real_of(N_100).lt(profile.1) ==> stock.armor_quality == real_of(N_100)
            &&& profile.1.lt(real_of(0)) ==> stock.armor_quality == real_of(0)
            &&& stock.armor_replacement_spent == real_of(0) && stock.airfield_repair_spent
                == real_of(0)
        }),
{
}

/// A country's record is in order exactly where it names a country, its numbers are amounts and a
/// share, and no more aircraft are held and flown than there is room for.
pub proof fn records_in_order_fit_their_capacity(
    record: ReinforcementCountry,
    wings: Seq<AirWing>,
)
    ensures
        record_fault(record, wings) is None <==> {
            &&& record.country_id != 0
            &&& record.air_operations_due.finite_nonnegative()
            &&& record.operations_coverage.unit_interval()
            &&& record.replacement_spent.finite_nonnegative()
            &&& aircraft_in_wings(wings, record.country_id, AirRole::Fighter)
                + record.reserve_fighters <= record.fighter_capacity
            &&& aircraft_in_wings(wings, record.country_id, AirRole::Strike) + record.reserve_strike
                <= record.strike_capacity
        },
{
}

/// A country's stock is in order exactly where it names a country, its numbers are amounts, its
/// quality lies between nothing and a hundred, and no more vehicles are held and used than there
/// is room for.
pub proof fn stocks_in_order_fit_their_capacity(
    record: MaterialLogisticsCountry,
    units: Seq<SimulationUnit>,
)
    ensures
        stock_fault(record, units) is None <==> {
            &&& record.country_id != 0
            &&& record.armor_capacity <= 50_000
            &&& record.armor_quality.finite() && real_of(0).le(record.armor_quality)
                && record.armor_quality.le(real_of(N_100))
            &&& record.armor_replacement_spent.finite_nonnegative()
            &&& record.airfield_repair_spent.finite_nonnegative()
            &&& armor_in_formations(units, record.country_id as u64) + record.reserve_armor
                <= record.armor_capacity
        },
{
}

/// A formation is in order exactly where its country has a side and it fights on it, and the
/// vehicles of its country can be counted.
pub proof fn formations_in_order_fight_on_their_side(
    units: Seq<SimulationUnit>,
    country_to_side: Map<u16, usize>,
    what: ArmorTally,
    position: int,
)
    requires
        0 <= position < units.len(),
        units[position].combat.kind is Army,
    ensures
        land_unit_fault(units, country_to_side, what, position) is None <==> {
            let combat = units[position].combat;
            &&& combat.sovereign <= u16::MAX
            &&& country_to_side.contains_key(combat.sovereign as u16)
            &&& country_to_side[combat.sovereign as u16] == combat.side as usize
        },
{
}

/// A world is in order where it has sides and countries, and every country a number and a side; an
/// economy where it is its country's own, has money and pays shares; reserves where every side has
/// one.
pub proof fn worlds_in_order_can_be_settled(
    country_to_side: Map<u16, usize>,
    side_count: usize,
    country: u16,
    economy: crate::economy::EconomyState,
    reserves: Map<usize, Real>,
    side: usize,
)
    ensures
        topology_valid(country_to_side, side_count) && country_to_side.contains_key(country)
            ==> country != 0 && country_to_side[country] < side_count,
        economy_valid(country, economy) <==> economy.country_id == country
            && economy.treasury.finite_nonnegative() && economy.payroll_coverage.unit_interval()
            && economy.occupation_coverage.unit_interval()
            && economy.arrears_cycles.finite_nonnegative(),
        reserves_valid(reserves, side_count) ==> (reserves.contains_key(side) <==> side
            < side_count),
        reserves_valid(reserves, side_count) && reserves.contains_key(side)
            ==> reserves[side].finite_nonnegative(),
{
}

/// Air reserves are in order only where the next identifiers are above zero, and the one for wings
/// above the last one that was used.
pub proof fn new_wings_get_new_identifiers(
    schema: Seq<char>,
    next_unit_id: u64,
    next_air_wing_id: u64,
    records: Seq<ReinforcementCountry>,
    air: AirModel,
    air_accepted: bool,
    country_to_side: Map<u16, usize>,
    side_count: usize,
)
    ensures
        reserve_state_fault(
            schema,
            next_unit_id,
            next_air_wing_id,
            records,
            air,
            air_accepted,
            country_to_side,
            side_count,
        ) is None ==> {
            &&& next_unit_id > 0 && next_air_wing_id > 0
            &&& air.wings.len() > 0 ==> air.wings.last().id < next_air_wing_id
            &&& air_accepted
            &&& topology_valid(country_to_side, side_count)
            &&& forall|country: u16| #[trigger]
                country_to_side.contains_key(country) ==> exists|i: int|
                    0 <= i < records.len() && (#[trigger] records[i]).country_id == country
        },
{
    if reserve_state_fault(
        schema,
        next_unit_id,
        next_air_wing_id,
        records,
        air,
        air_accepted,
        country_to_side,
        side_count,
    ) is None {
        let ids = crate::reinforcement::record_ids(records);
        assert forall|country: u16| #[trigger] country_to_side.contains_key(country) implies exists|
            i: int,
        |
            0 <= i < records.len() && (#[trigger] records[i]).country_id == country by {
            assert(ids.to_set().contains(country));
            let i = ids.index_of(country);
            assert(records[i].country_id == country);
        }
    }
}

} // verus!
