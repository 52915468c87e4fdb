//! What a pay cycle does for a country: operations, repairs, replacements, crews, new formations
//! and wings, and the escape of wings after a defeat.

use vstd::prelude::*;
use crate::air::{AirCountryCoverage, AirRole, AirWing, AirWingState, Airfield};
use crate::economy::EconomyState;
use crate::numbers::{N_100, N_1_5, N_2, N_50};
use crate::reinforcement::{MaterialLogisticsCountry, ReinforcementCountry};
use crate::scalar::{real_of, Real, ONE_BITS};
use crate::settlement::{
    best_field, claim, evacuate_wing, ferry_field, fill_formation, fill_wing, first_field,
    first_wing, funding_of, has_room, payment, purchase_of, raise_armor, raise_wing, repaired,
    stand_down, wanted_formations, wanted_wings, with_coverage, ArmorFill, Evacuation, WingFill,
    AIRFIELD_REPAIR_PER_CYCLE_BITS, FERRY_RANGE_KM_BITS, FUNDED_SHARE_BITS,
};
use crate::units::{SimulationUnit, UnitKind};
use crate::worksheet::{difference, integer, product, quotient, sum, Operation};

verus! {

// ---------------------------------------------------------------------------------------------
// Crews and operations
// ---------------------------------------------------------------------------------------------

/// Crews are found for as many vehicles as are asked for, and for no more than the reserve mans;
/// the men of those crews leave the reserve.
pub proof fn crews_come_from_the_reserve(
    results: Map<Operation, u64>,
    requested: u64,
    crew: Real,
    reserve: Real,
)
    ensures
        ({
            let (claimed, left) = claim(results, requested, crew, reserve);
            let manned = results[Operation::Whole(quotient(results, reserve, crew))];
            &&& claimed <= requested
            &&& claimed <= manned
            &&& claimed == requested || claimed == manned
            &&& left == difference(
                results,
                reserve,
                product(results, integer(results, claimed), crew),
            )
        }),
{
}

/// A country that pays its army and its garrisons and owes less than a cycle pays for its aircraft
/// in the air: one for every hundred fighters, one and a half for every hundred strike aircraft,
/// as far as its treasury goes. Any other country pays nothing and is not funded.
pub proof fn solvent_countries_fly(
    results: Map<Operation, u64>,
    economy: EconomyState,
    fighters: u64,
    strike: u64,
)
    ensures
        ({
            let funding = funding_of(results, economy, fighters, strike);
            let share = real_of(FUNDED_SHARE_BITS);
            let solvent = share.le(economy.payroll_coverage) && share.le(
                economy.occupation_coverage,
            ) && economy.arrears_cycles.lt(real_of(ONE_BITS));
            &&& funding.due == sum(
                results,
                product(
                    results,
                    quotient(results, integer(results, fighters), real_of(N_100)),
                    real_of(ONE_BITS),
                ),
                product(
                    results,
                    quotient(results, integer(results, strike), real_of(N_100)),
                    real_of(N_1_5),
                ),
            )
            &&& !solvent ==> funding.spent == real_of(0) && !funding.fully_funded
            &&& solvent && funding.due.le(economy.treasury) ==> funding.spent == funding.due
                || funding.spent == economy.treasury && funding.due.same(economy.treasury)
            &&& solvent && economy.treasury.lt(funding.due) ==> funding.spent == economy.treasury
            &&& !real_of(0).lt(funding.due) ==> funding.coverage == real_of(ONE_BITS)
            &&& real_of(0).lt(funding.due) ==> funding.coverage == quotient(
                results,
                funding.spent,
                funding.due,
            )
            &&& ({
                let left = difference(results, economy.treasury, funding.spent);
                &&& real_of(0).le(left) ==> funding.treasury == left
                &&& left.lt(real_of(0)) ==> funding.treasury == real_of(0)
            })
            &&& funding.fully_funded ==> share.le(funding.coverage)
            &&& solvent && share.le(funding.coverage) ==> funding.fully_funded
        }),
{
}

// ---------------------------------------------------------------------------------------------
// Repairs and purchases
// ---------------------------------------------------------------------------------------------

/// A cycle of repair: a ruin is cleared for a cycle and opens at half health in the second one; any
/// other damaged field gains a quarter of its health, opens, and never has more than all of it; an
/// intact field is left alone. Where a field lies and whose it is stays.
pub proof fn fields_are_repaired_step_by_step(results: Map<Operation, u64>, field: Airfield)
    ensures
        ({
            let (after, worked) = repaired(results, field);
            let ruin = field.health.le(real_of(0)) && field.capture_repair_cycles < 2;
            let intact = !ruin && real_of(N_100).le(field.health);
            let mended = sum(results, field.health, real_of(AIRFIELD_REPAIR_PER_CYCLE_BITS));
            &&& worked <==> !intact
            &&& intact ==> after == field
            &&& ruin && field.capture_repair_cycles == 0 ==> after.capture_repair_cycles == 1
                && after.health == field.health && after.disabled == field.disabled
            &&& ruin && field.capture_repair_cycles == 1 ==> after.capture_repair_cycles == 2
                && after.health == real_of(N_50) && !after.disabled
            &&& !ruin && !intact ==> {
                &&& !after.disabled
                &&& after.capture_repair_cycles >= 2
                &&& field.capture_repair_cycles >= 2 ==> after.capture_repair_cycles
                    == field.capture_repair_cycles
                &&& after.health.le(real_of(N_100))
                &&& mended.le(real_of(N_100)) ==> after.health.same(mended)
                &&& real_of(N_100).lt(mended) ==> after.health == real_of(N_100)
            }
            &&& after.id == field.id && after.side == field.side
            &&& after.owner_country_id == field.owner_country_id
            &&& after.controller_country_id == field.controller_country_id
            &&& after.lat == field.lat && after.lng == field.lng
            &&& after.capacity == field.capacity && after.capital == field.capital
        }),
{
}

/// A cycle buys what is missing, but no more than a hundredth of what a country may have and no
/// more than its money buys; it buys the most that these three allow.
pub proof fn purchases_are_limited(
    results: Map<Operation, u64>,
    capacity: int,
    current: int,
    cost: Real,
    treasury: Real,
)
    requires
        0 <= capacity,
        0 <= current,
    ensures
        ({
            let bought = purchase_of(results, capacity, current, cost, treasury);
            let money = results[Operation::Whole(
                quotient(results, treasury.max_of(real_of(0)), cost),
            )];
            &&& 0 <= bought
            &&& bought <= capacity / 100
            &&& bought <= money
            &&& current <= capacity ==> bought <= capacity - current
            &&& current > capacity ==> bought == 0
            &&& bought == capacity / 100 || bought == money || bought == capacity - current
                || bought == 0 && current > capacity
        }),
{
}

/// A purchase costs its price for each piece, and takes no more than there is.
pub proof fn purchases_have_a_price(
    results: Map<Operation, u64>,
    treasury: Real,
    count: u64,
    cost: Real,
)
    ensures
        ({
            let (left, spent) = payment(results, treasury, count as int, cost);
            let rest = difference(results, treasury, spent);
            &&& spent == product(results, integer(results, count), cost)
            &&& real_of(0).le(rest) ==> left == rest
            &&& rest.lt(real_of(0)) || rest.nan() ==> left == real_of(0)
        }),
{
}

// ---------------------------------------------------------------------------------------------
// Armored formations
// ---------------------------------------------------------------------------------------------

/// Whether a formation takes new vehicles of a country's stock.
pub open spec fn takes_vehicles(
    unit: SimulationUnit,
    country: u16,
    stock: MaterialLogisticsCountry,
) -> bool {
    &&& unit.combat.kind is Armor
    &&& unit.combat.sovereign == country
    &&& real_of(0).lt(unit.combat.health)
    &&& stock.reserve_armor > 0
}

/// A formation that takes new vehicles is healed to its new share of equipment and no further: its
/// health is what it was or a hundred times that share, whichever is more, and full only where one
/// of them is.
pub proof fn vehicles_heal_by_their_share(
    results: Map<Operation, u64>,
    model: ArmorFill,
    country: u16,
    position: int,
)
    requires
        0 <= position < model.units.len(),
        !model.units[position].combat.health.nan(),
    ensures
        ({
            let unit = model.units[position];
            let after = fill_formation(results, model, country, position);
            let filled = after.units[position];
            let share = quotient(
                results,
                product(results, real_of(N_100), integer(results, filled.combat.equipment)),
                integer(
                    results,
                    if unit.combat.max_equipment > 0 { unit.combat.max_equipment } else { 1 },
                ),
            );
            &&& unit.combat.health.le(filled.combat.health)
            &&& filled.combat.equipment == unit.combat.equipment ==> filled.combat.health
                == unit.combat.health
            &&& filled.combat.equipment != unit.combat.equipment && !share.nan() ==> {
                &&& filled.combat.health.le(unit.combat.health) || filled.combat.health.le(share)
                &&& filled.combat.health.le(unit.combat.health) || filled.combat.health.le(
                    real_of(N_100),
                )
                &&& share.le(real_of(N_100)) ==> share.le(filled.combat.health)
                &&& filled.combat.health == unit.combat.health || filled.combat.health == share
                    || filled.combat.health == real_of(N_100) && real_of(N_100).le(share)
                &&& share.lt(real_of(N_100)) && unit.combat.health.lt(real_of(N_100))
                    ==> filled.combat.health.lt(real_of(N_100))
            }
        }),
{
}

/// Vehicles go only to live armor of the country, as many as it lacks, as there are and as can be
/// crewed, and nothing else of any formation changes.
pub proof fn vehicles_go_to_live_armor(
    results: Map<Operation, u64>,
    model: ArmorFill,
    country: u16,
    position: int,
)
    requires
        0 <= position < model.units.len(),
        model.units[position].combat.equipment <= model.units[position].combat.max_equipment,
    ensures
        ({
            let unit = model.units[position];
            let after = fill_formation(results, model, country, position);
            let filled = after.units[position];
            let lacks = unit.combat.max_equipment - unit.combat.equipment;
            let manned = results[Operation::Whole(quotient(results, model.reserve, real_of(N_2)))];
            &&& !takes_vehicles(unit, country, model.stock) ==> after == model
            &&& after.units.len() == model.units.len()
            &&& forall|i: int|
                0 <= i < model.units.len() && i != position ==> #[trigger] after.units[i]
                    == model.units[i]
            &&& filled == (SimulationUnit {
                combat: crate::units::CombatUnit {
                    equipment: filled.combat.equipment,
                    health: filled.combat.health,
                    ..unit.combat
                },
                ..unit
            })
            &&& takes_vehicles(unit, country, model.stock) ==> {
                let given = filled.combat.equipment - unit.combat.equipment;
                &&& 0 <= given <= lacks
                &&& given <= model.stock.reserve_armor
                &&& given <= manned
                &&& given == lacks || given == model.stock.reserve_armor || given == manned
                &&& after.stock.reserve_armor == model.stock.reserve_armor - given
                &&& model.reinforced + given <= u64::MAX ==> after.reinforced == model.reinforced
                    + given
                &&& after.reserve == difference(
                    results,
                    model.reserve,
                    product(results, integer(results, given as u64), real_of(N_2)),
                )
            }
            &&& after.stock == (MaterialLogisticsCountry {
                reserve_armor: after.stock.reserve_armor,
                ..model.stock
            })
        }),
{
}

/// A country wants a formation for every hundred vehicles begun, and at most a dozen.
pub proof fn formations_wanted(capacity: u64)
    ensures
        ({
            let wanted = wanted_formations(capacity);
            &&& wanted <= 12
            &&& wanted < 12 ==> capacity <= 100 * wanted
            &&& wanted > 0 ==> capacity > 100 * (wanted - 1)
        }),
{
}

/// A country raises an armored formation only where it has fewer than it wants, has vehicles and
/// crews to hand out, has a home, and its side has room. It raises one, at its home, with as many
/// vehicles as an equal part of its capacity, as its stock holds and as can be crewed.
pub proof fn armor_is_raised_at_home(
    results: Map<Operation, u64>,
    units: Seq<SimulationUnit>,
    stock: MaterialLogisticsCountry,
    reserve: Real,
    next_unit_id: u64,
    country: u16,
    side: usize,
    home: Option<(Real, Real)>,
    max_units_per_side: u32,
)
    requires
        units.len() <= u64::MAX,
    ensures
        ({
            let has = units.filter(
                |unit: SimulationUnit|
                    unit.combat.kind == UnitKind::Armor && unit.combat.sovereign == country,
            ).len();
            let sided = units.filter(
                |unit: SimulationUnit| unit.combat.side as usize == side,
            ).len();
            let may = has < wanted_formations(stock.armor_capacity) && stock.reserve_armor > 0
                && sided < max_units_per_side && home is Some;
            raise_armor(
                results,
                units,
                stock,
                reserve,
                next_unit_id,
                country,
                side,
                home,
                max_units_per_side,
            ) matches Ok(raised) ==> {
                &&& raised.outcome.desired_formations == wanted_formations(stock.armor_capacity)
                &&& raised.outcome.formations_before == has
                &&& !may ==> raised.units == units && raised.stock == stock && raised.reserve
                    == reserve && raised.next_unit_id == next_unit_id
                    && raised.outcome.created_unit_id is None
                &&& raised.outcome.created_unit_id is None ==> {
                    &&& raised.units == units && raised.stock == stock
                    &&& raised.next_unit_id == next_unit_id
                    &&& raised.outcome.formations_after == has
                    &&& raised.outcome.created_equipment == 0
                }
                &&& raised.outcome.created_unit_id matches Some(id) ==> {
                    let unit = raised.units.last();
                    &&& id == next_unit_id && raised.next_unit_id == next_unit_id + 1
                    &&& raised.outcome.formations_after == has + 1
                    &&& raised.units.len() == units.len() + 1 && raised.units.drop_last() == units
                    &&& unit.combat.id == id
                    &&& unit.combat.sovereign == country && unit.combat.side == side
                    &&& unit.combat.kind is Armor
                    &&& Some((unit.combat.lat, unit.combat.lng)) == home
                    &&& unit.combat.health == real_of(N_100) && unit.combat.max_health
                        == real_of(N_100)
                    &&& unit.combat.equipment == raised.outcome.created_equipment
                    &&& 0 < unit.combat.equipment <= unit.combat.max_equipment
                    &&& unit.combat.equipment <= stock.reserve_armor
                    &&& unit.combat.quality == stock.armor_quality
                    &&& unit.combat.personnel == 0 && unit.combat.personnel_capacity == 0
                    &&& !unit.combat.at_sea && !unit.combat.transport && !unit.is_support
                    &&& unit.ally_weight == real_of(ONE_BITS)
                    &&& raised.stock == (MaterialLogisticsCountry {
                        reserve_armor: (stock.reserve_armor - unit.combat.equipment) as u64,
                        ..stock
                    })
                    &&& raised.reserve == difference(
                        results,
                        reserve,
                        product(results, integer(results, unit.combat.equipment), real_of(N_2)),
                    )
                }
            }
        }),
{
    reveal(Seq::filter);
    let raised = raise_armor(
        results,
        units,
        stock,
        reserve,
        next_unit_id,
        country,
        side,
        home,
        max_units_per_side,
    );
    units.lemma_filter_len(
        |unit: SimulationUnit|
            unit.combat.kind == UnitKind::Armor && unit.combat.sovereign == country,
    );
    if let Ok(raised) = raised {
        if raised.outcome.created_unit_id is Some {
            assert(raised.units.drop_last() =~= units);
        }
    }
}

// ---------------------------------------------------------------------------------------------
// Wings
// ---------------------------------------------------------------------------------------------

/// A country's wing takes aircraft of its own role: as many as it lacks, as there are and as can be
/// crewed by one man each. The other role, other wings and everything else of the wing stay.
pub proof fn wings_take_aircraft_of_their_role(
    results: Map<Operation, u64>,
    model: WingFill,
    country: u16,
    position: int,
)
    requires
        0 <= position < model.wings.len(),
        model.wings[position].count <= model.wings[position].max_count,
    ensures
        ({
            let wing = model.wings[position];
            let after = fill_wing(results, model, country, position);
            let filled = after.wings[position];
            let given = filled.count - wing.count;
            let manned = results[Operation::Whole(
                quotient(results, model.reserve, real_of(ONE_BITS)),
            )];
            let held = if wing.role is Fighter {
                model.record.reserve_fighters
            } else {
                model.record.reserve_strike
            };
            &&& wing.sovereign_country_id != country ==> after == model
            &&& forall|i: int|
                0 <= i < model.wings.len() && i != position ==> #[trigger] after.wings[i]
                    == model.wings[i]
            &&& filled == (AirWing { count: filled.count, ..wing })
            &&& wing.sovereign_country_id == country ==> {
                &&& 0 <= given <= wing.max_count - wing.count
                &&& given <= held && given <= manned
                &&& given == wing.max_count - wing.count || given == held || given == manned
                &&& after.reserve == difference(
                    results,
                    model.reserve,
                    product(results, integer(results, given as u64), real_of(ONE_BITS)),
                )
                &&& wing.role is Fighter ==> {
                    &&& after.record.reserve_fighters == model.record.reserve_fighters - given
                    &&& after.record.reserve_strike == model.record.reserve_strike
                    &&& after.strike == model.strike
                    &&& model.fighters + given <= u32::MAX ==> after.fighters == model.fighters
                        + given
                }
                &&& wing.role is Strike ==> {
                    &&& after.record.reserve_strike == model.record.reserve_strike - given
                    &&& after.record.reserve_fighters == model.record.reserve_fighters
                    &&& after.fighters == model.fighters
                    &&& model.strike + given <= u32::MAX ==> after.strike == model.strike + given
                }
            }
            &&& after.record == (ReinforcementCountry {
                reserve_fighters: after.record.reserve_fighters,
                reserve_strike: after.record.reserve_strike,
                ..model.record
            })
        }),
{
}

/// A country wants a wing of a role for every two dozen aircraft begun, and at most eight.
pub proof fn wings_wanted(capacity: u32)
    ensures
        ({
            let wanted = wanted_wings(capacity);
            &&& wanted <= 8
            &&& wanted < 8 ==> capacity <= 24 * wanted
            &&& wanted > 0 ==> capacity > 24 * (wanted - 1)
        }),
{
}

/// Whether a field has a place for one more wing of a country: it is open, on the country's side,
/// and its own wings leave room, or guests fill less than half of it.
pub open spec fn place_for(
    wings: Seq<AirWing>,
    field: Airfield,
    country: u16,
    side: usize,
) -> bool {
    let here = wings.filter(
        |wing: AirWing| wing.airfield_id == field.id && wing.state != AirWingState::Evacuated,
    );
    let guests = here.filter(
        |wing: AirWing| wing.sovereign_country_id != field.controller_country_id,
    );
    let places: int = if field.disabled || field.health.le(real_of(0)) {
        0
    } else if field.health.le(real_of(N_50)) && field.capacity > 1 {
        1
    } else {
        field.capacity as int
    };
    &&& field.side == side
    &&& places > 0
    &&& field.controller_country_id == country ==> here.len() < places
    &&& field.controller_country_id != country ==> guests.len() < places / 2
}

proof fn lemma_stationed(wings: Seq<AirWing>, field: Airfield)
    ensures
        wings.filter(
            |wing: AirWing| wing.airfield_id == field.id && wing.state != AirWingState::Evacuated,
        ).len() == crate::air::national_wings(wings, field).len() + crate::air::allied_wings(
            wings,
            field,
        ).len(),
        wings.filter(
            |wing: AirWing| wing.airfield_id == field.id && wing.state != AirWingState::Evacuated,
        ).filter(
            |wing: AirWing| wing.sovereign_country_id != field.controller_country_id,
        ).len() == crate::air::allied_wings(wings, field).len(),
    decreases wings.len(),
{
    reveal(Seq::filter);
    if wings.len() > 0 {
        lemma_stationed(wings.drop_last(), field);
        let here = |wing: AirWing|
            wing.airfield_id == field.id && wing.state != AirWingState::Evacuated;
        let guest = |wing: AirWing| wing.sovereign_country_id != field.controller_country_id;
        let rest = wings.drop_last().filter(here);
        if here(wings.last()) {
            assert(wings.filter(here) == rest.push(wings.last()));
            assert(rest.push(wings.last()).drop_last() =~= rest);
        }
    }
}

/// A field takes one more wing exactly where it has a place for it.
pub proof fn fields_take_wings_where_there_is_a_place(
    wings: Seq<AirWing>,
    field: Airfield,
    country: u16,
    side: usize,
)
    ensures
        has_room(wings, field, country, side) == place_for(wings, field, country, side),
{
    lemma_stationed(wings, field);
}

/// A new wing is stationed on the country's own fields before those of its allies, and among those
/// at the nearest one; of two equally near, at the one with the smaller id.
pub proof fn wings_are_stationed_near_and_at_home(
    results: Map<Operation, u64>,
    wings: Seq<AirWing>,
    fields: Seq<Airfield>,
    country: u16,
    side: usize,
    lat: Real,
    lng: Real,
    count: int,
)
    requires
        0 <= count <= fields.len(),
        forall|i: int|
            #![trigger fields[i]]
            0 <= i < fields.len() ==> !real_of(
                results[Operation::Distance(lat, lng, fields[i].lat, fields[i].lng)],
            ).nan(),
    ensures
        ({
            let best = best_field(results, wings, fields, country, side, lat, lng, count);
            let way = |i: int|
                real_of(results[Operation::Distance(lat, lng, fields[i].lat, fields[i].lng)]);
            &&& best is None <==> forall|i: int|
                0 <= i < count ==> !has_room(wings, #[trigger] fields[i], country, side)
            &&& best matches Some(best) ==> {
                &&& exists|i: int|
                    0 <= i < count && has_room(wings, #[trigger] fields[i], country, side)
                        && fields[i].id == best.id && best.distance == way(i) && best.national
                        == (fields[i].controller_country_id == country)
                &&& forall|i: int|
                    0 <= i < count && has_room(wings, #[trigger] fields[i], country, side) ==> {
                        &&& fields[i].controller_country_id == country ==> best.national
                        &&& (fields[i].controller_country_id == country) == best.national
                            ==> best.distance.le(way(i)) && (best.distance.same(way(i)) ==> best.id
                            <= fields[i].id)
                    }
            }
        }),
    decreases count,
{
    if count > 0 {
        wings_are_stationed_near_and_at_home(
            results,
            wings,
            fields,
            country,
            side,
            lat,
            lng,
            count - 1,
        );
        let earlier = best_field(results, wings, fields, country, side, lat, lng, count - 1);
        let best = best_field(results, wings, fields, country, side, lat, lng, count);
        let last = fields[count - 1];
        if best is Some && best == earlier {
            let i = choose|i: int|
                0 <= i < count - 1 && has_room(wings, #[trigger] fields[i], country, side)
                    && fields[i].id == (earlier->0).id && (earlier->0).distance == real_of(
                    results[Operation::Distance(lat, lng, fields[i].lat, fields[i].lng)],
                ) && (earlier->0).national == (fields[i].controller_country_id == country);
            assert(has_room(wings, fields[i], country, side));
        } else if best is Some {
            assert(has_room(wings, last, country, side));
        }
    }
}

/// Where nothing stands in its way a country raises one wing of a role, at the best field, with
/// aircraft and men of its own; otherwise nothing changes and the report says what was lacking.
pub proof fn wings_are_raised_one_at_a_time(
    results: Map<Operation, u64>,
    wings: Seq<AirWing>,
    fields: Seq<Airfield>,
    record: ReinforcementCountry,
    reserve: Real,
    next_wing_id: u64,
    country: u16,
    side: usize,
    role: AirRole,
)
    requires
        wings.len() <= u32::MAX,
    ensures
        ({
            let has = wings.filter(
                |wing: AirWing| wing.sovereign_country_id == country && wing.role == role,
            ).len();
            let shown = wings.filter(
                |wing: AirWing| wing.count > 0 && wing.state != AirWingState::Evacuated,
            ).len();
            let stock = if role is Fighter {
                record.reserve_fighters
            } else {
                record.reserve_strike
            };
            let wanted = wanted_wings(
                if role is Fighter {
                    record.fighter_capacity
                } else {
                    record.strike_capacity
                },
            );
            raise_wing(
                results,
                wings,
                fields,
                record,
                reserve,
                next_wing_id,
                country,
                side,
                role,
            ) matches Ok(raised) ==> {
                let report = raised.outcome;
                &&& report.role == role
                &&& report.desired_wings == wanted
                &&& report.wings_before == has
                &&& report.status is AtDesiredCount <==> has >= wanted
                &&& report.status is NoReserve <==> has < wanted && stock == 0
                &&& report.status is GlobalMarkerCap <==> has < wanted && stock > 0 && shown >= 256
                &&& report.status is Created <==> report.created_wing_id is Some
                &&& !(report.status is Created) ==> {
                    &&& raised.wings == wings && raised.record == record
                    &&& raised.next_wing_id == next_wing_id
                    &&& report.wings_after == has && report.created_aircraft == 0
                    &&& has <= wanted ==> report.remaining_missing_wings == wanted - has
                    &&& has > wanted ==> report.remaining_missing_wings == 0
                }
                &&& report.status is Created ==> {
                    let wing = raised.wings.last();
                    &&& report.created_wing_id == Some(next_wing_id)
                    &&& raised.next_wing_id == next_wing_id + 1
                    &&& report.wings_after == has + 1
                    &&& report.remaining_missing_wings == wanted - has - 1
                    &&& raised.wings.len() == wings.len() + 1 && raised.wings.drop_last() == wings
                    &&& wing.id == next_wing_id
                    &&& wing.side == side && wing.sovereign_country_id == country
                    &&& wing.role == role
                    &&& wing.count == report.created_aircraft && 0 < wing.count <= wing.max_count
                    &&& wing.count <= stock
                    &&& role is Fighter ==> wing.state is Patrol
                        && raised.record.reserve_fighters == record.reserve_fighters - wing.count
                        && raised.record.reserve_strike == record.reserve_strike
                    &&& role is Strike ==> wing.state is Grounded && raised.record.reserve_strike
                        == record.reserve_strike - wing.count && raised.record.reserve_fighters
                        == record.reserve_fighters
                    &&& wing.target_kind is None && wing.target_id is None
                    &&& wing.return_airfield_id is None && wing.next_mission_tick is None
                    &&& wing.rearm_ticks == 0 && wing.cooldown_ticks == 0 && wing.endurance_ticks
                        == 0
                    &&& !wing.force_mission
                    &&& raised.reserve == difference(
                        results,
                        reserve,
                        product(results, integer(results, wing.count as u64), real_of(ONE_BITS)),
                    )
                }
            }
        }),
{
    wings.lemma_filter_len(
        |wing: AirWing| wing.sovereign_country_id == country && wing.role == role,
    );
    if let Ok(raised) = raise_wing(
        results,
        wings,
        fields,
        record,
        reserve,
        next_wing_id,
        country,
        side,
        role,
    ) {
        if raised.outcome.status is Created {
            assert(raised.wings.drop_last() =~= wings);
        }
    }
}

/// Whether a field takes in wings of a defeated country: it lies on the country's side, another
/// country owns and holds it, it is open, and guests fill less than half of it.
pub open spec fn shelters(
    wings: Seq<AirWing>,
    field: Airfield,
    country: u16,
    side: usize,
) -> bool {
    let guests = wings.filter(
        |wing: AirWing|
            wing.airfield_id == field.id && wing.state != AirWingState::Evacuated
                && wing.sovereign_country_id != field.controller_country_id,
    );
    let places: int = if field.disabled || field.health.le(real_of(0)) {
        0
    } else if field.health.le(real_of(N_50)) && field.capacity > 1 {
        1
    } else {
        field.capacity as int
    };
    &&& field.side == side
    &&& field.controller_country_id != country && field.owner_country_id != country
    &&& guests.len() < places / 2
}

/// How far a wing flies to a field.
pub open spec fn flight(results: Map<Operation, u64>, wing: AirWing, field: Airfield) -> Real {
    real_of(results[Operation::Distance(wing.lat, wing.lng, field.lat, field.lng)])
}

/// Whether a wing of a defeated country can escape to a field.
pub open spec fn in_reach(
    results: Map<Operation, u64>,
    wings: Seq<AirWing>,
    wing: AirWing,
    field: Airfield,
    country: u16,
    side: usize,
) -> bool {
    shelters(wings, field, country, side) && flight(results, wing, field).le(
        real_of(FERRY_RANGE_KM_BITS),
    )
}

/// A wing of a defeated country escapes to the nearest field that shelters it, no further than it
/// can be ferried; of two equally near, to the one with the smaller id.
pub proof fn wings_escape_to_the_nearest_shelter(
    results: Map<Operation, u64>,
    wings: Seq<AirWing>,
    fields: Seq<Airfield>,
    wing: AirWing,
    country: u16,
    side: usize,
    count: int,
)
    requires
        0 <= count <= fields.len(),
    ensures
        ferry_field(results, wings, fields, wing, country, side, count) is None <==> forall|i: int|
            0 <= i < count ==> !in_reach(results, wings, wing, #[trigger] fields[i], country, side),
        ferry_field(results, wings, fields, wing, country, side, count) matches Some(best) ==> {
            &&& exists|i: int|
                0 <= i < count && in_reach(
                    results,
                    wings,
                    wing,
                    #[trigger] fields[i],
                    country,
                    side,
                ) && fields[i].id == best.id && best.distance == flight(results, wing, fields[i])
            &&& forall|i: int|
                0 <= i < count && in_reach(
                    results,
                    wings,
                    wing,
                    #[trigger] fields[i],
                    country,
                    side,
                ) ==> best.distance.le(flight(results, wing, fields[i]))
                    && best.distance.total_rank() <= flight(results, wing, fields[i]).total_rank()
                    && (best.distance == flight(results, wing, fields[i]) ==> best.id
                    <= fields[i].id)
        },
    decreases count,
{
    if count > 0 {
        wings_escape_to_the_nearest_shelter(results, wings, fields, wing, country, side, count - 1);
        let last = fields[count - 1];
        let earlier = ferry_field(results, wings, fields, wing, country, side, count - 1);
        let best = ferry_field(results, wings, fields, wing, country, side, count);
        assert(shelters(wings, last, country, side) == crate::settlement::takes_in(
            wings,
            last,
            country,
            side,
        ));
        if earlier is Some {
            let i = choose|i: int|
                0 <= i < count - 1 && in_reach(
                    results,
                    wings,
                    wing,
                    #[trigger] fields[i],
                    country,
                    side,
                ) && fields[i].id == (earlier->0).id && (earlier->0).distance == flight(
                    results,
                    wing,
                    fields[i],
                );
            assert(in_reach(results, wings, wing, fields[i], country, side));
        }
        if in_reach(results, wings, wing, last, country, side) {
            assert(best is Some);
        }
    }
}

/// What becomes of a wing of a defeated country: with a shelter it stands there, evacuated and
/// without a task, with all its aircraft; without one it is lost with all of them. Wings of others
/// stay.
pub proof fn defeated_wings_escape_or_are_lost(
    results: Map<Operation, u64>,
    model: Evacuation,
    fields: Seq<Airfield>,
    country: u16,
    side: usize,
    position: int,
)
    requires
        0 <= position < model.wings.len(),
    ensures
        ({
            let wing = model.wings[position];
            let after = evacuate_wing(results, model, fields, country, side, position);
            let shelter = ferry_field(
                results,
                model.wings,
                fields,
                wing,
                country,
                side,
                fields.len() as int,
            );
            &&& wing.sovereign_country_id != country ==> after == model
            &&& wing.sovereign_country_id == country ==> match shelter {
                Some(choice) => {
                    let field = first_field(fields, choice.id, 0)->0;
                    let moved = after.wings[position];
                    &&& after.wings.len() == model.wings.len()
                    &&& moved.state is Evacuated
                    &&& moved.airfield_id == choice.id
                    &&& moved.lat == field.lat && moved.lng == field.lng
                    &&& moved.id == wing.id && moved.count == wing.count && moved.max_count
                        == wing.max_count
                    &&& moved.role == wing.role && moved.quality == wing.quality
                    &&& moved.sovereign_country_id == country && moved.side == wing.side
                    &&& moved.target_id is None && moved.target_kind is None
                    &&& moved.return_airfield_id is None && !moved.force_mission
                    &&& moved.rearm_ticks == 0 && moved.endurance_ticks == 0
                    &&& after.evacuated == model.evacuated + wing.count
                    &&& after.lost == model.lost && after.removed == model.removed
                },
                None => {
                    &&& after.wings == model.wings.remove(position)
                    &&& after.lost == model.lost + wing.count
                    &&& after.evacuated == model.evacuated
                    &&& after.removed == model.removed.push(wing.id)
                },
            }
        }),
{
}

/// A wing whose target is gone returns to the ground without a task; every other wing carries on.
pub proof fn wings_without_a_target_stand_down(wings: Seq<AirWing>, removed: Seq<u64>, i: int)
    requires
        0 <= i < wings.len(),
    ensures
        ({
            let wing = wings[i];
            let after = stand_down(wings, removed)[i];
            let aimless = wing.target_id is Some && removed.contains(wing.target_id->0);
            &&& !aimless ==> after == wing
            &&& aimless ==> {
                &&& after.state is Grounded
                &&& after.target_id is None && after.target_kind is None
                &&& after.return_airfield_id is None
                &&& after.rearm_ticks == 0 && after.endurance_ticks == 0
                &&& after.id == wing.id && after.count == wing.count && after.airfield_id
                    == wing.airfield_id && after.sovereign_country_id == wing.sovereign_country_id
            }
        }),
{
}

/// A new wing is looked for and is as good as the country's first wing of the role; failing that,
/// as its first wing of any role.
pub proof fn new_wings_follow_the_first_one(
    results: Map<Operation, u64>,
    wings: Seq<AirWing>,
    fields: Seq<Airfield>,
    record: ReinforcementCountry,
    reserve: Real,
    next_wing_id: u64,
    country: u16,
    side: usize,
    role: AirRole,
)
    ensures
        raise_wing(
            results,
            wings,
            fields,
            record,
            reserve,
            next_wing_id,
            country,
            side,
            role,
        ) matches Ok(raised) ==> (raised.outcome.status is Created ==> {
            let wing = raised.wings.last();
            let like = first_wing(wings, country, Some(role), 0);
            let any = first_wing(wings, country, None, 0);
            let (lat, lng) = match (like, any) {
                (Some(first), _) => (first.lat, first.lng),
                (None, Some(first)) => (first.lat, first.lng),
                _ => (real_of(0), real_of(0)),
            };
            let choice = best_field(
                results,
                wings,
                fields,
                country,
                side,
                lat,
                lng,
                fields.len() as int,
            );
            &&& like matches Some(first) ==> wing.quality == first.quality
            &&& like is None && any is Some ==> wing.quality == (any->0).quality
            &&& like is None && any is None ==> wing.quality == real_of(N_50)
            &&& choice is Some
            &&& ({
                let field = first_field(fields, (choice->0).id, 0)->0;
                wing.airfield_id == field.id && wing.lat == field.lat && wing.lng == field.lng
            })
        }),
{
}

/// The first wing of a country, of a role or of any, is the first in the list that is one.
pub proof fn the_first_wing_comes_first(
    wings: Seq<AirWing>,
    country: u16,
    role: Option<AirRole>,
    from: int,
)
    requires
        0 <= from,
    ensures
        ({
            let fits = |i: int|
                wings[i].sovereign_country_id == country && (role matches Some(wanted)
                    ==> wings[i].role == wanted);
            match first_wing(wings, country, role, from) {
                None => forall|i: int| #![trigger wings[i]] from <= i < wings.len() ==> !fits(i),
                Some(wing) => exists|i: int|
                    #![trigger wings[i]]
                    from <= i < wings.len() && wings[i] == wing && fits(i) && forall|k: int|
                        #![trigger wings[k]]
                        from <= k < i ==> !fits(k),
            }
        }),
    decreases wings.len() - from,
{
    if from < wings.len() {
        the_first_wing_comes_first(wings, country, role, from + 1);
        let fits = |i: int|
            wings[i].sovereign_country_id == country && (role matches Some(wanted)
                ==> wings[i].role == wanted);
        if fits(from) {
            assert(wings[from] == first_wing(wings, country, role, from)->0);
        } else {
            match first_wing(wings, country, role, from + 1) {
                None => {},
                Some(wing) => {
                    let i = choose|i: int|
                        #![trigger wings[i]]
                        from + 1 <= i < wings.len() && wings[i] == wing && fits(i) && forall|k: int|
                            #![trigger wings[k]]
                            from + 1 <= k < i ==> !fits(k);
                    assert(wings[i] == wing && fits(i));
                },
            }
        }
    }
}

/// The funding of a country is written down once, in its own place; without a place it is refused.
pub proof fn coverage_is_kept_by_country(
    coverage: Seq<AirCountryCoverage>,
    country: u16,
    share: Real,
)
    ensures
        match with_coverage(coverage, country, share) {
            None => forall|i: int|
                0 <= i < coverage.len() ==> (#[trigger] coverage[i]).country_id != country,
            Some(after) => {
                &&& after.len() == coverage.len()
                &&& exists|i: int|
                    0 <= i < coverage.len() && (#[trigger] coverage[i]).country_id == country
                        && after[i].country_id == country && after[i].operations_coverage == share
                        && forall|k: int|
                        0 <= k < coverage.len() && k != i ==> #[trigger] after[k] == coverage[k]
            },
        },
{
    lemma_coverage(coverage, country, 0);
    if let Some(after) = with_coverage(coverage, country, share) {
        let at = crate::settlement::coverage_index(coverage, country, 0)->0;
        assert(coverage[at].country_id == country);
    }
}

proof fn lemma_coverage(coverage: Seq<AirCountryCoverage>, country: u16, from: int)
    requires
        0 <= from,
    ensures
        match crate::settlement::coverage_index(coverage, country, from) {
            None => forall|i: int|
                from <= i < coverage.len() ==> (#[trigger] coverage[i]).country_id != country,
            Some(at) => from <= at < coverage.len() && coverage[at].country_id == country,
        },
    decreases coverage.len() - from,
{
    if from < coverage.len() {
        lemma_coverage(coverage, country, from + 1);
    }
}

} // verus!
