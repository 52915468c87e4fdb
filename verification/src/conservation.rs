//! What pay cycles keep: over a whole cycle no aircraft and no armored vehicle appears or vanishes.

use vstd::prelude::*;
use crate::air::{AirRole, AirWing, Airfield};
use crate::economy::EconomyState;
use crate::order::{
    lemma_strictly_sorted_unique, lemma_total_prefix, lemma_total_push, lemma_total_update,
};
use crate::paycycle::{
    air_cycle, air_reports_follow_country_order, bought_of, buy_aircraft, dissolve_country,
    expand_wings, filling_wings_conserves_aircraft, lemma_filling_keeps_country,
    lemma_purchase_fits, lemma_raising_conserves, lemma_records_fit, material_cycle,
    material_reports_follow_country_order, no_purchase, operate_country, settle_air_countries,
    settle_air_country, settle_material_countries, settle_material_country, upkeep_of, CycleModel,
    MaterialReport, Upkeep,
};
use crate::reinforcement::{
    aircraft_in_wings, armor_in_formations, flying_aircraft, record_ids, stock_fault, stock_ids,
    stocks_fault, MaterialLogisticsCountry, ReinforcementCountry, ReinforcementError,
};
use crate::scalar::{real_of, Real};
use crate::settlement::{
    capacity_of, evacuate_wings, fill_formations, fill_wings, funding_of, raise_armor, raise_wing,
    reserve_of, stand_down, ArmorFill, WingFill,
};
use crate::units::{SimulationUnit, UnitKind};
use crate::worksheet::{sum, Operation};

verus! {

/// The aircraft of one role that a country has, in wings and in reserve.
pub open spec fn aircraft_held(model: CycleModel, at: int, role: AirRole) -> int {
    aircraft_in_wings(model.wings, model.records[at].country_id, role) + reserve_of(
        model.records[at],
        role,
    )
}

/// The armored vehicles that a country has, in formations and in reserve.
pub open spec fn armor_held(model: CycleModel, at: int) -> int {
    armor_in_formations(model.units, model.records[at].country_id as u64)
        + model.stocks[at].reserve_armor
}

/// Every country has one record.
pub open spec fn countries_once(records: Seq<ReinforcementCountry>) -> bool {
    forall|i: int, j: int|
        #![trigger records[i], records[j]]
        0 <= i < j < records.len() ==> records[i].country_id < records[j].country_id
}

/// A formation is still the same one: it may have been filled up.
pub open spec fn same_formation(before: SimulationUnit, after: SimulationUnit) -> bool {
    &&& after.combat.id == before.combat.id
    &&& after.combat.kind == before.combat.kind
    &&& after.combat.sovereign == before.combat.sovereign
    &&& after.combat.side == before.combat.side
    &&& after.combat.max_equipment == before.combat.max_equipment
}

// ---------------------------------------------------------------------------------------------
// Wings of other countries
// ---------------------------------------------------------------------------------------------

proof fn lemma_filling_spares_others(
    results: Map<Operation, u64>,
    start: WingFill,
    country: u16,
    count: int,
    other: u16,
    role: AirRole,
)
    requires
        0 <= count <= start.wings.len(),
        other != country,
    ensures
        fill_wings(results, start, country, count).wings.len() == start.wings.len(),
        aircraft_in_wings(fill_wings(results, start, country, count).wings, other, role)
            == aircraft_in_wings(start.wings, other, role),
    decreases count,
{
    if count > 0 {
        lemma_filling_spares_others(results, start, country, count - 1, other, role);
        let before = fill_wings(results, start, country, count - 1);
        let after = fill_wings(results, start, country, count);
        if before.wings[count - 1].sovereign_country_id == country {
            lemma_total_update(
                before.wings,
                count - 1,
                after.wings[count - 1],
                |wing: AirWing| wing.sovereign_country_id == other && wing.role == role,
                |wing: AirWing| wing.count as int,
            );
        }
    }
}

proof fn lemma_raising_spares_others(
    results: Map<Operation, u64>,
    wings: Seq<AirWing>,
    fields: Seq<Airfield>,
    record: ReinforcementCountry,
    reserve: Real,
    next_wing_id: u64,
    country: u16,
    side: usize,
    raised_role: AirRole,
    other: u16,
    role: AirRole,
)
    requires
        other != country,
    ensures
        raise_wing(
            results,
            wings,
            fields,
            record,
            reserve,
            next_wing_id,
            country,
            side,
            raised_role,
        ) matches Ok(raised) ==> aircraft_in_wings(raised.wings, other, role)
            == aircraft_in_wings(wings, other, role),
{
    if let Ok(raised) = raise_wing(
        results,
        wings,
        fields,
        record,
        reserve,
        next_wing_id,
        country,
        side,
        raised_role,
    ) {
        if raised.outcome.created_wing_id is Some {
            lemma_total_push(
                wings,
                raised.wings.last(),
                |wing: AirWing| wing.sovereign_country_id == other && wing.role == role,
                |wing: AirWing| wing.count as int,
            );
            assert(raised.wings =~= wings.push(raised.wings.last()));
        }
    }
}

/// Wings of a country are filled and raised; what the country and another one have.
proof fn lemma_wings_grow(
    results: Map<Operation, u64>,
    start: WingFill,
    fields: Seq<Airfield>,
    crews: Real,
    next_wing_id: u64,
    side: usize,
    target: u16,
    role: AirRole,
)
    requires
        start.fighters == 0,
        start.strike == 0,
    ensures
        ({
            let country = start.record.country_id;
            let filled = fill_wings(results, start, country, start.wings.len() as int);
            expand_wings(
                results,
                filled.wings,
                fields,
                filled.record,
                crews,
                next_wing_id,
                side,
            ) matches Ok(expansion) ==> {
                &&& expansion.record.country_id == country
                &&& if target == country {
                    aircraft_in_wings(expansion.wings, target, role) + reserve_of(
                        expansion.record,
                        role,
                    ) == aircraft_in_wings(start.wings, target, role) + reserve_of(
                        start.record,
                        role,
                    )
                } else {
                    aircraft_in_wings(expansion.wings, target, role) == aircraft_in_wings(
                        start.wings,
                        target,
                        role,
                    )
                }
            }
        }),
{
    let country = start.record.country_id;
    let count = start.wings.len() as int;
    let filled = fill_wings(results, start, country, count);
    lemma_filling_keeps_country(results, start, country, count);
    if target == country {
        filling_wings_conserves_aircraft(results, start, country, count, role);
    } else {
        lemma_filling_spares_others(results, start, country, count, target, role);
    }
    let fighters = raise_wing(
        results,
        filled.wings,
        fields,
        filled.record,
        crews,
        next_wing_id,
        country,
        side,
        AirRole::Fighter,
    );
    lemma_raising_conserves(
        results,
        filled.wings,
        fields,
        filled.record,
        crews,
        next_wing_id,
        country,
        side,
        AirRole::Fighter,
        role,
    );
    if target != country {
        lemma_raising_spares_others(
            results,
            filled.wings,
            fields,
            filled.record,
            crews,
            next_wing_id,
            country,
            side,
            AirRole::Fighter,
            target,
            role,
        );
    }
    if let Ok(first) = fighters {
        lemma_raising_conserves(
            results,
            first.wings,
            fields,
            first.record,
            first.reserve,
            first.next_wing_id,
            country,
            side,
            AirRole::Strike,
            role,
        );
        if target != country {
            lemma_raising_spares_others(
                results,
                first.wings,
                fields,
                first.record,
                first.reserve,
                first.next_wing_id,
                country,
                side,
                AirRole::Strike,
                target,
                role,
            );
        }
    }
}

// ---------------------------------------------------------------------------------------------
// The air cycle
// ---------------------------------------------------------------------------------------------

/// What one country's turn in an air cycle does to its own aircraft and to those of another.
proof fn lemma_air_turn(
    results: Map<Operation, u64>,
    model: CycleModel,
    index: int,
    side: usize,
    target: u16,
    role: AirRole,
)
    requires
        0 <= index < model.records.len(),
    ensures
        settle_air_country(results, model, index, side) matches Ok((after, report)) ==> {
            let country = model.records[index].country_id;
            &&& after.records == model.records.update(index, after.records[index])
            &&& after.records[index].country_id == country
            &&& target != country ==> aircraft_in_wings(after.wings, target, role)
                == aircraft_in_wings(model.wings, target, role)
            &&& aircraft_held(after, index, role) == aircraft_held(model, index, role) + bought_of(
                report,
                role,
            )
            &&& if model.economies[country].capitulated {
                after.economies == model.economies && after.wings == model.wings
            } else {
                after.economies == model.economies.insert(
                    country,
                    EconomyState {
                        treasury: after.economies[country].treasury,
                        ..model.economies[country]
                    },
                )
            }
        },
{
    if let Ok((after, report)) = settle_air_country(results, model, index, side) {
        let record = model.records[index];
        let country = record.country_id;
        let economy = model.economies[country];
        if !economy.capitulated {
            let fighters = flying_aircraft(model.wings, country, AirRole::Fighter);
            let strike = flying_aircraft(model.wings, country, AirRole::Strike);
            let funding = funding_of(results, economy, fighters as u64, strike as u64);
            let funded = ReinforcementCountry {
                air_operations_due: funding.due,
                operations_coverage: funding.coverage,
                replacement_spent: real_of(0),
                ..record
            };
            let bought = if funding.fully_funded {
                buy_aircraft(results, model.wings, funded, funding.treasury)
            } else {
                Ok(no_purchase(funded, funding.treasury))
            };
            let purchase = bought->Ok_0;
            lemma_purchase_fits(results, model.wings, funded, funding.treasury);
            let paid = if funding.fully_funded {
                ReinforcementCountry {
                    replacement_spent: sum(results, purchase.fighter_spent, purchase.strike_spent),
                    ..purchase.record
                }
            } else {
                purchase.record
            };
            let start = WingFill {
                wings: model.wings,
                record: paid,
                reserve: model.reserves[side],
                fighters: 0,
                strike: 0,
            };
            let filled = fill_wings(results, start, country, model.wings.len() as int);
            lemma_wings_grow(
                results,
                start,
                model.fields,
                filled.reserve,
                model.next_wing_id,
                side,
                country,
                role,
            );
            lemma_wings_grow(
                results,
                start,
                model.fields,
                filled.reserve,
                model.next_wing_id,
                side,
                target,
                role,
            );
            assert(after.records =~= model.records.update(index, after.records[index]));
            assert(after.economies =~= model.economies.insert(
                country,
                EconomyState { treasury: after.economies[country].treasury, ..economy },
            ));
        } else {
            assert(after.records =~= model.records.update(index, after.records[index]));
        }
    }
}

/// The first turns of an air cycle.
proof fn lemma_air_turns(
    results: Map<Operation, u64>,
    start: CycleModel,
    country_to_side: Map<u16, usize>,
    count: int,
    at: int,
    role: AirRole,
)
    requires
        0 <= count <= start.records.len(),
        0 <= at < start.records.len(),
        countries_once(start.records),
    ensures
        settle_air_countries(results, start, country_to_side, count) matches Ok((model, reports))
            ==> {
            let country = start.records[at].country_id;
            &&& reports.len() == count
            &&& model.records.len() == start.records.len()
            &&& record_ids(model.records) == record_ids(start.records)
            &&& aircraft_held(model, at, role) == aircraft_held(start, at, role) + (if at < count {
                bought_of(reports[at], role) as int
            } else {
                0
            })
            &&& at >= count || start.economies[country].capitulated ==> model.economies[country]
                == start.economies[country] && reserve_of(model.records[at], role) == reserve_of(
                start.records[at],
                role,
            )
            &&& model.economies[country] == (EconomyState {
                treasury: model.economies[country].treasury,
                ..start.economies[country]
            })
        },
    decreases count,
{
    if count > 0 {
        lemma_air_turns(results, start, country_to_side, count - 1, at, role);
        if let Ok((model, reports)) = settle_air_countries(
            results,
            start,
            country_to_side,
            count - 1,
        ) {
            let country = start.records[at].country_id;
            let side = country_to_side[start.records[count - 1].country_id];
            air_reports_follow_country_order(results, start, country_to_side, count - 1);
            lemma_air_turn(results, model, count - 1, side, country, role);
            assert(record_ids(model.records)[at] == record_ids(start.records)[at]);
            assert(record_ids(model.records)[count - 1] == record_ids(start.records)[count - 1]);
            if let Ok((next, report)) = settle_air_country(results, model, count - 1, side) {
                assert(record_ids(next.records) =~= record_ids(model.records));
                if at < count - 1 {
                    assert(start.records[at].country_id < start.records[count - 1].country_id);
                    assert(reports.push(report)[at] == reports[at]);
                } else if at > count - 1 {
                    assert(start.records[count - 1].country_id < start.records[at].country_id);
                } else {
                    assert(reports.push(report)[at] == report);
                }
            }
        } else {
            assert(settle_air_countries(results, start, country_to_side, count) is Err);
        }
    } else {
        assert(start.economies[start.records[at].country_id] == (EconomyState {
            treasury: start.economies[start.records[at].country_id].treasury,
            ..start.economies[start.records[at].country_id]
        }));
    }
}

proof fn lemma_listed_once(records: Seq<ReinforcementCountry>, country_to_side: Map<u16, usize>)
    requires
        crate::reinforcement::lists_countries(record_ids(records), country_to_side),
    ensures
        countries_once(records),
{
    let ids = record_ids(records);
    assert forall|i: int, j: int|
        #![trigger records[i], records[j]]
        0 <= i < j < records.len() implies records[i].country_id < records[j].country_id by {
        assert(crate::order::Keyed::sort_key(&ids[i]) < crate::order::Keyed::sort_key(&ids[j]));
    }
}

/// Over a whole air cycle a country neither loses nor finds aircraft: for each role its wings and
/// its reserve grow by what it bought, and stay within its capacity. Its economy changes in nothing
/// but the treasury, and a country that capitulated keeps even that. Reports come in ascending order
/// of countries, one for each.
pub proof fn an_air_cycle_conserves_aircraft(
    results: Map<Operation, u64>,
    verdicts: Seq<bool>,
    schema: Seq<char>,
    start: CycleModel,
    country_to_side: Map<u16, usize>,
    side_count: usize,
    at: int,
    role: AirRole,
)
    requires
        0 <= at < start.records.len(),
    ensures
        air_cycle(results, verdicts, schema, start, country_to_side, side_count) matches Ok(
            (model, reports),
        ) ==> {
            let country = start.records[at].country_id;
            &&& reports.len() == start.records.len()
            &&& reports[at].country_id == country
            &&& countries_once(start.records)
            &&& record_ids(start.records).to_set() == country_to_side.dom()
            &&& model.records[at].country_id == country
            &&& aircraft_held(model, at, role) == aircraft_held(start, at, role) + bought_of(
                reports[at],
                role,
            )
            &&& aircraft_held(model, at, role) <= capacity_of(model.records[at], role)
            &&& model.economies[country] == (EconomyState {
                treasury: model.economies[country].treasury,
                ..start.economies[country]
            })
            &&& start.economies[country].capitulated ==> model.economies[country]
                == start.economies[country] && reserve_of(model.records[at], role) == reserve_of(
                start.records[at],
                role,
            )
        },
{
    if let Ok((model, reports)) = air_cycle(
        results,
        verdicts,
        schema,
        start,
        country_to_side,
        side_count,
    ) {
        let count = start.records.len() as int;
        lemma_listed_once(start.records, country_to_side);
        lemma_air_turns(results, start, country_to_side, count, at, role);
        air_reports_follow_country_order(results, start, country_to_side, count);
        assert(record_ids(model.records)[at] == record_ids(start.records)[at]);
        lemma_records_fit(model.records, model.wings, 0, at);
    }
}

// ---------------------------------------------------------------------------------------------
// The material cycle
// ---------------------------------------------------------------------------------------------

proof fn lemma_formations_fill(
    results: Map<Operation, u64>,
    start: ArmorFill,
    country: u16,
    count: int,
    target: u16,
)
    requires
        0 <= count <= start.units.len(),
    ensures
        ({
            let after = fill_formations(results, start, country, count);
            &&& after.units.len() == start.units.len()
            &&& after.stock == (MaterialLogisticsCountry {
                reserve_armor: after.stock.reserve_armor,
                ..start.stock
            })
            &&& forall|k: int|
                0 <= k < start.units.len() ==> same_formation(start.units[k], #[trigger] after.units[k])
            &&& if target == country {
                armor_in_formations(after.units, target as u64) + after.stock.reserve_armor
                    == armor_in_formations(start.units, target as u64) + start.stock.reserve_armor
            } else {
                armor_in_formations(after.units, target as u64) == armor_in_formations(
                    start.units,
                    target as u64,
                )
            }
        }),
    decreases count,
{
    if count > 0 {
        lemma_formations_fill(results, start, country, count - 1, target);
        let before = fill_formations(results, start, country, count - 1);
        let after = fill_formations(results, start, country, count);
        if after.units != before.units {
            lemma_total_update(
                before.units,
                count - 1,
                after.units[count - 1],
                |unit: SimulationUnit|
                    unit.combat.kind == UnitKind::Armor && unit.combat.sovereign == target as u64,
                |unit: SimulationUnit| unit.combat.equipment as int,
            );
            assert(after.units =~= before.units.update(count - 1, after.units[count - 1]));
        }
        assert forall|k: int| 0 <= k < start.units.len() implies same_formation(
            start.units[k],
            #[trigger] after.units[k],
        ) by {
            assert(same_formation(start.units[k], before.units[k]));
        }
    }
}

proof fn lemma_armor_raised(
    results: Map<Operation, u64>,
    units: Seq<SimulationUnit>,
    stock: MaterialLogisticsCountry,
    reserve: Real,
    next_unit_id: u64,
    country: u16,
    side: usize,
    home: Option<(Real, Real)>,
    max_units_per_side: u32,
    target: u16,
)
    ensures
        raise_armor(
            results,
            units,
            stock,
            reserve,
            next_unit_id,
            country,
            side,
            home,
            max_units_per_side,
        ) matches Ok(raised) ==> {
            &&& raised.stock == (MaterialLogisticsCountry {
                reserve_armor: raised.stock.reserve_armor,
                ..stock
            })
            &&& match raised.outcome.created_unit_id {
                None => raised.units == units && raised.next_unit_id == next_unit_id,
                Some(id) => {
                    &&& id == next_unit_id && raised.next_unit_id == next_unit_id + 1
                    &&& raised.units.len() == units.len() + 1
                    &&& raised.units.drop_last() == units
                    &&& raised.units.last().combat.id == id
                    &&& raised.units.last().combat.sovereign == country
                },
            }
            &&& if target == country {
                armor_in_formations(raised.units, target as u64) + raised.stock.reserve_armor
                    == armor_in_formations(units, target as u64) + stock.reserve_armor
            } else {
                armor_in_formations(raised.units, target as u64) == armor_in_formations(
                    units,
                    target as u64,
                )
            }
        },
{
    if let Ok(raised) = raise_armor(
        results,
        units,
        stock,
        reserve,
        next_unit_id,
        country,
        side,
        home,
        max_units_per_side,
    ) {
        if raised.outcome.created_unit_id is Some {
            lemma_total_push(
                units,
                raised.units.last(),
                |unit: SimulationUnit|
                    unit.combat.kind == UnitKind::Armor && unit.combat.sovereign == target as u64,
                |unit: SimulationUnit| unit.combat.equipment as int,
            );
            assert(raised.units =~= units.push(raised.units.last()));
            assert(raised.units.drop_last() =~= units);
        }
    }
}

proof fn lemma_upkeep_fits(
    results: Map<Operation, u64>,
    units: Seq<SimulationUnit>,
    wings: Seq<AirWing>,
    fields: Seq<Airfield>,
    record: ReinforcementCountry,
    stock: MaterialLogisticsCountry,
    treasury: Real,
)
    ensures
        upkeep_of(results, units, wings, fields, record, stock, treasury) matches Ok(upkeep) ==> {
            &&& upkeep.record.country_id == record.country_id
            &&& upkeep.record.reserve_fighters == record.reserve_fighters + upkeep.fighters
            &&& upkeep.record.reserve_strike == record.reserve_strike + upkeep.strike
            &&& upkeep.stock.country_id == stock.country_id
            &&& upkeep.stock.reserve_armor == stock.reserve_armor + upkeep.armor
        },
{
    let repair = crate::settlement::repairs(
        results,
        fields,
        record.country_id,
        treasury,
        fields.len() as int,
    );
    let owned = stock.reserve_armor + armor_in_formations(units, stock.country_id as u64);
    let armor = crate::settlement::purchase_of(
        results,
        stock.armor_capacity as int,
        owned,
        real_of(crate::settlement::ARMOR_REPLACEMENT_COST_BITS),
        repair.treasury,
    );
    let after_armor = crate::settlement::payment(
        results,
        repair.treasury,
        armor,
        real_of(crate::settlement::ARMOR_REPLACEMENT_COST_BITS),
    ).0;
    lemma_purchase_fits(results, wings, record, after_armor);
    lemma_total_prefix(
        units,
        |unit: SimulationUnit|
            unit.combat.kind == UnitKind::Armor && unit.combat.sovereign
                == stock.country_id as u64,
        |unit: SimulationUnit| unit.combat.equipment as int,
        0,
    );
    assert(armor_in_formations(units, stock.country_id as u64) >= 0);
}

proof fn lemma_evacuation_spares_others(
    results: Map<Operation, u64>,
    wings: Seq<AirWing>,
    fields: Seq<Airfield>,
    country: u16,
    side: usize,
    count: int,
    other: u16,
    role: AirRole,
)
    requires
        0 <= count <= wings.len(),
        other != country,
    ensures
        ({
            let left = evacuate_wings(results, wings, fields, country, side, count).wings;
            &&& left.len() >= wings.len() - count
            &&& forall|k: int|
                0 <= k < wings.len() - count ==> #[trigger] left[k] == wings[k]
            &&& aircraft_in_wings(left, other, role) == aircraft_in_wings(wings, other, role)
        }),
    decreases count,
{
    if count > 0 {
        lemma_evacuation_spares_others(
            results,
            wings,
            fields,
            country,
            side,
            count - 1,
            other,
            role,
        );
        let before = evacuate_wings(results, wings, fields, country, side, count - 1);
        let after = evacuate_wings(results, wings, fields, country, side, count);
        let position = wings.len() - count;
        let keep = |wing: AirWing| wing.sovereign_country_id == other && wing.role == role;
        let amount = |wing: AirWing| wing.count as int;
        let wing = before.wings[position];
        assert(wing == wings[position]);
        if wing.sovereign_country_id == country {
            if after.removed.len() == before.removed.len() {
                lemma_total_update(before.wings, position, after.wings[position], keep, amount);
                assert(after.wings =~= before.wings.update(position, after.wings[position]));
            } else {
                lemma_total_remove(before.wings, position, keep, amount);
            }
        }
    }
}

proof fn lemma_total_remove<T>(
    items: Seq<T>,
    position: int,
    keep: spec_fn(T) -> bool,
    amount: spec_fn(T) -> int,
)
    requires
        0 <= position < items.len(),
        !keep(items[position]),
    ensures
        crate::order::total(items.remove(position), keep, amount) == crate::order::total(
            items,
            keep,
            amount,
        ),
    decreases items.len(),
{
    let shorter = items.drop_last();
    if position == items.len() - 1 {
        assert(items.remove(position) =~= shorter);
    } else {
        lemma_total_remove(shorter, position, keep, amount);
        assert(items.remove(position).drop_last() =~= shorter.remove(position));
        assert(items.remove(position).last() == items.last());
    }
}

proof fn lemma_standing_down_keeps_aircraft(
    wings: Seq<AirWing>,
    removed: Seq<u64>,
    country: u16,
    role: AirRole,
)
    ensures
        aircraft_in_wings(stand_down(wings, removed), country, role) == aircraft_in_wings(
            wings,
            country,
            role,
        ),
    decreases wings.len(),
{
    if wings.len() > 0 {
        lemma_standing_down_keeps_aircraft(wings.drop_last(), removed, country, role);
        assert(stand_down(wings, removed).drop_last() =~= stand_down(wings.drop_last(), removed));
    }
}

/// What the turn of a country that still fights does to its own material and to that of another.
#[verifier::rlimit(40)]
proof fn lemma_working_turn(
    results: Map<Operation, u64>,
    model: CycleModel,
    index: int,
    side: usize,
    home: Option<(Real, Real)>,
    max_units_per_side: u32,
    target: u16,
    role: AirRole,
)
    requires
        0 <= index < model.records.len(),
        model.stocks.len() == model.records.len(),
    ensures
        operate_country(results, model, index, side, home, max_units_per_side) matches Ok(
            (after, report),
        ) ==> {
            let country = model.records[index].country_id;
            &&& after.records == model.records.update(index, after.records[index])
            &&& after.stocks == model.stocks.update(index, after.stocks[index])
            &&& after.records[index].country_id == country
            &&& after.stocks[index].country_id == model.stocks[index].country_id
            &&& target != country ==> aircraft_in_wings(after.wings, target, role)
                == aircraft_in_wings(model.wings, target, role) && armor_in_formations(
                after.units,
                target as u64,
            ) == armor_in_formations(model.units, target as u64)
            &&& aircraft_held(after, index, role) == aircraft_held(model, index, role) + bought_of(
                report.air,
                role,
            )
            &&& armor_held(after, index) == armor_held(model, index) + report.armor_purchased
            &&& formations_follow(model.units, after.units, country, report)
            &&& after.next_unit_id == model.next_unit_id + (after.units.len() - model.units.len())
            &&& after.economies == model.economies.insert(
                country,
                EconomyState {
                    treasury: after.economies[country].treasury,
                    ..model.economies[country]
                },
            )
        },
{
    if let Ok((after, report)) = operate_country(
        results,
        model,
        index,
        side,
        home,
        max_units_per_side,
    ) {
        let record = model.records[index];
        let country = record.country_id;
        let economy = model.economies[country];
        let fighters = flying_aircraft(model.wings, country, AirRole::Fighter);
        let strike = flying_aircraft(model.wings, country, AirRole::Strike);
        let funding = funding_of(results, economy, fighters as u64, strike as u64);
        let funded = ReinforcementCountry {
            air_operations_due: funding.due,
            operations_coverage: funding.coverage,
            replacement_spent: real_of(0),
            ..record
        };
        let fresh = MaterialLogisticsCountry {
            armor_replacement_spent: real_of(0),
            airfield_repair_spent: real_of(0),
            ..model.stocks[index]
        };
        let kept = if funding.fully_funded {
            upkeep_of(
                results,
                model.units,
                model.wings,
                model.fields,
                funded,
                fresh,
                funding.treasury,
            )
        } else {
            Ok::<Upkeep, ReinforcementError>(
                Upkeep {
                    fields: model.fields,
                    record: funded,
                    stock: fresh,
                    treasury: funding.treasury,
                    repaired: 0,
                    armor: 0,
                    fighters: 0,
                    strike: 0,
                },
            )
        };
        let upkeep = kept->Ok_0;
        lemma_upkeep_fits(
            results,
            model.units,
            model.wings,
            model.fields,
            funded,
            fresh,
            funding.treasury,
        );
        let filling = ArmorFill {
            units: model.units,
            stock: upkeep.stock,
            reserve: model.reserves[side],
            reinforced: 0,
        };
        let armored = fill_formations(results, filling, country, model.units.len() as int);
        lemma_formations_fill(results, filling, country, model.units.len() as int, country);
        lemma_formations_fill(results, filling, country, model.units.len() as int, target);
        let start = WingFill {
            wings: model.wings,
            record: upkeep.record,
            reserve: armored.reserve,
            fighters: 0,
            strike: 0,
        };
        let winged = fill_wings(results, start, country, model.wings.len() as int);
        lemma_armor_raised(
            results,
            armored.units,
            armored.stock,
            winged.reserve,
            model.next_unit_id,
            country,
            side,
            home,
            max_units_per_side,
            country,
        );
        lemma_armor_raised(
            results,
            armored.units,
            armored.stock,
            winged.reserve,
            model.next_unit_id,
            country,
            side,
            home,
            max_units_per_side,
            target,
        );
        let raised = raise_armor(
            results,
            armored.units,
            armored.stock,
            winged.reserve,
            model.next_unit_id,
            country,
            side,
            home,
            max_units_per_side,
        )->Ok_0;
        lemma_wings_grow(
            results,
            start,
            upkeep.fields,
            raised.reserve,
            model.next_wing_id,
            side,
            country,
            role,
        );
        lemma_wings_grow(
            results,
            start,
            upkeep.fields,
            raised.reserve,
            model.next_wing_id,
            side,
            target,
            role,
        );
        assert(after.records =~= model.records.update(index, after.records[index]));
        assert(after.stocks =~= model.stocks.update(index, after.stocks[index]));
        assert(after.economies =~= model.economies.insert(
            country,
            EconomyState { treasury: after.economies[country].treasury, ..economy },
        ));
        assert(formations_follow(model.units, after.units, country, report)) by {
            assert forall|k: int| 0 <= k < model.units.len() implies same_formation(
                model.units[k],
                #[trigger] after.units[k],
            ) by {
                assert(same_formation(model.units[k], armored.units[k]));
                if raised.outcome.created_unit_id is Some {
                    assert(raised.units.drop_last()[k] == raised.units[k]);
                }
            }
        }
    }
}

/// All formations are still there, and at most one joined them: the one that a report names.
pub open spec fn formations_follow(
    before: Seq<SimulationUnit>,
    after: Seq<SimulationUnit>,
    country: u16,
    report: MaterialReport,
) -> bool {
    &&& after.len() == before.len() + (if report.armor_creation.created_unit_id is Some {
        1int
    } else {
        0
    })
    &&& forall|k: int|
        0 <= k < before.len() ==> same_formation(before[k], #[trigger] after[k])
    &&& (report.armor_creation.created_unit_id matches Some(id) ==> after.last().combat.id == id
        && after.last().combat.sovereign == country)
}

/// What the turn of a country that capitulated does to the material of another.
proof fn lemma_closing_turn(
    results: Map<Operation, u64>,
    air_accepted: bool,
    model: CycleModel,
    index: int,
    side: usize,
    target: u16,
    role: AirRole,
)
    requires
        0 <= index < model.records.len(),
        model.stocks.len() == model.records.len(),
    ensures
        dissolve_country(results, air_accepted, model, index, side) matches Ok((after, report)) ==> {
            let country = model.records[index].country_id;
            &&& after.records == model.records.update(index, after.records[index])
            &&& after.stocks == model.stocks.update(index, after.stocks[index])
            &&& after.records[index].country_id == country
            &&& after.stocks[index].country_id == model.stocks[index].country_id
            &&& after.units == model.units
            &&& after.next_unit_id == model.next_unit_id
            &&& after.economies == model.economies
            &&& report.armor_creation.created_unit_id is None
            &&& target != country ==> aircraft_in_wings(after.wings, target, role)
                == aircraft_in_wings(model.wings, target, role)
        },
{
    if let Ok((after, report)) = dissolve_country(results, air_accepted, model, index, side) {
        let country = model.records[index].country_id;
        let count = model.wings.len() as int;
        let evacuation = evacuate_wings(results, model.wings, model.fields, country, side, count);
        if target != country {
            lemma_evacuation_spares_others(
                results,
                model.wings,
                model.fields,
                country,
                side,
                count,
                target,
                role,
            );
            lemma_standing_down_keeps_aircraft(
                evacuation.wings,
                evacuation.removed,
                target,
                role,
            );
        }
        assert(after.records =~= model.records.update(index, after.records[index]));
        assert(after.stocks =~= model.stocks.update(index, after.stocks[index]));
    }
}

/// Whether formations are those of a start, with only such behind them as reports of the first
/// countries name for their owners.
pub open spec fn formations_named(
    start: CycleModel,
    units: Seq<SimulationUnit>,
    reports: Seq<MaterialReport>,
    count: int,
) -> bool {
    &&& start.units.len() <= units.len() <= start.units.len() + count
    &&& forall|k: int|
        0 <= k < start.units.len() ==> same_formation(start.units[k], #[trigger] units[k])
    &&& forall|k: int|
        start.units.len() <= k < units.len() ==> exists|i: int|
            0 <= i < count && (#[trigger] reports[i]).armor_creation.created_unit_id == Some(
                (#[trigger] units[k]).combat.id,
            ) && units[k].combat.sovereign == start.records[i].country_id
}

/// The first turns of a material cycle.
#[verifier::rlimit(40)]
proof fn lemma_material_turns(
    results: Map<Operation, u64>,
    verdicts: Seq<bool>,
    start: CycleModel,
    country_to_side: Map<u16, usize>,
    homes: Map<u16, (Real, Real)>,
    max_units_per_side: u32,
    count: int,
    at: int,
    role: AirRole,
)
    requires
        0 <= count <= start.records.len(),
        0 <= at < start.records.len(),
        start.stocks.len() == start.records.len(),
        countries_once(start.records),
    ensures
        settle_material_countries(
            results,
            verdicts,
            start,
            country_to_side,
            homes,
            max_units_per_side,
            count,
        ) matches Ok((model, reports)) ==> {
            let country = start.records[at].country_id;
            &&& reports.len() == count
            &&& model.records.len() == start.records.len()
            &&& model.stocks.len() == start.records.len()
            &&& record_ids(model.records) == record_ids(start.records)
            &&& stock_ids(model.stocks) == stock_ids(start.stocks)
            &&& model.economies[country] == (EconomyState {
                treasury: model.economies[country].treasury,
                ..start.economies[country]
            })
            &&& at >= count || !start.economies[country].capitulated ==> {
                &&& aircraft_held(model, at, role) == aircraft_held(start, at, role) + (if at
                    < count {
                    bought_of(reports[at].air, role) as int
                } else {
                    0
                })
                &&& armor_held(model, at) == armor_held(start, at) + (if at < count {
                    reports[at].armor_purchased as int
                } else {
                    0
                })
            }
            &&& formations_named(start, model.units, reports, count)
            &&& model.next_unit_id == start.next_unit_id + (model.units.len() - start.units.len())
        },
    decreases count,
{
    if count > 0 {
        lemma_material_turns(
            results,
            verdicts,
            start,
            country_to_side,
            homes,
            max_units_per_side,
            count - 1,
            at,
            role,
        );
        if let Ok((model, reports)) = settle_material_countries(
            results,
            verdicts,
            start,
            country_to_side,
            homes,
            max_units_per_side,
            count - 1,
        ) {
            let country = start.records[at].country_id;
            let mover = start.records[count - 1].country_id;
            let side = country_to_side[mover];
            let home = crate::paycycle::home_of(homes, mover);
            let verdict = verdicts[1 + crate::paycycle::defeated_before(
                start.economies,
                start.records,
                count - 1,
            )];
            assert(record_ids(model.records)[at] == record_ids(start.records)[at]);
            assert(record_ids(model.records)[count - 1] == record_ids(start.records)[count - 1]);
            lemma_material_turns(
                results,
                verdicts,
                start,
                country_to_side,
                homes,
                max_units_per_side,
                count - 1,
                count - 1,
                role,
            );
            lemma_working_turn(
                results,
                model,
                count - 1,
                side,
                home,
                max_units_per_side,
                country,
                role,
            );
            lemma_closing_turn(results, verdict, model, count - 1, side, country, role);
            if at < count - 1 {
                assert(country < mover);
            } else if at > count - 1 {
                assert(mover < country);
            }
            if let Ok((next, report)) = settle_material_country(
                results,
                verdict,
                model,
                count - 1,
                side,
                home,
                max_units_per_side,
            ) {
                let told = reports.push(report);
                assert(record_ids(next.records) =~= record_ids(model.records));
                assert(stock_ids(next.stocks) =~= stock_ids(model.stocks));
                assert(at < count - 1 ==> told[at] == reports[at]);
                assert(told[count - 1] == report);
                assert(formations_named(start, next.units, told, count)) by {
                    assert forall|k: int| 0 <= k < start.units.len() implies same_formation(
                        start.units[k],
                        #[trigger] next.units[k],
                    ) by {
                        assert(same_formation(start.units[k], model.units[k]));
                    }
                    assert forall|k: int| start.units.len() <= k < next.units.len() implies exists|
                        i: int,
                    |
                        0 <= i < count && (#[trigger] told[i]).armor_creation.created_unit_id
                            == Some((#[trigger] next.units[k]).combat.id)
                            && next.units[k].combat.sovereign == start.records[i].country_id by {
                        if k < model.units.len() {
                            let i = choose|i: int|
                                0 <= i < count - 1 && (
                                #[trigger] reports[i]).armor_creation.created_unit_id == Some(
                                    (#[trigger] model.units[k]).combat.id,
                                ) && model.units[k].combat.sovereign
                                    == start.records[i].country_id;
                            assert(told[i] == reports[i]);
                            assert(next.units[k].combat.id == model.units[k].combat.id);
                        } else {
                            assert(next.units[k] == next.units.last());
                            assert(told[count - 1].armor_creation.created_unit_id == Some(
                                next.units[k].combat.id,
                            ));
                        }
                    }
                }
            }
        }
    }
}

proof fn lemma_stocks_fit(
    stocks: Seq<MaterialLogisticsCountry>,
    units: Seq<SimulationUnit>,
    from: int,
    at: int,
)
    requires
        0 <= from <= at < stocks.len(),
        stocks_fault(stocks, units, from) is None,
    ensures
        stock_fault(stocks[at], units) is None,
    decreases at - from,
{
    if from < at {
        lemma_stocks_fit(stocks, units, from + 1, at);
    }
}

/// Over a whole material cycle a country that still fights neither loses nor finds material: its
/// armor, and its aircraft of each role, in service and in reserve, grow by what it bought, and stay
/// within its capacity. Its economy changes in nothing but the treasury. All formations are still
/// there, and those that joined are the ones that the reports name for their owners, with
/// consecutive ids. Reports come in ascending order of countries, one for each.
pub proof fn a_material_cycle_conserves_material(
    results: Map<Operation, u64>,
    verdicts: Seq<bool>,
    schema: Seq<char>,
    material_schema: Seq<char>,
    start: CycleModel,
    country_to_side: Map<u16, usize>,
    side_count: usize,
    homes: Map<u16, (Real, Real)>,
    max_units_per_side: u32,
    at: int,
    role: AirRole,
)
    requires
        0 <= at < start.records.len(),
    ensures
        material_cycle(
            results,
            verdicts,
            schema,
            material_schema,
            start,
            country_to_side,
            side_count,
            homes,
            max_units_per_side,
        ) matches Ok((model, reports)) ==> {
            let country = start.records[at].country_id;
            &&& reports.len() == start.records.len()
            &&& reports[at].country_id == country
            &&& countries_once(start.records)
            &&& record_ids(start.records).to_set() == country_to_side.dom()
            &&& model.records[at].country_id == country
            &&& model.stocks[at].country_id == country
            &&& !start.economies[country].capitulated ==> {
                &&& armor_held(model, at) == armor_held(start, at) + reports[at].armor_purchased
                &&& aircraft_held(model, at, role) == aircraft_held(start, at, role) + bought_of(
                    reports[at].air,
                    role,
                )
            }
            &&& armor_held(model, at) <= model.stocks[at].armor_capacity
            &&& aircraft_held(model, at, role) <= capacity_of(model.records[at], role)
            &&& model.economies[country] == (EconomyState {
                treasury: model.economies[country].treasury,
                ..start.economies[country]
            })
            &&& formations_named(start, model.units, reports, reports.len() as int)
            &&& model.next_unit_id == start.next_unit_id + (model.units.len() - start.units.len())
        },
{
    if let Ok((model, reports)) = material_cycle(
        results,
        verdicts,
        schema,
        material_schema,
        start,
        country_to_side,
        side_count,
        homes,
        max_units_per_side,
    ) {
        let count = start.records.len() as int;
        let records = record_ids(start.records);
        let stocks = stock_ids(start.stocks);
        lemma_listed_once(start.records, country_to_side);
        assert forall|id: u16| records.contains(id) <==> stocks.contains(id) by {
            assert(records.to_set().contains(id) <==> stocks.to_set().contains(id));
        }
        lemma_strictly_sorted_unique(records, stocks);
        lemma_material_turns(
            results,
            verdicts,
            start,
            country_to_side,
            homes,
            max_units_per_side,
            count,
            at,
            role,
        );
        material_reports_follow_country_order(
            results,
            verdicts,
            start,
            country_to_side,
            homes,
            max_units_per_side,
            count,
        );
        assert(record_ids(model.records)[at] == records[at]);
        assert(stock_ids(model.stocks)[at] == stocks[at]);
        lemma_records_fit(model.records, model.wings, 0, at);
        lemma_stocks_fit(model.stocks, model.units, 0, at);
    }
}

} // verus!
