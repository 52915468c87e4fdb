//! What a tick counts and reports: damage, the air war, missiles, pay cycles, the toll of all of
//! it, and the plan that its orders make up.

use vstd::prelude::*;
use crate::casualties::{AirAdvanceOutcome, DamageOutcome, DamageResult, Toll, WingLoss};
use crate::order::{
    lemma_filter_contains, lemma_permutation_contains, rank_order, stable_sort_orders,
};
use crate::paycycle::{CountryAirPayCycleOutcome, CountryMaterialPayCycleOutcome};
use crate::runtime::counters::{
    air_count, air_cycle_count, attrition_count, influence_count, material_cycle_count,
    missile_count, AiPlanningCounters, InfluenceApplyResult, MissileReport,
};
use crate::runtime::orders::merged_plan;
use crate::runtime::planning::FrontAssignmentRecord;
use crate::runtime::stages::tick_toll;
use crate::units::ResolvedUnitOrder;
use crate::worksheet::Operation;

verus! {

/// What the results of damage cost in men, all together.
pub open spec fn men_lost(results: Seq<DamageResult>) -> int
    decreases results.len(),
{
    if results.len() == 0 {
        0
    } else {
        men_lost(results.drop_last()) + results.last().personnel_loss
    }
}

/// What the results of damage cost in vehicles, all together.
pub open spec fn vehicles_lost(results: Seq<DamageResult>) -> int
    decreases results.len(),
{
    if results.len() == 0 {
        0
    } else {
        vehicles_lost(results.drop_last()) + results.last().equipment_loss
    }
}

/// How many aircraft wings lost, all together.
pub open spec fn planes_lost(losses: Seq<WingLoss>) -> int
    decreases losses.len(),
{
    if losses.len() == 0 {
        0
    } else {
        planes_lost(losses.drop_last()) + losses.last().aircraft
    }
}

proof fn lemma_losses(results: Seq<DamageResult>, count: nat)
    requires
        count <= results.len(),
    ensures
        crate::runtime::counters::people_lost(results, count) == men_lost(
            results.take(count as int),
        ),
        crate::runtime::counters::equipment_lost(results, count) == vehicles_lost(
            results.take(count as int),
        ),
    decreases count,
{
    if count > 0 {
        lemma_losses(results, (count - 1) as nat);
        assert(results.take(count as int).drop_last() =~= results.take(count - 1));
    }
}

proof fn lemma_planes(losses: Seq<WingLoss>, count: nat)
    requires
        count <= losses.len(),
    ensures
        crate::runtime::counters::aircraft_lost(losses, count) == planes_lost(
            losses.take(count as int),
        ),
    decreases count,
{
    if count > 0 {
        lemma_planes(losses, (count - 1) as nat);
        assert(losses.take(count as int).drop_last() =~= losses.take(count - 1));
    }
}

/// Attrition is reported with all formations that it hurt and removed, and all men and vehicles
/// that it cost; exiles are reported besides.
pub proof fn attrition_is_reported_in_full(
    outcome: DamageOutcome,
    exiled_units: usize,
    recovered_personnel: u64,
)
    requires
        outcome.results@.len() <= usize::MAX,
        outcome.removed_ids@.len() <= usize::MAX,
    ensures
        ({
            let told = attrition_count(Some(&outcome), None, exiled_units, recovered_personnel);
            &&& told.damaged_units == outcome.results@.len()
            &&& told.removed_units == outcome.removed_ids@.len()
            &&& men_lost(outcome.results@) <= u64::MAX ==> told.personnel_loss == men_lost(
                outcome.results@,
            )
            &&& vehicles_lost(outcome.results@) <= u64::MAX ==> told.equipment_loss == vehicles_lost(
                outcome.results@,
            )
            &&& told.exiled_units == exiled_units
            &&& told.recovered_personnel == recovered_personnel
            &&& told.supply_collapses == 0
        }),
        ({
            let told = attrition_count(None, None, exiled_units, recovered_personnel);
            &&& told.exiled_units == exiled_units
            &&& told.recovered_personnel == recovered_personnel
            &&& told.damaged_units == 0 && told.removed_units == 0 && told.personnel_loss == 0
                && told.equipment_loss == 0
        }),
{
    lemma_losses(outcome.results@, outcome.results@.len());
    assert(outcome.results@.take(outcome.results@.len() as int) =~= outcome.results@);
    lemma_men_positive(outcome.results@);
}

proof fn lemma_men_positive(results: Seq<DamageResult>)
    ensures
        men_lost(results) >= 0,
        vehicles_lost(results) >= 0,
    decreases results.len(),
{
    if results.len() > 0 {
        lemma_men_positive(results.drop_last());
    }
}

proof fn lemma_planes_positive(losses: Seq<WingLoss>)
    ensures
        planes_lost(losses) >= 0,
    decreases losses.len(),
{
    if losses.len() > 0 {
        lemma_planes_positive(losses.drop_last());
    }
}

/// The air war is reported as it was flown; every lost aircraft cost one man, and strikes on land
/// cost theirs.
pub proof fn the_air_war_is_reported_in_full(air: AirAdvanceOutcome, dealt: DamageOutcome)
    requires
        dealt.results@.len() <= usize::MAX,
        air.airfield_captures@.len() <= usize::MAX,
        planes_lost(air.wing_losses@) + men_lost(dealt.results@) <= u64::MAX,
        vehicles_lost(dealt.results@) <= u64::MAX,
    ensures
        ({
            let told = air_count(Some(&air), Some(&dealt));
            &&& told.updated == air.updated
            &&& told.missions_selected == air.missions_selected
            &&& told.interceptions_completed == air.interceptions_completed
            &&& told.strikes_completed == air.strikes_completed
            &&& told.wings_destroyed == air.wings_destroyed
            &&& told.airfield_captures == air.airfield_captures@.len()
            &&& told.aircraft_loss == planes_lost(air.wing_losses@)
            &&& told.damaged_land_units == dealt.results@.len()
            &&& told.personnel_loss == planes_lost(air.wing_losses@) + men_lost(dealt.results@)
            &&& told.equipment_loss == vehicles_lost(dealt.results@)
        }),
        ({
            let told = air_count(Some(&air), None);
            &&& told.aircraft_loss == planes_lost(air.wing_losses@)
            &&& told.personnel_loss == planes_lost(air.wing_losses@)
            &&& told.damaged_land_units == 0 && told.equipment_loss == 0
        }),
{
    lemma_losses(dealt.results@, dealt.results@.len());
    assert(dealt.results@.take(dealt.results@.len() as int) =~= dealt.results@);
    lemma_planes(air.wing_losses@, air.wing_losses@.len());
    assert(air.wing_losses@.take(air.wing_losses@.len() as int) =~= air.wing_losses@);
    lemma_men_positive(dealt.results@);
    lemma_planes_positive(air.wing_losses@);
}

/// Missiles are reported with all that were launched and hit, and with what every impact cost.
pub proof fn missiles_are_reported_in_full(
    report: MissileReport,
    damages: Seq<DamageOutcome>,
    last: DamageOutcome,
)
    ensures
        ({
            let before = missile_count(Some(report), damages);
            let after = missile_count(Some(report), damages.push(last));
            &&& after.launches == report.launches && after.impacts == report.impacts
            &&& before.launches == report.launches && before.impacts == report.impacts
            &&& after.damaged_units <= usize::MAX ==> (before.damaged_units + last.results@.len()
                <= usize::MAX && damages.len() == 0 ==> after.damaged_units == last.results@.len())
            &&& damages.len() == 0 && men_lost(last.results@) <= u64::MAX ==> after.personnel_loss
                == men_lost(last.results@)
            &&& damages.len() == 0 && vehicles_lost(last.results@) <= u64::MAX
                ==> after.equipment_loss == vehicles_lost(last.results@)
            &&& damages.len() == 0 && last.removed_ids@.len() <= usize::MAX ==> after.removed_units
                == last.removed_ids@.len()
        }),
{
    if damages.len() == 0 {
        lemma_losses(last.results@, last.results@.len());
        assert(last.results@.take(last.results@.len() as int) =~= last.results@);
        lemma_men_positive(last.results@);
        let all = damages.push(last);
        assert(all[0] == last);
        let none = crate::runtime::counters::missile_totals(all, 0);
        let one = crate::runtime::counters::missile_totals(all, 1);
        assert(one.damaged == last.results@.len());
    }
}

/// What a country bought, repaired, raised and lost in a pay cycle is added to the report, each
/// under its own name.
pub proof fn pay_cycles_are_reported_country_by_country(
    countries: Seq<CountryMaterialPayCycleOutcome>,
    count: nat,
)
    requires
        0 < count <= countries.len(),
    ensures
        ({
            let country = countries[count - 1];
            let before = material_cycle_count(countries, (count - 1) as nat);
            let after = material_cycle_count(countries, count);
            let bought = country.air.fighters_purchased + country.air.strike_purchased;
            let filled = country.air.fighters_reinforced + country.air.strike_reinforced;
            &&& before.armor_purchased + country.armor_purchased <= u64::MAX
                ==> after.armor_purchased == before.armor_purchased + country.armor_purchased
            &&& before.armor_reinforced + country.armor_reinforced <= u64::MAX
                ==> after.armor_reinforced == before.armor_reinforced + country.armor_reinforced
            &&& before.airfields_repaired + country.airfields_repaired <= u64::MAX
                ==> after.airfields_repaired == before.airfields_repaired
                + country.airfields_repaired
            &&& before.aircraft_evacuated + country.evacuated_aircraft <= u64::MAX
                ==> after.aircraft_evacuated == before.aircraft_evacuated
                + country.evacuated_aircraft
            &&& before.aircraft_lost_on_capitulation + country.lost_aircraft <= u64::MAX
                ==> after.aircraft_lost_on_capitulation == before.aircraft_lost_on_capitulation
                + country.lost_aircraft
            &&& country.armor_creation.created_unit_id is Some && before.armor_formations_created
                < u64::MAX ==> after.armor_formations_created == before.armor_formations_created
                + 1
            &&& country.armor_creation.created_unit_id is None ==> after.armor_formations_created
                == before.armor_formations_created
            &&& bought <= u32::MAX && before.aircraft_purchased + bought <= u64::MAX
                ==> after.aircraft_purchased == before.aircraft_purchased + bought
            &&& filled <= u32::MAX && before.aircraft_reinforced + filled <= u64::MAX
                ==> after.aircraft_reinforced == before.aircraft_reinforced + filled
            &&& after.recruited_units == before.recruited_units && after.recruited_personnel
                == before.recruited_personnel
        }),
{
}

/// What a country bought for its air force in an air cycle is added to the report.
pub proof fn air_cycles_are_reported_country_by_country(
    countries: Seq<CountryAirPayCycleOutcome>,
    count: nat,
)
    requires
        0 < count <= countries.len(),
    ensures
        ({
            let country = countries[count - 1];
            let before = air_cycle_count(countries, (count - 1) as nat);
            let after = air_cycle_count(countries, count);
            let bought = country.fighters_purchased + country.strike_purchased;
            let filled = country.fighters_reinforced + country.strike_reinforced;
            let made = country.wing_creation@.filter(
                |outcome: crate::settlement::AirWingCreationOutcome|
                    outcome.created_wing_id is Some,
            ).len();
            &&& bought <= u32::MAX && before.aircraft_purchased + bought <= u64::MAX
                ==> after.aircraft_purchased == before.aircraft_purchased + bought
            &&& filled <= u32::MAX && before.aircraft_reinforced + filled <= u64::MAX
                ==> after.aircraft_reinforced == before.aircraft_reinforced + filled
            &&& before.air_wings_created + made <= u64::MAX ==> after.air_wings_created
                == before.air_wings_created + made
            &&& after.armor_purchased == before.armor_purchased
        }),
{
    let made = countries[count - 1].wing_creation@;
    lemma_wings(made, made.len());
    assert(made.take(made.len() as int) =~= made);
}

proof fn lemma_wings(outcomes: Seq<crate::settlement::AirWingCreationOutcome>, count: nat)
    requires
        count <= outcomes.len(),
    ensures
        crate::runtime::counters::wings_made(outcomes, count) == outcomes.take(
            count as int,
        ).filter(
            |outcome: crate::settlement::AirWingCreationOutcome| outcome.created_wing_id is Some,
        ).len(),
    decreases count,
{
    reveal(Seq::filter);
    if count > 0 {
        lemma_wings(outcomes, (count - 1) as nat);
        assert(outcomes.take(count as int).drop_last() =~= outcomes.take(count - 1));
    }
}

/// Influence is reported with its sources and all cells that it worked through, touched and
/// changed.
pub proof fn influence_is_reported_in_full(sources: usize, applied: InfluenceApplyResult)
    requires
        applied.touched_influence_cells@.len() <= usize::MAX,
        applied.changed_controller_cells@.len() <= usize::MAX,
        applied.changed_credit_cells@.len() <= usize::MAX,
    ensures
        ({
            let told = influence_count(sources, applied);
            &&& told.sources == sources && told.application_budget == sources
            &&& told.processed_source_cells == applied.processed_source_cells
            &&& told.touched_influence_cells == applied.touched_influence_cells@.len()
            &&& told.changed_controller_cells == applied.changed_controller_cells@.len()
            &&& told.changed_credit_cells == applied.changed_credit_cells@.len()
            &&& told.cohort is None && told.diffusion_budget == 0
        }),
{
}

/// A tick without events, flights, attrition or impacts costs nobody anything.
pub proof fn quiet_ticks_cost_nothing(
    results: Map<Operation, u64>,
    previous: Toll,
    owners: Map<u64, u16>,
    wing_owners: Map<u64, u16>,
)
    ensures
        tick_toll(
            results,
            previous,
            owners,
            wing_owners,
            Seq::empty(),
            None,
            None,
            None,
            Seq::empty(),
        ) == previous,
{
}

/// The orders of a plan are those that were given, to fronts and garrisons, except to formations
/// sent home, who have their own; and the assignments likewise.
pub proof fn plans_hold_all_orders(
    orders: Seq<ResolvedUnitOrder>,
    assignments: Seq<FrontAssignmentRecord>,
    counters: AiPlanningCounters,
    garrisons: Seq<ResolvedUnitOrder>,
    commands: Seq<ResolvedUnitOrder>,
    priors: Map<u64, u64>,
    order: ResolvedUnitOrder,
    record: FrontAssignmentRecord,
)
    ensures
        ({
            let plan = merged_plan(orders, assignments, counters, garrisons, commands, priors);
            let sent = |id: u64|
                exists|i: int|
                    0 <= i < plan.overrides.len() && (#[trigger] plan.overrides[i]).unit_id == id;
            &&& plan.orders.contains(order) <==> plan.overrides.contains(order) || (
            orders.contains(order) || garrisons.contains(order)) && !sent(order.unit_id)
            &&& assignments.contains(record) && !sent(record.unit_id) ==> plan.assignments.contains(
                record,
            )
            &&& plan.assignments.contains(record) ==> assignments.contains(record) && !sent(
                record.unit_id,
            ) || record.reason is Hold && record.objective_id is None && sent(record.unit_id)
            &&& forall|i: int, j: int|
                #![trigger plan.orders[i], plan.orders[j]]
                0 <= i < j < plan.orders.len() ==> plan.orders[i].unit_id <= plan.orders[j].unit_id
        }),
{
    let plan = merged_plan(orders, assignments, counters, garrisons, commands, priors);
    let overrides = plan.overrides;
    let stands = crate::runtime::orders::order_stands(overrides);
    let kept = (orders + garrisons).filter(stands);
    let all = kept + overrides;
    stable_sort_orders(all, rank_order::<ResolvedUnitOrder>());
    lemma_permutation_contains(all, plan.orders);
    lemma_filter_contains(orders + garrisons, stands, order);
    lemma_joined(orders, garrisons, order);
    lemma_joined(kept, overrides, order);
    let remain = crate::runtime::orders::assignment_stands(overrides);
    let left = assignments.filter(remain);
    let holds = Seq::new(
        overrides.len(),
        |i: int| crate::runtime::orders::hold_record(overrides[i]),
    );
    let both = left + holds;
    stable_sort_orders(both, rank_order::<FrontAssignmentRecord>());
    lemma_permutation_contains(both, plan.assignments);
    lemma_filter_contains(assignments, remain, record);
    lemma_joined(left, holds, record);
    if holds.contains(record) {
        let i = choose|i: int| 0 <= i < holds.len() && holds[i] == record;
        assert(overrides[i].unit_id == record.unit_id);
    }
    assert forall|i: int, j: int|
        #![trigger plan.orders[i], plan.orders[j]]
        0 <= i < j < plan.orders.len() implies plan.orders[i].unit_id <= plan.orders[j].unit_id by {
        assert(!rank_order::<ResolvedUnitOrder>()(plan.orders[j], plan.orders[i]));
    }
}

proof fn lemma_joined<T>(left: Seq<T>, right: Seq<T>, item: T)
    ensures
        (left + right).contains(item) <==> left.contains(item) || right.contains(item),
{
    if left.contains(item) {
        let k = left.index_of(item);
        assert((left + right)[k] == item);
    }
    if right.contains(item) {
        let k = right.index_of(item);
        assert((left + right)[left.len() + k] == item);
    }
    if (left + right).contains(item) {
        let k = (left + right).index_of(item);
        if k < left.len() {
            assert(left[k] == item);
        } else {
            assert(right[k - left.len()] == item);
        }
    }
}

} // verus!
