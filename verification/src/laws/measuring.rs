//! How single things are measured: picks, places, shares, conditions and limits.

use vstd::prelude::*;
use crate::air::{national_wings, AirWing, AirWingState, Airfield};
use crate::casualties::{counts_as_damage, DamageResult};
use crate::catalogue::{finite_number, owned_cells, owned_unless_zero};
use crate::economy::EconomyState;
use crate::numbers::{MINUS_N_180, MINUS_N_90, N_0_45, N_0_5, N_0_8, N_100, N_180, N_50, N_90};
use crate::operations::OperationalPoint;
use crate::json::FieldModel;
use crate::production::{
    city_order, CityModel, ProductionConfig, ProductionCountry, ProductionError,
};
use crate::runtime::battlefield::{
    blank_memory, BattlefieldCountryState, BattlefieldUnitResult, BattlefieldUnitState,
    SideDynamics,
};
use crate::runtime::boot::collapsed_later;
use crate::runtime::campaign::sides_indexed;
use crate::runtime::command::lacks_home;
use crate::runtime::counters::collapses;
use crate::runtime::course::tick_outcome;
use crate::runtime::effects::{
    allowed_pair, can_annex, new_occupation, tiles_over, StrategicSnapshot,
};
use crate::runtime::enlistment::{may_recruit, side_countries, RecruitmentInput};
use crate::runtime::influence::{round_of, TurnScope};
use crate::runtime::logistics::{armor_profile, expected_vehicles, first_held_cell, ArmorMuster};
use crate::runtime::native::{RuntimeModel, TickResult};
use crate::runtime::orders::{sighted_before, ObservationModel};
use crate::runtime::planning::weight_of;
use crate::runtime::policy::PolicyModel;
use crate::runtime::recruitment::{dominated, held_cells, jittered, picked};
use crate::runtime::reign::shaken;
use crate::runtime::renewal::{judged_inputs, moved_inputs};
use crate::runtime::tactics::{battlefield_phase, defensive_speed, driven_country, resolved_policy};
use crate::runtime::tick::TickWork;
use crate::runtime::world::TerritoryControl;
use crate::scalar::{real_of, Real, ONE_BITS};
use crate::scenario::GridSpec;
use crate::strategic::{
    boundary_fault, country_aggregates_fault, derived_cycle, has_country_aggregate,
    has_side_aggregate, mustered, side_aggregates_fault, CountryAggregate, CycleModel,
    SideAggregate,
    StrategicDerivationInput,
};
use crate::taskforce::{deduplicated, nearest_on_legs, progress_along};
use crate::units::{KernelFault, SimulationUnit};
use crate::worksheet::{difference, integer, number_at, product, quotient, sum, Operation};

verus! {

/// A draw picks one of the things there are: the one that lies at its share of them, and the last
/// one where rounding leads beyond.
pub proof fn picks_are_among_what_there_is(results: Map<Operation, u64>, draw: Real, among: nat)
    requires
        0 < among <= u64::MAX,
    ensures
        0 <= picked(results, draw, among) < among,
        ({
            let at = results[Operation::Whole(
                number_at(
                    results,
                    Operation::Floor(product(results, draw, integer(results, among as u64))),
                ),
            )];
            &&& at < among ==> picked(results, draw, among) == at
            &&& at >= among ==> picked(results, draw, among) == among - 1
        }),
        picked(results, draw, 1) == 0,
{
}

/// A place moves by at most four tenths of a cell to either side: by eight tenths of how far the
/// draw is from a half.
pub proof fn places_move_within_a_cell(
    results: Map<Operation, u64>,
    at: Real,
    draw: Real,
    grid: GridSpec,
)
    ensures
        jittered(results, at, draw, grid) == sum(
            results,
            at,
            product(
                results,
                product(results, difference(results, draw, real_of(N_0_5)), grid.grid_res),
                real_of(N_0_8),
            ),
        ),
{
}

/// Cells that are sampled for a country are land that it holds and that its side dominates.
pub proof fn sampled_cells_are_held(
    territory: TerritoryControl,
    country_id: u16,
    side: usize,
    step: nat,
    samples: nat,
    which: int,
)
    requires
        0 <= which < held_cells(territory, country_id, side, step, samples).len(),
        samples * step <= usize::MAX,
    ensures
        ({
            let cell = held_cells(territory, country_id, side, step, samples)[which];
            &&& territory.land@[cell as int] == 2
            &&& territory.world_control@[cell as int] == country_id
            &&& dominated(territory, cell as int, side)
            &&& exists|k: int| 0 <= k < samples && cell == #[trigger] (k * step)
        }),
    decreases samples,
{
    let rest = held_cells(territory, country_id, side, step, (samples - 1) as nat);
    assert((samples - 1) * step <= samples * step) by (nonlinear_arith)
        requires
            samples >= 1,
            step >= 0,
    ;
    assert(0 <= (samples - 1) * step) by (nonlinear_arith)
        requires
            samples >= 1,
            step >= 0,
    ;
    if which < rest.len() {
        sampled_cells_are_held(territory, country_id, side, step, (samples - 1) as nat, which);
        let cell = rest[which];
        let k = choose|k: int| 0 <= k < samples - 1 && cell == #[trigger] (k * step);
        assert(cell == k * step);
    } else {
        let k = samples - 1;
        assert(held_cells(territory, country_id, side, step, samples)[which] == k * step);
    }
}

/// The first cell that a country holds is held by it and dominated by its side.
pub proof fn the_first_held_cell_is_held(
    territory: TerritoryControl,
    country_id: u16,
    side: usize,
    from: int,
)
    requires
        from >= 0,
        territory.land@.len() <= usize::MAX,
    ensures
        first_held_cell(territory, country_id, side, from) matches Some(cell) ==> from <= cell
            < territory.land@.len() && territory.world_control@[cell as int] == country_id
            && dominated(territory, cell as int, side),
        first_held_cell(territory, country_id, side, from) is None ==> forall|cell: int|
            from <= cell < territory.land@.len() && (#[trigger] territory.world_control@[cell])
                == country_id ==> !dominated(territory, cell, side),
    decreases territory.land@.len() - from,
{
    if from < territory.land@.len() {
        the_first_held_cell_is_held(territory, country_id, side, from + 1);
    }
}

/// An evaluated cycle changes formations where somebody surrenders or deserts, and nowhere else.
pub proof fn quiet_cycles_shake_nobody(evaluated: StrategicSnapshot)
    ensures
        evaluated.surrenders@.len() == 0 && evaluated.desertions@.len() == 0 ==> !shaken(
            evaluated,
        ),
        evaluated.surrenders@.len() > 0 ==> shaken(evaluated),
        evaluated.desertions@.len() > 0 ==> shaken(evaluated),
{
}

/// The momentum of a side sets the phase of its countries, and makes them no faster: a side on the
/// defensive is held to its defensive speed, any other keeps its own.
pub proof fn momentum_never_speeds_up(
    results: Map<Operation, u64>,
    country: BattlefieldCountryState,
    table: Map<usize, SideDynamics>,
    side: usize,
)
    requires
        table.contains_key(side),
    ensures
        ({
            let driven = driven_country(results, country, Some(table), side);
            let own = country.ai_speed_multiplier;
            let limit = defensive_speed(results, table[side]);
            &&& !own.lt(driven.ai_speed_multiplier) || own.nan()
            &&& !(table[side].posture is Defensive) ==> driven.ai_speed_multiplier == own
            &&& table[side].posture is Defensive && limit.lt(own) ==> driven.ai_speed_multiplier
                == limit
            &&& table[side].posture is Defensive && own.le(limit) ==> driven.ai_speed_multiplier
                == own
            &&& driven.war_phase == battlefield_phase(table[side].phase)
        }),
        driven_country(results, country, None, side) == country,
{
}

/// A formation asks for reinforcement below nine twentieths of its health, and takes over speed,
/// movement, combat and influence as the battlefield resolved them.
pub proof fn the_battered_ask_for_help(
    results: Map<Operation, u64>,
    policy: PolicyModel,
    unit: SimulationUnit,
    result: BattlefieldUnitResult,
)
    requires
        real_of(ONE_BITS).le(unit.combat.max_health),
    ensures
        ({
            let after = resolved_policy(results, policy, unit, result);
            let share = quotient(results, unit.combat.health, unit.combat.max_health);
            &&& after.ai.reinforcement_eligible <==> share.lt(real_of(N_0_45))
            &&& after.ai.base_speed == result.base_speed
            &&& after.ai.movement == result.movement
            &&& after.ai.combat == result.combat
            &&& after.ai.encircled == result.encircled
            &&& after.unit_id == policy.unit_id
            &&& after.command == policy.command
            &&& after.ai.deploy_until_tick == policy.ai.deploy_until_tick
            &&& policy.influence is None ==> after.influence is None
            &&& policy.influence is Some ==> {
                &&& after.influence->Some_0.radius == result.influence.radius
                &&& after.influence->Some_0.delta == result.influence.delta
                &&& after.influence->Some_0.concentration_bonus
                    == result.influence.concentration_bonus
                &&& after.influence->Some_0.beneficiary == policy.influence->Some_0.beneficiary
            }
        }),
{
}

/// What a tick came to is what its stages left.
pub proof fn ticks_come_to_what_their_stages_left(
    model: RuntimeModel,
    work: TickWork,
    result: TickResult,
)
    requires
        tick_outcome(model, work, result),
    ensures
        result.simulation.units == work.units,
        result.simulation.config == model.simulation_config,
        result.frame_snapshot == work.counted->Some_0.frame,
        result.casualties == work.counted->Some_0.casualties,
        result.casualties_by_victim == work.counted->Some_0.casualties_by_victim,
        result.territory == work.territory->Some_0,
        result.territory_snapshot == work.snapshot->Some_0,
        result.side_dynamics == work.dynamics,
        result.personnel_reserves == work.reserves->Some_0,
        result.battlefield == work.field,
        result.commands == work.commands,
        result.layout == work.layout,
        result.fronts_invalidated == work.fronts_invalidated,
        work.strategic is None ==> result.strategic@ == model.strategic,
        work.strategic is Some ==> result.strategic == work.strategic->Some_0,
        work.active_sides is None ==> result.active_sides@ == model.active_sides,
        work.active_sides is Some ==> result.active_sides == work.active_sides->Some_0,
{
}

/// Countries are judged in ticks that are due for it, and in no other.
pub proof fn countries_are_judged_when_due(
    model: RuntimeModel,
    work: TickWork,
    results: Map<Operation, u64>,
)
    ensures
        !work.rules.sample_due ==> judged_inputs(model, work, results) is Ok && judged_inputs(
            model,
            work,
            results,
        )->Ok_0 is None,
        work.rules.sample_due && judged_inputs(model, work, results) is Ok ==> judged_inputs(
            model,
            work,
            results,
        )->Ok_0 is Some,
        !sides_indexed(work.units@) ==> moved_inputs(work, results) is Err,
{
}

/// Limits of production are positive and within what can be counted, and a single country may
/// always field the least army that is expected of it.
pub proof fn production_has_limits(config: ProductionConfig)
    ensures
        config.valid() ==> 0 < config.min_expected_army_units <= config.max_units_per_side
            && config.max_countries > 0 && config.max_countries <= u16::MAX && config.max_cities
            > 0 && config.max_units > 0 && config.max_sides > 0 && config.max_sides <= u16::MAX + 1
            && config.unit_density_factor.finite_nonnegative() && real_of(0).lt(
            config.density_reference_cells,
        ),
        config.max_units_per_side == 0 ==> !config.valid(),
        config.max_countries == 0 || config.max_countries > u16::MAX ==> !config.valid(),
        config.max_sides == 0 || config.max_sides > u16::MAX + 1 ==> !config.valid(),
        config.min_expected_army_units > config.max_units_per_side ==> !config.valid(),
{
}

/// A cycle is derived only within valid limits, and with no more units than they allow.
pub proof fn cycles_are_derived_within_limits(
    results: Map<Operation, u64>,
    source: StrategicDerivationInput<'_>,
    config: ProductionConfig,
)
    ensures
        !config.valid() ==> derived_cycle(results, source, config) == Err::<
            CycleModel,
            ProductionError,
        >(ProductionError::InvalidConfig),
        derived_cycle(results, source, config) is Ok ==> boundary_fault(source, config) is None
            && source.frame.units@.len() <= config.max_units && mustered(
            results,
            source,
            source.frame.units@.len(),
        ) is Ok,
{
}

/// Counts of countries are sound, each country once.
pub proof fn country_counts_are_sound(aggregates: Seq<CountryAggregate>, from: int, at: int)
    requires
        country_aggregates_fault(aggregates, from) is None,
        0 <= from <= at < aggregates.len(),
    ensures
        aggregates[at].country_id > 0,
        aggregates[at].core_control_ratio.finite(),
        aggregates[at].city_population_total.finite_nonnegative(),
        aggregates[at].city_population_controlled.finite_nonnegative(),
        !has_country_aggregate(aggregates, aggregates[at].country_id, at),
    decreases aggregates.len() - from,
{
    if from < at {
        country_counts_are_sound(aggregates, from + 1, at);
    }
}

/// Counts of sides are sound, each side once.
pub proof fn side_counts_are_sound(sides: Seq<SideAggregate>, from: int, at: int)
    requires
        side_aggregates_fault(sides, from) is None,
        0 <= from <= at < sides.len(),
    ensures
        sides[at].city_population_controlled.finite_nonnegative(),
        !has_side_aggregate(sides, sides[at].side_index, at),
    decreases sides.len() - from,
{
    if from < at {
        side_counts_are_sound(sides, from + 1, at);
    }
}

/// A country has room for as many vehicles as are expected of it and for those that it has; their
/// quality is the average of those it has, or middling, and always a percentage.
pub proof fn armor_has_room_for_what_there_is(
    results: Map<Operation, u64>,
    country: ProductionCountry,
    economy: EconomyState,
    tally: ArmorMuster,
)
    ensures
        ({
            let (room, quality) = armor_profile(results, country, economy, tally);
            let average = quotient(
                results,
                tally.weighted_quality,
                integer(results, tally.vehicles),
            );
            &&& room >= tally.vehicles
            &&& room >= expected_vehicles(results, country, economy)
            &&& room == tally.vehicles || room == expected_vehicles(results, country, economy)
            &&& !quality.nan() ==> real_of(0).le(quality) && quality.le(real_of(N_100))
            &&& tally.vehicles == 0 ==> quality == real_of(N_50)
            &&& tally.vehicles > 0 && real_of(0).le(average) && average.le(real_of(N_100))
                ==> quality == average
        }),
{
}

/// A country may raise formations while it fights and owes less than a cycle of pay.
pub proof fn debtors_may_not_recruit(source: RecruitmentInput<'_>, country: u64)
    requires
        country <= u16::MAX,
        source.strategic.economies@.contains_key(country as u16),
    ensures
        ({
            let economy = source.strategic.economies@[country as u16];
            &&& economy.capitulated ==> !may_recruit(source, country)
            &&& real_of(ONE_BITS).le(economy.arrears_cycles) ==> !may_recruit(source, country)
            &&& !economy.capitulated && economy.arrears_cycles.lt(real_of(ONE_BITS))
                ==> may_recruit(source, country)
        }),
{
}

/// The countries of a side are those that stand on it.
pub proof fn sides_are_made_of_their_countries(
    country_to_side: Map<u16, usize>,
    side: usize,
    country: u16,
)
    ensures
        side_countries(country_to_side, side).contains(country) <==> country_to_side.contains_key(
            country,
        ) && country_to_side[country] == side,
{
}

/// Only pairs of sides that were both declared take part.
pub proof fn pairs_need_both_sides(explicit: Seq<u16>, pair: (u16, u16))
    ensures
        allowed_pair(explicit)(pair) <==> explicit.contains(pair.0) && explicit.contains(pair.1),
{
}

/// Only a country of another side that fights on, is declared, and is hostile to the side that
/// gives up can annex.
pub proof fn annexers_are_standing_enemies(
    territory: TerritoryControl,
    hostility: Seq<u8>,
    active_sides: Seq<u16>,
    economies: Map<u16, EconomyState>,
    victim_side: usize,
    country: u16,
)
    requires
        can_annex(territory, hostility, active_sides, economies, victim_side)(country),
    ensures
        territory.country_to_side@[country] != victim_side,
        territory.country_to_side@[country] < territory.max_sides,
        victim_side < territory.max_sides,
        hostility[victim_side * territory.max_sides + territory.country_to_side@[country]] == 1,
        active_sides.contains(territory.country_to_side@[country] as u16),
        economies.contains_key(country),
        !economies[country].capitulated,
{
}

/// Tiles cover a length, and one tile less does not.
pub proof fn tiles_cover_a_length(length: int, tile: int)
    requires
        length > 0,
        tile > 0,
    ensures
        tiles_over(length, tile) * tile >= length,
        (tiles_over(length, tile) - 1) * tile < length,
{
    let whole = length / tile;
    let left = length % tile;
    assert(length == whole * tile + left && 0 <= left < tile) by (nonlinear_arith)
        requires
            whole == length / tile,
            left == length % tile,
            tile > 0,
    ;
    assert((whole + 1) * tile == whole * tile + tile) by (nonlinear_arith);
    assert((whole - 1) * tile == whole * tile - tile) by (nonlinear_arith);
}

/// Neighbouring points of a corridor differ, it begins and ends where it did, and none but
/// repeated points are dropped.
pub proof fn corridors_repeat_no_point(points: Seq<OperationalPoint>)
    ensures
        points.len() == 0 ==> deduplicated(points).len() == 0,
        points.len() > 0 ==> 0 < deduplicated(points).len() <= points.len()
            && deduplicated(points)[0] == points[0],
        forall|i: int|
            0 < i < deduplicated(points).len() ==> !deduplicated(points)[i - 1].same(
                #[trigger] deduplicated(points)[i],
            ),
        points.len() > 0 ==> deduplicated(points).last() == points.last()
            || deduplicated(points).last().same(points.last()),
    decreases points.len(),
{
    if points.len() > 0 {
        corridors_repeat_no_point(points.drop_last());
        if points.len() == 1 {
            assert(deduplicated(points.drop_last()).len() == 0);
        } else {
            assert(points.drop_last()[0] == points[0]);
        }
    }
}

/// A position is nowhere along a corridor that has no leg.
pub proof fn points_are_no_way(
    results: Map<Operation, u64>,
    points: Seq<OperationalPoint>,
    position: OperationalPoint,
)
    ensures
        points.len() < 2 ==> progress_along(results, points, position) == real_of(0),
        points.len() == 2 ==> progress_along(results, points, position) == nearest_on_legs(
            results,
            points,
            position,
            1,
        ).progress,
{
}

/// Wings count at a field where they are stationed there, fly for its controller, and were not
/// evacuated to it.
pub proof fn guests_are_no_national_wings(wings: Seq<AirWing>, field: Airfield, at: int)
    requires
        0 <= at < national_wings(wings, field).len(),
    ensures
        national_wings(wings, field)[at].airfield_id == field.id,
        national_wings(wings, field)[at].sovereign_country_id == field.controller_country_id,
        !(national_wings(wings, field)[at].state is Evacuated),
        national_wings(wings, field).len() <= wings.len(),
{
    let wanted = |wing: AirWing|
        wing.airfield_id == field.id && wing.state != AirWingState::Evacuated
            && wing.sovereign_country_id == field.controller_country_id;
    assert(national_wings(wings, field) == wings.filter(wanted));
    wings.lemma_filter_pred(wanted, at);
    wings.lemma_filter_len(wanted);
}

/// Allies weigh as the battlefield weighed them, or as the formation remembers.
pub proof fn allies_weigh_as_last_weighed(unit: SimulationUnit, weights: Map<u64, Real>)
    ensures
        weight_of(unit, None) == unit.ally_weight,
        weights.contains_key(unit.combat.id) ==> weight_of(unit, Some(weights))
            == weights[unit.combat.id],
        !weights.contains_key(unit.combat.id) ==> weight_of(unit, Some(weights))
            == unit.ally_weight,
{
}

/// A round of influence gives out no more turns than its budget, and closes once it would.
pub proof fn rounds_stay_within_their_budget(
    results: Map<Operation, u64>,
    scope: TurnScope,
    budget: int,
    count: nat,
)
    requires
        budget >= 0,
    ensures
        round_of(results, scope, budget, count).sources.len() <= budget,
        round_of(results, scope, budget, count).closed ==> round_of(
            results,
            scope,
            budget,
            count,
        ).sources.len() == budget,
    decreases count,
{
    if count > 0 {
        rounds_stay_within_their_budget(results, scope, budget, (count - 1) as nat);
    }
}

/// A formation lacks a home where it is to return and knows no place to return to.
pub proof fn homes_are_lacked_on_the_way(policy: PolicyModel)
    ensures
        lacks_home(policy) <==> policy.command.return_home && policy.command.home_target is None,
{
}

/// Nothing is remembered of a formation that has not fought.
pub proof fn newcomers_remember_nothing()
    ensures
        !blank_memory().is_alpenjager,
        blank_memory().encircled_ticks == 0,
        blank_memory().supply_collapsed_tick is None,
        blank_memory().armor_support_last_tick is None,
        blank_memory().last_ally_count == 0,
        blank_memory().cohesion_seed == real_of(0),
{
}

/// No formation's supply collapsed after the tick where none is found from a place on.
pub proof fn supply_collapsed_in_the_past(
    memories: Map<u64, BattlefieldUnitState>,
    keys: Seq<u64>,
    tick: u64,
    from: int,
    at: int,
)
    requires
        collapsed_later(memories, keys, tick, from) is None,
        0 <= from <= at < keys.len(),
    ensures
        memories[keys[at]].supply_collapsed_tick matches Some(collapse) ==> collapse <= tick,
    decreases keys.len() - from,
{
    if from < at {
        supply_collapsed_in_the_past(memories, keys, tick, from + 1, at);
    }
}

/// A formation whose supply collapsed after the tick is one of those looked at.
pub proof fn later_collapses_are_found(
    memories: Map<u64, BattlefieldUnitState>,
    keys: Seq<u64>,
    tick: u64,
    from: int,
)
    requires
        from >= 0,
        collapsed_later(memories, keys, tick, from) is Some,
    ensures
        memories[collapsed_later(
            memories,
            keys,
            tick,
            from,
        )->Some_0].supply_collapsed_tick matches Some(collapse) && collapse > tick,
    decreases keys.len() - from,
{
    if from < keys.len() && !(memories[keys[from]].supply_collapsed_tick matches Some(collapse)
        && collapse > tick) {
        later_collapses_are_found(memories, keys, tick, from + 1);
    }
}

/// One more damaged formation without supply counts one more; any other counts none.
pub proof fn collapses_are_counted_once(
    results: Seq<DamageResult>,
    resolved: Map<u64, BattlefieldUnitResult>,
    count: nat,
)
    requires
        0 < count <= results.len(),
    ensures
        ({
            let before = collapses(results, resolved, (count - 1) as nat);
            let after = collapses(results, resolved, count);
            let id = results[count - 1].unit_id;
            &&& !resolved.contains_key(id) ==> after == before
            &&& resolved.contains_key(id) && resolved[id].attrition.supply_collapsed ==> after
                == before + 1
            &&& resolved.contains_key(id) && !resolved[id].attrition.supply_collapsed ==> after
                == before
        }),
        collapses(results, resolved, 0) == 0,
{
}

/// A place is on the globe where its latitude is within ninety degrees of the equator and its
/// longitude within a hundred and eighty of the meridian.
pub proof fn places_lie_on_the_globe(place: OperationalPoint)
    ensures
        place.valid() ==> real_of(MINUS_N_90).le(place.lat) && place.lat.le(real_of(N_90))
            && real_of(MINUS_N_180).le(place.lng) && place.lng.le(real_of(N_180)),
        place.lat.finite() && place.lng.finite() && real_of(MINUS_N_90).le(place.lat)
            && place.lat.le(real_of(N_90)) && real_of(MINUS_N_180).le(place.lng) && place.lng.le(
            real_of(N_180),
        ) ==> place.valid(),
{
}

/// Damage counts where it is a finite amount above nothing.
pub proof fn damage_is_above_nothing(amount: Real)
    ensures
        counts_as_damage(amount) ==> amount.finite() && !amount.le(real_of(0)),
        amount.finite() && real_of(0).lt(amount) ==> counts_as_damage(amount),
        !counts_as_damage(real_of(0)),
{
}

/// Nobody owns land under the identifier zero.
pub proof fn nobody_owns_no_mans_land(
    world_control: Seq<u16>,
    land: Seq<u8>,
    owner: u16,
    count: nat,
)
    ensures
        owned_unless_zero(world_control, land, 0, count) == 0,
        owner > 0 ==> owned_unless_zero(world_control, land, owner, count) == owned_cells(
            world_control,
            land,
            owner,
            count,
        ),
{
}

/// A number that a catalogue gives is one where it is finite.
pub proof fn numbers_are_finite(field: FieldModel)
    ensures
        finite_number(field) matches Some(number) ==> number.finite() && field.number() == Some(
            number,
        ),
        field.number() is None ==> finite_number(field) is None,
        field.number() matches Some(number) ==> (number.finite() ==> finite_number(field) == Some(
            number,
        )),
{
}

/// Sightings come by the side that sees and then by whom it sees, and no sighting comes before
/// itself.
pub proof fn sightings_come_in_order(
    left: ObservationModel,
    right: ObservationModel,
    third: ObservationModel,
)
    ensures
        !sighted_before(left, left),
        sighted_before(left, right) ==> !sighted_before(right, left),
        sighted_before(left, right) && sighted_before(right, third) ==> sighted_before(left, third),
        left.observer_side < right.observer_side ==> sighted_before(left, right),
        left.observer_side == right.observer_side && left.target_unit_id < right.target_unit_id
            ==> sighted_before(left, right),
{
}

/// Cities come by their cell and then by their identifier, and no city comes before itself.
pub proof fn cities_come_in_order(left: CityModel, right: CityModel, third: CityModel)
    ensures
        !city_order()(left, left),
        city_order()(left, right) ==> !city_order()(right, left),
        city_order()(left, right) && city_order()(right, third) ==> city_order()(left, third),
        left.cell < right.cell ==> city_order()(left, right),
        left.cell == right.cell && left.city_id < right.city_id ==> city_order()(left, right),
{
}

/// An occupation begins unresisted, ungarrisoned, held and paid for, under its victim.
pub proof fn occupations_begin_quietly(
    countries: Seq<ProductionCountry>,
    economies: Map<u16, EconomyState>,
    victim: u16,
    annexer: u16,
    garrison: Result<u32, KernelFault>,
)
    requires
        new_occupation(countries, economies, victim, annexer, garrison) is Ok,
    ensures
        ({
            let begun = new_occupation(countries, economies, victim, annexer, garrison)->Ok_0;
            &&& begun.victim_id == victim && begun.annexer_id == annexer
            &&& economies.contains_key(victim)
            &&& begun.base_income == economies[victim].base_income
            &&& begun.core_cells > 0
            &&& begun.resistance == real_of(0)
            &&& begun.garrison_coverage == real_of(0) && begun.garrison_assigned == real_of(0)
            &&& begun.occupation_coverage == real_of(ONE_BITS)
            &&& begun.held_ratio == real_of(ONE_BITS)
            &&& garrison == Ok::<u32, KernelFault>(begun.required_garrison)
            &&& !begun.active_rebellion
            &&& begun.queued_at_cycle == 0 && begun.cooldown_until_cycle == 0
        }),
{
}

} // verus!
