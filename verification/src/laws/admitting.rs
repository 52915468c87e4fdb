//! What is admitted to a cycle, a tick or a runtime, and what is turned away.

use vstd::prelude::*;
use crate::air::AirPowerState;
use crate::economy::EconomyState;
use crate::numbers::N_1000;
use crate::operations::{declared_hostile, enemies_below, OperationsModel};
use crate::production::{ProductionConfig, ProductionCountry, ProductionError, ScenarioProduction};
use crate::reinforcement::{MaterialLogisticsState, ReinforcementState};
use crate::runtime::boot::{
    enemies_agree, largest_wing, material_outfitted, operations_boundary_fault,
    reinforcement_outfitted, world_fault,
};
use crate::runtime::dynamics::strength_fault;
use crate::runtime::enlistment::largest_id;
use crate::runtime::error::RuntimeError;
use crate::runtime::influence::{seed_fault, TurnScope};
use crate::runtime::mobilization::{mobilized, MobilizationScope};
use crate::runtime::planning::{FrontObjective, PriorModel};
use crate::runtime::policy::Policies;
use crate::runtime::recruitment::RECRUIT_DEPLOY_TICKS;
use crate::runtime::validation::{
    front_planner_fault, is_live, is_objective, prior_valid, runtime_config_valid, RuntimeConfig,
};
use crate::runtime::world::{
    captor_of, captures, diplomacy_fault, AirfieldController, RuntimeDiplomacy, TerritoryControl,
};
use crate::scalar::real_of;
use crate::scenario::{target_fault, GridSpec, ScenarioFault};
use crate::simulation::{
    order_fault, order_fault_at, order_for, OrderReach, SimulationError, UnitSnapshot,
    NATIVE_TICK_SCHEMA_VERSION,
};
use crate::strategic::{
    boundary_fault, economy_sound, marker_of, occupation_sound, unit_sound, OccupationState,
    StrategicDerivationInput,
};
use crate::units::{KernelFault, ResolvedUnitOrder, SimulationUnit};
use crate::worksheet::{integer, quotient, Operation};

verus! {

/// A strategic cycle is derived only from views that belong together: one grid, fresh and whole
/// territory, the frame of the tick, sides within bounds, and a square table of zeros and ones in
/// which no side is its own enemy.
pub proof fn cycles_are_derived_from_views_that_agree(
    source: StrategicDerivationInput<'_>,
    config: ProductionConfig,
    left: int,
    right: int,
)
    requires
        boundary_fault(source, config) is None,
    ensures
        source.territory_fresh,
        source.de_jure@.len() == source.grid.area(),
        source.territory.schema_version@ == source.territory_schema@,
        source.frame.tick == source.tick,
        0 < source.side_count <= config.max_sides,
        source.hostility_matrix@.len() == source.side_count * source.side_count,
        source.country_to_side@.dom().len() <= config.max_countries,
        source.territory.generation == source.expected_territory.generation,
        source.territory.commit_sequence == source.expected_territory.commit_sequence,
        source.territory.topology_revision == source.expected_territory.topology_revision,
        source.territory.world_revision == source.expected_territory.world_revision,
        source.territory.city_revision == source.expected_territory.city_revision,
        0 <= left < source.side_count && 0 <= right < source.side_count
            ==> source.hostility_matrix@[left * source.side_count + right] <= 1,
        0 <= left < source.side_count ==> source.hostility_matrix@[left * source.side_count + left]
            == 0,
{
}

/// Each reason to turn views away is told by itself, the first one that there is.
pub proof fn views_that_disagree_are_turned_away(
    source: StrategicDerivationInput<'_>,
    config: ProductionConfig,
)
    ensures
        boundary_fault(source, config) == Some(ProductionError::StaleTerritory)
            ==> !source.territory_fresh || marker_of(*source.territory)
            != source.expected_territory,
        boundary_fault(source, config) == Some(ProductionError::PartialTerritory)
            ==> source.territory_fresh && source.territory.schema_version@
            != source.territory_schema@,
        boundary_fault(source, config) == Some(ProductionError::StaleFrame)
            ==> source.frame.tick != source.tick || source.frame.schema_version@
            != NATIVE_TICK_SCHEMA_VERSION@,
        source.side_count == 0 ==> boundary_fault(source, config) is Some,
        source.side_count > config.max_sides ==> boundary_fault(source, config) is Some,
        !source.territory_fresh ==> boundary_fault(source, config) is Some,
{
}

/// An order is admitted just where every number of it is finite and, if it moves, where it leads
/// is finite too.
pub proof fn orders_are_finite(order: ResolvedUnitOrder, reach: OrderReach)
    ensures
        order_fault(order, reach) is None ==> order.dir_lat.finite() && order.dir_lng.finite()
            && order.factors.base_speed.finite() && order.factors.speed_mult.finite()
            && order.factors.plan_speed_mult.finite() && order.factors.neutral_penalty.finite()
            && order.factors.retreat_boost.finite() && order.factors.push_readiness.finite(),
        order_fault(order, reach) is None ==> order.combat.dealt_multiplier.finite()
            && order.combat.taken_multiplier.finite() && order.combat.defense_bonus.finite()
            && order.combat.long_war_defense.finite(),
        order_fault(order, reach) is None && order.movement_enabled
            ==> reach.move_distance.finite() && reach.lat_step.finite() && reach.lng_step.finite(),
        !order.movement_enabled ==> forall|other: OrderReach|
            #[trigger] order_fault(order, other) == order_fault(order, reach),
        order_fault(order, reach) is Some ==> order_fault(order, reach) == Some(
            SimulationError::NonFiniteInput,
        ),
{
}

/// A second order for a live formation is turned away, one for a formation that is not there is
/// not.
pub proof fn formations_get_one_order(
    units: Seq<SimulationUnit>,
    orders: Seq<ResolvedUnitOrder>,
    reaches: Seq<OrderReach>,
    position: int,
)
    requires
        0 <= position < orders.len(),
        order_fault(orders[position], reaches[position]) is None,
    ensures
        (forall|i: int|
            0 <= i < units.len() ==> (#[trigger] units[i]).combat.id != orders[position].unit_id)
            ==> order_fault_at(units, orders, reaches, position) is None,
        order_for(orders.take(position), orders[position].unit_id) is None ==> order_fault_at(
            units,
            orders,
            reaches,
            position,
        ) is None,
        order_fault_at(units, orders, reaches, position) matches Some(error) ==> error
            == SimulationError::DuplicateOrder(orders[position].unit_id),
        forall|i: int|
            #![trigger units[i]]
            0 <= i < units.len() && units[i].combat.id == orders[position].unit_id && order_for(
                orders.take(position),
                orders[position].unit_id,
            ) is Some ==> order_fault_at(units, orders, reaches, position) is Some,
{
}

/// A unit can be paid and counted only where it has a country of the war, is on the side of that
/// country, is somewhere, and has health that is no less than nothing.
pub proof fn sound_units_belong_to_their_side(
    unit: UnitSnapshot,
    mapping: Map<u16, usize>,
    side_count: usize,
)
    requires
        unit_sound(unit, mapping, side_count),
    ensures
        unit.sovereign > 0,
        mapping.contains_key(unit.sovereign as u16),
        mapping[unit.sovereign as u16] == unit.side,
        unit.side < side_count,
        unit.lat.finite(),
        unit.lng.finite(),
        unit.health.finite_nonnegative(),
        real_of(0).lt(unit.max_health),
        unit.health_fraction.unit_interval(),
        unit.dir_lat.finite(),
        unit.dir_lng.finite(),
{
}

/// An economy can be worked with only where it belongs to a country that had land, and every
/// amount of it is finite.
pub proof fn sound_economies_are_finite(state: EconomyState)
    requires
        economy_sound(state),
    ensures
        state.country_id > 0,
        state.initial_core_cells > 0,
        state.treasury.finite(),
        state.income.finite(),
        state.base_income.finite(),
        state.economic_strength.finite(),
        state.occupation_yield.finite(),
        state.payroll_due.finite(),
        state.occupation_due.finite(),
        state.payroll_coverage.finite(),
        state.occupation_coverage.finite(),
        state.arrears_cycles.finite(),
        state.core_control_ratio.finite(),
        state.city_control_ratio.finite(),
{
}

/// An occupation can be worked with only where it stands under its victim, and victim and annexer
/// are two countries of the war with economies.
pub proof fn sound_occupations_have_two_countries(
    source: StrategicDerivationInput<'_>,
    state: OccupationState,
    key: u16,
)
    requires
        occupation_sound(source, state, key),
    ensures
        key > 0,
        state.victim_id == key,
        state.annexer_id > 0,
        state.annexer_id != state.victim_id,
        state.core_cells > 0,
        source.economies@.contains_key(state.victim_id),
        source.economies@.contains_key(state.annexer_id),
        state.expected_army_units.finite_nonnegative(),
        state.resistance.finite(),
        state.held_ratio.finite(),
{
}

/// A grid to decode into has cells of a positive size, at least one of them, and no more than can
/// be counted; the first thing that is wrong with it is told.
pub proof fn target_grids_have_cells(target: GridSpec)
    ensures
        target_fault(target) is None ==> target.width > 0 && target.height > 0 && real_of(0).lt(
            target.grid_res,
        ) && target.area() <= usize::MAX,
        target.width == 0 || target.height == 0 ==> target_fault(target) is Some,
        real_of(0).lt(target.grid_res) && target.grid_res.finite() && target.width > 0
            && target.height > 0 && target.area() <= usize::MAX ==> target_fault(target) is None,
        target_fault(target) == Some(ScenarioFault::GridTooLarge) ==> target.area() > usize::MAX,
{
}

/// Formations whose strength is asked for stand on declared sides and have policies.
pub proof fn judged_formations_are_known(
    units: Seq<SimulationUnit>,
    policies: Policies,
    side_count: usize,
    from: int,
    at: int,
)
    requires
        strength_fault(units, policies, side_count, from) is None,
        0 <= from <= at < units.len(),
    ensures
        units[at].combat.side < side_count,
        policies.contains_key(units[at].combat.id),
    decreases units.len() - from,
{
    if from < at {
        judged_formations_are_known(units, policies, side_count, from + 1, at);
    }
}

/// A front planner's memory is not from the future, is empty where nothing was planned yet, and
/// speaks of live formations under their own ids and of objectives that there are.
pub proof fn front_memories_are_of_the_living(
    tick: u64,
    units: Seq<SimulationUnit>,
    objectives: Seq<FrontObjective>,
    priors: Map<u64, PriorModel>,
    last_refresh: Option<u64>,
    id: u64,
)
    requires
        front_planner_fault(tick, units, objectives, priors, last_refresh) is None,
    ensures
        last_refresh matches Some(refresh) ==> refresh <= tick,
        last_refresh is None ==> priors.dom().len() == 0,
        priors.contains_key(id) ==> priors[id].unit_id == id && priors[id].pair_key.len() > 0
            && is_live(units, id) && is_objective(objectives, priors[id].objective_id),
{
    if priors.contains_key(id) {
        assert(prior_valid(units, objectives, id, priors[id]));
    }
}

/// A formation takes turns only with a policy and a seed of its own.
pub proof fn turns_need_a_seed(scope: TurnScope, unit: SimulationUnit)
    ensures
        seed_fault(scope, unit) is None <==> scope.policies.contains_key(unit.combat.id)
            && scope.policies[unit.combat.id].influence is Some
            && scope.policies[unit.combat.id].influence->Some_0.browser_temporal_seed is Some,
        !scope.policies.contains_key(unit.combat.id) ==> seed_fault(scope, unit) == Some(
            RuntimeError::InvalidUnitPolicy(unit.combat.id),
        ),
{
}

/// A world is admitted only with a valid configuration and diplomacy, on the grid of its
/// territory, and with missiles that their kernel accepts.
pub proof fn worlds_are_admitted_whole(
    config: RuntimeConfig,
    diplomacy: RuntimeDiplomacy,
    territory: TerritoryControl,
    scenario: ScenarioProduction,
    missiles: Option<Result<(), KernelFault>>,
)
    ensures
        world_fault(config, diplomacy, territory, scenario, missiles) is None
            ==> runtime_config_valid(config) && diplomacy_fault(diplomacy, territory) is None
            && scenario.grid.same(territory.grid) && territory.de_jure@.len()
            == territory.land@.len() && !(missiles matches Some(Err(_))),
        !runtime_config_valid(config) ==> world_fault(
            config,
            diplomacy,
            territory,
            scenario,
            missiles,
        ) == Some(RuntimeError::InvalidConfig),
        missiles matches Some(Err(fault)) ==> world_fault(
            config,
            diplomacy,
            territory,
            scenario,
            missiles,
        ) is Some,
{
}

/// Operations are admitted with a runtime only where every side's enemies are those that were
/// declared.
pub proof fn admitted_operations_know_the_declared_enemies(
    state: OperationsModel,
    units: Seq<SimulationUnit>,
    countries: Seq<ProductionCountry>,
    hostility: Seq<u8>,
    side_count: usize,
    tick: u64,
    at: int,
)
    requires
        operations_boundary_fault(
            Some(state),
            units,
            countries,
            hostility,
            side_count,
            tick,
        ) is None,
        0 <= at < state.sides.len(),
    ensures
        state.sides.len() == side_count,
        state.sides[at].hostile_side_indices == enemies_below(
            hostility,
            side_count,
            state.sides[at].side_index as int,
            side_count as nat,
        ),
        operations_boundary_fault(None, units, countries, hostility, side_count, tick) is None,
{
    assert(enemies_agree(state.sides[at], hostility, side_count));
}

/// The enemies of a side are those that were declared hostile to it, each once, in their order.
pub proof fn enemies_are_the_declared_ones(
    hostility: Seq<u8>,
    side_count: usize,
    side: int,
    count: nat,
    other: usize,
)
    requires
        count <= usize::MAX,
    ensures
        enemies_below(hostility, side_count, side, count).contains(other) <==> other < count
            && declared_hostile(hostility, side_count, side, other as int),
        forall|i: int|
            0 <= i < enemies_below(hostility, side_count, side, count).len() ==> (
            #[trigger] enemies_below(hostility, side_count, side, count)[i]) < count,
    decreases count,
{
    if count > 0 {
        let rest = enemies_below(hostility, side_count, side, (count - 1) as nat);
        enemies_are_the_declared_ones(hostility, side_count, side, (count - 1) as nat, other);
        let last = (count - 1) as usize;
        if declared_hostile(hostility, side_count, side, count - 1) {
            let all = rest.push(last);
            assert(all[rest.len() as int] == last);
            if rest.contains(other) {
                let k = choose|k: int| 0 <= k < rest.len() && rest[k] == other;
                assert(all[k] == other);
            }
            if all.contains(other) && other != last {
                let k = choose|k: int| 0 <= k < all.len() && all[k] == other;
                assert(rest[k] == other);
            }
        }
    }
}

/// Reinforcement starts with a world that flies and only there; a state that is given is kept as
/// it is or turned away, and no formation that it has yet to raise has an id that was issued.
pub proof fn reinforcement_needs_wings(
    given: Option<ReinforcementState>,
    air: Option<AirPowerState>,
    verdict: Result<(), KernelFault>,
    units: Seq<SimulationUnit>,
    country_to_side: Map<u16, usize>,
    side_count: usize,
    outcome: Result<Option<ReinforcementState>, RuntimeError>,
)
    requires
        reinforcement_outfitted(
            given,
            air,
            verdict,
            units,
            country_to_side,
            side_count,
            outcome,
        ),
    ensures
        given is None && air is None ==> outcome is Ok && outcome->Ok_0 is None,
        given is Some && air is None ==> outcome is Err,
        given is Some && outcome is Ok ==> outcome->Ok_0 == given,
        outcome is Ok && air is Some ==> outcome->Ok_0 is Some,
        given is Some && outcome is Ok && units.len() > 0 ==> largest_id(units, units.len())
            < outcome->Ok_0->Some_0.next_unit_id,
        given is None && air is Some && outcome is Ok ==> outcome->Ok_0->Some_0.next_unit_id
            == largest_id(units, units.len()) + 1 && outcome->Ok_0->Some_0.next_air_wing_id
            == largest_wing(air->Some_0.wings@, air->Some_0.wings@.len()) + 1,
{
}

/// Logistics starts with reinforcement and only there; a state that is given is kept as it is or
/// turned away.
pub proof fn logistics_needs_reinforcement(
    results: Map<Operation, u64>,
    given: Option<MaterialLogisticsState>,
    has_reinforcement: bool,
    units: Seq<SimulationUnit>,
    countries: Seq<ProductionCountry>,
    economies: Map<u16, EconomyState>,
    country_to_side: Map<u16, usize>,
    side_count: usize,
    outcome: Result<Option<MaterialLogisticsState>, RuntimeError>,
)
    requires
        material_outfitted(
            results,
            given,
            has_reinforcement,
            units,
            countries,
            economies,
            country_to_side,
            side_count,
            outcome,
        ),
    ensures
        given is None && !has_reinforcement ==> outcome is Ok && outcome->Ok_0 is None,
        given is Some && !has_reinforcement ==> outcome is Err,
        given is Some && outcome is Ok ==> outcome->Ok_0 == given,
        outcome is Ok && has_reinforcement ==> outcome->Ok_0 is Some,
{
}

/// No formation has a larger id than the largest one.
pub proof fn the_largest_id_is_the_largest(units: Seq<SimulationUnit>, count: nat, at: int)
    requires
        count <= units.len(),
        0 <= at < count,
    ensures
        units[at].combat.id <= largest_id(units, count),
    decreases count,
{
    if at < count - 1 {
        the_largest_id_is_the_largest(units, (count - 1) as nat, at);
    }
}

/// New armor is listed with a policy each, deploys first, and is remembered under its id; what was
/// there before is not listed.
pub proof fn new_armor_is_listed(
    scope: MobilizationScope,
    units: Seq<SimulationUnit>,
    count: nat,
)
    requires
        0 < count <= units.len(),
        mobilized(scope, units, count) is Ok,
    ensures
        mobilized(scope, units, (count - 1) as nat) is Ok,
        ({
            let before = mobilized(scope, units, (count - 1) as nat)->Ok_0;
            let after = mobilized(scope, units, count)->Ok_0;
            let unit = units[count - 1];
            &&& !scope.created.contains(unit.combat.id) ==> after == before
            &&& scope.created.contains(unit.combat.id) ==> {
                &&& after.units == before.units.push(unit)
                &&& after.policies.len() == before.policies.len() + 1
                &&& after.policies.last().unit_id == unit.combat.id
                &&& after.policies.last().ai.deploy_until_tick == scope.tick + RECRUIT_DEPLOY_TICKS
                &&& after.battlefield_units.contains_key(unit.combat.id)
                &&& after.battlefield_units[unit.combat.id].cohesion_seed == quotient(
                    scope.results,
                    integer(scope.results, (unit.combat.id % 4) as u64),
                    real_of(N_1000),
                )
            }
        }),
{
}

/// An airfield changes hands just where somebody took its ground.
pub proof fn captures_are_of_taken_fields(
    results: Map<Operation, u64>,
    air: AirPowerState,
    territory: TerritoryControl,
    count: nat,
)
    requires
        0 < count <= air.airfields@.len(),
    ensures
        ({
            let before = captures(results, air, territory, (count - 1) as nat);
            let after = captures(results, air, territory, count);
            let field = air.airfields@[count - 1];
            let taker = captor_of(
                results,
                territory,
                field.lat,
                field.lng,
                field.side,
                field.controller_country_id,
            );
            &&& taker is None ==> after == before
            &&& taker matches Some(controller) ==> after == before.insert(field.id, controller)
                && controller.side != field.side
        }),
        captures(results, air, territory, 0) == Map::<u64, AirfieldController>::empty(),
{
}

} // verus!
