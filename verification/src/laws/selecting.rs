//! Who is selected, what counts as nothing, and where provinces lie.

use vstd::prelude::*;
use crate::air::{allied_wings, AirRole, AirWing, AirWingState, Airfield};
use crate::casualties::{account, toll_of, Ledger};
use crate::catalogue::{seed_of, seeding};
use crate::numbers::{
    N_0_1, N_0_2, N_0_3, N_0_5, N_0_6, N_0_65, N_0_8, N_0_9, N_180, N_19349663, N_1_1, N_1_2, N_1_4,
    N_1_9, N_2_3, N_2_7, N_3_1, N_73856093, N_83492791, N_90,
};
use crate::operations::{
    believed_strength, believed_total, observed_side, observed_sides, ForceModel, SideModel,
    TacticalContactObservation, TaskForcePhase,
};
use crate::paycycle::home_of;
use crate::production::{usable_grid, CountryModel, ProductionConfig, ProductionError};
use crate::reinforcement::armor_in_formations;
use crate::runtime::assembly::removed_somewhere;
use crate::runtime::battlefield::{BattlefieldRuntimeState, BattlefieldUnitResult};
use crate::runtime::boot::lacks_seed;
use crate::runtime::clash::hurt_otherwise;
use crate::runtime::command::{command_unit, CommandUnitState};
use crate::runtime::counters::{
    no_air_war, no_attrition, no_census, no_execution, no_influence, no_missiles, no_naval_planning,
    no_planning, no_reinforcement, no_step,
};
use crate::runtime::dynamics::{cells_of, side_amount};
use crate::runtime::enlistment::{
    affordable, largest_id, recruit_people, recruited, sovereigns_fit, units_of, RecruitmentInput,
    RecruitmentModel, RecruitmentTurn,
};
use crate::runtime::error::RuntimeError;
use crate::runtime::native::{next_counters, RuntimeModel, TickResult};
use crate::runtime::policy::{plain_movement, Policies};
use crate::runtime::skirmish::controllers_due;
use crate::runtime::step::RuntimeStep;
use crate::runtime::tactics::{answer_taken, BattlefieldModel, StagedBattlefieldTick};
use crate::runtime::tick::TickWork;
use crate::runtime::visuals::{memory_of, tactics_of};
use crate::scalar::{real_of, Real, ONE_BITS};
use crate::scenario::{
    cells_along, cosine, province_of, signed_word, sine, sized_grid, wrapped, GridSpec,
};
use crate::settlement::{armored_formations, new_armor, new_wing};
use crate::simulation::FrameSnapshot;
use crate::strategic::CountryAggregate;
use crate::taskforce::{advanced_force, culmination_reason, may_follow, supply_fails, UnitMap};
use crate::units::{SimulationUnit, UnitKind};
use crate::worksheet::{difference, integer, number_at, product, sum, Operation};

verus! {

/// An attack fails for want of supply only where it was not surprised, and where enough of its
/// members ran out.
pub proof fn surprise_comes_before_supply(
    results: Map<Operation, u64>,
    force: ForceModel,
    by_id: UnitMap,
    tick: u64,
)
    ensures
        force.severe_surprise ==> !supply_fails(results, force, by_id, tick),
        supply_fails(results, force, by_id, tick) ==> culmination_reason(
            results,
            force,
            by_id,
            tick,
        ) == Some("SUPPLY_COLLAPSE"@),
        culmination_reason(results, force, by_id, tick) == Some("SUPPLY_COLLAPSE"@)
            ==> supply_fails(results, force, by_id, tick),
{
    reveal_strlit("SUPPLY_COLLAPSE");
    reveal_strlit("SEVERE_SURPRISE");
    reveal_strlit("ENCIRCLEMENT_RISK");
    reveal_strlit("POWER_LOSS");
    assert("SUPPLY_COLLAPSE"@[1] != "SEVERE_SURPRISE"@[1]);
    assert("SUPPLY_COLLAPSE"@[1] != "ENCIRCLEMENT_RISK"@[1]);
    assert("SUPPLY_COLLAPSE"@[1] != "POWER_LOSS"@[1]);
}

/// A phase is followed by itself or by the one after it: no phase is left out, an attack alone has
/// two ends, and nothing follows completion.
pub proof fn phases_follow_one_another(before: TaskForcePhase, after: TaskForcePhase)
    requires
        may_follow(before, after),
        before != after,
    ensures
        before is Assembling ==> after is Attacking,
        before is Attacking ==> after is Consolidating || after is Culminated,
        before is Culminated ==> after is Withdrawing,
        before is Withdrawing ==> after is Regrouping,
        before is Regrouping ==> after is Complete,
        before is Consolidating ==> after is Complete,
        !(before is Complete),
{
}

/// The armored formations of a country are armor, and its own.
pub proof fn armored_formations_are_armor(units: Seq<SimulationUnit>, country: u16, at: int)
    ensures
        0 <= at < armored_formations(units, country).len() ==> armored_formations(
            units,
            country,
        )[at].combat.kind is Armor && armored_formations(units, country)[at].combat.sovereign
            == country,
        0 <= at < units.len() && units[at].combat.kind is Armor && units[at].combat.sovereign
            == country ==> armored_formations(units, country).contains(units[at]),
{
    let wanted = |unit: SimulationUnit|
        unit.combat.kind == UnitKind::Armor && unit.combat.sovereign == country;
    assert(armored_formations(units, country) == units.filter(wanted));
    if 0 <= at < armored_formations(units, country).len() {
        units.lemma_filter_pred(wanted, at);
    }
    if 0 <= at < units.len() && wanted(units[at]) {
        units.lemma_filter_contains(wanted, at);
    }
}

/// Allied wings at a field are stationed there, fly for another country than its controller, and
/// were not evacuated to it.
pub proof fn allied_wings_fly_for_others(wings: Seq<AirWing>, field: Airfield, at: int)
    requires
        0 <= at < allied_wings(wings, field).len(),
    ensures
        allied_wings(wings, field)[at].airfield_id == field.id,
        allied_wings(wings, field)[at].sovereign_country_id != field.controller_country_id,
        !(allied_wings(wings, field)[at].state is Evacuated),
        allied_wings(wings, field).len() <= wings.len(),
{
    let wanted = |wing: AirWing|
        wing.airfield_id == field.id && wing.state != AirWingState::Evacuated
            && wing.sovereign_country_id != field.controller_country_id;
    assert(allied_wings(wings, field) == wings.filter(wanted));
    wings.lemma_filter_pred(wanted, at);
    wings.lemma_filter_len(wanted);
}

/// A formation lacks a seed unless it has a policy with influence that has one.
pub proof fn seeds_come_with_influence(policies: Policies, unit_id: u64)
    ensures
        !policies.contains_key(unit_id) ==> lacks_seed(policies, unit_id),
        policies.contains_key(unit_id) && policies[unit_id].influence is None ==> lacks_seed(
            policies,
            unit_id,
        ),
        policies.contains_key(unit_id) && policies[unit_id].influence is Some
            && policies[unit_id].influence->Some_0.browser_temporal_seed is Some ==> !lacks_seed(
            policies,
            unit_id,
        ),
{
}

/// A side takes in what it sees of its enemies at places on the globe; other sides, and a side
/// that sees anything else, know what they knew.
pub proof fn sides_see_their_enemies(
    results: Map<Operation, u64>,
    sides: Seq<SideModel>,
    observations: Seq<TacticalContactObservation>,
    tick: u64,
    count: nat,
    other: int,
)
    requires
        0 < count <= observations.len(),
    ensures
        ({
            let before = observed_sides(results, sides, observations, tick, (count - 1) as nat);
            let after = observed_sides(results, sides, observations, tick, count);
            let seen = observations[count - 1];
            &&& after.len() == before.len()
            &&& 0 <= other < before.len() && other != seen.observer_side ==> after[other]
                == before[other]
            &&& seen.observer_side >= before.len() ==> after == before
            &&& 0 <= other < before.len() && other == seen.observer_side
                && !before[other].hostile_side_indices.contains(seen.enemy_side) ==> after
                == before
            &&& !seen.observed_power.finite() ==> after == before
            &&& !seen.target_position.valid() ==> after == before
            &&& 0 <= other < before.len() && other == seen.observer_side
                && before[other].hostile_side_indices.contains(seen.enemy_side)
                && seen.target_position.valid() && seen.observed_power.finite_nonnegative()
                ==> after[other] == observed_side(results, before[other], seen, tick)
        }),
{
}

/// A side that is not counted has no formations.
pub proof fn uncounted_sides_are_empty(side_units: Map<usize, usize>, side: usize)
    ensures
        side_units.contains_key(side) ==> units_of(side_units, side) == side_units[side],
        !side_units.contains_key(side) ==> units_of(side_units, side) == 0,
{
}

/// A country without a home has none, any other its own.
pub proof fn homes_are_their_own(homes: Map<u16, (Real, Real)>, country: u16)
    ensures
        homes.contains_key(country) ==> home_of(homes, country) == Some(homes[country]),
        !homes.contains_key(country) ==> home_of(homes, country) is None,
{
}

/// Recruits never get the id of a formation that is there, and formations of no country stop
/// recruitment.
pub proof fn recruits_get_new_ids(
    results: Map<Operation, u64>,
    source: RecruitmentInput<'_>,
    next_unit_id: u64,
    reserves: Map<usize, Real>,
)
    ensures
        next_unit_id <= largest_id(source.units@, source.units@.len()) ==> recruited(
            results,
            source,
            next_unit_id,
            reserves,
        ) is Err,
        !sovereigns_fit(source.units@) ==> recruited(
            results,
            source,
            next_unit_id,
            reserves,
        ) is Err,
        recruited(results, source, next_unit_id, reserves) is Ok ==> next_unit_id > largest_id(
            source.units@,
            source.units@.len(),
        ) && sovereigns_fit(source.units@),
{
}

/// A grid is made over a world of a positive size where its cells can be counted, and covers the
/// world with them.
pub proof fn grids_are_made_where_they_fit(
    results: Map<Operation, u64>,
    grid_res: Real,
    width_deg: Real,
    height_deg: Real,
)
    ensures
        ({
            let made = sized_grid(results, grid_res, width_deg, height_deg);
            let across = cells_along(results, width_deg, grid_res);
            let down = cells_along(results, height_deg, grid_res);
            &&& made matches Ok(grid) ==> real_of(0).lt(grid_res) && real_of(0).lt(width_deg)
                && real_of(0).lt(height_deg) && grid.grid_res == grid_res && across is Some
                && down is Some && across->Some_0 * down->Some_0 <= usize::MAX
            &&& real_of(0).lt(grid_res) && grid_res.finite() && real_of(0).lt(width_deg)
                && width_deg.finite() && real_of(0).lt(height_deg) && height_deg.finite()
                && across is Some && down is Some && across->Some_0 * down->Some_0 <= usize::MAX
                ==> made is Ok
        }),
{
}

/// A formation is commanded as what it is: under its own id, country, side and discipline.
pub proof fn formations_are_commanded_as_they_are(
    units: Seq<SimulationUnit>,
    policies: Policies,
    at: int,
)
    ensures
        !policies.contains_key(units[at].combat.id) ==> command_unit(units, policies, at) == Some(
            Err::<CommandUnitState, RuntimeError>(
                RuntimeError::InvalidUnitPolicy(units[at].combat.id),
            ),
        ),
        policies.contains_key(units[at].combat.id) && units[at].combat.sovereign <= u16::MAX ==> {
            &&& command_unit(units, policies, at) matches Some(told) && told is Ok
            &&& command_unit(units, policies, at)->Some_0->Ok_0.id == units[at].combat.id
            &&& command_unit(units, policies, at)->Some_0->Ok_0.sovereign_id
                == units[at].combat.sovereign
            &&& command_unit(units, policies, at)->Some_0->Ok_0.side
                == units[at].combat.side as usize
            &&& command_unit(units, policies, at)->Some_0->Ok_0.discipline
                == policies[units[at].combat.id].command.discipline
        },
{
}

/// A tick in which nothing happened counts nothing.
pub proof fn nothing_counts_as_nothing()
    ensures
        !no_air_war().updated,
        no_air_war().missions_selected == 0,
        no_air_war().strikes_completed == 0,
        no_air_war().wings_destroyed == 0,
        no_air_war().personnel_loss == 0,
        no_missiles().launches == 0,
        no_missiles().impacts == 0,
        no_missiles().personnel_loss == 0,
        no_reinforcement().recruited_units == 0,
        no_reinforcement().aircraft_purchased == 0,
        no_reinforcement().armor_purchased == 0,
        no_attrition().damaged_units == 0,
        no_attrition().personnel_loss == 0,
        no_attrition().exiled_units == 0,
        no_influence().sources == 0,
        no_influence().cohort is None,
        !no_census().committed,
        !no_census().flushed_for_strategic_cycle,
        no_planning().input_units == 0,
        no_naval_planning().created_operations == 0,
        no_execution().steering_orders == 0,
        !no_step().front_refreshed,
        no_step().front_segments == 0,
        no_step().strategic is None,
        no_step().strategic_derivation is None,
        no_step().render_updates_enqueued == 0,
{
}

/// Vehicles of a country are counted in its armored formations, one formation after the other;
/// foot and the formations of others add none.
pub proof fn vehicles_are_counted_by_country(units: Seq<SimulationUnit>, country: u64)
    requires
        units.len() > 0,
    ensures
        ({
            let before = armor_in_formations(units.drop_last(), country);
            let after = armor_in_formations(units, country);
            let last = units.last().combat;
            &&& last.kind is Armor && last.sovereign == country ==> after == before
                + last.equipment
            &&& !(last.kind is Armor) || last.sovereign != country ==> after == before
        }),
{
}

/// A side believes nothing of no enemies, and adds each enemy's strength to that of the others.
pub proof fn beliefs_add_up(results: Map<Operation, u64>, side: SideModel, count: nat)
    requires
        0 < count <= side.hostile_side_indices.len(),
    ensures
        believed_total(results, side, 0) == real_of(0),
        believed_total(results, side, count) == sum(
            results,
            believed_total(results, side, (count - 1) as nat),
            believed_strength(results, side.intel, side.hostile_side_indices[count - 1]),
        ),
{
}

/// A formation is gone where the frame says so or where something else removed it.
pub proof fn the_gone_are_gone_for_a_reason(
    frame: FrameSnapshot,
    removed: Seq<Vec<u64>>,
    id: u64,
    which: int,
)
    ensures
        frame.removed_ids@.contains(id) ==> removed_somewhere(frame, removed, id),
        0 <= which < removed.len() && removed[which]@.contains(id) ==> removed_somewhere(
            frame,
            removed,
            id,
        ),
        !frame.removed_ids@.contains(id) && (forall|i: int|
            0 <= i < removed.len() ==> !(#[trigger] removed[i])@.contains(id))
            ==> !removed_somewhere(frame, removed, id),
{
}

/// A signed word has the range of one, and differs from its bits by a whole turn at most.
pub proof fn signed_words_have_a_range(bits: u32)
    ensures
        -0x8000_0000 <= signed_word(bits) < 0x8000_0000,
        signed_word(bits) == bits || signed_word(bits) == bits - 0x1_0000_0000,
{
}

/// A country has the means for another formation where its treasury and the reserve of its side
/// have at least what it takes, its side has room, and it owes less than a cycle of pay.
pub proof fn just_enough_is_enough(
    results: Map<Operation, u64>,
    source: RecruitmentInput<'_>,
    model: RecruitmentModel,
    turn: RecruitmentTurn,
)
    ensures
        ({
            let purse = toll_of(model.treasuries, turn.country_id);
            let people = side_amount(model.reserves, turn.side);
            let needed = integer(results, recruit_people(turn));
            &&& purse.lt(source.rules.cost) ==> !affordable(results, source, model, turn)
            &&& people.lt(needed) ==> !affordable(results, source, model, turn)
            &&& real_of(ONE_BITS).le(turn.economy.arrears_cycles) ==> !affordable(
                results,
                source,
                model,
                turn,
            )
            &&& units_of(model.side_units, turn.side) >= source.config.max_units_per_side
                ==> !affordable(results, source, model, turn)
            &&& source.rules.cost.le(purse) && needed.le(people) && turn.economy.arrears_cycles.lt(
                real_of(ONE_BITS),
            ) && units_of(model.side_units, turn.side) < source.config.max_units_per_side
                ==> affordable(results, source, model, turn)
        }),
        turn.economy.capital_held ==> recruit_people(turn) == 1_000,
        !turn.economy.capital_held ==> recruit_people(turn) == 400,
{
}

/// A tick that was published is the next one after the runtime's, in the next frame, with fronts
/// laid out where there were none yet or where their turn has come.
pub proof fn published_ticks_follow(result: TickResult, model: RuntimeModel, step: RuntimeStep)
    requires
        result.follows(model, step),
    ensures
        step.tick == model.tick + 1,
        step.frame == model.frame + 1,
        model.last_refresh is None ==> result.layout is Some,
        result.layout is Some && model.last_refresh is Some ==> step.tick
            % model.config.front_refresh_ticks == 0,
        result.battlefield is Some <==> model.battlefield is Some,
        result.air_power is Some <==> model.air is Some,
        result.reinforcement is Some <==> model.reinforcement is Some,
        result.territory.grid == model.territory.grid,
        result.territory.max_sides == model.territory.max_sides,
{
}

/// Newly raised armor stands still on its ground at full health, fresh and unsupported.
pub proof fn new_armor_is_fresh(
    id: u64,
    country: u16,
    side: usize,
    home: (Real, Real),
    equipment: u64,
    max_equipment: u64,
    quality: Real,
)
    ensures
        ({
            let raised = new_armor(id, country, side, home, equipment, max_equipment, quality);
            &&& raised.combat.id == id && raised.combat.sovereign == country
            &&& raised.combat.side == side
            &&& raised.combat.kind is Armor
            &&& raised.combat.lat == home.0 && raised.combat.lng == home.1
            &&& raised.combat.health == raised.combat.max_health
            &&& raised.combat.equipment == equipment
            &&& raised.combat.max_equipment == max_equipment
            &&& raised.combat.quality == quality
            &&& raised.combat.personnel == 0 && raised.combat.personnel_capacity == 0
            &&& !raised.combat.transport && !raised.combat.armor_supported
            &&& !raised.combat.landing_penalty_active && !raised.combat.at_sea
            &&& raised.combat.last_combat_tick == 0 && raised.combat.victory_boost_ticks == 0
            &&& raised.dir_lat == real_of(0) && raised.dir_lng == real_of(0)
            &&& raised.coast_stuck_ticks == 0 && raised.armor_landing_penalty_until_tick == 0
            &&& !raised.is_support
            &&& raised.ally_weight == real_of(ONE_BITS)
        }),
{
}

/// A newly raised wing is at its field, full of nothing but its aircraft: fighters on patrol,
/// strike aircraft on the ground.
pub proof fn new_wings_are_ready(
    id: u64,
    country: u16,
    side: usize,
    field: Airfield,
    role: AirRole,
    quality: Real,
    count: u32,
    max_count: u32,
)
    ensures
        ({
            let raised = new_wing(id, country, side, field, role, quality, count, max_count);
            &&& raised.id == id && raised.side == side && raised.sovereign_country_id == country
            &&& raised.airfield_id == field.id && raised.lat == field.lat && raised.lng
                == field.lng
            &&& raised.return_airfield_id is None
            &&& raised.role == role && raised.quality == quality
            &&& raised.count == count && raised.max_count == max_count
            &&& role is Fighter ==> raised.state is Patrol
            &&& role is Strike ==> raised.state is Grounded
            &&& raised.target_kind is None && raised.target_id is None
            &&& raised.rearm_ticks == 0 && raised.cooldown_ticks == 0 && raised.endurance_ticks
                == 0
            &&& raised.next_mission_tick is None && !raised.force_mission
        }),
{
}

/// A tick counts its fronts as they were laid out, counts none where they no longer hold, and
/// counts an update of the map only where there is one.
pub proof fn fronts_are_counted_while_they_hold(
    before: RuntimeModel,
    step: RuntimeStep,
    outcome: TickResult,
)
    ensures
        ({
            let told = next_counters(before, step, outcome);
            &&& outcome.fronts_invalidated ==> told.front_segments == 0
            &&& !outcome.fronts_invalidated && outcome.layout is Some ==> told.front_segments
                == outcome.layout->Some_0.segments
            &&& told.front_refreshed == step.facts.fronts_due
            &&& outcome.render_update is Some ==> told.render_updates_enqueued == 1
            &&& outcome.render_update is None ==> told.render_updates_enqueued == 0
            &&& told.simulation == outcome.counters.simulation
            &&& told.census == outcome.counters.census
        }),
{
}

/// A force that regroups on a side that collapses turns to defence; no other force does so for a
/// collapse, and a force without members is complete.
pub proof fn collapsing_sides_defend(
    results: Map<Operation, u64>,
    force: ForceModel,
    by_id: UnitMap,
    collapsing: Set<usize>,
    tick: u64,
)
    ensures
        ({
            let after = advanced_force(results, force, by_id, collapsing, tick);
            let still = advanced_force(results, force, by_id, Set::empty(), tick);
            &&& force.members.len() == 0 ==> after.phase is Complete
            &&& force.members.len() > 0 && force.phase is Regrouping && collapsing.contains(
                force.side_index,
            ) ==> after.phase is Regrouping && after.plan_type == "DEFEND"@ && after.outcome is None
                && after.completion_reason == Some("COLLAPSING_DEFENSE"@)
            &&& !(force.phase is Regrouping) ==> after == still
            &&& !collapsing.contains(force.side_index) ==> after == still
        }),
{
}

/// The battlefield remembers what is staged of a formation, and else what was committed.
pub proof fn staged_memories_come_first(
    battlefield: BattlefieldRuntimeState,
    stage: &StagedBattlefieldTick,
    unit_id: u64,
)
    ensures
        stage.next_unit_state@.contains_key(unit_id) ==> memory_of(
            battlefield,
            Some(stage),
            unit_id,
        ) == Some(stage.next_unit_state@[unit_id]),
        !stage.next_unit_state@.contains_key(unit_id) ==> memory_of(
            battlefield,
            Some(stage),
            unit_id,
        ) == memory_of(battlefield, None, unit_id),
        battlefield.units@.contains_key(unit_id) ==> memory_of(battlefield, None, unit_id) == Some(
            battlefield.units@[unit_id],
        ),
        !battlefield.units@.contains_key(unit_id) ==> memory_of(battlefield, None, unit_id) is None,
        stage.local_by_id@.contains_key(unit_id) ==> tactics_of(Some(stage), unit_id) == Some(
            stage.local_by_id@[unit_id],
        ),
        !stage.local_by_id@.contains_key(unit_id) ==> tactics_of(Some(stage), unit_id) is None,
{
}

/// Airfields learn who holds their ground once in every round of missions, in the same tick of
/// each.
pub proof fn airfields_learn_once_a_round(tick: u64, later: u64)
    ensures
        tick % 120 == 47 <==> controllers_due(tick),
        controllers_due(tick) && tick < later && later - tick < 120 ==> !controllers_due(later),
        controllers_due(tick) && later == tick + 120 ==> controllers_due(later),
{
}

/// Anything but combat was at work where wings hit, somebody left, supply wore somebody down, or
/// something struck, and nowhere else.
pub proof fn quiet_ticks_hurt_nobody_otherwise(work: TickWork)
    ensures
        work.air_damage is None && work.exiled@.len() == 0 && work.attrition is None
            && work.impacts@.len() == 0 ==> !hurt_otherwise(work),
        work.air_damage is Some ==> hurt_otherwise(work),
        work.exiled@.len() > 0 ==> hurt_otherwise(work),
        work.attrition is Some ==> hurt_otherwise(work),
        work.impacts@.len() > 0 ==> hurt_otherwise(work),
{
}

/// A grid can be used where it has cells of a positive size that can be counted.
pub proof fn usable_grids_have_cells(grid: GridSpec)
    ensures
        usable_grid(grid) ==> grid.width > 0 && grid.height > 0 && real_of(0).lt(grid.grid_res)
            && grid.area() <= usize::MAX,
        grid.width > 0 && grid.height > 0 && grid.grid_res.finite() && real_of(0).lt(grid.grid_res)
            && grid.area() <= usize::MAX ==> usable_grid(grid),
{
}

/// An answer of the battlefield is taken over for a formation that is known in every respect, and
/// changes what is kept of that formation alone.
pub proof fn answers_concern_one_formation(
    results: Map<Operation, u64>,
    units: Seq<SimulationUnit>,
    model: BattlefieldModel,
    tick: u64,
    answer: BattlefieldUnitResult,
    other: u64,
)
    ensures
        answer_taken(results, units, model, tick, answer) matches Ok(after) ==> {
            let id = answer.unit_id;
            &&& model.policies.contains_key(id) && model.next_unit_state.contains_key(id)
                && model.local_by_id.contains_key(id)
            &&& after.resolved_by_id.contains_key(id) && after.resolved_by_id[id] == answer
            &&& after.policies.contains_key(id) && after.policies[id].ai.base_speed
                == answer.base_speed
            &&& answer.influence.eligible && model.policies[id].influence is Some
                ==> after.influence_eligible.contains(id)
            &&& !answer.influence.eligible || model.policies[id].influence is None
                ==> after.influence_eligible == model.influence_eligible
            &&& other != id ==> after.policies.contains_key(other) == model.policies.contains_key(
                other,
            ) && after.policies[other] == model.policies[other] && after.next_unit_state[other]
                == model.next_unit_state[other]
        },
        !model.policies.contains_key(answer.unit_id) ==> answer_taken(
            results,
            units,
            model,
            tick,
            answer,
        ) is Err,
{
}

/// A victim that nobody hurt yet has an empty account.
pub proof fn accounts_begin_empty(ledger: Ledger, victim: u16)
    ensures
        ledger.contains_key(victim) ==> account(ledger, victim) == ledger[victim],
        !ledger.contains_key(victim) ==> account(ledger, victim) == Map::<u16, Real>::empty(),
{
}

/// A side controls what its countries control, and nothing of what others do.
pub proof fn sides_control_what_their_countries_do(
    countries: Seq<CountryAggregate>,
    country_to_side: Map<u16, usize>,
    side: usize,
    count: nat,
)
    requires
        0 < count <= countries.len(),
    ensures
        ({
            let before = cells_of(countries, country_to_side, side, (count - 1) as nat);
            let after = cells_of(countries, country_to_side, side, count);
            let last = countries[count - 1];
            let own = country_to_side.contains_key(last.country_id)
                && country_to_side[last.country_id] == side;
            &&& own ==> after == before + last.controlled
            &&& !own ==> after == before
        }),
        cells_of(countries, country_to_side, side, 0) == 0,
{
}

/// Nothing helps or hinders a formation that nothing is known of: all its factors are one.
pub proof fn plain_formations_move_plainly()
    ensures
        plain_movement().terrain_speed_multiplier == real_of(ONE_BITS),
        plain_movement().speed_multiplier == real_of(ONE_BITS),
        plain_movement().plan_speed_multiplier == real_of(ONE_BITS),
        plain_movement().neutral_penalty == real_of(ONE_BITS),
        plain_movement().push_readiness == real_of(ONE_BITS),
{
}

/// What an economy is seeded with is what its country is known for.
pub proof fn economies_are_seeded_by_their_country(country: CountryModel, units: Real)
    ensures
        seed_of(country, units).country_id == country.country_id,
        seed_of(country, units).gdp == country.gdp,
        seed_of(country, units).population == country.population,
        seed_of(country, units).territory_units == units,
        seed_of(country, units).initial_core_cells == country.initial_core_cells,
        seed_of(country, units).initial_city_population == country.initial_city_population,
{
}

/// Countries are seeded one by one in their order, and one whose cities hold no finite number of
/// people stops it.
pub proof fn seeding_stops_at_the_first_fault(
    results: Map<Operation, u64>,
    countries: Seq<CountryModel>,
    config: ProductionConfig,
    count: nat,
)
    requires
        0 < count <= countries.len(),
    ensures
        ({
            let before = seeding(results, countries, config, (count - 1) as nat);
            let after = seeding(results, countries, config, count);
            let country = countries[count - 1];
            &&& before.fault is Some ==> after == before
            &&& before.fault is None && !country.initial_city_population.finite() ==> after.fault
                == Some(ProductionError::NonFinite)
            &&& after.fault is None ==> after.seeds.len() == before.seeds.len() + 1
                && after.seeds.last().country_id == country.country_id
            &&& after.fault is Some ==> after.seeds == before.seeds
        }),
{
}

/// How far a lattice is pushed east at a place, from the place and its country.
pub open spec fn push_east(
    results: Map<Operation, u64>,
    east: Real,
    north: Real,
    country: Real,
) -> Real {
    let phase = sum(
        results,
        sum(
            results,
            product(results, east, real_of(N_0_8)),
            product(results, north, real_of(N_0_6)),
        ),
        product(results, country, real_of(N_0_1)),
    );
    product(results, sine(results, phase), real_of(N_1_2))
}

/// How far a lattice is pushed north at a place, from the place and its country.
pub open spec fn push_north(
    results: Map<Operation, u64>,
    east: Real,
    north: Real,
    country: Real,
) -> Real {
    let phase = sum(
        results,
        difference(
            results,
            product(results, east, real_of(N_0_5)),
            product(results, north, real_of(N_0_9)),
        ),
        product(results, country, real_of(N_0_2)),
    );
    product(results, cosine(results, phase), real_of(N_1_1))
}

/// The ripples of a lattice at a place.
pub open spec fn ripples(
    results: Map<Operation, u64>,
    east: Real,
    north: Real,
    pushed_east: Real,
    pushed_north: Real,
    country: Real,
) -> Real {
    let long = product(
        results,
        sine(results, product(results, pushed_east, real_of(N_2_3))),
        real_of(N_0_5),
    );
    let broad = product(
        results,
        sine(results, product(results, pushed_north, real_of(N_1_9))),
        real_of(N_0_5),
    );
    let slant = product(
        results,
        sine(
            results,
            sum(results, product(results, sum(results, east, north), real_of(N_1_4)), country),
        ),
        real_of(N_0_3),
    );
    let short = product(
        results,
        cosine(
            results,
            difference(
                results,
                product(results, east, real_of(N_3_1)),
                product(results, north, real_of(N_2_7)),
            ),
        ),
        real_of(N_0_2),
    );
    sum(results, sum(results, sum(results, long, broad), slant), short)
}

/// Cells of one country that a lattice is pushed and rippled into the same lattice cell for lie in
/// one province.
pub proof fn provinces_are_cells_of_a_pushed_lattice(
    results: Map<Operation, u64>,
    x: usize,
    y: usize,
    other_x: usize,
    other_y: usize,
    country_id: u32,
    grid_res: Real,
)
    requires
        lattice_cell(results, x, y, country_id, grid_res) == lattice_cell(
            results,
            other_x,
            other_y,
            country_id,
            grid_res,
        ),
    ensures
        province_of(results, x, y, country_id, grid_res) == province_of(
            results,
            other_x,
            other_y,
            country_id,
            grid_res,
        ),
        province_of(results, x, y, country_id, grid_res) == wrapped(
            results,
            product(
                results,
                lattice_cell(results, x, y, country_id, grid_res).0,
                real_of(N_73856093),
            ).absolute(),
        ) ^ wrapped(
            results,
            product(
                results,
                lattice_cell(results, x, y, country_id, grid_res).1,
                real_of(N_19349663),
            ).absolute(),
        ) ^ wrapped(
            results,
            product(results, integer(results, country_id as u64), real_of(N_83492791)),
        ),
{
}

/// The cell of the lattice that a cell of a grid falls into for a country, east and north.
pub open spec fn lattice_cell(
    results: Map<Operation, u64>,
    x: usize,
    y: usize,
    country_id: u32,
    grid_res: Real,
) -> (Real, Real) {
    let lng = difference(
        results,
        product(results, integer(results, x as u64), grid_res),
        real_of(N_180),
    );
    let lat = difference(
        results,
        product(results, integer(results, y as u64), grid_res),
        real_of(N_90),
    );
    let east = product(results, lng, real_of(N_0_65));
    let north = product(results, lat, real_of(N_0_65));
    let country = integer(results, country_id as u64);
    let pushed_east = sum(results, east, push_east(results, east, north, country));
    let pushed_north = sum(results, north, push_north(results, east, north, country));
    let swell = ripples(results, east, north, pushed_east, pushed_north, country);
    (
        number_at(results, Operation::Floor(sum(results, pushed_east, swell))),
        number_at(results, Operation::Floor(sum(results, pushed_north, swell))),
    )
}

} // verus!
