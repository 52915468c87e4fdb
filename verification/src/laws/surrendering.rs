//! What a strategic cycle changes: surrenders and what they cost, who shares in them, how the war
//! ends, how the territory is counted, and what formations are commanded by.

use vstd::prelude::*;
use crate::economy::EconomyState;
use crate::numbers::{MINUS_N_1, N_3};
use crate::production::{ProductionCity, ProductionCountry};
use crate::runtime::assembly::{
    cycle_effects, state_after_cycle, step_report, EffectsAnswers, TickReport,
};
use crate::runtime::boot::RuntimeState;
use crate::runtime::command::{bands_by_country, capital_targets_of, command_unit, hydrated};
use crate::runtime::effects::{
    can_annex, census_due, new_occupation, next_commit, positions_of, restricted_country,
    side_stands, standing_sides, surrendered, tiles_over, transferred, CensusAction, CensusProgress,
    CensusStatus, ConflictResolutionPlan, MapsModel, StrategicCountry, StrategicSnapshot,
    SurrenderAnswers, SurrenderTransfer, TerritoryBoundary, TerritoryCommittedState,
};
use crate::runtime::planning::ResolvedCommandPolicy;
use crate::runtime::policy::Policies;
use crate::runtime::world::TerritoryControl;
use crate::scalar::{real_of, ONE_BITS};
use crate::strategic::{CountryCycleInput, TerritorySnapshot};
use crate::units::{KernelFault, SimulationUnit};

verus! {

/// An ordinary tick counts the territory once and within its budget; before a strategic cycle it is
/// counted in portions until nothing is left to count. What was done is then reported.
pub proof fn the_territory_is_counted_once_or_whole(
    progress: CensusProgress,
    status: CensusStatus,
    budget: usize,
    flush_chunk: usize,
    flush: bool,
    snapshot: TerritorySnapshot,
)
    ensures
        ({
            let next = census_due(progress, status, budget, flush_chunk, flush, snapshot);
            let clean = status.active_generation is None && status.dirty_tiles == 0;
            &&& flush && !clean ==> next == CensusAction::Advance(flush_chunk)
            &&& !flush && progress.steps == 0 ==> next == CensusAction::Advance(budget)
            &&& flush && clean || !flush && progress.steps > 0 ==> (
            next matches CensusAction::Finished(done) && {
                &&& done.processed_items == progress.processed_items
                &&& done.committed == progress.committed
                &&& done.flushed_for_strategic_cycle == flush
                &&& done.territory_generation == snapshot.generation
                &&& done.territory_commit_sequence == snapshot.commit_sequence
            })
        }),
{
}

/// A country takes part in a strategic cycle only with its side, and nothing else of it changes.
pub proof fn countries_take_part_with_their_side(country: CountryCycleInput, explicit: Seq<u16>)
    ensures
        ({
            let told = restricted_country(country, explicit);
            &&& told.active <==> country.active && explicit.contains(country.side)
            &&& told == (CountryCycleInput { active: told.active, ..country })
        }),
{
}

/// Who can share in a surrender: a country that still fights, on a side that takes part, is not the
/// victim's own, and to which the victim's side is hostile.
pub proof fn enemies_share_in_a_surrender(
    territory: TerritoryControl,
    hostility: Seq<u8>,
    active_sides: Seq<u16>,
    economies: Map<u16, EconomyState>,
    victim_side: usize,
    country: u16,
)
    ensures
        can_annex(territory, hostility, active_sides, economies, victim_side)(country) ==> {
            let side = territory.country_to_side@[country];
            &&& side != victim_side
            &&& active_sides.contains(side as u16)
            &&& economies.contains_key(country) && !economies[country].capitulated
            &&& hostility[victim_side * territory.max_sides + side] == 1
        },
        ({
            let side = territory.country_to_side@[country];
            &&& side != victim_side
            &&& side < territory.max_sides && side <= u16::MAX && victim_side < territory.max_sides
            &&& active_sides.contains(side as u16)
            &&& economies.contains_key(country) && !economies[country].capitulated
            &&& hostility[victim_side * territory.max_sides + side] == 1
        }) ==> can_annex(territory, hostility, active_sides, economies, victim_side)(country),
{
}

/// The kernel is told where every formation stands, how healthy it is and whose it is.
pub proof fn positions_are_told_as_they_are(units: Seq<SimulationUnit>, count: nat)
    requires
        0 < count <= units.len(),
        units[count - 1].combat.sovereign <= u16::MAX,
    ensures
        ({
            let unit = units[count - 1].combat;
            let all = positions_of(units, count);
            let told = all.last();
            &&& all.len() == positions_of(units, (count - 1) as nat).len() + 1
            &&& told.country_id == unit.sovereign
            &&& told.lat == unit.lat && told.lng == unit.lng
            &&& told.health == unit.health
        }),
{
}

/// A surrendered cell goes to its new owner in every respect: control, occupation and dominance;
/// the influence there is all that of the owner's side, and every other cell stays as it was.
pub proof fn surrendered_cells_change_hands_wholly(
    maps: MapsModel,
    country_to_side: Map<u16, usize>,
    victim: u16,
    transfer: SurrenderTransfer,
)
    requires
        maps.primary_occupier.len() == maps.world_control.len(),
        maps.land.len() == maps.world_control.len(),
        maps.dominant_side.len() == maps.world_control.len(),
        maps.occupation.len() == maps.world_control.len(),
        forall|s: int|
            0 <= s < maps.side_influence.len() ==> (#[trigger] maps.side_influence[s]).len()
                == maps.world_control.len(),
    ensures
        transferred(maps, country_to_side, victim, transfer) matches Ok(after) ==> {
            let cell = transfer.cell as int;
            let side = country_to_side[transfer.new_owner];
            &&& maps.world_control[cell] == victim && transfer.original_owner == victim
            &&& after.world_control[cell] == transfer.new_owner
            &&& after.primary_occupier[cell] == transfer.new_owner
            &&& after.dominant_side[cell] == side
            &&& after.land[cell] == 2
            &&& side % 2 == 0 ==> after.occupation[cell] == real_of(ONE_BITS)
            &&& side % 2 == 1 ==> after.occupation[cell] == real_of(MINUS_N_1)
            &&& forall|s: int|
                0 <= s < maps.side_influence.len() ==> (#[trigger] after.side_influence[s])[cell]
                    == (if s == side { real_of(ONE_BITS) } else { real_of(0) })
            &&& forall|i: int|
                0 <= i < maps.world_control.len() && i != cell ==> #[trigger] after.world_control[i]
                    == maps.world_control[i] && after.primary_occupier[i]
                    == maps.primary_occupier[i] && after.dominant_side[i] == maps.dominant_side[i]
                    && after.land[i] == maps.land[i] && after.occupation[i] == maps.occupation[i]
            &&& maps.dominant_side[cell] == side ==> after.controller_cells == maps.controller_cells
            &&& maps.dominant_side[cell] != side ==> after.controller_cells
                == maps.controller_cells.push(transfer.cell)
        },
{
}

/// A cell that is not the victim's is not handed over, nor to a country without a side.
pub proof fn only_the_victims_cells_are_handed_over(
    maps: MapsModel,
    country_to_side: Map<u16, usize>,
    victim: u16,
    transfer: SurrenderTransfer,
)
    ensures
        transferred(maps, country_to_side, victim, transfer) is Ok <==> {
            &&& transfer.cell < maps.world_control.len()
            &&& maps.world_control[transfer.cell as int] == victim
            &&& transfer.original_owner == victim
            &&& country_to_side.contains_key(transfer.new_owner)
            &&& country_to_side[transfer.new_owner] <= 32_767
        },
{
}

/// As many tiles cover a length as are needed, and no more.
pub proof fn tiles_cover_a_length(length: int, tile: int)
    requires
        0 <= length,
        0 < tile,
    ensures
        tiles_over(length, tile) * tile >= length,
        (tiles_over(length, tile) - 1) * tile < length,
{
    vstd::arithmetic::div_mod::lemma_fundamental_div_mod(length, tile);
    let whole = length / tile;
    assert(tile * whole == whole * tile) by (nonlinear_arith);
    assert((whole + 1) * tile == whole * tile + tile) by (nonlinear_arith);
    assert((whole - 1) * tile == whole * tile - tile) by (nonlinear_arith);
}

/// A surrender moves the territory on by one in every count, and says how much was counted.
pub proof fn surrenders_move_the_territory_on(
    prior: Option<TerritoryCommittedState>,
    world_revision: u64,
    tiles: int,
    items: int,
)
    requires
        0 <= tiles <= usize::MAX,
        0 <= items <= usize::MAX,
    ensures
        next_commit(prior, world_revision, tiles, items) matches Ok((state, revision)) ==> {
            &&& prior matches Some(before) && {
                &&& state.generation == before.generation + 1
                &&& state.commit_sequence == before.commit_sequence + 1
                &&& state.mutation_sequence == before.mutation_sequence + 1
            }
            &&& state.processed_tiles == tiles && state.processed_items == items
            &&& revision == world_revision + 1
        },
        prior is None ==> next_commit(prior, world_revision, tiles, items) is Err,
{
}

/// An occupation begins with the victim's own income and land, no resistance and no garrison, and
/// is expected to be held by no fewer than three formations.
pub proof fn occupations_begin_quietly(
    countries: Seq<ProductionCountry>,
    economies: Map<u16, EconomyState>,
    victim: u16,
    annexer: u16,
    garrison: Result<u32, KernelFault>,
)
    ensures
        new_occupation(countries, economies, victim, annexer, garrison) matches Ok(state) ==> {
            let entry = crate::runtime::enlistment::first_entry(countries, victim, 0);
            &&& state.victim_id == victim && state.annexer_id == annexer
            &&& state.base_income == economies[victim].base_income
            &&& garrison == Ok::<u32, KernelFault>(state.required_garrison)
            &&& state.resistance == real_of(0)
            &&& state.occupation_coverage == real_of(ONE_BITS)
            &&& state.garrison_coverage == real_of(0) && state.garrison_assigned == real_of(0)
            &&& state.held_ratio == real_of(ONE_BITS)
            &&& !state.active_rebellion
            &&& state.queued_at_cycle == 0 && state.cooldown_until_cycle == 0
            &&& entry matches Some(country) && {
                &&& country.initial_core_cells > 0 ==> state.core_cells == country.initial_core_cells
                &&& country.initial_core_cells == 0 ==> state.core_cells == 1
                &&& real_of(N_3).lt(country.expected_army_units) ==> state.expected_army_units
                    == country.expected_army_units
                &&& country.expected_army_units.lt(real_of(N_3)) ==> state.expected_army_units
                    == real_of(N_3)
            }
        },
{
}

/// The sides left are those that take part and have a country that has not given up.
pub proof fn sides_stand_while_a_country_does(
    countries: Seq<StrategicCountry>,
    explicit: Seq<u16>,
    count: nat,
    side: u16,
)
    requires
        count <= countries.len(),
    ensures
        standing_sides(countries, explicit, count).contains(side) <==> explicit.contains(side)
            && exists|i: int|
            0 <= i < count && (#[trigger] countries[i]).side == side
                && !countries[i].economy.capitulated,
        side_stands(countries)(side) <==> exists|i: int|
            0 <= i < countries.len() && (#[trigger] countries[i]).side == side
                && !countries[i].economy.capitulated,
    decreases count,
{
    if count > 0 {
        let before = (count - 1) as nat;
        sides_stand_while_a_country_does(countries, explicit, before, side);
        if exists|i: int|
            0 <= i < count && (#[trigger] countries[i]).side == side
                && !countries[i].economy.capitulated {
            let i = choose|i: int|
                0 <= i < count && (#[trigger] countries[i]).side == side
                    && !countries[i].economy.capitulated;
            if i < before {
                assert(countries[i].side == side);
            }
        }
    }
}

/// The war goes on unless a surrender ended it or the cycle itself did; what ended it is what is
/// said.
pub proof fn wars_end_by_a_resolution(
    evaluated: StrategicSnapshot,
    resolution: Option<ConflictResolutionPlan>,
)
    ensures
        ({
            let state = state_after_cycle(evaluated, resolution);
            let surrendered = evaluated.surrenders@.len() > 0;
            &&& !surrendered && evaluated.conflict_resolution is None ==> state is Running
            &&& surrendered && resolution is None && evaluated.conflict_resolution is None ==> state
                is Running
            &&& surrendered && resolution is Some ==> state == (RuntimeState::ConflictResolved {
                cycle: evaluated.cycle,
                tick: evaluated.tick,
                resolution: resolution->0,
            })
            &&& !surrendered && evaluated.conflict_resolution is Some ==> state == (
            RuntimeState::ConflictResolved {
                cycle: evaluated.cycle,
                tick: evaluated.tick,
                resolution: evaluated.conflict_resolution->0,
            })
        }),
{
}

/// A cycle changes formations exactly where somebody deserts or gives up, and the territory and the
/// fronts exactly where somebody gives up; no more than one country gives up at a time.
pub proof fn cycles_change_what_they_must(
    evaluated: StrategicSnapshot,
    maps: MapsModel,
    territory: TerritoryControl,
    boundary: TerritoryBoundary,
    countries: Seq<ProductionCountry>,
    economies: Map<u16, EconomyState>,
    answers: EffectsAnswers,
)
    ensures
        ({
            let effects = cycle_effects(
                evaluated,
                maps,
                territory,
                boundary,
                countries,
                economies,
                answers,
            );
            let given_up = evaluated.surrenders@.len();
            let shaken = given_up > 0 || evaluated.desertions@.len() > 0;
            &&& given_up > 1 ==> effects is Err
            &&& effects matches Ok(after) ==> {
                &&& after.units is Some <==> shaken
                &&& !shaken ==> after.removed_ids.len() == 0
                &&& shaken ==> (answers.consequences matches Ok(told) && after.units == Some(
                    told.units@,
                ) && after.removed_ids == told.removed_ids@)
                &&& after.surrender is Some <==> given_up == 1
                &&& after.fronts_invalidated <==> given_up == 1
                &&& given_up == 1 ==> territory.country_to_side@.contains_key(
                    evaluated.surrenders@[0].country_id,
                ) && territory.country_to_side@[evaluated.surrenders@[0].country_id]
                    == evaluated.surrenders@[0].side
            }
        }),
{
}

/// A surrender is staged with all of the plan's cells handed over and the plan's annexer in
/// occupation.
pub proof fn surrenders_follow_the_plan(
    maps: MapsModel,
    territory: TerritoryControl,
    boundary: TerritoryBoundary,
    countries: Seq<ProductionCountry>,
    economies: Map<u16, EconomyState>,
    victim: u16,
    answers: SurrenderAnswers,
)
    ensures
        surrendered(
            maps,
            territory,
            boundary,
            countries,
            economies,
            victim,
            answers,
        ) matches Ok(staged) ==> {
            &&& answers.plan matches Ok(plan) && staged.occupation.annexer_id
                == plan.primary_annexer_id
            &&& answers.restored is Ok && answers.registered is Ok && answers.garrison is Ok
            &&& staged.occupation.victim_id == victim
            &&& staged.world_revision == boundary.world_revision + 1
            &&& boundary.committed matches Some(before) && staged.committed.generation
                == before.generation + 1
        },
{
}

// ---------------------------------------------------------------------------------------------
// Commands
// ---------------------------------------------------------------------------------------------

/// The command kernel is told who a formation is, whom it fights for and how disciplined it is.
pub proof fn commands_know_their_formation(
    units: Seq<SimulationUnit>,
    policies: Policies,
    at: int,
)
    ensures
        command_unit(units, policies, at) matches Some(Ok(told)) ==> {
            &&& told.id == units[at].combat.id
            &&& told.sovereign_id == units[at].combat.sovereign
            &&& told.side == units[at].combat.side as usize
            &&& told.discipline == policies[units[at].combat.id].command.discipline
        },
{
}

/// Formations go home to the last capital that their country owns on the grid, where it lies.
pub proof fn formations_go_home_to_the_capital(
    cities: Seq<ProductionCity>,
    cells: nat,
    country_to_side: Map<u16, usize>,
    finite_only: bool,
    count: nat,
)
    requires
        0 < count <= cities.len(),
    ensures
        ({
            let city = cities[count - 1];
            let before = capital_targets_of(
                cities,
                cells,
                country_to_side,
                finite_only,
                (count - 1) as nat,
            );
            let after = capital_targets_of(cities, cells, country_to_side, finite_only, count);
            let home = city.capital && city.owner_id > 0 && city.cell < cells
                && country_to_side.contains_key(city.owner_id) && (!finite_only
                || city.lat.finite() && city.lng.finite());
            &&& !home ==> after == before
            &&& home ==> {
                &&& after.dom() =~= before.dom().insert(city.owner_id)
                &&& after[city.owner_id].cell == city.cell
                &&& after[city.owner_id].lat == city.lat && after[city.owner_id].lng == city.lng
                &&& forall|other: u16|
                    other != city.owner_id && before.contains_key(other) ==> #[trigger] after[other]
                        == before[other]
            }
        }),
{
}

/// Only a formation that goes home without knowing where is given a home, the one that was
/// resolved for it.
pub proof fn homes_are_given_where_they_are_lacking(
    policies: Policies,
    resolved: Map<u64, ResolvedCommandPolicy>,
    id: u64,
)
    requires
        policies.contains_key(id),
    ensures
        ({
            let before = policies[id];
            let after = hydrated(policies, resolved)[id];
            let lost = before.command.return_home && before.command.home_target is None;
            &&& !lost ==> after == before
            &&& lost && resolved.contains_key(id) ==> after.command.home_target
                == resolved[id].home_target
            &&& lost && !resolved.contains_key(id) ==> after.command.home_target is None
            &&& after.command.band == before.command.band && after.command.return_home
                == before.command.return_home && after.ai == before.ai && after.influence
                == before.influence
        }),
{
}

/// The band of a country's formations is that of its economy.
pub proof fn bands_are_those_of_the_economies(economies: Map<u16, EconomyState>, country: u16)
    ensures
        bands_by_country(economies).contains_key(country) <==> economies.contains_key(country),
        economies.contains_key(country) ==> bands_by_country(economies)[country]
            == economies[country].command_band,
{
}

/// What a tick is reported to have done is what its parts reported.
pub proof fn ticks_report_their_parts(report: TickReport<'_>)
    ensures
        ({
            let told = step_report(report);
            &&& told.ai == report.ai
            &&& told.simulation == report.simulation
            &&& told.reinforcement.recruited_units == report.recruited_units
            &&& told.reinforcement.recruited_personnel == report.recruited_personnel
            &&& told.reinforcement.aircraft_purchased == report.reinforcement.aircraft_purchased
            &&& told.reinforcement.armor_purchased == report.reinforcement.armor_purchased
            &&& told.reinforcement.airfields_repaired == report.reinforcement.airfields_repaired
            &&& told.naval_planning == report.naval_planning
            &&& report.operational_execution matches Some(done) ==> told.operational_execution
                == done
            &&& told.attrition.exiled_units == report.exiled_units
            &&& told.attrition.recovered_personnel == report.recovered_personnel
            &&& told.census == report.census
            &&& told.strategic == report.strategic
            &&& told.strategic_derivation == report.strategic_derivation
            &&& told.influence.sources == report.influence_sources
            &&& told.influence.diffusion_budget == report.diffusion.budget
            &&& told.influence.diffusion_processed_items == report.diffusion.processed_items
            &&& told.influence.diffusion_stale_entries == report.diffusion.stale_entries
            &&& report.schedule matches Some(schedule) ==> told.influence.application_budget
                == schedule.application_budget
            &&& !told.front_refreshed && told.front_objectives == 0 && told.front_segments == 0
            &&& told.render_updates_enqueued == 0
        }),
{
}

} // verus!
