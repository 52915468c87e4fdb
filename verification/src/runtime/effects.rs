//! What a strategic cycle does to the world: surrenders, transfers of territory, occupations and
//! the end of the war; and the census that comes before it.

use std::collections::BTreeMap;
use vstd::prelude::*;
use crate::economy::EconomyState;
use crate::numbers::{MINUS_N_1, N_3};
use crate::order::retain_with;
use crate::production::ProductionCountry;
use crate::runtime::counters::{CensusStepResult, RuntimeCensusCounters};
use crate::runtime::dynamics::DesertionCommand;
use crate::runtime::enlistment::{find_entry, first_entry};
use crate::runtime::error::RuntimeError;
use crate::runtime::world::TerritoryControl;
use crate::scalar::{real_of, Real, ONE_BITS};
use crate::strategic::{
    embattled, find_embattled, lemma_square, table_hostile, CountryCycleInput, OccupationState,
    StrategicCycleInput, TerritorySnapshot,
};
use crate::tables::{ascending, ordered_countries};
use crate::units::{KernelFault, SimulationUnit};

verus! {

/// How far a census has come.
#[derive(Clone, Copy, Debug, PartialEq, Eq, Structural)]
pub struct CensusProgress {
    pub steps: u64,
    pub processed_items: usize,
    pub committed: bool,
}

/// What the territory kernel says of its census.
#[derive(Clone, Copy, Debug, PartialEq, Eq, Structural)]
pub struct CensusStatus {
    pub active_generation: Option<u64>,
    pub dirty_tiles: usize,
}

/// What the census needs next.
#[derive(Clone, Copy, Debug, PartialEq, Eq, Structural)]
pub enum CensusAction {
    /// Count up to so many items, and report.
    Advance(usize),
    Finished(RuntimeCensusCounters),
}

/// Whether everything is counted.
pub open spec fn census_clean(status: CensusStatus) -> bool {
    status.active_generation is None && status.dirty_tiles == 0
}

/// What the census needs next. An ordinary tick counts once, within its budget; before a strategic
/// cycle everything is counted.
pub open spec fn census_due(
    progress: CensusProgress,
    status: CensusStatus,
    budget: usize,
    flush_chunk: usize,
    flush: bool,
    snapshot: TerritorySnapshot,
) -> CensusAction {
    if flush && !census_clean(status) {
        CensusAction::Advance(flush_chunk)
    } else if !flush && progress.steps == 0 {
        CensusAction::Advance(budget)
    } else {
        CensusAction::Finished(
            RuntimeCensusCounters {
                processed_items: progress.processed_items,
                committed: progress.committed,
                flushed_for_strategic_cycle: flush,
                territory_generation: snapshot.generation,
                territory_commit_sequence: snapshot.commit_sequence,
            },
        )
    }
}

/// What the census needs next.
pub fn advance_census(
    progress: CensusProgress,
    status: CensusStatus,
    budget: usize,
    flush_chunk: usize,
    flush: bool,
    snapshot: &TerritorySnapshot,
) -> (action: CensusAction)
    ensures
        action == census_due(progress, status, budget, flush_chunk, flush, *snapshot),
{
    if flush {
        if status.active_generation.is_some() || status.dirty_tiles > 0 {
            return CensusAction::Advance(flush_chunk);
        }
    } else if progress.steps == 0 {
        return CensusAction::Advance(budget);
    }
    CensusAction::Finished(
        RuntimeCensusCounters {
            processed_items: progress.processed_items,
            committed: progress.committed,
            flushed_for_strategic_cycle: flush,
            territory_generation: snapshot.generation,
            territory_commit_sequence: snapshot.commit_sequence,
        },
    )
}

/// A census before a strategic cycle ends only when everything is counted, and reports that.
pub proof fn a_flush_ends_clean(
    progress: CensusProgress,
    status: CensusStatus,
    budget: usize,
    flush_chunk: usize,
    snapshot: TerritorySnapshot,
)
    ensures
        census_due(progress, status, budget, flush_chunk, true, snapshot) matches
            CensusAction::Finished(counters) ==> census_clean(status)
            && counters.flushed_for_strategic_cycle && counters.territory_generation
            == snapshot.generation,
{
}

impl CensusProgress {
    pub fn start() -> (progress: CensusProgress)
        ensures
            progress == (CensusProgress { steps: 0, processed_items: 0, committed: false }),
    {
        CensusProgress { steps: 0, processed_items: 0, committed: false }
    }

    /// Takes note of a step of the census.
    pub fn record(&mut self, result: CensusStepResult)
        requires
            old(self).processed_items + result.processed_items <= usize::MAX,
            old(self).steps < u64::MAX,
        ensures
            *final(self) == (CensusProgress {
                steps: (old(self).steps + 1) as u64,
                processed_items: (old(self).processed_items + result.processed_items) as usize,
                committed: old(self).committed || result.committed,
            }),
    {
        self.steps = self.steps + 1;
        self.processed_items = self.processed_items + result.processed_items;
        self.committed = self.committed || result.committed;
    }
}

pub(crate) fn lists_side(sides: &Vec<u16>, side: u16) -> (answer: bool)
    ensures
        answer == sides@.contains(side),
{
    let mut at: usize = 0;
    while at < sides.len()
        invariant
            at <= sides@.len(),
            forall|i: int| 0 <= i < at ==> #[trigger] sides@[i] != side,
        decreases sides@.len() - at,
    {
        if sides[at] == side {
            return true;
        }
        at = at + 1;
    }
    false
}

/// Sides that are allowed.
pub open spec fn allowed_side(explicit: Seq<u16>) -> spec_fn(u16) -> bool {
    |side: u16| explicit.contains(side)
}

/// Pairs of sides that are both allowed.
pub open spec fn allowed_pair(explicit: Seq<u16>) -> spec_fn((u16, u16)) -> bool {
    |pair: (u16, u16)| explicit.contains(pair.0) && explicit.contains(pair.1)
}

/// A country that only counts as active if its side is allowed.
pub open spec fn restricted_country(
    country: CountryCycleInput,
    explicit: Seq<u16>,
) -> CountryCycleInput {
    CountryCycleInput { active: country.active && explicit.contains(country.side), ..country }
}

/// Only sides that were declared active stay in a strategic cycle; and only sides with a declared
/// enemy among them can capitulate.
pub fn restrict_to_explicit_active_sides(
    input: &mut StrategicCycleInput,
    explicit: &Vec<u16>,
    hostility: &Vec<u8>,
    side_count: usize,
)
    requires
        hostility@.len() == side_count * side_count,
        forall|i: int|
            0 <= i < old(input).active_sides@.len() ==> (#[trigger] old(input).active_sides@[i]
                as int) < side_count,
    ensures
        final(input).tick == old(input).tick,
        final(input).force == old(input).force,
        final(input).territory_generation == old(input).territory_generation,
        final(input).territory_commit_sequence == old(input).territory_commit_sequence,
        final(input).territory_fresh == old(input).territory_fresh,
        final(input).occupations == old(input).occupations,
        final(input).active_sides@ == old(input).active_sides@.filter(allowed_side(explicit@)),
        final(input).active_hostile_pairs@ == old(input).active_hostile_pairs@.filter(
            allowed_pair(explicit@),
        ),
        final(input).capitulation_active_sides matches Some(sides) && sides@
            == final(input).active_sides@.filter(
            embattled(hostility@, side_count as int, final(input).active_sides@),
        ),
        final(input).countries@.len() == old(input).countries@.len(),
        forall|i: int|
            0 <= i < final(input).countries@.len() ==> #[trigger] final(input).countries@[i]
                == restricted_country(old(input).countries@[i], explicit@),
{
    let ghost before = input.active_sides@;
    let ghost countries = input.countries@;
    let mut sides: Vec<u16> = Vec::new();
    core::mem::swap(&mut sides, &mut input.active_sides);
    let keep_side = |side: &u16| -> (keep: bool)
        ensures
            keep == explicit@.contains(*side),
        { lists_side(explicit, *side) };
    input.active_sides = retain_with(sides, keep_side, Ghost(allowed_side(explicit@)));
    let mut pairs: Vec<(u16, u16)> = Vec::new();
    core::mem::swap(&mut pairs, &mut input.active_hostile_pairs);
    let keep_pair = |pair: &(u16, u16)| -> (keep: bool)
        ensures
            keep == (explicit@.contains(pair.0) && explicit@.contains(pair.1)),
        { lists_side(explicit, pair.0) && lists_side(explicit, pair.1) };
    input.active_hostile_pairs = retain_with(pairs, keep_pair, Ghost(allowed_pair(explicit@)));
    proof {
        let kept = input.active_sides@;
        assert forall|i: int| 0 <= i < kept.len() implies (#[trigger] kept[i] as int)
            < side_count by {
            crate::order::lemma_filter_contains(before, allowed_side(explicit@), kept[i]);
            assert(kept.contains(kept[i]));
            let j = choose|j: int| 0 <= j < before.len() && before[j] == kept[i];
            assert((before[j] as int) < side_count);
        }
    }
    let embattled_sides = find_embattled(hostility.as_slice(), side_count, &input.active_sides);
    input.capitulation_active_sides = Some(embattled_sides);
    let mut at: usize = 0;
    while at < input.countries.len()
        invariant
            at <= input.countries@.len(),
            input.countries@.len() == countries.len(),
            forall|i: int|
                0 <= i < at ==> #[trigger] input.countries@[i] == restricted_country(
                    countries[i],
                    explicit@,
                ),
            forall|i: int|
                at <= i < countries.len() ==> #[trigger] input.countries@[i] == countries[i],
            input.tick == old(input).tick,
            input.force == old(input).force,
            input.territory_generation == old(input).territory_generation,
            input.territory_commit_sequence == old(input).territory_commit_sequence,
            input.territory_fresh == old(input).territory_fresh,
            input.occupations == old(input).occupations,
            input.active_sides@ == before.filter(allowed_side(explicit@)),
            before == old(input).active_sides@,
            countries == old(input).countries@,
            input.active_hostile_pairs@ == old(input).active_hostile_pairs@.filter(
                allowed_pair(explicit@),
            ),
            input.capitulation_active_sides matches Some(sides) && sides@
                == input.active_sides@.filter(
                embattled(hostility@, side_count as int, input.active_sides@),
            ),
        decreases input.countries@.len() - at,
    {
        let mut country = input.countries[at];
        country.active = country.active && lists_side(explicit, country.side);
        input.countries.set(at, country);
        at = at + 1;
    }
}

/// A country that gives up.
#[derive(Clone, Copy, Debug, PartialEq, Eq, Structural)]
pub struct SurrenderCommand {
    pub country_id: u16,
    pub side: u16,
}

/// How a war ends.
#[derive(Clone, Copy, Debug, PartialEq, Eq, Structural)]
pub struct ConflictResolutionPlan {
    pub stop_simulation: bool,
    /// The side that is left, if one is.
    pub victor: Option<u16>,
}

/// A country after a strategic cycle.
#[derive(Clone, Copy, Debug, PartialEq, Eq, Structural)]
pub struct StrategicCountry {
    pub country_id: u16,
    pub side: u16,
    pub economy: EconomyState,
}

/// What a strategic cycle came to.
#[derive(Debug)]
pub struct StrategicSnapshot {
    pub cycle: u64,
    pub tick: u64,
    pub countries: Vec<StrategicCountry>,
    pub desertions: Vec<DesertionCommand>,
    pub surrenders: Vec<SurrenderCommand>,
    pub conflict_resolution: Option<ConflictResolutionPlan>,
}

/// Which surrender a cycle brought, if any.
pub fn checked_surrender(snapshot: &StrategicSnapshot, country_to_side: &BTreeMap<u16, usize>) -> (
    outcome: Result<Option<SurrenderCommand>, RuntimeError>)
    ensures
        ({
            let surrenders = snapshot.surrenders@;
            match outcome {
                Ok(None) => surrenders.len() == 0,
                Ok(Some(command)) => surrenders.len() == 1 && command == surrenders[0]
                    && country_to_side@.contains_key(command.country_id)
                    && country_to_side@[command.country_id] == command.side,
                Err(error) => {
                    ||| surrenders.len() > 1 && error == RuntimeError::InvalidCheckpoint(
                        "strategic cycle produced more than one capitulation",
                    )
                    ||| surrenders.len() == 1 && !(country_to_side@.contains_key(
                        surrenders[0].country_id,
                    ) && country_to_side@[surrenders[0].country_id] == surrenders[0].side) && error
                        == RuntimeError::InvalidCheckpoint(
                        "capitulating country does not belong to its strategic side",
                    )
                },
            }
        }),
{
    broadcast use vstd::std_specs::btree::group_btree_axioms;

    if snapshot.surrenders.len() > 1 {
        return Err(
            RuntimeError::InvalidCheckpoint("strategic cycle produced more than one capitulation"),
        );
    }
    if snapshot.surrenders.len() == 0 {
        return Ok(None);
    }
    let command = snapshot.surrenders[0];
    let belongs = match country_to_side.get(&command.country_id) {
        Some(side) => *side == command.side as usize,
        None => false,
    };
    if !belongs {
        return Err(
            RuntimeError::InvalidCheckpoint(
                "capitulating country does not belong to its strategic side",
            ),
        );
    }
    Ok(Some(command))
}

/// Whether a country can annex from a side that gives up.
pub open spec fn can_annex(
    territory: TerritoryControl,
    hostility: Seq<u8>,
    active_sides: Seq<u16>,
    economies: Map<u16, EconomyState>,
    victim_side: usize,
) -> spec_fn(u16) -> bool {
    |country: u16|
        {
            let side = territory.country_to_side@[country];
            &&& side != victim_side
            &&& victim_side < territory.max_sides
            &&& side < territory.max_sides
            &&& table_hostile(
                hostility,
                territory.max_sides as int,
                victim_side as int,
                side as int,
            )
            &&& side <= u16::MAX
            &&& active_sides.contains(side as u16)
            &&& economies.contains_key(country)
            &&& !economies[country].capitulated
        }
}

/// The countries that can annex from a side that gives up, in ascending order.
pub fn hostile_attackers(
    territory: &TerritoryControl,
    hostility: &Vec<u8>,
    active_sides: &Vec<u16>,
    economies: &BTreeMap<u16, EconomyState>,
    victim_side: usize,
) -> (attackers: Vec<u16>)
    requires
        hostility@.len() == territory.max_sides * territory.max_sides,
    ensures
        attackers@ == ascending(territory.country_to_side@.dom()).filter(
            can_annex(*territory, hostility@, active_sides@, economies@, victim_side),
        ),
{
    broadcast use vstd::std_specs::btree::group_btree_axioms;

    let keys = ordered_countries(&territory.country_to_side);
    let ghost wanted = can_annex(*territory, hostility@, active_sides@, economies@, victim_side);
    let mut attackers: Vec<u16> = Vec::new();
    let mut at: usize = 0;
    proof {
        reveal(Seq::filter);
        assert(keys@.take(0) =~= Seq::<u16>::empty());
    }
    while at < keys.len()
        invariant
            at <= keys@.len(),
            hostility@.len() == territory.max_sides * territory.max_sides,
            forall|i: int|
                0 <= i < keys@.len() ==> territory.country_to_side@.contains_key(
                    #[trigger] keys@[i],
                ),
            wanted == can_annex(
                *territory,
                hostility@,
                active_sides@,
                economies@,
                victim_side,
            ),
            attackers@ == keys@.take(at as int).filter(wanted),
        decreases keys@.len() - at,
    {
        broadcast use vstd::std_specs::btree::group_btree_axioms;

        let country: u16 = keys[at];
        let side: usize = *territory.country_to_side.get(&country).unwrap();
        let mut annexes = false;
        if side != victim_side && victim_side < territory.max_sides && side < territory.max_sides
            && side <= 0xffff {
            proof {
                lemma_square(victim_side as int, side as int, territory.max_sides as int);
                assert(0 <= victim_side * territory.max_sides) by (nonlinear_arith)
                    requires
                        0 <= victim_side,
                        0 <= territory.max_sides,
                ;
                assert(hostility.len() == hostility@.len());
            }
            let standing = match economies.get(&country) {
                Some(economy) => !economy.capitulated,
                None => false,
            };
            annexes = hostility[victim_side * territory.max_sides + side] == 1 && lists_side(
                active_sides,
                side as u16,
            ) && standing;
        }
        if annexes {
            attackers.push(country);
        }
        proof {
            reveal(Seq::filter);
            assert(keys@.take(at + 1).drop_last() =~= keys@.take(at as int));
            assert(keys@.take(at + 1).last() == country);
            assert(annexes == wanted(country));
        }
        at = at + 1;
    }
    assert(keys@.take(keys@.len() as int) =~= keys@);
    attackers
}

/// A formation as the allocation of surrendered territory sees it.
#[derive(Clone, Copy, Debug, PartialEq, Eq, Structural)]
pub struct SurrenderUnitPosition {
    pub country_id: u16,
    pub lat: Real,
    pub lng: Real,
    pub health: Real,
}

/// The first formations, as far as their country has a number.
pub open spec fn positions_of(units: Seq<SimulationUnit>, count: nat) -> Seq<SurrenderUnitPosition>
    decreases count,
{
    if count == 0 {
        Seq::empty()
    } else {
        let rest = positions_of(units, (count - 1) as nat);
        let unit = units[count - 1].combat;
        if unit.sovereign <= u16::MAX {
            rest.push(
                SurrenderUnitPosition {
                    country_id: unit.sovereign as u16,
                    lat: unit.lat,
                    lng: unit.lng,
                    health: unit.health,
                },
            )
        } else {
            rest
        }
    }
}

/// The formations as the allocation of surrendered territory sees them.
pub fn surrender_positions(units: &Vec<SimulationUnit>) -> (positions: Vec<SurrenderUnitPosition>)
    ensures
        positions@ == positions_of(units@, units@.len()),
{
    let mut positions: Vec<SurrenderUnitPosition> = Vec::new();
    let mut at: usize = 0;
    while at < units.len()
        invariant
            at <= units@.len(),
            positions@ == positions_of(units@, at as nat),
        decreases units@.len() - at,
    {
        let unit = units[at].combat;
        if unit.sovereign <= 0xffff {
            positions.push(
                SurrenderUnitPosition {
                    country_id: unit.sovereign as u16,
                    lat: unit.lat,
                    lng: unit.lng,
                    health: unit.health,
                },
            );
        }
        at = at + 1;
    }
    positions
}

/// A cell that changes hands.
#[derive(Clone, Copy, Debug, PartialEq, Eq, Structural)]
pub struct SurrenderTransfer {
    pub cell: usize,
    pub original_owner: u16,
    pub new_owner: u16,
}

/// The maps that a surrender changes.
#[derive(Debug)]
pub struct SurrenderMaps {
    pub world_control: Vec<u16>,
    pub primary_occupier: Vec<u16>,
    pub land: Vec<u8>,
    pub dominant_side: Vec<i16>,
    /// Influence of each side in each cell.
    pub side_influence: Vec<Vec<Real>>,
    pub occupation: Vec<Real>,
    /// Cells whose dominating side changed, in the order of the transfers.
    pub controller_cells: Vec<usize>,
}

/// What [`SurrenderMaps`] say.
pub ghost struct MapsModel {
    pub world_control: Seq<u16>,
    pub primary_occupier: Seq<u16>,
    pub land: Seq<u8>,
    pub dominant_side: Seq<i16>,
    pub side_influence: Seq<Seq<Real>>,
    pub occupation: Seq<Real>,
    pub controller_cells: Seq<usize>,
}

/// What the influence of all sides is.
pub open spec fn influence_view(influence: Seq<Vec<Real>>) -> Seq<Seq<Real>> {
    influence.map_values(|side: Vec<Real>| side@)
}

impl View for SurrenderMaps {
    type V = MapsModel;

    open spec fn view(&self) -> MapsModel {
        MapsModel {
            world_control: self.world_control@,
            primary_occupier: self.primary_occupier@,
            land: self.land@,
            dominant_side: self.dominant_side@,
            side_influence: influence_view(self.side_influence@),
            occupation: self.occupation@,
            controller_cells: self.controller_cells@,
        }
    }
}

impl MapsModel {
    /// Every map covers the same cells, and every side has an influence.
    pub open spec fn well_formed(self, cells: nat, max_sides: nat) -> bool {
        &&& self.world_control.len() == cells
        &&& self.primary_occupier.len() == cells
        &&& self.land.len() == cells
        &&& self.dominant_side.len() == cells
        &&& self.occupation.len() == cells
        &&& self.side_influence.len() == max_sides
        &&& forall|s: int|
            0 <= s < max_sides ==> (#[trigger] self.side_influence[s]).len() == cells
    }
}

/// Who dominates a cell after it went to a side.
pub open spec fn influence_after(
    influence: Seq<Seq<Real>>,
    cell: int,
    side: int,
) -> Seq<Seq<Real>> {
    Seq::new(
        influence.len(),
        |s: int|
            influence[s].update(
                cell,
                if s == side {
                    real_of(ONE_BITS)
                } else {
                    real_of(0)
                },
            ),
    )
}

/// One cell changes hands.
pub open spec fn transferred(
    maps: MapsModel,
    country_to_side: Map<u16, usize>,
    victim: u16,
    transfer: SurrenderTransfer,
) -> Result<MapsModel, RuntimeError> {
    let cell = transfer.cell as int;
    if cell >= maps.world_control.len() || maps.world_control[cell] != transfer.original_owner
        || transfer.original_owner != victim {
        Err(RuntimeError::InvalidCheckpoint("surrender transfer does not match live territory"))
    } else if !country_to_side.contains_key(transfer.new_owner) {
        Err(RuntimeError::InvalidCheckpoint("surrender recipient has no declared side"))
    } else {
        let side = country_to_side[transfer.new_owner];
        if side > i16::MAX {
            Err(RuntimeError::InvalidCheckpoint("side index exceeds i16"))
        } else {
            Ok(
                MapsModel {
                    world_control: maps.world_control.update(cell, transfer.new_owner),
                    primary_occupier: maps.primary_occupier.update(cell, transfer.new_owner),
                    land: maps.land.update(cell, 2),
                    dominant_side: maps.dominant_side.update(cell, side as i16),
                    side_influence: influence_after(maps.side_influence, cell, side as int),
                    occupation: maps.occupation.update(
                        cell,
                        if side % 2 == 0 {
                            real_of(ONE_BITS)
                        } else {
                            real_of(MINUS_N_1)
                        },
                    ),
                    controller_cells: if maps.dominant_side[cell] != side {
                        maps.controller_cells.push(transfer.cell)
                    } else {
                        maps.controller_cells
                    },
                },
            )
        }
    }
}

/// The first cells change hands.
pub open spec fn all_transferred(
    maps: MapsModel,
    country_to_side: Map<u16, usize>,
    victim: u16,
    transfers: Seq<SurrenderTransfer>,
    count: nat,
) -> Result<MapsModel, RuntimeError>
    decreases count,
{
    if count == 0 {
        Ok(maps)
    } else {
        match all_transferred(maps, country_to_side, victim, transfers, (count - 1) as nat) {
            Err(error) => Err(error),
            Ok(reached) => transferred(reached, country_to_side, victim, transfers[count - 1]),
        }
    }
}

proof fn lemma_transfer_fail(
    maps: MapsModel,
    country_to_side: Map<u16, usize>,
    victim: u16,
    transfers: Seq<SurrenderTransfer>,
    count: nat,
    whole: nat,
)
    requires
        count <= whole,
        all_transferred(maps, country_to_side, victim, transfers, count) is Err,
    ensures
        all_transferred(maps, country_to_side, victim, transfers, whole) == all_transferred(
            maps,
            country_to_side,
            victim,
            transfers,
            count,
        ),
    decreases whole,
{
    if count < whole {
        lemma_transfer_fail(
            maps,
            country_to_side,
            victim,
            transfers,
            count,
            (whole - 1) as nat,
        );
    }
}

fn set_influence(influence: &mut Vec<Vec<Real>>, cell: usize, side: usize, Ghost(cells): Ghost<nat>)
    requires
        cell < cells,
        side < old(influence)@.len(),
        forall|s: int|
            0 <= s < old(influence)@.len() ==> (#[trigger] old(influence)@[s])@.len() == cells,
    ensures
        influence_view(final(influence)@) == influence_after(
            influence_view(old(influence)@),
            cell as int,
            side as int,
        ),
{
    let ghost before = influence@;
    let mut at: usize = 0;
    while at < influence.len()
        invariant
            at <= influence@.len(),
            cell < cells,
            influence@.len() == before.len(),
            forall|s: int| 0 <= s < influence@.len() ==> (#[trigger] influence@[s])@.len() == cells,
            forall|s: int|
                at <= s < influence@.len() ==> (#[trigger] influence@[s])@ == before[s]@,
            forall|s: int|
                0 <= s < at ==> (#[trigger] influence@[s])@ == before[s]@.update(
                    cell as int,
                    if s == side {
                        real_of(ONE_BITS)
                    } else {
                        real_of(0)
                    },
                ),
        decreases influence@.len() - at,
    {
        let mut row: Vec<Real> = Vec::new();
        core::mem::swap(&mut row, &mut influence[at]);
        row.set(
            cell,
            if at == side {
                Real::one()
            } else {
                Real::zero()
            },
        );
        influence.set(at, row);
        at = at + 1;
    }
    assert(influence_view(influence@) =~= influence_after(
        influence_view(before),
        cell as int,
        side as int,
    ));
}

/// Lets cells change hands, on staged maps.
pub fn apply_transfers(
    maps: &mut SurrenderMaps,
    territory: &TerritoryControl,
    victim: u16,
    transfers: &Vec<SurrenderTransfer>,
) -> (outcome: Result<(), RuntimeError>)
    requires
        old(maps)@.well_formed(territory.grid.area() as nat, territory.max_sides as nat),
        forall|country: u16| #[trigger]
            territory.country_to_side@.contains_key(country) ==> territory.country_to_side@[country]
                < territory.max_sides,
    ensures
        final(maps)@.well_formed(territory.grid.area() as nat, territory.max_sides as nat),
        match outcome {
            Ok(_) => all_transferred(
                old(maps)@,
                territory.country_to_side@,
                victim,
                transfers@,
                transfers@.len(),
            ) == Ok::<MapsModel, RuntimeError>(final(maps)@),
            Err(error) => all_transferred(
                old(maps)@,
                territory.country_to_side@,
                victim,
                transfers@,
                transfers@.len(),
            ) == Err::<MapsModel, RuntimeError>(error),
        },
{
    broadcast use vstd::std_specs::btree::group_btree_axioms;

    let ghost start = maps@;
    let ghost cells = territory.grid.area() as nat;
    let ghost sides = territory.max_sides as nat;
    let ghost mapping = territory.country_to_side@;
    let mut at: usize = 0;
    while at < transfers.len()
        invariant
            at <= transfers@.len(),
            start == old(maps)@,
            cells == territory.grid.area(),
            sides == territory.max_sides,
            mapping == territory.country_to_side@,
            forall|country: u16| #[trigger]
                mapping.contains_key(country) ==> mapping[country] < sides,
            maps@.well_formed(cells, sides),
            all_transferred(start, mapping, victim, transfers@, at as nat) == Ok::<
                MapsModel,
                RuntimeError,
            >(maps@),
        decreases transfers@.len() - at,
    {
        broadcast use vstd::std_specs::btree::group_btree_axioms;

        let transfer = transfers[at];
        let cell: usize = transfer.cell;
        let ghost before = maps@;
        if cell >= maps.world_control.len() || maps.world_control[cell] != transfer.original_owner
            || transfer.original_owner != victim {
            proof {
                lemma_transfer_fail(
                    start,
                    mapping,
                    victim,
                    transfers@,
                    (at + 1) as nat,
                    transfers@.len(),
                );
            }
            return Err(
                RuntimeError::InvalidCheckpoint("surrender transfer does not match live territory"),
            );
        }
        let side: usize = match territory.country_to_side.get(&transfer.new_owner) {
            Some(side) => *side,
            None => {
                proof {
                    lemma_transfer_fail(
                        start,
                        mapping,
                        victim,
                        transfers@,
                        (at + 1) as nat,
                        transfers@.len(),
                    );
                }
                return Err(
                    RuntimeError::InvalidCheckpoint("surrender recipient has no declared side"),
                );
            },
        };
        if side > 0x7fff {
            proof {
                lemma_transfer_fail(
                    start,
                    mapping,
                    victim,
                    transfers@,
                    (at + 1) as nat,
                    transfers@.len(),
                );
            }
            return Err(RuntimeError::InvalidCheckpoint("side index exceeds i16"));
        }
        maps.world_control.set(cell, transfer.new_owner);
        maps.primary_occupier.set(cell, transfer.new_owner);
        maps.land.set(cell, 2);
        proof {
            assert forall|s: int| 0 <= s < maps.side_influence@.len() implies (
            #[trigger] maps.side_influence@[s])@.len() == cells by {
                assert(maps@.side_influence[s].len() == cells);
            }
        }
        set_influence(&mut maps.side_influence, cell, side, Ghost(cells));
        if maps.dominant_side[cell] != side as i16 {
            maps.controller_cells.push(cell);
        }
        maps.dominant_side.set(cell, side as i16);
        maps.occupation.set(
            cell,
            if side % 2 == 0 {
                Real::one()
            } else {
                Real::from_bits(MINUS_N_1)
            },
        );
        assert(transferred(before, mapping, victim, transfer) == Ok::<MapsModel, RuntimeError>(
            maps@,
        ));
        at = at + 1;
    }
    Ok(())
}

/// A committed state of the territory.
#[derive(Clone, Copy, Debug, PartialEq, Eq, Structural)]
pub struct TerritoryCommittedState {
    pub generation: u64,
    pub commit_sequence: u64,
    pub mutation_sequence: u64,
    pub processed_tiles: usize,
    pub processed_items: usize,
}

/// How many tiles cover a length.
pub open spec fn tiles_over(length: int, tile: int) -> int {
    if length % tile == 0 {
        length / tile
    } else {
        length / tile + 1
    }
}

fn count_tiles(length: usize, tile: usize) -> (tiles: usize)
    requires
        tile > 0,
    ensures
        tiles == tiles_over(length as int, tile as int),
        tiles <= length,
{
    proof {
        vstd::arithmetic::div_mod::lemma_fundamental_div_mod(length as int, tile as int);
        assert(length % tile != 0 ==> length / tile + 1 <= length) by (nonlinear_arith)
            requires
                tile > 0,
                length == tile * (length as int / tile as int) + length as int % tile as int,
                0 <= length as int % (tile as int) < tile,
                length as int / tile as int >= 0,
        ;
        assert(length as int / tile as int <= length) by (nonlinear_arith)
            requires
                tile > 0,
                length >= 0,
        ;
    }
    if length % tile == 0 {
        length / tile
    } else {
        length / tile + 1
    }
}

/// What comes after a commit when a surrender changed the territory, and the next revision of the
/// world.
pub open spec fn next_commit(
    prior: Option<TerritoryCommittedState>,
    world_revision: u64,
    tiles: int,
    items: int,
) -> Result<(TerritoryCommittedState, u64), RuntimeError> {
    if world_revision == u64::MAX {
        Err(RuntimeError::ClockOverflow)
    } else {
        match prior {
            None => Err(
                RuntimeError::InvalidCheckpoint(
                    "strategic effects require a committed territory boundary",
                ),
            ),
            Some(state) => if state.generation == u64::MAX || state.commit_sequence == u64::MAX
                || state.mutation_sequence == u64::MAX {
                Err(RuntimeError::ClockOverflow)
            } else {
                Ok(
                    (
                        TerritoryCommittedState {
                            generation: (state.generation + 1) as u64,
                            commit_sequence: (state.commit_sequence + 1) as u64,
                            mutation_sequence: (state.mutation_sequence + 1) as u64,
                            processed_tiles: tiles as usize,
                            processed_items: items as usize,
                        },
                        (world_revision + 1) as u64,
                    ),
                )
            },
        }
    }
}

/// What comes after a commit when a surrender changed the territory.
pub fn commit_surrender(
    territory: &TerritoryControl,
    prior: Option<TerritoryCommittedState>,
    world_revision: u64,
    tile_size: usize,
    city_count: usize,
) -> (outcome: Result<(TerritoryCommittedState, u64), RuntimeError>)
    requires
        territory.well_formed(),
        tile_size > 0,
        territory.land@.len() + city_count <= usize::MAX,
    ensures
        outcome == next_commit(
            prior,
            world_revision,
            tiles_over(territory.grid.width as int, tile_size as int) * tiles_over(
                territory.grid.height as int,
                tile_size as int,
            ),
            territory.land@.len() + city_count,
        ),
{
    if world_revision == 0xffff_ffff_ffff_ffff {
        return Err(RuntimeError::ClockOverflow);
    }
    match prior {
        None => Err(
            RuntimeError::InvalidCheckpoint(
                "strategic effects require a committed territory boundary",
            ),
        ),
        Some(state) => {
            if state.generation == 0xffff_ffff_ffff_ffff || state.commit_sequence
                == 0xffff_ffff_ffff_ffff || state.mutation_sequence == 0xffff_ffff_ffff_ffff {
                return Err(RuntimeError::ClockOverflow);
            }
            let across: usize = count_tiles(territory.grid.width, tile_size);
            let down: usize = count_tiles(territory.grid.height, tile_size);
            proof {
                assert(0 <= across * down <= territory.grid.width * territory.grid.height)
                    by (nonlinear_arith)
                    requires
                        0 <= across <= territory.grid.width,
                        0 <= down <= territory.grid.height,
                ;
            }
            Ok(
                (
                    TerritoryCommittedState {
                        generation: state.generation + 1,
                        commit_sequence: state.commit_sequence + 1,
                        mutation_sequence: state.mutation_sequence + 1,
                        processed_tiles: across * down,
                        processed_items: territory.land.len() + city_count,
                    },
                    world_revision + 1,
                ),
            )
        },
    }
}

/// How many formations a country is expected to have when its garrison is reckoned.
pub open spec fn garrison_basis(country: ProductionCountry) -> Real {
    country.expected_army_units.max_of(real_of(N_3))
}

/// The occupation of a country that gave up.
pub open spec fn new_occupation(
    countries: Seq<ProductionCountry>,
    economies: Map<u16, EconomyState>,
    victim: u16,
    annexer: u16,
    garrison: Result<u32, KernelFault>,
) -> Result<OccupationState, RuntimeError> {
    match first_entry(countries, victim, 0) {
        None => Err(
            RuntimeError::InvalidCheckpoint(
                "capitulating country is absent from scenario production",
            ),
        ),
        Some(country) => if !economies.contains_key(victim) {
            Err(
                RuntimeError::InvalidCheckpoint("capitulating country has no prepared economy"),
            )
        } else {
            match garrison {
                Err(fault) => Err(RuntimeError::Strategic(fault)),
                Ok(required) => Ok(
                    OccupationState {
                        victim_id: victim,
                        annexer_id: annexer,
                        base_income: economies[victim].base_income,
                        core_cells: if country.initial_core_cells == 0 {
                            1
                        } else {
                            country.initial_core_cells
                        },
                        expected_army_units: garrison_basis(country),
                        resistance: real_of(0),
                        occupation_coverage: real_of(ONE_BITS),
                        garrison_coverage: real_of(0),
                        garrison_assigned: real_of(0),
                        required_garrison: required,
                        held_ratio: real_of(ONE_BITS),
                        active_rebellion: false,
                        queued_at_cycle: 0,
                        cooldown_until_cycle: 0,
                    },
                ),
            }
        },
    }
}

/// The occupation of a country that gave up. The garrison is what the economy kernel requires for
/// the country's [`garrison_basis`].
pub fn occupation_of(
    countries: &Vec<ProductionCountry>,
    economies: &BTreeMap<u16, EconomyState>,
    victim: u16,
    annexer: u16,
    garrison: Result<u32, KernelFault>,
) -> (outcome: Result<OccupationState, RuntimeError>)
    ensures
        outcome == new_occupation(countries@, economies@, victim, annexer, garrison),
{
    broadcast use vstd::std_specs::btree::group_btree_axioms;

    let place: usize = match find_entry(countries, victim) {
        None => {
            return Err(
                RuntimeError::InvalidCheckpoint(
                    "capitulating country is absent from scenario production",
                ),
            );
        },
        Some(place) => place,
    };
    let income = match economies.get(&victim) {
        None => {
            return Err(
                RuntimeError::InvalidCheckpoint("capitulating country has no prepared economy"),
            );
        },
        Some(economy) => economy.base_income,
    };
    let required: u32 = match garrison {
        Err(fault) => {
            return Err(RuntimeError::Strategic(fault));
        },
        Ok(required) => required,
    };
    let core_cells: u32 = countries[place].initial_core_cells;
    Ok(
        OccupationState {
            victim_id: victim,
            annexer_id: annexer,
            base_income: income,
            core_cells: if core_cells == 0 {
                1
            } else {
                core_cells
            },
            expected_army_units: countries[place].expected_army_units.larger(
                Real::from_bits(N_3),
            ),
            resistance: Real::zero(),
            occupation_coverage: Real::one(),
            garrison_coverage: Real::zero(),
            garrison_assigned: Real::zero(),
            required_garrison: required,
            held_ratio: Real::one(),
            active_rebellion: false,
            queued_at_cycle: 0,
            cooldown_until_cycle: 0,
        },
    )
}

/// Sides among the first countries that are allowed and have not given up.
pub open spec fn standing_sides(
    countries: Seq<StrategicCountry>,
    explicit: Seq<u16>,
    count: nat,
) -> Set<u16>
    decreases count,
{
    if count == 0 {
        Set::empty()
    } else {
        let rest = standing_sides(countries, explicit, (count - 1) as nat);
        let country = countries[count - 1];
        if explicit.contains(country.side) && !country.economy.capitulated {
            rest.insert(country.side)
        } else {
            rest
        }
    }
}

/// Sides that are allowed and have not given up, in ascending order.
pub fn sides_still_standing(countries: &Vec<StrategicCountry>, explicit: &Vec<u16>) -> (sides: Vec<
    u16,
>)
    ensures
        sides@ == ascending(standing_sides(countries@, explicit@, countries@.len())),
        forall|i: int| 0 <= i < sides@.len() ==> explicit@.contains(#[trigger] sides@[i]),
{
    broadcast use vstd::std_specs::btree::group_btree_axioms;

    let mut standing: BTreeMap<u16, bool> = BTreeMap::new();
    let mut at: usize = 0;
    assert(standing@.dom() =~= standing_sides(countries@, explicit@, 0));
    while at < countries.len()
        invariant
            at <= countries@.len(),
            standing@.dom() == standing_sides(countries@, explicit@, at as nat),
            forall|side: u16| #[trigger] standing@.contains_key(side) ==> explicit@.contains(side),
        decreases countries@.len() - at,
    {
        broadcast use vstd::std_specs::btree::group_btree_axioms;

        let country = countries[at];
        let ghost before = standing@;
        if lists_side(explicit, country.side) && !country.economy.capitulated {
            standing.insert(country.side, true);
            assert(standing@.dom() =~= before.dom().insert(country.side));
        }
        at = at + 1;
    }
    ordered_countries(&standing)
}

/// Whether a side still has a country that has not given up.
pub open spec fn side_stands(countries: Seq<StrategicCountry>) -> spec_fn(u16) -> bool {
    |side: u16|
        exists|i: int|
            0 <= i < countries.len() && (#[trigger] countries[i]).side == side
                && !countries[i].economy.capitulated
}

/// The declared sides that still have a country which has not given up.
pub fn retain_standing(active_sides: Vec<u16>, countries: &Vec<StrategicCountry>) -> (sides: Vec<
    u16,
>)
    ensures
        sides@ == active_sides@.filter(side_stands(countries@)),
{
    let keep = |side: &u16| -> (keep: bool)
        ensures
            keep == side_stands(countries@)(*side),
        { has_standing(countries, *side) };
    retain_with(active_sides, keep, Ghost(side_stands(countries@)))
}

fn has_standing(countries: &Vec<StrategicCountry>, side: u16) -> (answer: bool)
    ensures
        answer == side_stands(countries@)(side),
{
    let mut at: usize = 0;
    while at < countries.len()
        invariant
            at <= countries@.len(),
            forall|i: int|
                0 <= i < at ==> !((#[trigger] countries@[i]).side == side
                    && !countries@[i].economy.capitulated),
        decreases countries@.len() - at,
    {
        if countries[at].side == side && !countries[at].economy.capitulated {
            return true;
        }
        at = at + 1;
    }
    false
}

/// How surrendered territory is shared out.
#[derive(Debug)]
pub struct SurrenderPlan {
    pub transfers: Vec<SurrenderTransfer>,
    pub primary_annexer_id: u16,
}

/// What the kernels say of a surrender, in the order in which they are asked.
#[derive(Debug)]
pub struct SurrenderAnswers {
    pub plan: Result<SurrenderPlan, KernelFault>,
    /// Whether the territory kernel takes the changed maps.
    pub restored: Result<(), KernelFault>,
    /// The garrison that the economy kernel requires.
    pub garrison: Result<u32, KernelFault>,
    /// Whether the strategic kernel takes the occupation.
    pub registered: Result<(), KernelFault>,
}

/// Where the territory stands before a surrender.
#[derive(Clone, Copy, Debug, PartialEq, Eq, Structural)]
pub struct TerritoryBoundary {
    pub committed: Option<TerritoryCommittedState>,
    pub world_revision: u64,
    pub tile_size: usize,
    pub city_count: usize,
}

/// A surrender that is not committed yet.
#[derive(Debug)]
pub struct StagedSurrender {
    pub maps: SurrenderMaps,
    pub committed: TerritoryCommittedState,
    pub world_revision: u64,
    pub occupation: OccupationState,
}

/// What a [`StagedSurrender`] says.
pub ghost struct SurrenderModel {
    pub maps: MapsModel,
    pub committed: TerritoryCommittedState,
    pub world_revision: u64,
    pub occupation: OccupationState,
}

/// A surrender takes effect: its cells change hands, the territory moves on by one commit, and the
/// country is occupied. Or why it cannot, by the first cause.
pub open spec fn surrendered(
    maps: MapsModel,
    territory: TerritoryControl,
    boundary: TerritoryBoundary,
    countries: Seq<ProductionCountry>,
    economies: Map<u16, EconomyState>,
    victim: u16,
    answers: SurrenderAnswers,
) -> Result<SurrenderModel, RuntimeError> {
    match answers.plan {
        Err(fault) => Err(RuntimeError::Strategic(fault)),
        Ok(plan) => match all_transferred(
            maps,
            territory.country_to_side@,
            victim,
            plan.transfers@,
            plan.transfers@.len(),
        ) {
            Err(error) => Err(error),
            Ok(changed) => match next_commit(
                boundary.committed,
                boundary.world_revision,
                tiles_over(territory.grid.width as int, boundary.tile_size as int) * tiles_over(
                    territory.grid.height as int,
                    boundary.tile_size as int,
                ),
                territory.land@.len() + boundary.city_count,
            ) {
                Err(error) => Err(error),
                Ok((committed, world_revision)) => match answers.restored {
                    Err(fault) => Err(RuntimeError::Territory(fault)),
                    Ok(_) => match new_occupation(
                        countries,
                        economies,
                        victim,
                        plan.primary_annexer_id,
                        answers.garrison,
                    ) {
                        Err(error) => Err(error),
                        Ok(occupation) => match answers.registered {
                            Err(fault) => Err(RuntimeError::Strategic(fault)),
                            Ok(_) => Ok(
                                SurrenderModel {
                                    maps: changed,
                                    committed,
                                    world_revision,
                                    occupation,
                                },
                            ),
                        },
                    },
                },
            },
        },
    }
}

/// Lets a surrender take effect on staged maps.
pub fn stage_surrender(
    maps: SurrenderMaps,
    territory: &TerritoryControl,
    boundary: TerritoryBoundary,
    countries: &Vec<ProductionCountry>,
    economies: &BTreeMap<u16, EconomyState>,
    victim: u16,
    answers: &SurrenderAnswers,
) -> (outcome: Result<StagedSurrender, RuntimeError>)
    requires
        territory.well_formed(),
        maps@.well_formed(territory.grid.area() as nat, territory.max_sides as nat),
        forall|country: u16| #[trigger]
            territory.country_to_side@.contains_key(country) ==> territory.country_to_side@[country]
                < territory.max_sides,
        boundary.tile_size > 0,
        territory.land@.len() + boundary.city_count <= usize::MAX,
    ensures
        ({
            let expected = surrendered(
                maps@,
                *territory,
                boundary,
                countries@,
                economies@,
                victim,
                *answers,
            );
            match outcome {
                Ok(staged) => expected == Ok::<SurrenderModel, RuntimeError>(
                    SurrenderModel {
                        maps: staged.maps@,
                        committed: staged.committed,
                        world_revision: staged.world_revision,
                        occupation: staged.occupation,
                    },
                ),
                Err(error) => expected == Err::<SurrenderModel, RuntimeError>(error),
            }
        }),
{
    let plan: &SurrenderPlan = match &answers.plan {
        Err(fault) => {
            return Err(RuntimeError::Strategic(*fault));
        },
        Ok(plan) => plan,
    };
    let mut changed = maps;
    if let Err(error) = apply_transfers(&mut changed, territory, victim, &plan.transfers) {
        return Err(error);
    }
    let (committed, world_revision) = match commit_surrender(
        territory,
        boundary.committed,
        boundary.world_revision,
        boundary.tile_size,
        boundary.city_count,
    ) {
        Err(error) => {
            return Err(error);
        },
        Ok(next) => next,
    };
    if let Err(fault) = answers.restored {
        return Err(RuntimeError::Territory(fault));
    }
    let occupation = match occupation_of(
        countries,
        economies,
        victim,
        plan.primary_annexer_id,
        answers.garrison,
    ) {
        Err(error) => {
            return Err(error);
        },
        Ok(occupation) => occupation,
    };
    if let Err(fault) = answers.registered {
        return Err(RuntimeError::Strategic(fault));
    }
    Ok(StagedSurrender { maps: changed, committed, world_revision, occupation })
}

/// Cells outside a surrender stay as they are, and within it every cell is the recipient's, whose
/// influence is the only one there.
pub proof fn a_transfer_leaves_one_master(
    maps: MapsModel,
    country_to_side: Map<u16, usize>,
    victim: u16,
    transfer: SurrenderTransfer,
    cells: nat,
    max_sides: nat,
    cell: int,
    side: int,
)
    requires
        maps.well_formed(cells, max_sides),
        0 <= cell < cells,
        0 <= side < max_sides,
    ensures
        transferred(maps, country_to_side, victim, transfer) matches Ok(after) ==> if cell
            == transfer.cell {
            &&& after.world_control[cell] == transfer.new_owner
            &&& after.primary_occupier[cell] == transfer.new_owner
            &&& after.dominant_side[cell] == country_to_side[transfer.new_owner]
            &&& after.side_influence[side][cell] == (if side
                == country_to_side[transfer.new_owner] {
                real_of(ONE_BITS)
            } else {
                real_of(0)
            })
        } else {
            &&& after.world_control[cell] == maps.world_control[cell]
            &&& after.primary_occupier[cell] == maps.primary_occupier[cell]
            &&& after.dominant_side[cell] == maps.dominant_side[cell]
            &&& after.side_influence[side][cell] == maps.side_influence[side][cell]
        },
{
    assert(maps.side_influence[side].len() == cells);
}

} // verus!
