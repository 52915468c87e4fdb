//! One coherent strategic input, derived from committed views of the world.

use std::collections::{BTreeMap, BTreeSet};
use vstd::prelude::*;
use crate::economy::EconomyState;
use crate::numbers::{N_100, N_1000, N_3};
use crate::order::{
    lemma_filter_contains, lemma_permutation_contains, lemma_push_contains, rank_order,
    sort_stable, stable_sort_orders, stable_sorted, strictly_sorted, Keyed, Ranked,
};
use crate::production::{
    cell_at, cell_supplied, checked_grid, enforce_limit, grid_index, u32_count, usable_grid,
    validate_config, ProductionConfig, ProductionCountry, ProductionError, ScenarioProduction,
};
use crate::scalar::{real_of, Real, ONE_BITS};
use crate::scenario::{positive, GridSpec};
use crate::simulation::{FrameSnapshot, UnitSnapshot, NATIVE_TICK_SCHEMA_VERSION};
use crate::tables::{ascending, countries_can_be_ordered, ordered_countries};
use crate::units::UnitKind;
use crate::worksheet::{
    all_missing, integer, product, quotient, sum, Operation, Reader, Stop, Worksheet,
};

verus! {

/// What the territory kernel counted for a country.
#[derive(Debug)]
pub struct CountryAggregate {
    pub country_id: u16,
    pub side_index: i16,
    pub owned: u64,
    pub controlled: u64,
    pub core_controlled: u64,
    pub de_jure_total: u64,
    pub core_control_ratio: Real,
    pub city_population_total: Real,
    pub city_population_controlled: Real,
    pub capital_held: bool,
    pub cities_controlled: u64,
    pub de_jure_control_by_side: BTreeMap<usize, u64>,
}

/// What the territory kernel counted for a side.
#[derive(Debug)]
pub struct SideAggregate {
    pub side_index: usize,
    pub country_ids: Vec<u16>,
    pub city_population_controlled: Real,
}

/// A committed count of the territory.
#[derive(Debug)]
pub struct TerritorySnapshot {
    pub schema_version: String,
    pub generation: u64,
    pub commit_sequence: u64,
    pub topology_revision: u64,
    pub world_revision: u64,
    pub city_revision: u64,
    pub countries: Vec<CountryAggregate>,
    pub sides: Vec<SideAggregate>,
}

#[derive(Clone, Copy, Debug, PartialEq, Eq, Structural)]
pub struct TerritoryCommitMarker {
    pub generation: u64,
    pub commit_sequence: u64,
    pub topology_revision: u64,
    pub world_revision: u64,
    pub city_revision: u64,
}

pub open spec fn marker_of(snapshot: TerritorySnapshot) -> TerritoryCommitMarker {
    TerritoryCommitMarker {
        generation: snapshot.generation,
        commit_sequence: snapshot.commit_sequence,
        topology_revision: snapshot.topology_revision,
        world_revision: snapshot.world_revision,
        city_revision: snapshot.city_revision,
    }
}

impl TerritoryCommitMarker {
    /// The marker of a snapshot.
    pub fn of(snapshot: &TerritorySnapshot) -> (marker: Self)
        ensures
            marker == marker_of(*snapshot),
    {
        TerritoryCommitMarker {
            generation: snapshot.generation,
            commit_sequence: snapshot.commit_sequence,
            topology_revision: snapshot.topology_revision,
            world_revision: snapshot.world_revision,
            city_revision: snapshot.city_revision,
        }
    }
}

/// A country under another's rule.
#[derive(Clone, Copy, Debug, PartialEq, Eq, Structural)]
pub struct OccupationState {
    pub victim_id: u16,
    pub annexer_id: u16,
    pub base_income: Real,
    pub core_cells: u32,
    pub expected_army_units: Real,
    pub resistance: Real,
    pub occupation_coverage: Real,
    pub garrison_coverage: Real,
    pub garrison_assigned: Real,
    pub required_garrison: u32,
    pub held_ratio: Real,
    pub active_rebellion: bool,
    pub queued_at_cycle: u64,
    pub cooldown_until_cycle: u64,
}

/// Everything that one strategic input is derived from.
#[derive(Clone, Copy)]
pub struct StrategicDerivationInput<'a> {
    pub tick: u64,
    pub force: bool,
    pub scenario: &'a ScenarioProduction,
    pub grid: GridSpec,
    pub de_jure: &'a [u16],
    pub territory: &'a TerritorySnapshot,
    /// The schema that the territory kernel writes.
    pub territory_schema: &'a str,
    pub expected_territory: TerritoryCommitMarker,
    pub territory_fresh: bool,
    pub frame: &'a FrameSnapshot,
    pub country_to_side: &'a BTreeMap<u16, usize>,
    pub side_count: usize,
    pub hostility_matrix: &'a [u8],
    pub economies: &'a BTreeMap<u16, EconomyState>,
    pub occupations: &'a BTreeMap<u16, OccupationState>,
    pub casualties: &'a BTreeMap<u16, Real>,
}

#[derive(Clone, Copy, Debug, PartialEq, Eq, Structural)]
pub struct StrategicDerivationCounters {
    pub countries: usize,
    pub units: usize,
    pub payroll_units: usize,
    pub garrison_units: usize,
    pub occupations: usize,
    pub active_sides: usize,
    pub hostile_pairs: usize,
}

#[derive(Clone, Copy, Debug, PartialEq, Eq, Structural)]
pub struct CountryCycleInput {
    pub country_id: u16,
    pub side: u16,
    pub owned_cells: u32,
    pub controlled_cells: u32,
    pub core_controlled: u32,
    pub initial_cells: u32,
    pub city_population_controlled: Real,
    pub unit_count: u32,
    pub payroll_due: Real,
    pub capital_held: bool,
    pub is_rebel: bool,
    pub active: bool,
}

#[derive(Clone, Copy, Debug, PartialEq, Eq, Structural)]
pub struct OccupationCycleRecord {
    pub victim_id: u16,
    pub held_cells: u32,
    pub garrison_strength: Real,
    pub casualty_pressure: Real,
}

/// The input of one strategic cycle.
#[derive(Debug)]
pub struct StrategicCycleInput {
    pub tick: u64,
    pub force: bool,
    pub territory_generation: u64,
    pub territory_commit_sequence: u64,
    pub territory_fresh: bool,
    pub countries: Vec<CountryCycleInput>,
    pub occupations: Vec<OccupationCycleRecord>,
    pub active_sides: Vec<u16>,
    pub active_hostile_pairs: Vec<(u16, u16)>,
    pub capitulation_active_sides: Option<Vec<u16>>,
}

#[derive(Debug)]
pub struct StrategicDerivationOutput {
    pub input: StrategicCycleInput,
    pub counters: StrategicDerivationCounters,
}

/// Whether a side is hostile to another in a square table.
pub open spec fn table_hostile(matrix: Seq<u8>, side_count: int, left: int, right: int) -> bool {
    matrix[left * side_count + right] == 1
}

/// Entries are flags, and nobody is hostile to itself.
pub open spec fn hostility_flags(matrix: Seq<u8>, side_count: int) -> bool {
    forall|left: int, right: int|
        0 <= left < side_count && 0 <= right < side_count ==> {
            let value = #[trigger] matrix[left * side_count + right];
            value <= 1 && (left == right ==> value == 0)
        }
}

/// What keeps the views from belonging together.
pub open spec fn boundary_fault(
    source: StrategicDerivationInput<'_>,
    config: ProductionConfig,
) -> Option<ProductionError> {
    if !usable_grid(source.grid) {
        Some(ProductionError::InvalidScenarioGrid)
    } else if !source.grid.same(source.scenario.grid) || source.de_jure@.len()
        != source.grid.area() {
        Some(ProductionError::InvalidStrategicGrid)
    } else if !source.territory_fresh || marker_of(*source.territory)
        != source.expected_territory {
        Some(ProductionError::StaleTerritory)
    } else if source.territory.schema_version@ != source.territory_schema@ {
        Some(ProductionError::PartialTerritory)
    } else if source.frame.schema_version@ != NATIVE_TICK_SCHEMA_VERSION@ || source.frame.tick
        != source.tick {
        Some(ProductionError::StaleFrame)
    } else if source.side_count == 0 || source.side_count > config.max_sides
        || source.hostility_matrix@.len() != source.side_count * source.side_count
        || !hostility_flags(source.hostility_matrix@, source.side_count as int) {
        Some(ProductionError::InvalidHostility)
    } else if source.country_to_side@.dom().len() > config.max_countries {
        Some(
            ProductionError::Limit {
                kind: "countries",
                actual: source.country_to_side@.dom().len() as usize,
                limit: config.max_countries,
            },
        )
    } else {
        None
    }
}

pub(crate) proof fn lemma_square(left: int, right: int, side_count: int)
    requires
        0 <= left < side_count,
        0 <= right < side_count,
    ensures
        0 <= left * side_count + right < side_count * side_count,
{
    assert(0 <= left * side_count) by (nonlinear_arith)
        requires
            0 <= left,
            0 <= side_count,
    ;
    assert(left * side_count + side_count <= side_count * side_count) by (nonlinear_arith)
        requires
            left + 1 <= side_count,
            0 <= side_count,
    ;
}

pub(crate) fn check_flags(matrix: &[u8], side_count: usize) -> (answer: bool)
    requires
        matrix@.len() == side_count * side_count,
    ensures
        answer == hostility_flags(matrix@, side_count as int),
{
    let mut left: usize = 0;
    assert(matrix@.len() == matrix.len());
    while left < side_count
        invariant
            left <= side_count,
            matrix@.len() == side_count * side_count,
            matrix@.len() <= usize::MAX,
            forall|l: int, r: int|
                0 <= l < left && 0 <= r < side_count ==> {
                    let value = #[trigger] matrix@[l * side_count + r];
                    value <= 1 && (l == r ==> value == 0)
                },
        decreases side_count - left,
    {
        let mut right: usize = 0;
        while right < side_count
            invariant
                left < side_count,
                right <= side_count,
                matrix@.len() == side_count * side_count,
                matrix@.len() <= usize::MAX,
                forall|l: int, r: int|
                    0 <= l < left && 0 <= r < side_count ==> {
                        let value = #[trigger] matrix@[l * side_count + r];
                        value <= 1 && (l == r ==> value == 0)
                    },
                forall|r: int|
                    0 <= r < right ==> {
                        let value = #[trigger] matrix@[left * side_count + r];
                        value <= 1 && (left == r ==> value == 0)
                    },
            decreases side_count - right,
        {
            proof {
                lemma_square(left as int, right as int, side_count as int);
                assert(0 <= left * side_count) by (nonlinear_arith)
                    requires
                        0 <= left,
                        0 <= side_count,
                ;
            }
            let value: u8 = matrix[left * side_count + right];
            if value > 1 || (left == right && value != 0) {
                assert(!hostility_flags(matrix@, side_count as int)) by {
                    assert(matrix@[left as int * side_count as int + right as int] == value);
                }
                return false;
            }
            right = right + 1;
        }
        assert forall|l: int, r: int| 0 <= l < left + 1 && 0 <= r < side_count implies {
            let value = #[trigger] matrix@[l * side_count + r];
            value <= 1 && (l == r ==> value == 0)
        } by {
            if l == left {
                assert(matrix@[left * side_count + r] <= 1);
            }
        }
        left = left + 1;
    }
    true
}

fn validate_strategic_boundary(
    source: &StrategicDerivationInput<'_>,
    config: &ProductionConfig,
) -> (verdict: Result<(), ProductionError>)
    ensures
        verdict is Ok <==> boundary_fault(*source, *config) is None,
        verdict matches Err(error) ==> boundary_fault(*source, *config) == Some(error),
{
    let cells: usize = match checked_grid(source.grid) {
        Ok(cells) => cells,
        Err(error) => {
            return Err(error);
        },
    };
    if !source.grid.equals(source.scenario.grid) || source.de_jure.len() != cells {
        return Err(ProductionError::InvalidStrategicGrid);
    }
    if !source.territory_fresh || TerritoryCommitMarker::of(source.territory)
        != source.expected_territory {
        return Err(ProductionError::StaleTerritory);
    }
    if source.territory.schema_version != source.territory_schema.to_owned() {
        return Err(ProductionError::PartialTerritory);
    }
    if source.frame.schema_version.to_owned() != NATIVE_TICK_SCHEMA_VERSION.to_owned()
        || source.frame.tick != source.tick {
        return Err(ProductionError::StaleFrame);
    }
    if source.side_count == 0 || source.side_count > config.max_sides {
        return Err(ProductionError::InvalidHostility);
    }
    assert(source.hostility_matrix@.len() == source.hostility_matrix.len());
    match source.side_count.checked_mul(source.side_count) {
        Some(size) => {
            if source.hostility_matrix.len() != size {
                return Err(ProductionError::InvalidHostility);
            }
        },
        None => {
            return Err(ProductionError::InvalidHostility);
        },
    }
    if !check_flags(source.hostility_matrix, source.side_count) {
        return Err(ProductionError::InvalidHostility);
    }
    let keys = ordered_countries(source.country_to_side);
    enforce_limit("countries", keys.len(), config.max_countries)
}

/// An economy whose numbers can be worked with.
pub open spec fn economy_sound(state: EconomyState) -> bool {
    &&& state.country_id != 0
    &&& state.initial_core_cells != 0
    &&& state.economic_strength.finite()
    &&& state.base_income.finite()
    &&& state.treasury.finite()
    &&& state.income.finite()
    &&& state.occupation_yield.finite()
    &&& state.payroll_due.finite()
    &&& state.occupation_due.finite()
    &&& state.payroll_coverage.finite()
    &&& state.occupation_coverage.finite()
    &&& state.arrears_cycles.finite()
    &&& state.initial_city_population.finite()
    &&& state.core_control_ratio.finite()
    &&& state.city_control_ratio.finite()
}

pub fn validate_economy(state: &EconomyState) -> (verdict: Result<(), ProductionError>)
    ensures
        verdict is Ok <==> economy_sound(*state),
        verdict matches Err(error) ==> error == ProductionError::MissingEconomy(state.country_id),
{
    if state.country_id == 0 || state.initial_core_cells == 0
        || !state.economic_strength.is_finite() || !state.base_income.is_finite()
        || !state.treasury.is_finite() || !state.income.is_finite()
        || !state.occupation_yield.is_finite() || !state.payroll_due.is_finite()
        || !state.occupation_due.is_finite() || !state.payroll_coverage.is_finite()
        || !state.occupation_coverage.is_finite() || !state.arrears_cycles.is_finite()
        || !state.initial_city_population.is_finite() || !state.core_control_ratio.is_finite()
        || !state.city_control_ratio.is_finite() {
        return Err(ProductionError::MissingEconomy(state.country_id));
    }
    Ok(())
}

pub open spec fn aggregate_sound(aggregate: CountryAggregate) -> bool {
    &&& aggregate.country_id != 0
    &&& aggregate.core_control_ratio.finite()
    &&& aggregate.city_population_total.finite_nonnegative()
    &&& aggregate.city_population_controlled.finite_nonnegative()
}

pub open spec fn has_country_aggregate(
    aggregates: Seq<CountryAggregate>,
    country_id: u16,
    count: int,
) -> bool {
    exists|i: int|
        0 <= i < count && i < aggregates.len() && (#[trigger] aggregates[i]).country_id
            == country_id
}

/// What is wrong with the first faulty count of a country.
pub open spec fn country_aggregates_fault(
    aggregates: Seq<CountryAggregate>,
    from: int,
) -> Option<ProductionError>
    decreases aggregates.len() - from,
{
    if from < 0 || from >= aggregates.len() {
        None
    } else if !aggregate_sound(aggregates[from]) {
        Some(ProductionError::MissingCountryAggregate(aggregates[from].country_id))
    } else if has_country_aggregate(aggregates, aggregates[from].country_id, from) {
        Some(ProductionError::DuplicateCountryAggregate(aggregates[from].country_id))
    } else {
        country_aggregates_fault(aggregates, from + 1)
    }
}

/// Where the count of each country stands.
pub open spec fn locates_countries(
    index: Map<u16, usize>,
    aggregates: Seq<CountryAggregate>,
    count: int,
) -> bool {
    &&& forall|id: u16|
        #[trigger] index.contains_key(id) ==> index[id] < count
            && aggregates[index[id] as int].country_id == id
    &&& forall|i: int|
        0 <= i < count ==> index.contains_key((#[trigger] aggregates[i]).country_id)
            && index[aggregates[i].country_id] == i
}

pub fn country_aggregates(territory: &TerritorySnapshot) -> (outcome: Result<
    BTreeMap<u16, usize>,
    ProductionError,
>)
    ensures
        match outcome {
            Ok(index) => country_aggregates_fault(territory.countries@, 0) is None
                && locates_countries(
                index@,
                territory.countries@,
                territory.countries@.len() as int,
            ),
            Err(error) => country_aggregates_fault(territory.countries@, 0) == Some(error),
        },
{
    broadcast use vstd::std_specs::btree::group_btree_axioms;

    let aggregates = &territory.countries;
    let mut index: BTreeMap<u16, usize> = BTreeMap::new();
    let mut at: usize = 0;
    while at < aggregates.len()
        invariant
            at <= aggregates@.len(),
            aggregates@ == territory.countries@,
            locates_countries(index@, aggregates@, at as int),
            country_aggregates_fault(aggregates@, 0) == country_aggregates_fault(
                aggregates@,
                at as int,
            ),
        decreases aggregates@.len() - at,
    {
        broadcast use vstd::std_specs::btree::group_btree_axioms;

        let aggregate = &aggregates[at];
        if aggregate.country_id == 0 || !aggregate.core_control_ratio.is_finite()
            || !aggregate.city_population_total.is_finite_nonnegative()
            || !aggregate.city_population_controlled.is_finite_nonnegative() {
            return Err(ProductionError::MissingCountryAggregate(aggregate.country_id));
        }
        if index.contains_key(&aggregate.country_id) {
            assert(aggregates@[index@[aggregate.country_id] as int].country_id
                == aggregate.country_id);
            return Err(ProductionError::DuplicateCountryAggregate(aggregate.country_id));
        }
        assert(!has_country_aggregate(aggregates@, aggregate.country_id, at as int));
        index.insert(aggregate.country_id, at);
        at = at + 1;
    }
    Ok(index)
}

pub open spec fn has_side_aggregate(sides: Seq<SideAggregate>, side: usize, count: int) -> bool {
    exists|i: int|
        0 <= i < count && i < sides.len() && (#[trigger] sides[i]).side_index == side
}

/// What is wrong with the first faulty count of a side.
pub open spec fn side_aggregates_fault(
    sides: Seq<SideAggregate>,
    from: int,
) -> Option<ProductionError>
    decreases sides.len() - from,
{
    if from < 0 || from >= sides.len() {
        None
    } else if !sides[from].city_population_controlled.finite_nonnegative() {
        Some(ProductionError::MissingSideAggregate(sides[from].side_index))
    } else if has_side_aggregate(sides, sides[from].side_index, from) {
        Some(ProductionError::DuplicateSideAggregate(sides[from].side_index))
    } else {
        side_aggregates_fault(sides, from + 1)
    }
}

pub fn side_aggregates(territory: &TerritorySnapshot) -> (outcome: Result<
    BTreeSet<usize>,
    ProductionError,
>)
    ensures
        match outcome {
            Ok(counted) => side_aggregates_fault(territory.sides@, 0) is None && forall|side: usize|
                #[trigger] counted@.contains(side) == has_side_aggregate(
                    territory.sides@,
                    side,
                    territory.sides@.len() as int,
                ),
            Err(error) => side_aggregates_fault(territory.sides@, 0) == Some(error),
        },
{
    broadcast use vstd::std_specs::btree::group_btree_axioms;

    let sides = &territory.sides;
    let mut counted: BTreeSet<usize> = BTreeSet::new();
    let mut at: usize = 0;
    while at < sides.len()
        invariant
            at <= sides@.len(),
            sides@ == territory.sides@,
            forall|side: usize|
                #[trigger] counted@.contains(side) == has_side_aggregate(sides@, side, at as int),
            side_aggregates_fault(sides@, 0) == side_aggregates_fault(sides@, at as int),
        decreases sides@.len() - at,
    {
        broadcast use vstd::std_specs::btree::group_btree_axioms;

        let side: usize = sides[at].side_index;
        if !sides[at].city_population_controlled.is_finite_nonnegative() {
            return Err(ProductionError::MissingSideAggregate(side));
        }
        if counted.contains(&side) {
            return Err(ProductionError::DuplicateSideAggregate(side));
        }
        let ghost before = counted@;
        counted.insert(side);
        proof {
            assert forall|other: usize| #[trigger] counted@.contains(other)
                == has_side_aggregate(sides@, other, at + 1) by {
                assert(before.contains(other) == has_side_aggregate(sides@, other, at as int));
                if has_side_aggregate(sides@, other, at as int) {
                    let i = choose|i: int|
                        0 <= i < at && i < sides@.len() && (#[trigger] sides@[i]).side_index
                            == other;
                    assert(sides@[i].side_index == other);
                }
                if has_side_aggregate(sides@, other, at + 1) && !has_side_aggregate(
                    sides@,
                    other,
                    at as int,
                ) {
                    let i = choose|i: int|
                        0 <= i < at + 1 && i < sides@.len() && (#[trigger] sides@[i]).side_index
                            == other;
                    assert(i == at);
                }
                assert(sides@[at as int].side_index == side);
            }
        }
        at = at + 1;
    }
    Ok(counted)
}

/// The last country with an identifier.
pub open spec fn listed_country(
    countries: Seq<ProductionCountry>,
    country_id: u16,
    count: nat,
) -> Option<ProductionCountry>
    decreases count,
{
    if count == 0 {
        None
    } else if countries[count - 1].country_id == country_id {
        Some(countries[count - 1])
    } else {
        listed_country(countries, country_id, (count - 1) as nat)
    }
}

pub open spec fn country_known(source: StrategicDerivationInput<'_>, country_id: u16) -> bool {
    listed_country(
        source.scenario.countries@,
        country_id,
        source.scenario.countries@.len(),
    ) is Some
}

/// Whether a table says of a country what the list says.
pub open spec fn rebel_entry(
    rebels: Map<u16, bool>,
    countries: Seq<ProductionCountry>,
    country_id: u16,
    count: nat,
) -> bool {
    match listed_country(countries, country_id, count) {
        Some(country) => rebels.contains_key(country_id) && rebels[country_id] == country.is_rebel,
        None => !rebels.contains_key(country_id),
    }
}

/// Whether each country of a list is a rebel.
fn index_rebels(countries: &Vec<ProductionCountry>) -> (rebels: BTreeMap<u16, bool>)
    ensures
        forall|id: u16| #[trigger] rebel_entry(rebels@, countries@, id, countries@.len()),
{
    broadcast use vstd::std_specs::btree::group_btree_axioms;

    let mut rebels: BTreeMap<u16, bool> = BTreeMap::new();
    let mut at: usize = 0;
    while at < countries.len()
        invariant
            at <= countries@.len(),
            forall|id: u16| #[trigger] rebel_entry(rebels@, countries@, id, at as nat),
        decreases countries@.len() - at,
    {
        broadcast use vstd::std_specs::btree::group_btree_axioms;

        let ghost before = rebels@;
        rebels.insert(countries[at].country_id, countries[at].is_rebel);
        proof {
            assert forall|id: u16| #[trigger]
                rebel_entry(rebels@, countries@, id, (at + 1) as nat) by {
                assert(rebel_entry(before, countries@, id, at as nat));
            }
        }
        at = at + 1;
    }
    rebels
}

/// A side as the territory kernel writes it.
pub open spec fn signed_side(side: usize) -> int {
    if side < 0x8000 {
        side as int
    } else {
        side - 0x1_0000
    }
}

/// What is wrong with the side, the economy or the counts of a country.
pub open spec fn mapping_fault(
    source: StrategicDerivationInput<'_>,
    country_id: u16,
) -> Option<ProductionError> {
    let side = source.country_to_side@[country_id];
    let aggregates = source.territory.countries@;
    if country_id == 0 || side >= source.side_count || side > u16::MAX || !country_known(
        source,
        country_id,
    ) {
        Some(ProductionError::InvalidCountrySide(country_id))
    } else if !source.economies@.contains_key(country_id) {
        Some(ProductionError::MissingEconomy(country_id))
    } else if !economy_sound(source.economies@[country_id]) {
        Some(ProductionError::MissingEconomy(source.economies@[country_id].country_id))
    } else if !has_country_aggregate(aggregates, country_id, aggregates.len() as int) {
        Some(ProductionError::MissingCountryAggregate(country_id))
    } else if aggregate_of(source, country_id).side_index != signed_side(side) {
        Some(ProductionError::InvalidCountrySide(country_id))
    } else if !has_side_aggregate(
        source.territory.sides@,
        side,
        source.territory.sides@.len() as int,
    ) {
        Some(ProductionError::MissingSideAggregate(side))
    } else {
        None
    }
}

/// The count of a country.
pub open spec fn aggregate_of(
    source: StrategicDerivationInput<'_>,
    country_id: u16,
) -> CountryAggregate {
    source.territory.countries@[choose|i: int|
        0 <= i < source.territory.countries@.len() && (
        #[trigger] source.territory.countries@[i]).country_id == country_id]
}

proof fn lemma_aggregate_of(
    source: StrategicDerivationInput<'_>,
    index: Map<u16, usize>,
    country_id: u16,
)
    requires
        locates_countries(
            index,
            source.territory.countries@,
            source.territory.countries@.len() as int,
        ),
    ensures
        index.contains_key(country_id) == has_country_aggregate(
            source.territory.countries@,
            country_id,
            source.territory.countries@.len() as int,
        ),
        index.contains_key(country_id) ==> aggregate_of(source, country_id)
            == source.territory.countries@[index[country_id] as int],
{
    let aggregates = source.territory.countries@;
    if index.contains_key(country_id) {
        assert(aggregates[index[country_id] as int].country_id == country_id);
        let i = choose|i: int|
            0 <= i < aggregates.len() && (#[trigger] aggregates[i]).country_id == country_id;
        assert(index[aggregates[i].country_id] == i);
    }
    if has_country_aggregate(aggregates, country_id, aggregates.len() as int) {
        let i = choose|i: int|
            0 <= i < aggregates.len() && i < aggregates.len() && (
            #[trigger] aggregates[i]).country_id == country_id;
        assert(index.contains_key(aggregates[i].country_id));
    }
}

/// What is wrong with the first faulty country, in the order of identifiers.
pub open spec fn mappings_fault(
    source: StrategicDerivationInput<'_>,
    keys: Seq<u16>,
    from: int,
) -> Option<ProductionError>
    decreases keys.len() - from,
{
    if from < 0 || from >= keys.len() {
        None
    } else if mapping_fault(source, keys[from]) is Some {
        mapping_fault(source, keys[from])
    } else {
        mappings_fault(source, keys, from + 1)
    }
}

/// The sides that still have a country that fights, among the first countries.
pub open spec fn fighting_sides(
    source: StrategicDerivationInput<'_>,
    keys: Seq<u16>,
    count: nat,
) -> Set<u16>
    decreases count,
{
    if count == 0 {
        Set::empty()
    } else {
        let rest = fighting_sides(source, keys, (count - 1) as nat);
        if source.economies@[keys[count - 1]].capitulated {
            rest
        } else {
            rest.insert(source.country_to_side@[keys[count - 1]] as u16)
        }
    }
}

fn check_mapping(
    source: &StrategicDerivationInput<'_>,
    country_id: u16,
    rebels: &BTreeMap<u16, bool>,
    aggregates: &BTreeMap<u16, usize>,
    counted_sides: &BTreeSet<usize>,
) -> (verdict: Result<(), ProductionError>)
    requires
        source.country_to_side@.contains_key(country_id),
        forall|id: u16| #[trigger] rebels@.contains_key(id) == country_known(*source, id),
        locates_countries(
            aggregates@,
            source.territory.countries@,
            source.territory.countries@.len() as int,
        ),
        forall|side: usize|
            #[trigger] counted_sides@.contains(side) == has_side_aggregate(
                source.territory.sides@,
                side,
                source.territory.sides@.len() as int,
            ),
    ensures
        verdict is Ok <==> mapping_fault(*source, country_id) is None,
        verdict matches Err(error) ==> mapping_fault(*source, country_id) == Some(error),
{
    broadcast use vstd::std_specs::btree::group_btree_axioms;

    let side: usize = match source.country_to_side.get(&country_id) {
        Some(side) => *side,
        None => {
            return Err(ProductionError::InvalidCountrySide(country_id));
        },
    };
    if country_id == 0 || side >= source.side_count || side > 0xffff || !rebels.contains_key(
        &country_id,
    ) {
        return Err(ProductionError::InvalidCountrySide(country_id));
    }
    match source.economies.get(&country_id) {
        Some(economy) => {
            if let Err(error) = validate_economy(economy) {
                return Err(error);
            }
        },
        None => {
            return Err(ProductionError::MissingEconomy(country_id));
        },
    }
    proof {
        lemma_aggregate_of(*source, aggregates@, country_id);
    }
    let expected: i32 = if side < 0x8000 {
        side as i32
    } else {
        (side as i32) - 0x1_0000
    };
    match aggregates.get(&country_id) {
        Some(at) => {
            if source.territory.countries[*at].side_index as i32 != expected {
                return Err(ProductionError::InvalidCountrySide(country_id));
            }
        },
        None => {
            return Err(ProductionError::MissingCountryAggregate(country_id));
        },
    }
    if !counted_sides.contains(&side) {
        return Err(ProductionError::MissingSideAggregate(side));
    }
    Ok(())
}

/// What is wrong with the first faulty casualty count.
pub open spec fn casualties_fault(
    source: StrategicDerivationInput<'_>,
    keys: Seq<u16>,
    from: int,
) -> Option<ProductionError>
    decreases keys.len() - from,
{
    if from < 0 || from >= keys.len() {
        None
    } else if !source.casualties@[keys[from]].finite_nonnegative() || !country_known(
        source,
        keys[from],
    ) {
        Some(ProductionError::InvalidCasualties(keys[from]))
    } else {
        casualties_fault(source, keys, from + 1)
    }
}

/// A unit that can be paid and counted.
pub open spec fn unit_sound(
    unit: UnitSnapshot,
    mapping: Map<u16, usize>,
    side_count: usize,
) -> bool {
    &&& 0 < unit.sovereign <= u16::MAX
    &&& mapping.contains_key(unit.sovereign as u16)
    &&& unit.side < side_count
    &&& unit.side == mapping[unit.sovereign as u16]
    &&& unit.lat.finite()
    &&& unit.lng.finite()
    &&& unit.health.finite_nonnegative()
    &&& positive(unit.max_health)
    &&& unit.health_fraction.unit_interval()
    &&& unit.dir_lat.finite()
    &&& unit.dir_lng.finite()
}

pub fn validate_unit(
    unit: &UnitSnapshot,
    mapping: &BTreeMap<u16, usize>,
    side_count: usize,
) -> (verdict: Result<(), ProductionError>)
    ensures
        verdict is Ok <==> unit_sound(*unit, mapping@, side_count),
        verdict matches Err(error) ==> error == ProductionError::InvalidUnit(unit.id),
{
    broadcast use vstd::std_specs::btree::group_btree_axioms;

    if unit.sovereign == 0 || unit.sovereign > 0xffff {
        return Err(ProductionError::InvalidUnit(unit.id));
    }
    let country_id: u16 = unit.sovereign as u16;
    let expected: usize = match mapping.get(&country_id) {
        Some(side) => *side,
        None => {
            return Err(ProductionError::InvalidUnit(unit.id));
        },
    };
    let side: usize = unit.side as usize;
    if side >= side_count || side != expected || !unit.lat.is_finite() || !unit.lng.is_finite()
        || !unit.health.is_finite_nonnegative() || !unit.max_health.is_finite()
        || !Real::zero().less(unit.max_health) || !unit.health_fraction.in_unit_interval()
        || !unit.dir_lat.is_finite() || !unit.dir_lng.is_finite() {
        return Err(ProductionError::InvalidUnit(unit.id));
    }
    Ok(())
}

/// What the units of a frame amount to.
pub ghost struct Muster {
    pub payroll: Map<u16, Real>,
    pub unit_counts: Map<u16, u32>,
    pub garrisons: Map<u16, Real>,
    pub payroll_units: nat,
    pub garrison_units: nat,
}

pub open spec fn amount_at(amounts: Map<u16, Real>, key: u16) -> Real {
    if amounts.contains_key(key) {
        amounts[key]
    } else {
        real_of(0)
    }
}

pub open spec fn count_at(counts: Map<u16, u32>, key: u16) -> u32 {
    if counts.contains_key(key) {
        counts[key]
    } else {
        0
    }
}

/// What a unit costs per cycle.
pub open spec fn unit_due(results: Map<Operation, u64>, unit: UnitSnapshot) -> Real {
    match unit.kind {
        UnitKind::Armor => product(
            results,
            quotient(results, integer(results, unit.equipment), real_of(N_100)),
            real_of(N_3),
        ),
        UnitKind::Army => quotient(
            results,
            integer(results, unit.personnel_capacity),
            real_of(N_1000),
        ),
    }
}

pub open spec fn occurs_before(units: Seq<UnitSnapshot>, id: u64, count: int) -> bool {
    exists|i: int| 0 <= i < count && i < units.len() && (#[trigger] units[i]).id == id
}

/// The muster after a unit was paid and counted.
pub open spec fn enrolled(
    results: Map<Operation, u64>,
    muster: Muster,
    unit: UnitSnapshot,
) -> Result<Muster, ProductionError> {
    let country_id = unit.sovereign as u16;
    let due = unit_due(results, unit);
    if !due.finite() {
        Err(ProductionError::NonFinite)
    } else {
        let paid = Muster {
            payroll: muster.payroll.insert(
                country_id,
                sum(results, amount_at(muster.payroll, country_id), due),
            ),
            payroll_units: muster.payroll_units + 1,
            ..muster
        };
        if unit.kind is Army || unit.equipment > 0 {
            if count_at(muster.unit_counts, country_id) == u32::MAX {
                Err(ProductionError::AggregateOverflow)
            } else {
                Ok(
                    Muster {
                        unit_counts: muster.unit_counts.insert(
                            country_id,
                            (count_at(muster.unit_counts, country_id) + 1) as u32,
                        ),
                        ..paid
                    },
                )
            }
        } else {
            Ok(paid)
        }
    }
}

/// The muster after a unit may have joined a garrison: an army on the land of an occupied country
/// that fights for the occupier's side.
pub open spec fn garrisoned(
    results: Map<Operation, u64>,
    source: StrategicDerivationInput<'_>,
    muster: Muster,
    unit: UnitSnapshot,
) -> Result<Muster, ProductionError> {
    if unit.kind is Armor {
        Ok(muster)
    } else {
        match cell_at(results, source.grid, unit.lat, unit.lng) {
            None => Ok(muster),
            Some(cell) => {
                let victim = source.de_jure@[cell];
                if !source.occupations@.contains_key(victim) {
                    Ok(muster)
                } else {
                    let annexer = source.occupations@[victim].annexer_id;
                    if !source.country_to_side@.contains_key(annexer) {
                        Err(ProductionError::InvalidOccupation(victim))
                    } else if unit.side != source.country_to_side@[annexer] {
                        Ok(muster)
                    } else {
                        let strength = quotient(
                            results,
                            integer(results, unit.personnel),
                            real_of(N_1000),
                        );
                        if !strength.finite() {
                            Err(ProductionError::NonFinite)
                        } else {
                            Ok(
                                Muster {
                                    garrisons: muster.garrisons.insert(
                                        victim,
                                        sum(
                                            results,
                                            amount_at(muster.garrisons, victim),
                                            strength,
                                        ),
                                    ),
                                    garrison_units: muster.garrison_units + 1,
                                    ..muster
                                },
                            )
                        }
                    }
                }
            },
        }
    }
}

/// The muster of the first units.
pub open spec fn mustered(
    results: Map<Operation, u64>,
    source: StrategicDerivationInput<'_>,
    count: nat,
) -> Result<Muster, ProductionError>
    decreases count,
{
    if count == 0 {
        Ok(
            Muster {
                payroll: Map::empty(),
                unit_counts: Map::empty(),
                garrisons: Map::empty(),
                payroll_units: 0,
                garrison_units: 0,
            },
        )
    } else {
        match mustered(results, source, (count - 1) as nat) {
            Err(error) => Err(error),
            Ok(muster) => {
                let unit = source.frame.units@[count - 1];
                if occurs_before(source.frame.units@, unit.id, count - 1) {
                    Err(ProductionError::DuplicateUnit(unit.id))
                } else if !unit_sound(unit, source.country_to_side@, source.side_count) {
                    Err(ProductionError::InvalidUnit(unit.id))
                } else if unit.health.le(real_of(0)) {
                    Ok(muster)
                } else {
                    match enrolled(results, muster, unit) {
                        Err(error) => Err(error),
                        Ok(paid) => garrisoned(results, source, paid, unit),
                    }
                }
            },
        }
    }
}

proof fn lemma_mustered_fail(
    results: Map<Operation, u64>,
    source: StrategicDerivationInput<'_>,
    count: nat,
    whole: nat,
)
    requires
        count <= whole,
        mustered(results, source, count) is Err,
    ensures
        mustered(results, source, whole) == mustered(results, source, count),
    decreases whole - count,
{
    if count < whole {
        lemma_mustered_fail(results, source, count, (whole - 1) as nat);
    }
}

/// The running muster.
struct Roll {
    payroll: BTreeMap<u16, Real>,
    unit_counts: BTreeMap<u16, u32>,
    garrisons: BTreeMap<u16, Real>,
    payroll_units: usize,
    garrison_units: usize,
}

impl View for Roll {
    type V = Muster;

    closed spec fn view(&self) -> Muster {
        Muster {
            payroll: self.payroll@,
            unit_counts: self.unit_counts@,
            garrisons: self.garrisons@,
            payroll_units: self.payroll_units as nat,
            garrison_units: self.garrison_units as nat,
        }
    }
}

fn amount_of(amounts: &BTreeMap<u16, Real>, key: u16) -> (amount: Real)
    ensures
        amount == amount_at(amounts@, key),
{
    broadcast use vstd::std_specs::btree::group_btree_axioms;

    match amounts.get(&key) {
        Some(amount) => *amount,
        None => Real::zero(),
    }
}

fn count_of(counts: &BTreeMap<u16, u32>, key: u16) -> (count: u32)
    ensures
        count == count_at(counts@, key),
{
    broadcast use vstd::std_specs::btree::group_btree_axioms;

    match counts.get(&key) {
        Some(count) => *count,
        None => 0,
    }
}

/// Whether a worksheet holds all that the pay of a unit takes.
pub open spec fn pay_supplied(
    results: Map<Operation, u64>,
    muster: Muster,
    unit: UnitSnapshot,
) -> bool {
    let due = unit_due(results, unit);
    &&& match unit.kind {
        UnitKind::Armor => {
            let pieces = integer(results, unit.equipment);
            let hundreds = quotient(results, pieces, real_of(N_100));
            &&& results.contains_key(Operation::Integer(unit.equipment))
            &&& results.contains_key(Operation::Quotient(pieces, real_of(N_100)))
            &&& results.contains_key(Operation::Product(hundreds, real_of(N_3)))
        },
        UnitKind::Army => {
            let heads = integer(results, unit.personnel_capacity);
            &&& results.contains_key(Operation::Integer(unit.personnel_capacity))
            &&& results.contains_key(Operation::Quotient(heads, real_of(N_1000)))
        },
    }
    &&& due.finite() ==> results.contains_key(
        Operation::Sum(amount_at(muster.payroll, unit.sovereign as u16), due),
    )
}

fn enroll(roll: &mut Roll, unit: &UnitSnapshot, reader: &mut Reader<'_>) -> (verdict: Result<
    (),
    ProductionError,
>)
    requires
        old(reader).sound(),
        old(roll).payroll_units < usize::MAX,
        unit.sovereign <= u16::MAX,
    ensures
        final(reader)@ == old(reader)@,
        final(reader).sound(),
        verdict is Ok ==> final(roll).payroll_units == old(roll).payroll_units + 1,
        final(roll).garrison_units == old(roll).garrison_units,
        final(reader).complete() ==> old(reader).complete() && (match verdict {
            Ok(_) => enrolled(old(reader)@, old(roll)@, *unit) == Ok::<Muster, ProductionError>(
                final(roll)@,
            ),
            Err(error) => enrolled(old(reader)@, old(roll)@, *unit) == Err::<
                Muster,
                ProductionError,
            >(error),
        }),
        old(reader).complete() && pay_supplied(old(reader)@, old(roll)@, *unit) ==>
            final(reader).complete(),
{
    broadcast use vstd::std_specs::btree::group_btree_axioms;

    let country_id: u16 = unit.sovereign as u16;
    let due = match unit.kind {
        UnitKind::Armor => {
            let pieces = reader.integer(unit.equipment);
            let hundreds = reader.quotient(pieces, Real::from_bits(N_100));
            reader.product(hundreds, Real::from_bits(N_3))
        },
        UnitKind::Army => {
            let heads = reader.integer(unit.personnel_capacity);
            reader.quotient(heads, Real::from_bits(N_1000))
        },
    };
    if !due.is_finite() {
        return Err(ProductionError::NonFinite);
    }
    let owed = amount_of(&roll.payroll, country_id);
    let total = reader.sum(owed, due);
    roll.payroll.insert(country_id, total);
    roll.payroll_units = roll.payroll_units + 1;
    let counts = match unit.kind {
        UnitKind::Army => true,
        UnitKind::Armor => unit.equipment > 0,
    };
    if counts {
        let count: u32 = count_of(&roll.unit_counts, country_id);
        if count == 0xffff_ffff {
            return Err(ProductionError::AggregateOverflow);
        }
        roll.unit_counts.insert(country_id, count + 1);
    }
    Ok(())
}

/// Whether a worksheet holds all that finding the garrison of a unit takes.
pub open spec fn garrison_supplied(
    results: Map<Operation, u64>,
    source: StrategicDerivationInput<'_>,
    muster: Muster,
    unit: UnitSnapshot,
) -> bool {
    unit.kind is Army ==> {
        &&& cell_supplied(results, source.grid, unit.lat, unit.lng)
        &&& cell_at(results, source.grid, unit.lat, unit.lng) matches Some(cell) ==> {
            let victim = source.de_jure@[cell];
            let annexer = source.occupations@[victim].annexer_id;
            let heads = integer(results, unit.personnel);
            let strength = quotient(results, heads, real_of(N_1000));
            source.occupations@.contains_key(victim) && source.country_to_side@.contains_key(
                annexer,
            ) && unit.side == source.country_to_side@[annexer] ==> {
                &&& results.contains_key(Operation::Integer(unit.personnel))
                &&& results.contains_key(Operation::Quotient(heads, real_of(N_1000)))
                &&& strength.finite() ==> results.contains_key(
                    Operation::Sum(amount_at(muster.garrisons, victim), strength),
                )
            }
        }
    }
}

fn garrison(
    roll: &mut Roll,
    unit: &UnitSnapshot,
    source: &StrategicDerivationInput<'_>,
    reader: &mut Reader<'_>,
) -> (verdict: Result<(), ProductionError>)
    requires
        old(reader).sound(),
        old(roll).garrison_units < usize::MAX,
        source.de_jure@.len() == source.grid.area(),
    ensures
        final(reader)@ == old(reader)@,
        final(reader).sound(),
        final(roll).payroll_units == old(roll).payroll_units,
        final(roll).garrison_units <= old(roll).garrison_units + 1,
        final(reader).complete() ==> old(reader).complete() && (match verdict {
            Ok(_) => garrisoned(old(reader)@, *source, old(roll)@, *unit) == Ok::<
                Muster,
                ProductionError,
            >(final(roll)@),
            Err(error) => garrisoned(old(reader)@, *source, old(roll)@, *unit) == Err::<
                Muster,
                ProductionError,
            >(error),
        }),
        old(reader).complete() && garrison_supplied(old(reader)@, *source, old(roll)@, *unit) ==>
            final(reader).complete(),
{
    broadcast use vstd::std_specs::btree::group_btree_axioms;

    if unit.kind == UnitKind::Armor {
        return Ok(());
    }
    let cell: usize = match grid_index(source.grid, unit.lat, unit.lng, reader) {
        Some(cell) => cell,
        None => {
            return Ok(());
        },
    };
    let victim: u16 = source.de_jure[cell];
    let annexer: u16 = match source.occupations.get(&victim) {
        Some(occupation) => occupation.annexer_id,
        None => {
            return Ok(());
        },
    };
    let annexer_side: usize = match source.country_to_side.get(&annexer) {
        Some(side) => *side,
        None => {
            return Err(ProductionError::InvalidOccupation(victim));
        },
    };
    if unit.side as usize != annexer_side {
        return Ok(());
    }
    let heads = reader.integer(unit.personnel);
    let strength = reader.quotient(heads, Real::from_bits(N_1000));
    if !strength.is_finite() {
        return Err(ProductionError::NonFinite);
    }
    let present = amount_of(&roll.garrisons, victim);
    let total = reader.sum(present, strength);
    roll.garrisons.insert(victim, total);
    roll.garrison_units = roll.garrison_units + 1;
    Ok(())
}

/// Whether a worksheet holds all that mustering one unit takes.
pub open spec fn unit_supplied(
    results: Map<Operation, u64>,
    source: StrategicDerivationInput<'_>,
    muster: Muster,
    unit: UnitSnapshot,
) -> bool {
    !unit.health.le(real_of(0)) ==> {
        &&& pay_supplied(results, muster, unit)
        &&& enrolled(results, muster, unit) matches Ok(paid) ==> garrison_supplied(
            results,
            source,
            paid,
            unit,
        )
    }
}

/// Whether a worksheet holds all that mustering all units takes.
pub open spec fn muster_supplied(
    results: Map<Operation, u64>,
    source: StrategicDerivationInput<'_>,
) -> bool {
    forall|k: int|
        0 <= k < source.frame.units@.len() ==> (mustered(results, source, k as nat) matches Ok(
            muster,
        ) ==> unit_supplied(results, source, muster, #[trigger] source.frame.units@[k]))
}

fn muster_units(source: &StrategicDerivationInput<'_>, reader: &mut Reader<'_>) -> (outcome: Result<
    Roll,
    ProductionError,
>)
    requires
        old(reader).sound(),
        source.de_jure@.len() == source.grid.area(),
    ensures
        final(reader)@ == old(reader)@,
        final(reader).sound(),
        final(reader).complete() ==> old(reader).complete() && (match outcome {
            Ok(roll) => mustered(old(reader)@, *source, source.frame.units@.len()) == Ok::<
                Muster,
                ProductionError,
            >(roll@),
            Err(error) => mustered(old(reader)@, *source, source.frame.units@.len()) == Err::<
                Muster,
                ProductionError,
            >(error),
        }),
        old(reader).complete() && muster_supplied(old(reader)@, *source) ==>
            final(reader).complete(),
{
    broadcast use vstd::std_specs::btree::group_btree_axioms;

    let ghost results = reader@;
    let ghost untouched = reader.complete();
    let units = &source.frame.units;
    let ghost whole = units@.len();
    let mut seen: BTreeSet<u64> = BTreeSet::new();
    let mut roll = Roll {
        payroll: BTreeMap::new(),
        unit_counts: BTreeMap::new(),
        garrisons: BTreeMap::new(),
        payroll_units: 0,
        garrison_units: 0,
    };
    let mut at: usize = 0;
    while at < units.len()
        invariant
            at <= units@.len(),
            whole == units@.len(),
            units@ == source.frame.units@,
            results == old(reader)@,
            untouched == old(reader).complete(),
            reader@ == results,
            reader.sound(),
            source.de_jure@.len() == source.grid.area(),
            roll.payroll_units <= at,
            roll.garrison_units <= at,
            forall|id: u64| #[trigger] seen@.contains(id) == occurs_before(units@, id, at as int),
            reader.complete() ==> untouched && mustered(results, *source, at as nat) == Ok::<
                Muster,
                ProductionError,
            >(roll@),
            untouched && muster_supplied(results, *source) ==> reader.complete(),
        decreases units@.len() - at,
    {
        assert(source.frame.units@[at as int] == units@[at as int]);
        broadcast use vstd::std_specs::btree::group_btree_axioms;

        let unit = units[at];
        let ghost next = (at + 1) as nat;
        if seen.contains(&unit.id) {
            proof {
                if reader.complete() {
                    lemma_mustered_fail(results, *source, next, whole);
                }
            }
            return Err(ProductionError::DuplicateUnit(unit.id));
        }
        let ghost before = seen@;
        seen.insert(unit.id);
        proof {
            assert forall|id: u64| #[trigger] seen@.contains(id) == occurs_before(
                units@,
                id,
                at + 1,
            ) by {
                assert(before.contains(id) == occurs_before(units@, id, at as int));
                if occurs_before(units@, id, at as int) {
                    let i = choose|i: int|
                        0 <= i < at && i < units@.len() && (#[trigger] units@[i]).id == id;
                    assert(units@[i].id == id);
                }
                if occurs_before(units@, id, at + 1) && !occurs_before(units@, id, at as int) {
                    let i = choose|i: int|
                        0 <= i < at + 1 && i < units@.len() && (#[trigger] units@[i]).id == id;
                    assert(i == at);
                }
                assert(units@[at as int].id == unit.id);
            }
        }
        if let Err(error) = validate_unit(&unit, source.country_to_side, source.side_count) {
            proof {
                if reader.complete() {
                    lemma_mustered_fail(results, *source, next, whole);
                }
            }
            return Err(error);
        }
        if !unit.health.at_most(Real::zero()) {
            if let Err(error) = enroll(&mut roll, &unit, reader) {
                proof {
                    if reader.complete() {
                        lemma_mustered_fail(results, *source, next, whole);
                    }
                }
                return Err(error);
            }
            if let Err(error) = garrison(&mut roll, &unit, source, reader) {
                proof {
                    if reader.complete() {
                        lemma_mustered_fail(results, *source, next, whole);
                    }
                }
                return Err(error);
            }
        }
        at = at + 1;
    }
    Ok(roll)
}

impl Ranked for CountryCycleInput {
    open spec fn ranks_before(self, other: Self) -> bool {
        self.side < other.side || (self.side == other.side && self.country_id < other.country_id)
    }

    fn is_before(&self, other: &Self) -> (answer: bool) {
        self.side < other.side || (self.side == other.side && self.country_id < other.country_id)
    }
}

/// What a strategic cycle is told of a country.
pub open spec fn cycle_country(
    source: StrategicDerivationInput<'_>,
    muster: Muster,
    country_id: u16,
) -> Result<CountryCycleInput, ProductionError> {
    let aggregate = aggregate_of(source, country_id);
    let economy = source.economies@[country_id];
    let country = CountryCycleInput {
        country_id,
        side: source.country_to_side@[country_id] as u16,
        owned_cells: aggregate.owned as u32,
        controlled_cells: aggregate.controlled as u32,
        core_controlled: aggregate.core_controlled as u32,
        initial_cells: economy.initial_core_cells,
        city_population_controlled: aggregate.city_population_controlled,
        unit_count: count_at(muster.unit_counts, country_id),
        payroll_due: amount_at(muster.payroll, country_id),
        capital_held: aggregate.capital_held,
        is_rebel: listed_country(
            source.scenario.countries@,
            country_id,
            source.scenario.countries@.len(),
        )->Some_0.is_rebel,
        active: !economy.capitulated,
    };
    if aggregate.owned > u32::MAX || aggregate.controlled > u32::MAX || aggregate.core_controlled
        > u32::MAX {
        Err(ProductionError::AggregateOverflow)
    } else if !country.city_population_controlled.finite_nonnegative()
        || !country.payroll_due.finite_nonnegative() {
        Err(ProductionError::NonFinite)
    } else {
        Ok(country)
    }
}

/// What a strategic cycle is told of the first countries.
pub open spec fn cycle_countries(
    source: StrategicDerivationInput<'_>,
    muster: Muster,
    keys: Seq<u16>,
    count: nat,
) -> Result<Seq<CountryCycleInput>, ProductionError>
    decreases count,
{
    if count == 0 {
        Ok(Seq::empty())
    } else {
        match cycle_countries(source, muster, keys, (count - 1) as nat) {
            Err(error) => Err(error),
            Ok(rest) => match cycle_country(source, muster, keys[count - 1]) {
                Err(error) => Err(error),
                Ok(country) => Ok(rest.push(country)),
            },
        }
    }
}

proof fn lemma_cycle_countries_fail(
    source: StrategicDerivationInput<'_>,
    muster: Muster,
    keys: Seq<u16>,
    count: nat,
    whole: nat,
)
    requires
        count <= whole,
        cycle_countries(source, muster, keys, count) is Err,
    ensures
        cycle_countries(source, muster, keys, whole) == cycle_countries(
            source,
            muster,
            keys,
            count,
        ),
    decreases whole - count,
{
    if count < whole {
        lemma_cycle_countries_fail(source, muster, keys, count, (whole - 1) as nat);
    }
}

fn describe_country(
    source: &StrategicDerivationInput<'_>,
    roll: &Roll,
    country_id: u16,
    rebels: &BTreeMap<u16, bool>,
    aggregates: &BTreeMap<u16, usize>,
) -> (outcome: Result<CountryCycleInput, ProductionError>)
    requires
        source.country_to_side@.contains_key(country_id),
        mapping_fault(*source, country_id) is None,
        forall|id: u16|
            #[trigger] rebel_entry(
                rebels@,
                source.scenario.countries@,
                id,
                source.scenario.countries@.len(),
            ),
        locates_countries(
            aggregates@,
            source.territory.countries@,
            source.territory.countries@.len() as int,
        ),
    ensures
        outcome == cycle_country(*source, roll@, country_id),
{
    broadcast use vstd::std_specs::btree::group_btree_axioms;

    proof {
        lemma_aggregate_of(*source, aggregates@, country_id);
        assert(rebel_entry(
            rebels@,
            source.scenario.countries@,
            country_id,
            source.scenario.countries@.len(),
        ));
    }
    let side: usize = *source.country_to_side.get(&country_id).unwrap();
    let economy = source.economies.get(&country_id).unwrap();
    let place: usize = *aggregates.get(&country_id).unwrap();
    let is_rebel: bool = *rebels.get(&country_id).unwrap();
    let aggregate = &source.territory.countries[place];
    let owned_cells: u32 = match u32_count(aggregate.owned) {
        Ok(count) => count,
        Err(error) => {
            return Err(error);
        },
    };
    let controlled_cells: u32 = match u32_count(aggregate.controlled) {
        Ok(count) => count,
        Err(error) => {
            return Err(error);
        },
    };
    let core_controlled: u32 = match u32_count(aggregate.core_controlled) {
        Ok(count) => count,
        Err(error) => {
            return Err(error);
        },
    };
    let country = CountryCycleInput {
        country_id,
        side: side as u16,
        owned_cells,
        controlled_cells,
        core_controlled,
        initial_cells: economy.initial_core_cells,
        city_population_controlled: aggregate.city_population_controlled,
        unit_count: count_of(&roll.unit_counts, country_id),
        payroll_due: amount_of(&roll.payroll, country_id),
        capital_held: aggregate.capital_held,
        is_rebel,
        active: !economy.capitulated,
    };
    if !country.city_population_controlled.is_finite_nonnegative()
        || !country.payroll_due.is_finite_nonnegative() {
        return Err(ProductionError::NonFinite);
    }
    Ok(country)
}

/// An occupation that can be worked with.
pub open spec fn occupation_sound(
    source: StrategicDerivationInput<'_>,
    state: OccupationState,
    key: u16,
) -> bool {
    &&& key != 0
    &&& state.victim_id == key
    &&& state.annexer_id != 0
    &&& state.annexer_id != key
    &&& state.core_cells != 0
    &&& state.base_income.finite()
    &&& state.expected_army_units.finite_nonnegative()
    &&& state.resistance.finite()
    &&& state.occupation_coverage.finite()
    &&& state.garrison_coverage.finite()
    &&& state.garrison_assigned.finite()
    &&& state.held_ratio.finite()
    &&& country_known(source, key)
    &&& country_known(source, state.annexer_id)
    &&& source.economies@.contains_key(key)
    &&& source.economies@.contains_key(state.annexer_id)
}

/// What a strategic cycle is told of an occupation.
pub open spec fn cycle_occupation(
    results: Map<Operation, u64>,
    source: StrategicDerivationInput<'_>,
    muster: Muster,
    victim: u16,
) -> Result<OccupationCycleRecord, ProductionError> {
    let state = source.occupations@[victim];
    let aggregates = source.territory.countries@;
    let aggregate = aggregate_of(source, victim);
    let side = source.country_to_side@[state.annexer_id];
    let held = if aggregate.de_jure_control_by_side@.contains_key(side) {
        aggregate.de_jure_control_by_side@[side]
    } else {
        0
    };
    let denominator = product(results, state.expected_army_units, real_of(N_1000)).max_of(
        real_of(ONE_BITS),
    );
    let pressure = quotient(results, amount_at(source.casualties@, victim), denominator).clamp_of(
        real_of(0),
        real_of(ONE_BITS),
    );
    if !occupation_sound(source, state, victim) {
        Err(ProductionError::InvalidOccupation(victim))
    } else if !has_country_aggregate(aggregates, victim, aggregates.len() as int) {
        Err(ProductionError::MissingCountryAggregate(victim))
    } else if !source.country_to_side@.contains_key(state.annexer_id) || held > state.core_cells {
        Err(ProductionError::InvalidOccupation(victim))
    } else if !amount_at(muster.garrisons, victim).finite() || !pressure.finite() {
        Err(ProductionError::NonFinite)
    } else {
        Ok(
            OccupationCycleRecord {
                victim_id: victim,
                held_cells: held as u32,
                garrison_strength: amount_at(muster.garrisons, victim),
                casualty_pressure: pressure,
            },
        )
    }
}

/// What a strategic cycle is told of the first occupations.
pub open spec fn cycle_occupations(
    results: Map<Operation, u64>,
    source: StrategicDerivationInput<'_>,
    muster: Muster,
    keys: Seq<u16>,
    count: nat,
) -> Result<Seq<OccupationCycleRecord>, ProductionError>
    decreases count,
{
    if count == 0 {
        Ok(Seq::empty())
    } else {
        match cycle_occupations(results, source, muster, keys, (count - 1) as nat) {
            Err(error) => Err(error),
            Ok(rest) => match cycle_occupation(results, source, muster, keys[count - 1]) {
                Err(error) => Err(error),
                Ok(record) => Ok(rest.push(record)),
            },
        }
    }
}

proof fn lemma_cycle_occupations_fail(
    results: Map<Operation, u64>,
    source: StrategicDerivationInput<'_>,
    muster: Muster,
    keys: Seq<u16>,
    count: nat,
    whole: nat,
)
    requires
        count <= whole,
        cycle_occupations(results, source, muster, keys, count) is Err,
    ensures
        cycle_occupations(results, source, muster, keys, whole) == cycle_occupations(
            results,
            source,
            muster,
            keys,
            count,
        ),
    decreases whole - count,
{
    if count < whole {
        lemma_cycle_occupations_fail(results, source, muster, keys, count, (whole - 1) as nat);
    }
}

/// Whether a worksheet holds all that describing an occupation takes.
pub open spec fn occupation_supplied(
    results: Map<Operation, u64>,
    source: StrategicDerivationInput<'_>,
    victim: u16,
) -> bool {
    let state = source.occupations@[victim];
    let expected = product(results, state.expected_army_units, real_of(N_1000));
    &&& results.contains_key(Operation::Product(state.expected_army_units, real_of(N_1000)))
    &&& results.contains_key(
        Operation::Quotient(
            amount_at(source.casualties@, victim),
            expected.max_of(real_of(ONE_BITS)),
        ),
    )
}

/// Whether a worksheet holds all that describing occupations takes.
pub open spec fn occupations_supplied(
    results: Map<Operation, u64>,
    source: StrategicDerivationInput<'_>,
    muster: Muster,
    keys: Seq<u16>,
) -> bool {
    forall|k: int|
        0 <= k < keys.len() && cycle_occupations(results, source, muster, keys, k as nat) is Ok
            ==> occupation_supplied(results, source, #[trigger] keys[k])
}

fn describe_occupation(
    source: &StrategicDerivationInput<'_>,
    roll: &Roll,
    victim: u16,
    rebels: &BTreeMap<u16, bool>,
    aggregates: &BTreeMap<u16, usize>,
    reader: &mut Reader<'_>,
) -> (outcome: Result<OccupationCycleRecord, ProductionError>)
    requires
        old(reader).sound(),
        source.occupations@.contains_key(victim),
        forall|id: u16| #[trigger] rebels@.contains_key(id) == country_known(*source, id),
        locates_countries(
            aggregates@,
            source.territory.countries@,
            source.territory.countries@.len() as int,
        ),
    ensures
        final(reader)@ == old(reader)@,
        final(reader).sound(),
        final(reader).complete() ==> old(reader).complete() && outcome == cycle_occupation(
            old(reader)@,
            *source,
            roll@,
            victim,
        ),
        old(reader).complete() && occupation_supplied(old(reader)@, *source, victim) ==>
            final(reader).complete(),
{
    broadcast use vstd::std_specs::btree::group_btree_axioms;

    let state = *source.occupations.get(&victim).unwrap();
    if victim == 0 || state.victim_id != victim || state.annexer_id == 0 || state.annexer_id
        == victim || state.core_cells == 0 || !state.base_income.is_finite()
        || !state.expected_army_units.is_finite_nonnegative() || !state.resistance.is_finite()
        || !state.occupation_coverage.is_finite() || !state.garrison_coverage.is_finite()
        || !state.garrison_assigned.is_finite() || !state.held_ratio.is_finite()
        || !rebels.contains_key(&victim) || !rebels.contains_key(&state.annexer_id)
        || !source.economies.contains_key(&victim) || !source.economies.contains_key(
        &state.annexer_id,
    ) {
        return Err(ProductionError::InvalidOccupation(victim));
    }
    proof {
        lemma_aggregate_of(*source, aggregates@, victim);
    }
    let place: usize = match aggregates.get(&victim) {
        Some(place) => *place,
        None => {
            return Err(ProductionError::MissingCountryAggregate(victim));
        },
    };
    let side: usize = match source.country_to_side.get(&state.annexer_id) {
        Some(side) => *side,
        None => {
            return Err(ProductionError::InvalidOccupation(victim));
        },
    };
    let held: u64 = match source.territory.countries[place].de_jure_control_by_side.get(&side) {
        Some(cells) => *cells,
        None => 0,
    };
    if held > state.core_cells as u64 {
        return Err(ProductionError::InvalidOccupation(victim));
    }
    let casualties = amount_of(source.casualties, victim);
    let expected = reader.product(state.expected_army_units, Real::from_bits(N_1000));
    let ratio = reader.quotient(casualties, expected.larger(Real::one()));
    let casualty_pressure = ratio.clamped(Real::zero(), Real::one());
    let garrison_strength = amount_of(&roll.garrisons, victim);
    if !garrison_strength.is_finite() || !casualty_pressure.is_finite() {
        return Err(ProductionError::NonFinite);
    }
    Ok(
        OccupationCycleRecord {
            victim_id: victim,
            held_cells: held as u32,
            garrison_strength,
            casualty_pressure,
        },
    )
}

/// Whether a side has an active enemy.
pub open spec fn has_active_enemy(
    matrix: Seq<u8>,
    side_count: int,
    active: Seq<u16>,
    side: u16,
) -> bool {
    exists|i: int|
        0 <= i < active.len() && #[trigger] active[i] != side && table_hostile(
            matrix,
            side_count,
            side as int,
            active[i] as int,
        )
}

pub open spec fn embattled(matrix: Seq<u8>, side_count: int, active: Seq<u16>) -> spec_fn(
    u16,
) -> bool {
    |side: u16| has_active_enemy(matrix, side_count, active, side)
}

/// The pairs of one active side with later ones that are hostile in either direction.
pub open spec fn pairs_of(
    matrix: Seq<u8>,
    side_count: int,
    active: Seq<u16>,
    at: int,
    count: int,
) -> Seq<(u16, u16)>
    decreases count - at,
{
    if count <= at + 1 {
        Seq::empty()
    } else {
        let rest = pairs_of(matrix, side_count, active, at, count - 1);
        let left = active[at];
        let right = active[count - 1];
        if table_hostile(matrix, side_count, left as int, right as int) || table_hostile(
            matrix,
            side_count,
            right as int,
            left as int,
        ) {
            rest.push((left, right))
        } else {
            rest
        }
    }
}

/// The hostile pairs of the first active sides with later ones.
pub open spec fn hostile_pairs(
    matrix: Seq<u8>,
    side_count: int,
    active: Seq<u16>,
    count: nat,
) -> Seq<(u16, u16)>
    decreases count,
{
    if count == 0 {
        Seq::empty()
    } else {
        hostile_pairs(matrix, side_count, active, (count - 1) as nat) + pairs_of(
            matrix,
            side_count,
            active,
            count - 1,
            active.len() as int,
        )
    }
}

pub open spec fn sides_within(active: Seq<u16>, side_count: int) -> bool {
    forall|i: int| 0 <= i < active.len() ==> (#[trigger] active[i] as int) < side_count
}

pub(crate) fn is_table_hostile(matrix: &[u8], side_count: usize, left: u16, right: u16) -> (answer: bool)
    requires
        matrix@.len() == side_count * side_count,
        left < side_count,
        right < side_count,
    ensures
        answer == table_hostile(matrix@, side_count as int, left as int, right as int),
{
    proof {
        lemma_square(left as int, right as int, side_count as int);
        assert(matrix@.len() == matrix.len());
        assert(0 <= left * side_count) by (nonlinear_arith)
            requires
                0 <= left,
                0 <= side_count,
        ;
    }
    matrix[left as usize * side_count + right as usize] == 1
}

pub(crate) fn find_embattled(matrix: &[u8], side_count: usize, active: &Vec<u16>) -> (sides: Vec<u16>)
    requires
        matrix@.len() == side_count * side_count,
        sides_within(active@, side_count as int),
    ensures
        sides@ == active@.filter(embattled(matrix@, side_count as int, active@)),
{
    let ghost wanted = embattled(matrix@, side_count as int, active@);
    let mut sides: Vec<u16> = Vec::new();
    let mut at: usize = 0;
    proof {
        reveal(Seq::filter);
        assert(active@.take(0) =~= Seq::<u16>::empty());
    }
    while at < active.len()
        invariant
            at <= active@.len(),
            matrix@.len() == side_count * side_count,
            sides_within(active@, side_count as int),
            wanted == embattled(matrix@, side_count as int, active@),
            sides@ == active@.take(at as int).filter(wanted),
        decreases active@.len() - at,
    {
        let side: u16 = active[at];
        let mut found = false;
        let mut other: usize = 0;
        while other < active.len()
            invariant
                other <= active@.len(),
                side < side_count,
                matrix@.len() == side_count * side_count,
                sides_within(active@, side_count as int),
                found == exists|i: int|
                    0 <= i < other && #[trigger] active@[i] != side && table_hostile(
                        matrix@,
                        side_count as int,
                        side as int,
                        active@[i] as int,
                    ),
            decreases active@.len() - other,
        {
            let rival: u16 = active[other];
            if rival != side && is_table_hostile(matrix, side_count, side, rival) {
                found = true;
                assert(active@[other as int] != side);
            }
            other = other + 1;
        }
        assert(found == wanted(side));
        proof {
            reveal(Seq::filter);
            assert(active@.take(at + 1).drop_last() =~= active@.take(at as int));
            assert(active@.take(at + 1).last() == side);
        }
        if found {
            sides.push(side);
        }
        at = at + 1;
    }
    assert(active@.take(active@.len() as int) =~= active@);
    sides
}

pub(crate) fn find_pairs(matrix: &[u8], side_count: usize, active: &Vec<u16>) -> (pairs: Vec<(u16, u16)>)
    requires
        matrix@.len() == side_count * side_count,
        sides_within(active@, side_count as int),
    ensures
        pairs@ == hostile_pairs(matrix@, side_count as int, active@, active@.len()),
{
    let mut pairs: Vec<(u16, u16)> = Vec::new();
    let mut at: usize = 0;
    while at < active.len()
        invariant
            at <= active@.len(),
            matrix@.len() == side_count * side_count,
            sides_within(active@, side_count as int),
            pairs@ == hostile_pairs(matrix@, side_count as int, active@, at as nat),
        decreases active@.len() - at,
    {
        let left: u16 = active[at];
        let ghost before = pairs@;
        let mut other: usize = at + 1;
        assert(before =~= before + pairs_of(
            matrix@,
            side_count as int,
            active@,
            at as int,
            other as int,
        ));
        while other < active.len()
            invariant
                at < other <= active@.len(),
                left == active@[at as int],
                left < side_count,
                matrix@.len() == side_count * side_count,
                sides_within(active@, side_count as int),
                pairs@ == before + pairs_of(
                    matrix@,
                    side_count as int,
                    active@,
                    at as int,
                    other as int,
                ),
            decreases active@.len() - other,
        {
            let right: u16 = active[other];
            let ghost earlier = pairs_of(
                matrix@,
                side_count as int,
                active@,
                at as int,
                other as int,
            );
            if is_table_hostile(matrix, side_count, left, right) || is_table_hostile(
                matrix,
                side_count,
                right,
                left,
            ) {
                pairs.push((left, right));
                assert((before + earlier).push((left, right)) =~= before + earlier.push(
                    (left, right),
                ));
            }
            other = other + 1;
        }
        at = at + 1;
    }
    pairs
}

/// What a strategic input says.
pub ghost struct CycleModel {
    pub countries: Seq<CountryCycleInput>,
    pub occupations: Seq<OccupationCycleRecord>,
    pub active_sides: Seq<u16>,
    pub hostile_pairs: Seq<(u16, u16)>,
    pub embattled_sides: Seq<u16>,
    pub payroll_units: nat,
    pub garrison_units: nat,
}

/// The strategic input, or the first thing that is wrong.
pub open spec fn derived_cycle(
    results: Map<Operation, u64>,
    source: StrategicDerivationInput<'_>,
    config: ProductionConfig,
) -> Result<CycleModel, ProductionError> {
    let keys = ascending(source.country_to_side@.dom());
    let occupied = ascending(source.occupations@.dom());
    if !config.valid() {
        Err(ProductionError::InvalidConfig)
    } else if boundary_fault(source, config) is Some {
        Err(boundary_fault(source, config)->Some_0)
    } else if country_aggregates_fault(source.territory.countries@, 0) is Some {
        Err(country_aggregates_fault(source.territory.countries@, 0)->Some_0)
    } else if side_aggregates_fault(source.territory.sides@, 0) is Some {
        Err(side_aggregates_fault(source.territory.sides@, 0)->Some_0)
    } else if mappings_fault(source, keys, 0) is Some {
        Err(mappings_fault(source, keys, 0)->Some_0)
    } else if casualties_fault(source, ascending(source.casualties@.dom()), 0) is Some {
        Err(casualties_fault(source, ascending(source.casualties@.dom()), 0)->Some_0)
    } else if source.frame.units@.len() > config.max_units {
        Err(
            ProductionError::Limit {
                kind: "units",
                actual: source.frame.units@.len() as usize,
                limit: config.max_units,
            },
        )
    } else {
        match mustered(results, source, source.frame.units@.len()) {
            Err(error) => Err(error),
            Ok(muster) => match cycle_countries(source, muster, keys, keys.len()) {
                Err(error) => Err(error),
                Ok(countries) => match cycle_occupations(
                    results,
                    source,
                    muster,
                    occupied,
                    occupied.len(),
                ) {
                    Err(error) => Err(error),
                    Ok(occupations) => {
                        let active = ascending(fighting_sides(source, keys, keys.len()));
                        Ok(
                            CycleModel {
                                countries: stable_sorted(
                                    countries,
                                    rank_order::<CountryCycleInput>(),
                                ),
                                occupations,
                                active_sides: active,
                                hostile_pairs: hostile_pairs(
                                    source.hostility_matrix@,
                                    source.side_count as int,
                                    active,
                                    active.len(),
                                ),
                                embattled_sides: active.filter(
                                    embattled(
                                        source.hostility_matrix@,
                                        source.side_count as int,
                                        active,
                                    ),
                                ),
                                payroll_units: muster.payroll_units,
                                garrison_units: muster.garrison_units,
                            },
                        )
                    },
                },
            },
        }
    }
}

impl StrategicDerivationOutput {
    /// The output says what a model says of a source.
    pub open spec fn says(self, model: CycleModel, source: StrategicDerivationInput<'_>) -> bool {
        &&& self.input.tick == source.tick
        &&& self.input.force == source.force
        &&& self.input.territory_generation == source.territory.generation
        &&& self.input.territory_commit_sequence == source.territory.commit_sequence
        &&& self.input.territory_fresh
        &&& self.input.countries@ == model.countries
        &&& self.input.occupations@ == model.occupations
        &&& self.input.active_sides@ == model.active_sides
        &&& self.input.active_hostile_pairs@ == model.hostile_pairs
        &&& self.input.capitulation_active_sides is Some
        &&& self.input.capitulation_active_sides->Some_0@ == model.embattled_sides
        &&& self.counters == (StrategicDerivationCounters {
            countries: model.countries.len() as usize,
            units: source.frame.units@.len() as usize,
            payroll_units: model.payroll_units as usize,
            garrison_units: model.garrison_units as usize,
            occupations: model.occupations.len() as usize,
            active_sides: model.active_sides.len() as usize,
            hostile_pairs: model.hostile_pairs.len() as usize,
        })
    }
}

proof fn lemma_mappings_sound(source: StrategicDerivationInput<'_>, keys: Seq<u16>, from: int)
    requires
        0 <= from,
        mappings_fault(source, keys, from) is None,
    ensures
        forall|i: int|
            from <= i < keys.len() ==> mapping_fault(source, #[trigger] keys[i]) is None,
    decreases keys.len() - from,
{
    if from < keys.len() {
        lemma_mappings_sound(source, keys, from + 1);
    }
}

fn check_mappings(
    source: &StrategicDerivationInput<'_>,
    keys: &Vec<u16>,
    rebels: &BTreeMap<u16, bool>,
    aggregates: &BTreeMap<u16, usize>,
    counted_sides: &BTreeSet<usize>,
) -> (outcome: Result<BTreeMap<u16, bool>, ProductionError>)
    requires
        forall|i: int|
            0 <= i < keys@.len() ==> source.country_to_side@.contains_key(#[trigger] keys@[i]),
        forall|id: u16| #[trigger] rebels@.contains_key(id) == country_known(*source, id),
        locates_countries(
            aggregates@,
            source.territory.countries@,
            source.territory.countries@.len() as int,
        ),
        forall|side: usize|
            #[trigger] counted_sides@.contains(side) == has_side_aggregate(
                source.territory.sides@,
                side,
                source.territory.sides@.len() as int,
            ),
    ensures
        match outcome {
            Ok(active) => mappings_fault(*source, keys@, 0) is None && active@.dom()
                == fighting_sides(*source, keys@, keys@.len()) && forall|side: u16|
                #[trigger] active@.contains_key(side) ==> side < source.side_count,
            Err(error) => mappings_fault(*source, keys@, 0) == Some(error),
        },
{
    broadcast use vstd::std_specs::btree::group_btree_axioms;

    let mut active: BTreeMap<u16, bool> = BTreeMap::new();
    assert(active@.dom() =~= Set::<u16>::empty());
    let mut at: usize = 0;
    while at < keys.len()
        invariant
            at <= keys@.len(),
            forall|i: int|
                0 <= i < keys@.len() ==> source.country_to_side@.contains_key(#[trigger] keys@[i]),
            forall|id: u16| #[trigger] rebels@.contains_key(id) == country_known(*source, id),
            locates_countries(
                aggregates@,
                source.territory.countries@,
                source.territory.countries@.len() as int,
            ),
            forall|side: usize|
                #[trigger] counted_sides@.contains(side) == has_side_aggregate(
                    source.territory.sides@,
                    side,
                    source.territory.sides@.len() as int,
                ),
            active@.dom() == fighting_sides(*source, keys@, at as nat),
            forall|side: u16| #[trigger] active@.contains_key(side) ==> side < source.side_count,
            mappings_fault(*source, keys@, 0) == mappings_fault(*source, keys@, at as int),
        decreases keys@.len() - at,
    {
        broadcast use vstd::std_specs::btree::group_btree_axioms;

        let country_id: u16 = keys[at];
        if let Err(error) = check_mapping(source, country_id, rebels, aggregates, counted_sides) {
            return Err(error);
        }
        let side: usize = *source.country_to_side.get(&country_id).unwrap();
        let economy = source.economies.get(&country_id).unwrap();
        if !economy.capitulated {
            let ghost before = active@;
            active.insert(side as u16, true);
            assert(active@.dom() =~= before.dom().insert(side as u16));
        }
        at = at + 1;
    }
    Ok(active)
}

fn check_casualties(
    source: &StrategicDerivationInput<'_>,
    rebels: &BTreeMap<u16, bool>,
) -> (verdict: Result<(), ProductionError>)
    requires
        forall|id: u16| #[trigger] rebels@.contains_key(id) == country_known(*source, id),
    ensures
        verdict is Ok <==> casualties_fault(
            *source,
            ascending(source.casualties@.dom()),
            0,
        ) is None,
        verdict matches Err(error) ==> casualties_fault(
            *source,
            ascending(source.casualties@.dom()),
            0,
        ) == Some(error),
{
    broadcast use vstd::std_specs::btree::group_btree_axioms;

    let keys = ordered_countries(source.casualties);
    let mut at: usize = 0;
    while at < keys.len()
        invariant
            at <= keys@.len(),
            forall|i: int|
                0 <= i < keys@.len() ==> source.casualties@.contains_key(#[trigger] keys@[i]),
            forall|id: u16| #[trigger] rebels@.contains_key(id) == country_known(*source, id),
            keys@ == ascending(source.casualties@.dom()),
            casualties_fault(*source, keys@, 0) == casualties_fault(*source, keys@, at as int),
        decreases keys@.len() - at,
    {
        broadcast use vstd::std_specs::btree::group_btree_axioms;

        let country_id: u16 = keys[at];
        let casualties = *source.casualties.get(&country_id).unwrap();
        if !casualties.is_finite_nonnegative() || !rebels.contains_key(&country_id) {
            return Err(ProductionError::InvalidCasualties(country_id));
        }
        at = at + 1;
    }
    Ok(())
}

fn describe_countries(
    source: &StrategicDerivationInput<'_>,
    roll: &Roll,
    keys: &Vec<u16>,
    rebels: &BTreeMap<u16, bool>,
    aggregates: &BTreeMap<u16, usize>,
) -> (outcome: Result<Vec<CountryCycleInput>, ProductionError>)
    requires
        forall|i: int|
            0 <= i < keys@.len() ==> source.country_to_side@.contains_key(#[trigger] keys@[i]),
        mappings_fault(*source, keys@, 0) is None,
        forall|id: u16|
            #[trigger] rebel_entry(
                rebels@,
                source.scenario.countries@,
                id,
                source.scenario.countries@.len(),
            ),
        locates_countries(
            aggregates@,
            source.territory.countries@,
            source.territory.countries@.len() as int,
        ),
    ensures
        match outcome {
            Ok(countries) => cycle_countries(*source, roll@, keys@, keys@.len()) == Ok::<
                Seq<CountryCycleInput>,
                ProductionError,
            >(countries@),
            Err(error) => cycle_countries(*source, roll@, keys@, keys@.len()) == Err::<
                Seq<CountryCycleInput>,
                ProductionError,
            >(error),
        },
{
    proof {
        lemma_mappings_sound(*source, keys@, 0);
    }
    let mut countries: Vec<CountryCycleInput> = Vec::new();
    let mut at: usize = 0;
    while at < keys.len()
        invariant
            at <= keys@.len(),
            forall|i: int|
                0 <= i < keys@.len() ==> source.country_to_side@.contains_key(#[trigger] keys@[i]),
            forall|i: int|
                0 <= i < keys@.len() ==> mapping_fault(*source, #[trigger] keys@[i]) is None,
            forall|id: u16|
                #[trigger] rebel_entry(
                    rebels@,
                    source.scenario.countries@,
                    id,
                    source.scenario.countries@.len(),
                ),
            locates_countries(
                aggregates@,
                source.territory.countries@,
                source.territory.countries@.len() as int,
            ),
            cycle_countries(*source, roll@, keys@, at as nat) == Ok::<
                Seq<CountryCycleInput>,
                ProductionError,
            >(countries@),
        decreases keys@.len() - at,
    {
        match describe_country(source, roll, keys[at], rebels, aggregates) {
            Ok(country) => {
                countries.push(country);
            },
            Err(error) => {
                proof {
                    lemma_cycle_countries_fail(
                        *source,
                        roll@,
                        keys@,
                        (at + 1) as nat,
                        keys@.len(),
                    );
                }
                return Err(error);
            },
        }
        at = at + 1;
    }
    Ok(countries)
}

fn describe_occupations(
    source: &StrategicDerivationInput<'_>,
    roll: &Roll,
    rebels: &BTreeMap<u16, bool>,
    aggregates: &BTreeMap<u16, usize>,
    reader: &mut Reader<'_>,
) -> (outcome: Result<Vec<OccupationCycleRecord>, ProductionError>)
    requires
        old(reader).sound(),
        forall|id: u16| #[trigger] rebels@.contains_key(id) == country_known(*source, id),
        locates_countries(
            aggregates@,
            source.territory.countries@,
            source.territory.countries@.len() as int,
        ),
    ensures
        final(reader)@ == old(reader)@,
        final(reader).sound(),
        final(reader).complete() ==> old(reader).complete() && ({
            let keys = ascending(source.occupations@.dom());
            let all = cycle_occupations(old(reader)@, *source, roll@, keys, keys.len());
            match outcome {
                Ok(records) => all == Ok::<Seq<OccupationCycleRecord>, ProductionError>(records@),
                Err(error) => all == Err::<Seq<OccupationCycleRecord>, ProductionError>(error),
            }
        }),
        old(reader).complete() && occupations_supplied(
            old(reader)@,
            *source,
            roll@,
            ascending(source.occupations@.dom()),
        ) ==> final(reader).complete(),
{
    let ghost results = reader@;
    let ghost untouched = reader.complete();
    let keys = ordered_countries(source.occupations);
    let mut records: Vec<OccupationCycleRecord> = Vec::new();
    let mut at: usize = 0;
    while at < keys.len()
        invariant
            at <= keys@.len(),
            keys@ == ascending(source.occupations@.dom()),
            results == old(reader)@,
            untouched == old(reader).complete(),
            reader@ == results,
            reader.sound(),
            forall|i: int|
                0 <= i < keys@.len() ==> source.occupations@.contains_key(#[trigger] keys@[i]),
            forall|id: u16| #[trigger] rebels@.contains_key(id) == country_known(*source, id),
            locates_countries(
                aggregates@,
                source.territory.countries@,
                source.territory.countries@.len() as int,
            ),
            reader.complete() ==> untouched && cycle_occupations(
                results,
                *source,
                roll@,
                keys@,
                at as nat,
            ) == Ok::<Seq<OccupationCycleRecord>, ProductionError>(records@),
            untouched && occupations_supplied(results, *source, roll@, keys@) ==> reader.complete(),
        decreases keys@.len() - at,
    {
        match describe_occupation(source, roll, keys[at], rebels, aggregates, reader) {
            Ok(record) => {
                records.push(record);
            },
            Err(error) => {
                proof {
                    if reader.complete() {
                        lemma_cycle_occupations_fail(
                            results,
                            *source,
                            roll@,
                            keys@,
                            (at + 1) as nat,
                            keys@.len(),
                        );
                    }
                }
                return Err(error);
            },
        }
        at = at + 1;
    }
    Ok(records)
}

/// Whether a worksheet holds all that deriving the input of a cycle takes.
/// What fails its checks takes nothing.
pub open spec fn cycle_supplied(
    results: Map<Operation, u64>,
    source: StrategicDerivationInput<'_>,
    config: ProductionConfig,
) -> bool {
    let keys = ascending(source.country_to_side@.dom());
    let occupied = ascending(source.occupations@.dom());
    config.valid() && boundary_fault(source, config) is None && country_aggregates_fault(
        source.territory.countries@,
        0,
    ) is None && side_aggregates_fault(source.territory.sides@, 0) is None && mappings_fault(
        source,
        keys,
        0,
    ) is None && casualties_fault(source, ascending(source.casualties@.dom()), 0) is None
        && source.frame.units@.len() <= config.max_units ==> {
        &&& muster_supplied(results, source)
        &&& mustered(results, source, source.frame.units@.len()) matches Ok(muster) ==> (
        cycle_countries(source, muster, keys, keys.len()) is Ok ==> occupations_supplied(
            results,
            source,
            muster,
            occupied,
        ))
    }
}

/// Derive the input of one strategic cycle.
pub fn derive_strategic_cycle_input(
    source: StrategicDerivationInput<'_>,
    config: &ProductionConfig,
    sheet: &Worksheet,
) -> (outcome: Result<StrategicDerivationOutput, Stop<ProductionError>>)
    ensures
        match outcome {
            Ok(output) => derived_cycle(sheet@, source, *config) is Ok && output.says(
                derived_cycle(sheet@, source, *config)->Ok_0,
                source,
            ) && sides_within(output.input.active_sides@, source.side_count as int),
            Err(Stop::Failed(error)) => derived_cycle(sheet@, source, *config) == Err::<
                CycleModel,
                ProductionError,
            >(error),
            Err(Stop::Missing(missing)) => {
            &&& missing@.len() > 0
            &&& all_missing(missing@, sheet@)
            &&& !cycle_supplied(sheet@, source, *config)
        },
        },
{
    broadcast use vstd::std_specs::btree::group_btree_axioms;

    if let Err(error) = validate_config(config) {
        return Err(Stop::Failed(error));
    }
    if let Err(error) = validate_strategic_boundary(&source, config) {
        return Err(Stop::Failed(error));
    }
    let rebels = index_rebels(&source.scenario.countries);
    proof {
        assert forall|id: u16| #[trigger] rebels@.contains_key(id) == country_known(
            source,
            id,
        ) by {
            assert(rebel_entry(
                rebels@,
                source.scenario.countries@,
                id,
                source.scenario.countries@.len(),
            ));
        }
    }
    let aggregates = match country_aggregates(source.territory) {
        Ok(index) => index,
        Err(error) => {
            return Err(Stop::Failed(error));
        },
    };
    let counted_sides = match side_aggregates(source.territory) {
        Ok(counted) => counted,
        Err(error) => {
            return Err(Stop::Failed(error));
        },
    };
    let keys = ordered_countries(source.country_to_side);
    let active_set = match check_mappings(&source, &keys, &rebels, &aggregates, &counted_sides) {
        Ok(active) => active,
        Err(error) => {
            return Err(Stop::Failed(error));
        },
    };
    if let Err(error) = check_casualties(&source, &rebels) {
        return Err(Stop::Failed(error));
    }
    if let Err(error) = enforce_limit("units", source.frame.units.len(), config.max_units) {
        return Err(Stop::Failed(error));
    }
    let mut reader = sheet.reader();
    let roll = match muster_units(&source, &mut reader) {
        Ok(roll) => roll,
        Err(error) => {
            if !reader.is_complete() {
                return Err(Stop::Missing(reader.into_missing()));
            }
            return Err(Stop::Failed(error));
        },
    };
    let described = match describe_countries(&source, &roll, &keys, &rebels, &aggregates) {
        Ok(countries) => countries,
        Err(error) => {
            if !reader.is_complete() {
                return Err(Stop::Missing(reader.into_missing()));
            }
            return Err(Stop::Failed(error));
        },
    };
    let occupations = match describe_occupations(
        &source,
        &roll,
        &rebels,
        &aggregates,
        &mut reader,
    ) {
        Ok(records) => records,
        Err(error) => {
            if !reader.is_complete() {
                return Err(Stop::Missing(reader.into_missing()));
            }
            return Err(Stop::Failed(error));
        },
    };
    if !reader.is_complete() {
        return Err(Stop::Missing(reader.into_missing()));
    }
    let countries = sort_stable(described);
    let active_sides = ordered_countries(&active_set);
    proof {
        assert forall|i: int| 0 <= i < active_sides@.len() implies (
        #[trigger] active_sides@[i] as int) < source.side_count by {
            assert(active_set@.contains_key(active_sides@[i]));
        }
    }
    let embattled_sides = find_embattled(
        source.hostility_matrix,
        source.side_count,
        &active_sides,
    );
    let pairs = find_pairs(source.hostility_matrix, source.side_count, &active_sides);
    let counters = StrategicDerivationCounters {
        countries: countries.len(),
        units: source.frame.units.len(),
        payroll_units: roll.payroll_units,
        garrison_units: roll.garrison_units,
        occupations: occupations.len(),
        active_sides: active_sides.len(),
        hostile_pairs: pairs.len(),
    };
    Ok(
        StrategicDerivationOutput {
            input: StrategicCycleInput {
                tick: source.tick,
                force: source.force,
                territory_generation: source.territory.generation,
                territory_commit_sequence: source.territory.commit_sequence,
                territory_fresh: true,
                countries,
                occupations,
                active_sides,
                active_hostile_pairs: pairs,
                capitulation_active_sides: Some(embattled_sides),
            },
            counters,
        },
    )
}

/// Hostile in one direction or the other.
pub open spec fn either_hostile(matrix: Seq<u8>, side_count: int, left: u16, right: u16) -> bool {
    table_hostile(matrix, side_count, left as int, right as int) || table_hostile(
        matrix,
        side_count,
        right as int,
        left as int,
    )
}

proof fn lemma_pairs_of(
    matrix: Seq<u8>,
    side_count: int,
    active: Seq<u16>,
    at: int,
    count: int,
    pair: (u16, u16),
)
    requires
        0 <= at < active.len(),
        count <= active.len(),
    ensures
        pairs_of(matrix, side_count, active, at, count).contains(pair) <==> pair.0 == active[at]
            && either_hostile(matrix, side_count, pair.0, pair.1) && exists|j: int|
            at < j < count && #[trigger] active[j] == pair.1,
    decreases count - at,
{
    if count > at + 1 {
        lemma_pairs_of(matrix, side_count, active, at, count - 1, pair);
        let rest = pairs_of(matrix, side_count, active, at, count - 1);
        let made = (active[at], active[count - 1]);
        lemma_push_contains(rest, made, pair);
        if exists|j: int| at < j < count && #[trigger] active[j] == pair.1 {
            let j = choose|j: int| at < j < count && #[trigger] active[j] == pair.1;
            if j < count - 1 {
                assert(at < j < count - 1 && active[j] == pair.1);
            }
        }
        if exists|j: int| at < j < count - 1 && #[trigger] active[j] == pair.1 {
            let j = choose|j: int| at < j < count - 1 && #[trigger] active[j] == pair.1;
            assert(at < j < count && active[j] == pair.1);
        }
    }
}

proof fn lemma_hostile_pairs(
    matrix: Seq<u8>,
    side_count: int,
    active: Seq<u16>,
    count: nat,
    pair: (u16, u16),
)
    requires
        count <= active.len(),
    ensures
        hostile_pairs(matrix, side_count, active, count).contains(pair) <==> either_hostile(
            matrix,
            side_count,
            pair.0,
            pair.1,
        ) && exists|i: int, j: int|
            #![trigger active[i], active[j]]
            0 <= i < count && i < j < active.len() && active[i] == pair.0 && active[j] == pair.1,
    decreases count,
{
    if count > 0 {
        lemma_hostile_pairs(matrix, side_count, active, (count - 1) as nat, pair);
        lemma_pairs_of(matrix, side_count, active, count - 1, active.len() as int, pair);
        let rest = hostile_pairs(matrix, side_count, active, (count - 1) as nat);
        let last = pairs_of(matrix, side_count, active, count - 1, active.len() as int);
        let all = hostile_pairs(matrix, side_count, active, count);
        if all.contains(pair) {
            let k = choose|k: int| 0 <= k < all.len() && all[k] == pair;
            if k < rest.len() {
                assert(rest[k] == pair);
                let (i, j) = choose|i: int, j: int|
                    #![trigger active[i], active[j]]
                    0 <= i < count - 1 && i < j < active.len() && active[i] == pair.0 && active[j]
                        == pair.1;
                assert(0 <= i < count);
            } else {
                assert(last[k - rest.len()] == pair);
                let j = choose|j: int|
                    count - 1 < j < active.len() && #[trigger] active[j] == pair.1;
                assert(active[count - 1] == pair.0);
            }
        }
        if either_hostile(matrix, side_count, pair.0, pair.1) && exists|i: int, j: int|
            #![trigger active[i], active[j]]
            0 <= i < count && i < j < active.len() && active[i] == pair.0 && active[j] == pair.1 {
            let (i, j) = choose|i: int, j: int|
                #![trigger active[i], active[j]]
                0 <= i < count && i < j < active.len() && active[i] == pair.0 && active[j]
                    == pair.1;
            if i < count - 1 {
                assert(rest.contains(pair));
                let k = choose|k: int| 0 <= k < rest.len() && rest[k] == pair;
                assert(all[k] == pair);
            } else {
                assert(count - 1 < j < active.len() && active[j] == pair.1);
                assert(last.contains(pair));
                let k = choose|k: int| 0 <= k < last.len() && last[k] == pair;
                assert(all[rest.len() + k] == pair);
            }
        }
    }
}

/// Hostility may be declared in one direction only; the pairs of active sides list it once, with
/// the smaller side first, and leave no hostile pair out.
pub proof fn hostile_pairs_are_canonical(
    matrix: Seq<u8>,
    side_count: int,
    active: Seq<u16>,
    pair: (u16, u16),
)
    requires
        strictly_sorted(active),
    ensures
        hostile_pairs(matrix, side_count, active, active.len()).contains(pair) <==> pair.0 < pair.1
            && active.contains(pair.0) && active.contains(pair.1) && either_hostile(
            matrix,
            side_count,
            pair.0,
            pair.1,
        ),
{
    lemma_hostile_pairs(matrix, side_count, active, active.len(), pair);
    if pair.0 < pair.1 && active.contains(pair.0) && active.contains(pair.1) {
        let i = choose|i: int| 0 <= i < active.len() && active[i] == pair.0;
        let j = choose|j: int| 0 <= j < active.len() && active[j] == pair.1;
        if j < i {
            assert(active[j].sort_key() < active[i].sort_key());
        }
        assert(i < j);
    }
    if exists|i: int, j: int|
        #![trigger active[i], active[j]]
        0 <= i < active.len() && i < j < active.len() && active[i] == pair.0 && active[j]
            == pair.1 {
        let (i, j) = choose|i: int, j: int|
            #![trigger active[i], active[j]]
            0 <= i < active.len() && i < j < active.len() && active[i] == pair.0 && active[j]
                == pair.1;
        assert(active[i].sort_key() < active[j].sort_key());
    }
}

/// A side takes part in capitulation exactly if it is active and hostile to another active side.
pub proof fn embattled_sides_have_enemies(
    matrix: Seq<u8>,
    side_count: int,
    active: Seq<u16>,
    side: u16,
)
    ensures
        active.filter(embattled(matrix, side_count, active)).contains(side) <==> active.contains(
            side,
        ) && has_active_enemy(matrix, side_count, active, side),
{
    lemma_filter_contains(active, embattled(matrix, side_count, active), side);
}

/// A side is active exactly if one of its countries still fights.
pub proof fn active_sides_still_fight(
    source: StrategicDerivationInput<'_>,
    keys: Seq<u16>,
    count: nat,
    side: u16,
)
    requires
        count <= keys.len(),
    ensures
        fighting_sides(source, keys, count).contains(side) <==> exists|i: int|
            0 <= i < count && !source.economies@[#[trigger] keys[i]].capitulated
                && source.country_to_side@[keys[i]] as u16 == side,
    decreases count,
{
    if count > 0 {
        active_sides_still_fight(source, keys, (count - 1) as nat, side);
        if exists|i: int|
            0 <= i < count - 1 && !source.economies@[#[trigger] keys[i]].capitulated
                && source.country_to_side@[keys[i]] as u16 == side {
            let i = choose|i: int|
                0 <= i < count - 1 && !source.economies@[#[trigger] keys[i]].capitulated
                    && source.country_to_side@[keys[i]] as u16 == side;
            assert(0 <= i < count);
        }
        if exists|i: int|
            0 <= i < count && !source.economies@[#[trigger] keys[i]].capitulated
                && source.country_to_side@[keys[i]] as u16 == side {
            let i = choose|i: int|
                0 <= i < count && !source.economies@[#[trigger] keys[i]].capitulated
                    && source.country_to_side@[keys[i]] as u16 == side;
            if i < count - 1 {
                assert(0 <= i < count - 1);
            }
        }
    }
}

proof fn lemma_countries_listed(
    source: StrategicDerivationInput<'_>,
    muster: Muster,
    keys: Seq<u16>,
    count: nat,
)
    requires
        count <= keys.len(),
    ensures
        cycle_countries(source, muster, keys, count) matches Ok(countries) ==> {
            &&& countries.len() == count
            &&& forall|i: int|
                0 <= i < count ==> (#[trigger] countries[i]).country_id == keys[i]
        },
    decreases count,
{
    if count > 0 {
        lemma_countries_listed(source, muster, keys, (count - 1) as nat);
    }
}

/// A strategic cycle is told of every mapped country once, by side and then by country.
pub proof fn cycle_countries_are_ordered(
    results: Map<Operation, u64>,
    source: StrategicDerivationInput<'_>,
    config: ProductionConfig,
)
    ensures
        derived_cycle(results, source, config) matches Ok(model) ==> {
            &&& model.countries.len() == source.country_to_side@.dom().len()
            &&& forall|i: int, j: int|
                #![trigger model.countries[i], model.countries[j]]
                0 <= i < j < model.countries.len() ==> !model.countries[j].ranks_before(
                    model.countries[i],
                ) && model.countries[i].country_id != model.countries[j].country_id
            &&& forall|country_id: u16|
                #![trigger source.country_to_side@.contains_key(country_id)]
                source.country_to_side@.contains_key(country_id) ==> exists|i: int|
                    0 <= i < model.countries.len() && (#[trigger] model.countries[i]).country_id
                        == country_id
        },
{
    broadcast use vstd::seq_lib::group_to_multiset_ensures;

    let keys = ascending(source.country_to_side@.dom());
    if let Ok(model) = derived_cycle(results, source, config) {
        let muster = mustered(results, source, source.frame.units@.len())->Ok_0;
        let listed = cycle_countries(source, muster, keys, keys.len())->Ok_0;
        let order = rank_order::<CountryCycleInput>();
        countries_can_be_ordered(source.country_to_side@.dom());
        lemma_countries_listed(source, muster, keys, keys.len());
        stable_sort_orders(listed, order);
        lemma_permutation_contains(listed, model.countries);
        lemma_permutation_contains(model.countries, listed);
        assert(listed.no_duplicates()) by {
            assert forall|i: int, j: int|
                0 <= i < listed.len() && 0 <= j < listed.len() && i != j implies listed[i]
                != listed[j] by {
                if i < j {
                    assert(keys[i].sort_key() < keys[j].sort_key());
                } else {
                    assert(keys[j].sort_key() < keys[i].sort_key());
                }
            }
        }
        listed.lemma_multiset_has_no_duplicates();
        model.countries.lemma_multiset_has_no_duplicates_conv();
        assert(model.countries.len() == listed.len());
        assert(keys.no_duplicates()) by {
            assert forall|i: int, j: int|
                0 <= i < keys.len() && 0 <= j < keys.len() && i != j implies keys[i] != keys[j] by {
                if i < j {
                    assert(keys[i].sort_key() < keys[j].sort_key());
                } else {
                    assert(keys[j].sort_key() < keys[i].sort_key());
                }
            }
        }
        keys.unique_seq_to_set();
        assert forall|i: int, j: int|
            #![trigger model.countries[i], model.countries[j]]
            0 <= i < j < model.countries.len() implies !model.countries[j].ranks_before(
            model.countries[i],
        ) && model.countries[i].country_id != model.countries[j].country_id by {
            assert(!order(model.countries[j], model.countries[i]));
            assert(model.countries.contains(model.countries[i]));
            assert(model.countries.contains(model.countries[j]));
            let a = choose|a: int| 0 <= a < listed.len() && listed[a] == model.countries[i];
            let b = choose|b: int| 0 <= b < listed.len() && listed[b] == model.countries[j];
            assert(model.countries[i] != model.countries[j]);
            if a < b {
                assert(keys[a].sort_key() < keys[b].sort_key());
            } else {
                assert(keys[b].sort_key() < keys[a].sort_key());
            }
        }
        assert forall|country_id: u16|
            #![trigger source.country_to_side@.contains_key(country_id)]
            source.country_to_side@.contains_key(country_id) implies exists|i: int|
            0 <= i < model.countries.len() && (#[trigger] model.countries[i]).country_id
                == country_id by {
            assert(keys.to_set().contains(country_id));
            let at = choose|at: int| 0 <= at < keys.len() && keys[at] == country_id;
            assert(listed.contains(listed[at]));
            let i = choose|i: int|
                0 <= i < model.countries.len() && model.countries[i] == listed[at];
            assert(model.countries[i].country_id == country_id);
        }
    }
}

} // verus!
