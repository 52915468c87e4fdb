//! Baselines of countries and cities, and the strategic input that is derived from them.

use vstd::prelude::*;
use crate::economy::EconomyState;
use crate::numbers::{MINUS_N_90, N_0_066, N_0_45, N_1500, N_180, N_360, N_90};
use crate::order::{Keyed, Ranked};
use crate::scalar::{real_of, Real, ONE_BITS};
use crate::scenario::{is_positive, positive, GridSpec};
use crate::units::KernelFault;
use crate::views::Replica;
use crate::worksheet::{
    all_missing, difference, integer, number_at, product, quotient, sum, Operation, Reader, Stop,
    Worksheet,
};

verus! {

pub const PRODUCTION_SCHEMA_VERSION: &'static str = "production-input-v1";

pub const DEFAULT_MAX_UNITS_PER_SIDE: u32 = 2_400;

pub const DEFAULT_MIN_EXPECTED_ARMY_UNITS: u32 = 3;

#[derive(Clone, Copy, Debug, PartialEq, Eq, Structural)]
pub struct ProductionConfig {
    pub unit_density_factor: Real,
    pub max_units_per_side: u32,
    pub min_expected_army_units: u32,
    pub density_reference_cells: Real,
    pub density_exponent: Real,
    pub max_countries: usize,
    pub max_cities: usize,
    pub max_units: usize,
    pub max_sides: usize,
}

pub open spec fn standard_production_config() -> ProductionConfig {
    ProductionConfig {
        unit_density_factor: real_of(N_0_066),
        max_units_per_side: DEFAULT_MAX_UNITS_PER_SIDE,
        min_expected_army_units: DEFAULT_MIN_EXPECTED_ARMY_UNITS,
        density_reference_cells: real_of(N_1500),
        density_exponent: real_of(N_0_45),
        max_countries: 65_535,
        max_cities: 1_000_000,
        max_units: 1_000_000,
        max_sides: 4_096,
    }
}

impl Default for ProductionConfig {
    fn default() -> (config: Self)
        ensures
            config == standard_production_config(),
            config.valid(),
    {
        ProductionConfig {
            unit_density_factor: Real::from_bits(N_0_066),
            max_units_per_side: DEFAULT_MAX_UNITS_PER_SIDE,
            min_expected_army_units: DEFAULT_MIN_EXPECTED_ARMY_UNITS,
            density_reference_cells: Real::from_bits(N_1500),
            density_exponent: Real::from_bits(N_0_45),
            max_countries: 65_535,
            max_cities: 1_000_000,
            max_units: 1_000_000,
            max_sides: 4_096,
        }
    }
}

impl ProductionConfig {
    pub open spec fn valid(self) -> bool {
        &&& self.unit_density_factor.finite_nonnegative()
        &&& self.max_units_per_side > 0
        &&& self.min_expected_army_units > 0
        &&& self.min_expected_army_units <= self.max_units_per_side
        &&& positive(self.density_reference_cells)
        &&& self.density_exponent.finite_nonnegative()
        &&& 0 < self.max_countries <= u16::MAX
        &&& self.max_cities > 0
        &&& self.max_units > 0
        &&& 0 < self.max_sides <= u16::MAX + 1
    }
}

/// A country at the outbreak of war.
#[derive(Debug)]
pub struct ProductionCountry {
    pub country_id: u16,
    pub name: String,
    pub gdp: Real,
    pub population: Real,
    pub is_rebel: bool,
    pub initial_core_cells: u32,
    pub initial_owned_land_cells: u32,
    pub initial_city_population: Real,
    pub capital_cell: Option<usize>,
    pub expected_army_units: Real,
}

/// What a [`ProductionCountry`] says.
pub struct CountryModel {
    pub country_id: u16,
    pub name: Seq<char>,
    pub gdp: Real,
    pub population: Real,
    pub is_rebel: bool,
    pub initial_core_cells: u32,
    pub initial_owned_land_cells: u32,
    pub initial_city_population: Real,
    pub capital_cell: Option<usize>,
    pub expected_army_units: Real,
}

impl View for ProductionCountry {
    type V = CountryModel;

    open spec fn view(&self) -> CountryModel {
        CountryModel {
            country_id: self.country_id,
            name: self.name@,
            gdp: self.gdp,
            population: self.population,
            is_rebel: self.is_rebel,
            initial_core_cells: self.initial_core_cells,
            initial_owned_land_cells: self.initial_owned_land_cells,
            initial_city_population: self.initial_city_population,
            capital_cell: self.capital_cell,
            expected_army_units: self.expected_army_units,
        }
    }
}

impl Replica for ProductionCountry {
    fn replica(&self) -> (copy: Self) {
        ProductionCountry {
            country_id: self.country_id,
            name: self.name.clone(),
            gdp: self.gdp,
            population: self.population,
            is_rebel: self.is_rebel,
            initial_core_cells: self.initial_core_cells,
            initial_owned_land_cells: self.initial_owned_land_cells,
            initial_city_population: self.initial_city_population,
            capital_cell: self.capital_cell,
            expected_army_units: self.expected_army_units,
        }
    }
}

impl Clone for ProductionCountry {
    fn clone(&self) -> (copy: Self)
        ensures
            copy@ == self@,
    {
        self.replica()
    }
}

/// A city. An owner of zero means that nobody holds its cell.
#[derive(Debug)]
pub struct ProductionCity {
    pub city_id: u64,
    pub name: String,
    pub owner_id: u16,
    pub cell: usize,
    pub lat: Real,
    pub lng: Real,
    pub population: Real,
    pub capital: bool,
}

/// What a [`ProductionCity`] says.
pub struct CityModel {
    pub city_id: u64,
    pub name: Seq<char>,
    pub owner_id: u16,
    pub cell: usize,
    pub lat: Real,
    pub lng: Real,
    pub population: Real,
    pub capital: bool,
}

impl View for ProductionCity {
    type V = CityModel;

    open spec fn view(&self) -> CityModel {
        CityModel {
            city_id: self.city_id,
            name: self.name@,
            owner_id: self.owner_id,
            cell: self.cell,
            lat: self.lat,
            lng: self.lng,
            population: self.population,
            capital: self.capital,
        }
    }
}

impl Replica for ProductionCity {
    fn replica(&self) -> (copy: Self) {
        ProductionCity {
            city_id: self.city_id,
            name: self.name.clone(),
            owner_id: self.owner_id,
            cell: self.cell,
            lat: self.lat,
            lng: self.lng,
            population: self.population,
            capital: self.capital,
        }
    }
}

impl Clone for ProductionCity {
    fn clone(&self) -> (copy: Self)
        ensures
            copy@ == self@,
    {
        self.replica()
    }
}

#[derive(Clone, Copy, Debug, PartialEq, Eq, Structural)]
pub struct ScenarioProductionCounters {
    pub countries: usize,
    pub cities: usize,
    pub unresolved_city_owners: usize,
    pub economy_seeds: usize,
    pub land_cells: usize,
}

impl Default for ScenarioProductionCounters {
    fn default() -> (counters: Self)
        ensures
            counters == (ScenarioProductionCounters {
                countries: 0,
                cities: 0,
                unresolved_city_owners: 0,
                economy_seeds: 0,
                land_cells: 0,
            }),
    {
        ScenarioProductionCounters {
            countries: 0,
            cities: 0,
            unresolved_city_owners: 0,
            economy_seeds: 0,
            land_cells: 0,
        }
    }
}

/// What an economy grows from.
#[derive(Clone, Copy, Debug, PartialEq, Eq, Structural)]
pub struct EconomySeed {
    pub country_id: u16,
    pub gdp: Real,
    pub population: Real,
    pub territory_units: Real,
    pub initial_core_cells: u32,
    pub initial_city_population: Real,
}

#[derive(Clone, Copy, Debug, PartialEq, Eq)]
pub enum ProductionError {
    InvalidConfig,
    InvalidScenarioGrid,
    MissingCountries,
    Limit { kind: &'static str, actual: usize, limit: usize },
    InvalidCountry { index: usize, reason: &'static str },
    DuplicateCountry(u16),
    UnknownMapCountry(u16),
    InvalidCity { index: usize, reason: &'static str },
    DuplicateCity(u64),
    UnknownCityCountry { city_id: u64, country_id: u16 },
    Economy(KernelFault),
    InvalidStrategicGrid,
    StaleTerritory,
    PartialTerritory,
    StaleFrame,
    DuplicateCountryAggregate(u16),
    DuplicateSideAggregate(usize),
    MissingCountryAggregate(u16),
    MissingSideAggregate(usize),
    InvalidCountrySide(u16),
    MissingEconomy(u16),
    InvalidHostility,
    DuplicateUnit(u64),
    InvalidUnit(u64),
    InvalidOccupation(u16),
    InvalidCasualties(u16),
    AggregateOverflow,
    NonFinite,
}

pub fn validate_config(config: &ProductionConfig) -> (verdict: Result<(), ProductionError>)
    ensures
        verdict is Ok <==> config.valid(),
        verdict matches Err(error) ==> error == ProductionError::InvalidConfig,
{
    if !config.unit_density_factor.is_finite_nonnegative() || config.max_units_per_side == 0
        || config.min_expected_army_units == 0 || config.min_expected_army_units
        > config.max_units_per_side || !is_positive(config.density_reference_cells)
        || !config.density_exponent.is_finite_nonnegative() || config.max_countries == 0
        || config.max_countries > 65_535 || config.max_cities == 0 || config.max_units == 0
        || config.max_sides == 0 || config.max_sides > 65_536 {
        return Err(ProductionError::InvalidConfig);
    }
    Ok(())
}

pub fn enforce_limit(kind: &'static str, actual: usize, limit: usize) -> (verdict: Result<
    (),
    ProductionError,
>)
    ensures
        verdict is Ok <==> actual <= limit,
        verdict matches Err(error) ==> error == (ProductionError::Limit { kind, actual, limit }),
{
    if actual > limit {
        Err(ProductionError::Limit { kind, actual, limit })
    } else {
        Ok(())
    }
}

pub fn u32_count(value: u64) -> (count: Result<u32, ProductionError>)
    ensures
        match count {
            Ok(number) => number == value,
            Err(error) => value > u32::MAX && error == ProductionError::AggregateOverflow,
        },
{
    if value > 0xffff_ffff {
        Err(ProductionError::AggregateOverflow)
    } else {
        Ok(value as u32)
    }
}

/// The formations that a territory raises by its area: proportional at first, then ever slower,
/// within the limits of the configuration.
pub open spec fn army_estimate(
    results: Map<Operation, u64>,
    cell_count: u64,
    config: ProductionConfig,
) -> Result<Real, ProductionError> {
    let cells = integer(
        results,
        if cell_count == 0 {
            1
        } else {
            cell_count
        },
    );
    let size = quotient(results, cells, config.density_reference_cells).max_of(
        real_of(ONE_BITS),
    );
    let scale = quotient(
        results,
        real_of(ONE_BITS),
        number_at(results, Operation::Power(size, config.density_exponent)),
    );
    let estimate = number_at(
        results,
        Operation::Floor(
            product(results, product(results, cells, config.unit_density_factor), scale),
        ),
    );
    if !config.valid() {
        Err(ProductionError::InvalidConfig)
    } else if !estimate.finite() {
        Err(ProductionError::NonFinite)
    } else {
        Ok(
            estimate.max_of(integer(results, config.min_expected_army_units as u64)).min_of(
                integer(results, config.max_units_per_side as u64),
            ),
        )
    }
}

/// Whether a worksheet holds all that the estimate of an army takes.
pub open spec fn estimate_supplied(
    results: Map<Operation, u64>,
    cell_count: u64,
    config: ProductionConfig,
) -> bool {
    let cells = integer(results, if cell_count == 0 { 1 } else { cell_count });
    let ratio = quotient(results, cells, config.density_reference_cells);
    let size = ratio.max_of(real_of(ONE_BITS));
    let power = number_at(results, Operation::Power(size, config.density_exponent));
    let scale = quotient(results, real_of(ONE_BITS), power);
    let dense = product(results, cells, config.unit_density_factor);
    let scaled = product(results, dense, scale);
    &&& results.contains_key(Operation::Integer(if cell_count == 0 { 1 } else { cell_count }))
    &&& results.contains_key(Operation::Quotient(cells, config.density_reference_cells))
    &&& results.contains_key(Operation::Power(size, config.density_exponent))
    &&& results.contains_key(Operation::Quotient(real_of(ONE_BITS), power))
    &&& results.contains_key(Operation::Product(cells, config.unit_density_factor))
    &&& results.contains_key(Operation::Product(dense, scale))
    &&& results.contains_key(Operation::Floor(scaled))
    &&& results.contains_key(Operation::Integer(config.min_expected_army_units as u64))
    &&& results.contains_key(Operation::Integer(config.max_units_per_side as u64))
}

pub(crate) fn estimate_army(
    cell_count: u64,
    config: &ProductionConfig,
    reader: &mut Reader<'_>,
) -> (estimate: Result<Real, ProductionError>)
    requires
        old(reader).sound(),
        config.valid(),
    ensures
        final(reader)@ == old(reader)@,
        final(reader).sound(),
        final(reader).complete() ==> old(reader).complete() && estimate == army_estimate(
            old(reader)@,
            cell_count,
            *config,
        ),
        old(reader).complete() && estimate_supplied(old(reader)@, cell_count, *config) ==>
            final(reader).complete(),
{
    let cells = reader.integer(
        if cell_count == 0 {
            1
        } else {
            cell_count
        },
    );
    let ratio = reader.quotient(cells, config.density_reference_cells);
    let size = ratio.larger(Real::one());
    let power = reader.gather_number(Operation::Power(size, config.density_exponent));
    let scale = reader.quotient(Real::one(), power);
    let dense = reader.product(cells, config.unit_density_factor);
    let scaled = reader.product(dense, scale);
    let estimate = reader.gather_number(Operation::Floor(scaled));
    let least = reader.integer(config.min_expected_army_units as u64);
    let most = reader.integer(config.max_units_per_side as u64);
    if !estimate.is_finite() {
        return Err(ProductionError::NonFinite);
    }
    Ok(estimate.larger(least).smaller(most))
}

/// The army baseline of a territory.
pub fn estimate_territory_army_units(
    cell_count: u64,
    config: &ProductionConfig,
    sheet: &Worksheet,
) -> (outcome: Result<Real, Stop<ProductionError>>)
    ensures
        match outcome {
            Ok(units) => army_estimate(sheet@, cell_count, *config) == Ok::<
                Real,
                ProductionError,
            >(units),
            Err(Stop::Failed(error)) => army_estimate(sheet@, cell_count, *config) == Err::<
                Real,
                ProductionError,
            >(error),
            Err(Stop::Missing(missing)) => {
            &&& missing@.len() > 0
            &&& all_missing(missing@, sheet@)
            &&& !(config.valid() ==> estimate_supplied(sheet@, cell_count, *config))
        },
        },
{
    if let Err(error) = validate_config(config) {
        return Err(Stop::Failed(error));
    }
    let mut reader = sheet.reader();
    let estimate = estimate_army(cell_count, config, &mut reader);
    if !reader.is_complete() {
        return Err(Stop::Missing(reader.into_missing()));
    }
    match estimate {
        Ok(units) => Ok(units),
        Err(error) => Err(Stop::Failed(error)),
    }
}

/// A longitude within 180 degrees of zero.
pub open spec fn wrapped_longitude(results: Map<Operation, u64>, lng: Real) -> Real {
    difference(
        results,
        number_at(
            results,
            Operation::Remainder(
                sum(
                    results,
                    number_at(
                        results,
                        Operation::Remainder(sum(results, lng, real_of(N_180)), real_of(N_360)),
                    ),
                    real_of(N_360),
                ),
                real_of(N_360),
            ),
        ),
        real_of(N_180),
    )
}

/// Whether a worksheet holds all that wrapping a longitude takes.
pub open spec fn wrapping_supplied(
    results: Map<Operation, u64>,
    lng: Real,
) -> bool {
    let shifted = sum(results, lng, real_of(N_180));
    let once = number_at(results, Operation::Remainder(shifted, real_of(N_360)));
    let raised = sum(results, once, real_of(N_360));
    let twice = number_at(results, Operation::Remainder(raised, real_of(N_360)));
    &&& results.contains_key(Operation::Sum(lng, real_of(N_180)))
    &&& results.contains_key(Operation::Remainder(shifted, real_of(N_360)))
    &&& results.contains_key(Operation::Sum(once, real_of(N_360)))
    &&& results.contains_key(Operation::Remainder(raised, real_of(N_360)))
    &&& results.contains_key(Operation::Difference(twice, real_of(N_180)))
}

pub(crate) fn wrap_longitude(lng: Real, reader: &mut Reader<'_>) -> (wrapped: Real)
    requires
        old(reader).sound(),
    ensures
        final(reader)@ == old(reader)@,
        final(reader).sound(),
        final(reader).complete() ==> old(reader).complete() && wrapped == wrapped_longitude(
            old(reader)@,
            lng,
        ),
        old(reader).complete() && wrapping_supplied(old(reader)@, lng) ==> final(reader).complete(),
{
    let shifted = reader.sum(lng, Real::from_bits(N_180));
    let once = reader.gather_number(Operation::Remainder(shifted, Real::from_bits(N_360)));
    let raised = reader.sum(once, Real::from_bits(N_360));
    let twice = reader.gather_number(Operation::Remainder(raised, Real::from_bits(N_360)));
    reader.difference(twice, Real::from_bits(N_180))
}

/// The cell of a place, where the grid has one.
pub open spec fn cell_at(
    results: Map<Operation, u64>,
    grid: GridSpec,
    lat: Real,
    lng: Real,
) -> Option<int> {
    let x = number_at(
        results,
        Operation::Floor(
            quotient(
                results,
                sum(results, wrapped_longitude(results, lng), real_of(N_180)),
                grid.grid_res,
            ),
        ),
    );
    let y = number_at(
        results,
        Operation::Floor(
            quotient(
                results,
                sum(
                    results,
                    lat.clamp_of(real_of(MINUS_N_90), real_of(N_90)),
                    real_of(N_90),
                ),
                grid.grid_res,
            ),
        ),
    );
    let column = results[Operation::Whole(x)];
    let row = if results[Operation::Whole(y)] < grid.height {
        results[Operation::Whole(y)] as int
    } else {
        grid.height - 1
    };
    if grid.width == 0 || grid.height == 0 || !positive(grid.grid_res) || !lat.finite()
        || !lng.finite() {
        None
    } else if x.lt(real_of(0)) || integer(results, grid.width as u64).le(x) || column
        >= grid.width || row * grid.width + column > usize::MAX {
        None
    } else {
        Some(row * grid.width + column)
    }
}

/// Whether a worksheet holds all that finding a place on a grid takes.
pub open spec fn locating_supplied(
    results: Map<Operation, u64>,
    grid: GridSpec,
    lat: Real,
    lng: Real,
) -> bool {
    let wrapped = wrapped_longitude(results, lng);
    let east = sum(results, wrapped, real_of(N_180));
    let across = quotient(results, east, grid.grid_res);
    let x = number_at(results, Operation::Floor(across));
    let bounded = lat.clamp_of(real_of(MINUS_N_90), real_of(N_90));
    let north = sum(results, bounded, real_of(N_90));
    let up = quotient(results, north, grid.grid_res);
    let y = number_at(results, Operation::Floor(up));
    let width = integer(results, grid.width as u64);
    &&& results.contains_key(Operation::Sum(wrapped, real_of(N_180)))
    &&& results.contains_key(Operation::Quotient(east, grid.grid_res))
    &&& results.contains_key(Operation::Floor(across))
    &&& results.contains_key(Operation::Sum(bounded, real_of(N_90)))
    &&& results.contains_key(Operation::Quotient(north, grid.grid_res))
    &&& results.contains_key(Operation::Floor(up))
    &&& results.contains_key(Operation::Integer(grid.width as u64))
    &&& results.contains_key(Operation::Whole(x))
    &&& results.contains_key(Operation::Whole(y))
    &&& wrapping_supplied(results, lng)
}

/// Whether a worksheet holds all that the cell of a place takes. Where there is no grid or no
/// place, that is nothing.
pub open spec fn cell_supplied(
    results: Map<Operation, u64>,
    grid: GridSpec,
    lat: Real,
    lng: Real,
) -> bool {
    grid.width > 0 && grid.height > 0 && positive(grid.grid_res) && lat.finite() && lng.finite()
        ==> locating_supplied(results, grid, lat, lng)
}

pub(crate) fn grid_index(grid: GridSpec, lat: Real, lng: Real, reader: &mut Reader<'_>) -> (cell:
    Option<usize>)
    requires
        old(reader).sound(),
    ensures
        final(reader)@ == old(reader)@,
        final(reader).sound(),
        cell matches Some(at) ==> at < grid.area(),
        final(reader).complete() ==> old(reader).complete() && (match cell {
            Some(at) => cell_at(old(reader)@, grid, lat, lng) == Some(at as int),
            None => cell_at(old(reader)@, grid, lat, lng) is None,
        }),
        old(reader).complete() && cell_supplied(old(reader)@, grid, lat, lng) ==>
            final(reader).complete(),
{
    if grid.width == 0 || grid.height == 0 || !is_positive(grid.grid_res) || !lat.is_finite()
        || !lng.is_finite() {
        return None;
    }
    let wrapped = wrap_longitude(lng, reader);
    let east = reader.sum(wrapped, Real::from_bits(N_180));
    let across = reader.quotient(east, grid.grid_res);
    let x = reader.gather_number(Operation::Floor(across));
    let bounded = lat.clamped(Real::from_bits(MINUS_N_90), Real::from_bits(N_90));
    let north = reader.sum(bounded, Real::from_bits(N_90));
    let up = reader.quotient(north, grid.grid_res);
    let y = reader.gather_number(Operation::Floor(up));
    let width = reader.integer(grid.width as u64);
    let column: u64 = reader.gather(Operation::Whole(x));
    let whole_row: u64 = reader.gather(Operation::Whole(y));
    let row: usize = if whole_row < grid.height as u64 {
        whole_row as usize
    } else {
        grid.height - 1
    };
    if x.less(Real::zero()) || width.at_most(x) || column >= grid.width as u64 {
        return None;
    }
    proof {
        assert(0 <= row * grid.width) by (nonlinear_arith)
            requires
                row >= 0,
                grid.width >= 0,
        ;
        assert(row * grid.width + grid.width <= grid.width * grid.height) by (nonlinear_arith)
            requires
                row + 1 <= grid.height,
                grid.width >= 0,
        ;
    }
    match row.checked_mul(grid.width) {
        Some(start) => start.checked_add(column as usize),
        None => None,
    }
}

/// How many cells a grid must have to be usable.
pub open spec fn usable_grid(grid: GridSpec) -> bool {
    grid.width > 0 && grid.height > 0 && positive(grid.grid_res) && grid.area() <= usize::MAX
}

pub fn checked_grid(grid: GridSpec) -> (cells: Result<usize, ProductionError>)
    ensures
        match cells {
            Ok(count) => usable_grid(grid) && count == grid.area(),
            Err(error) => !usable_grid(grid) && error == ProductionError::InvalidScenarioGrid,
        },
{
    if grid.width == 0 || grid.height == 0 || !is_positive(grid.grid_res) {
        return Err(ProductionError::InvalidScenarioGrid);
    }
    match grid.width.checked_mul(grid.height) {
        Some(count) => Ok(count),
        None => Err(ProductionError::InvalidScenarioGrid),
    }
}

impl Keyed for ProductionCountry {
    open spec fn sort_key(&self) -> int {
        self.country_id as int
    }

    fn key(&self) -> (key: u64) {
        self.country_id as u64
    }
}

impl Ranked for ProductionCountry {
    open spec fn ranks_before(self, other: Self) -> bool {
        self.country_id < other.country_id
    }

    fn is_before(&self, other: &Self) -> (answer: bool) {
        self.country_id < other.country_id
    }
}

impl Ranked for ProductionCity {
    open spec fn ranks_before(self, other: Self) -> bool {
        self.cell < other.cell || (self.cell == other.cell && self.city_id < other.city_id)
    }

    fn is_before(&self, other: &Self) -> (answer: bool) {
        self.cell < other.cell || (self.cell == other.cell && self.city_id < other.city_id)
    }
}

pub open spec fn country_order() -> spec_fn(CountryModel, CountryModel) -> bool {
    |left: CountryModel, right: CountryModel| left.country_id < right.country_id
}

/// Cities by cell, then by identifier.
pub open spec fn city_order() -> spec_fn(CityModel, CityModel) -> bool {
    |left: CityModel, right: CityModel|
        left.cell < right.cell || (left.cell == right.cell && left.city_id < right.city_id)
}

/// Everything that a scenario says about production.
#[derive(Debug)]
pub struct ScenarioProduction {
    pub schema_version: &'static str,
    pub grid: GridSpec,
    pub countries: Vec<ProductionCountry>,
    pub cities: Vec<ProductionCity>,
    pub economy_seeds: Vec<EconomySeed>,
    pub economy_states: Vec<EconomyState>,
    pub counters: ScenarioProductionCounters,
}

} // verus!
