//! What a scenario says: its envelope, its runs and maps, its grid, and the countries and cities
//! of its catalogue with what they begin the war with.

use vstd::prelude::*;
use crate::catalogue::{
    capital_of, cell_fault, city_population, city_row, country_row, entry_country, first_amount,
    land_cells, owned_cells, owned_land, seed_of, settled_country, CityEntryModel,
    CountryEntryModel,
};
use crate::json::FieldModel;
use crate::numbers::{MINUS_N_90, N_0_0001, N_180, N_360, N_90};
use crate::production::{
    army_estimate, cell_at, wrapped_longitude, CityModel, CountryModel, ProductionConfig,
    ProductionError,
};
use crate::scalar::{real_of, Real, ONE_BITS};
use crate::scenario::{
    after_run, decoded_with, described_grid, envelope_of, lies_over, open_sea, province_map, run_at,
    sized_grid, span_over, unfolded, varint_at, Envelope, GridSpec, Maps, MetadataGrid, Plan, Run,
    ScenarioFault,
};
use crate::worksheet::{difference, integer, number_at, product, quotient, sum, Operation};

verus! {

// ---------------------------------------------------------------------------------------------
// Envelopes
// ---------------------------------------------------------------------------------------------

/// The number that four bytes make, the lowest first.
pub open spec fn word(input: Seq<u8>, at: int) -> int {
    input[at] + 256 * (input[at + 1] + 256 * (input[at + 2] + 256 * input[at + 3]))
}

/// An envelope begins with its four letters and version two, has a header of at least its own
/// size, and holds its metadata and then its payload, all within the bytes.
pub proof fn envelopes_hold_their_parts(input: Seq<u8>)
    requires
        input.len() <= usize::MAX,
    ensures
        envelope_of(input) matches Ok(envelope) ==> {
            let header = input[6] + 256 * input[7];
            &&& input.len() >= 20
            &&& input[0] == 0x4d && input[1] == 0x57 && input[2] == 0x53 && input[3] == 0x43
            &&& input[4] == 2
            &&& header >= 20
            &&& envelope.header_bytes == header
            &&& envelope.payload_start == header + word(input, 8)
            &&& envelope.entry_count == word(input, 12)
            &&& envelope.payload_end == envelope.payload_start + word(input, 16)
            &&& envelope.payload_end <= input.len()
        },
        input.len() < 20 ==> envelope_of(input) == Err::<Envelope, ScenarioFault>(
            ScenarioFault::Truncated,
        ),
        input.len() >= 20 && !(input[0] == 0x4d && input[1] == 0x57 && input[2] == 0x53 && input[3]
            == 0x43) ==> envelope_of(input) == Err::<Envelope, ScenarioFault>(
            ScenarioFault::InvalidMagic,
        ),
{
    assert(0x100 * 0x100 == 0x1_0000 && 0x100 * 0x1_0000 == 0x100_0000);
}

/// A number in groups of seven bits is its first group and, where that is marked, a hundred and
/// twenty-eight times the rest; it has at most five groups and fits in thirty-two bits.
pub proof fn numbers_come_in_groups(input: Seq<u8>, at: int)
    requires
        0 <= at < input.len(),
    ensures
        input[at] < 128 ==> varint_at(input, at, 0) == Some((input[at] as nat, at + 1)),
        varint_at(input, at, 0) matches Some((value, next)) ==> {
            &&& at < next <= at + 5
            &&& next <= input.len()
            &&& value % 128 == input[at] % 128
            &&& input[next - 1] < 128
        },
        input[at] >= 128 && at + 1 < input.len() && input[at + 1] < 128 ==> varint_at(input, at, 0)
            == Some((((input[at] - 128) + 128 * input[at + 1]) as nat, at + 2)),
{
    reveal_with_fuel(varint_at, 6);
    if at + 1 < input.len() && input[at] >= 128 && input[at + 1] < 128 {
        assert(varint_at(input, at + 1, 1) == Some((input[at + 1] as nat, at + 2)));
    }
    lemma_group(input, at, 0);
}

proof fn lemma_group(input: Seq<u8>, at: int, group: nat)
    requires
        0 <= at,
        group <= 5,
    ensures
        varint_at(input, at, group) matches Some((value, next)) ==> {
            &&& at < next <= at + 5 - group
            &&& next <= input.len()
            &&& value % 128 == input[at] % 128
            &&& input[next - 1] < 128
        },
    decreases 5 - group,
{
    if group < 5 && at < input.len() {
        lemma_group(input, at + 1, group + 1);
    }
}

/// Folded numbers alternate around zero, starting at zero: even ones are half of themselves, odd
/// ones the next below zero.
pub proof fn folded_numbers_alternate(value: nat)
    ensures
        unfolded(2 * value) == value,
        unfolded(2 * value + 1) == -value - 1,
{
}

/// A run starts where the last one did, moved by a folded number, has a length above zero, and
/// names an owner and a biome.
pub proof fn runs_say_where_and_whose(input: Seq<u8>, at: int, previous: int)
    ensures
        run_at(input, at, previous) matches Ok((run, next)) ==> {
            &&& varint_at(input, at, 0) matches Some((folded, after_start)) && {
                &&& run.start == previous + unfolded(folded)
                &&& varint_at(input, after_start, 0) matches Some((length, after_length)) && {
                    &&& length > 0 && run.length == length as u32
                    &&& varint_at(input, after_length, 0) matches Some((owner, after_owner)) && {
                        &&& run.owner == owner % 65_536
                        &&& varint_at(input, after_owner, 0) matches Some((biome, end))
                            && run.biome == biome % 256 && end == next
                    }
                }
            }
        },
{
}

/// A run of the same grid makes exactly its cells land of its owner, in fact and by right, with
/// its biome; every other cell stays as it was.
pub proof fn runs_paint_their_cells(before: Maps, run: Run, plan: Plan, cell: int)
    requires
        plan.source.same(plan.target),
        before.world_control.len() == before.land.len(),
        before.de_jure.len() == before.land.len(),
        before.biome.len() == before.land.len(),
        0 <= cell < before.land.len(),
    ensures
        ({
            let after = after_run(before, run, plan);
            let covered = run.start <= cell < run.start + run.length;
            &&& covered ==> after.world_control[cell] == run.owner && after.de_jure[cell]
                == run.owner && after.land[cell] == 1 && after.biome[cell] == run.biome
            &&& !covered ==> after.world_control[cell] == before.world_control[cell]
                && after.de_jure[cell] == before.de_jure[cell] && after.land[cell]
                == before.land[cell] && after.biome[cell] == before.biome[cell]
        }),
{
}

/// On another grid a run paints the cells under the ones that it names, and no biome.
pub proof fn runs_paint_what_lies_under_them(before: Maps, run: Run, plan: Plan, cell: int)
    requires
        !plan.source.same(plan.target),
        before.world_control.len() == before.land.len(),
        before.de_jure.len() == before.land.len(),
        before.biome.len() == before.land.len(),
        0 <= cell < before.land.len(),
    ensures
        ({
            let after = after_run(before, run, plan);
            let covered = exists|index: int|
                run.start <= index < run.start + run.length && 0 <= index < plan.source.width
                    * plan.source.height && ({
                    let column = plan.columns[#[trigger] (index % plan.source.width as int)];
                    let row = plan.rows[index / plan.source.width as int];
                    let x = cell % plan.target.width as int;
                    let y = cell / plan.target.width as int;
                    column.start <= x <= column.end && row.start <= y <= row.end
                });
            &&& after.biome[cell] == before.biome[cell]
            &&& covered ==> after.world_control[cell] == run.owner && after.de_jure[cell]
                == run.owner && after.land[cell] == 1
            &&& !covered ==> after.world_control[cell] == before.world_control[cell]
                && after.de_jure[cell] == before.de_jure[cell] && after.land[cell]
                == before.land[cell]
        }),
{
    let after = after_run(before, run, plan);
    let hit = crate::scenario::under_range(plan, run.start as int, run.start + run.length);
    if hit(cell) {
        let index = choose|index: int|
            run.start <= index < run.start + run.length && #[trigger] lies_over(plan, index, cell);
        let column = plan.columns[index % plan.source.width as int];
    }
    if exists|index: int|
        run.start <= index < run.start + run.length && 0 <= index < plan.source.width
            * plan.source.height && ({
            let column = plan.columns[#[trigger] (index % plan.source.width as int)];
            let row = plan.rows[index / plan.source.width as int];
            let x = cell % plan.target.width as int;
            let y = cell / plan.target.width as int;
            column.start <= x <= column.end && row.start <= y <= row.end
        }) {
        let index = choose|index: int|
            run.start <= index < run.start + run.length && 0 <= index < plan.source.width
                * plan.source.height && ({
                let column = plan.columns[#[trigger] (index % plan.source.width as int)];
                let row = plan.rows[index / plan.source.width as int];
                let x = cell % plan.target.width as int;
                let y = cell / plan.target.width as int;
                column.start <= x <= column.end && row.start <= y <= row.end
            });
        assert(lies_over(plan, index, cell));
    }
}

/// Before the first run there is no land anywhere.
pub proof fn maps_begin_as_open_sea(cells: nat, cell: int)
    requires
        0 <= cell < cells,
    ensures
        open_sea(cells).world_control[cell] == 0,
        open_sea(cells).de_jure[cell] == 0,
        open_sea(cells).land[cell] == 0,
        open_sea(cells).biome[cell] == 0,
        open_sea(cells).land.len() == cells,
{
}

/// A grid has as many cells as its resolution needs to cover the world, and the resolution that
/// was asked for.
pub proof fn grids_cover_the_world(
    results: Map<Operation, u64>,
    grid_res: Real,
    width_deg: Real,
    height_deg: Real,
)
    ensures
        sized_grid(results, grid_res, width_deg, height_deg) matches Ok(grid) ==> {
            &&& grid.grid_res == grid_res
            &&& grid_res.finite() && real_of(0).lt(grid_res)
            &&& real_of(0).lt(width_deg) && real_of(0).lt(height_deg)
            &&& grid.width == results[Operation::Whole(
                number_at(results, Operation::Ceiling(quotient(results, width_deg, grid_res))),
            )]
            &&& grid.height == results[Operation::Whole(
                number_at(results, Operation::Ceiling(quotient(results, height_deg, grid_res))),
            )]
            &&& grid.width * grid.height <= usize::MAX
        },
{
}

/// A scenario's own grid has the resolution of its metadata and covers the degrees that it names,
/// or the whole globe where it names none above zero.
pub proof fn metadata_describes_the_grid(results: Map<Operation, u64>, numbers: MetadataGrid)
    ensures
        numbers.grid_res is None ==> described_grid(results, numbers) is Err,
        described_grid(results, numbers) matches Ok(grid) ==> {
            let width = if numbers.world_width is Some && numbers.world_width->0.finite()
                && real_of(0).lt(numbers.world_width->0) {
                numbers.world_width->0
            } else {
                real_of(N_360)
            };
            let height = if numbers.world_height is Some && numbers.world_height->0.finite()
                && real_of(0).lt(numbers.world_height->0) {
                numbers.world_height->0
            } else {
                real_of(N_180)
            };
            &&& Some(grid.grid_res) == numbers.grid_res
            &&& grid.width == results[Operation::Whole(
                number_at(results, Operation::Ceiling(quotient(results, width, grid.grid_res))),
            )]
            &&& grid.height == results[Operation::Whole(
                number_at(results, Operation::Ceiling(quotient(results, height, grid.grid_res))),
            )]
        },
{
}

/// A scenario is decoded onto the grid that was asked for, and onto its own where none was.
pub proof fn scenarios_are_decoded_onto_a_grid(
    results: Map<Operation, u64>,
    input: Seq<u8>,
    envelope: Envelope,
    metadata: crate::json::Json,
    target: Option<GridSpec>,
)
    ensures
        decoded_with(results, input, envelope, metadata, target) matches Ok(scenario) ==> {
            &&& target matches Some(grid) ==> scenario.target == grid
            &&& target is None ==> scenario.target == scenario.source
            &&& scenario.entry_count == envelope.entry_count
            &&& scenario.metadata == metadata
            &&& scenario.target.width > 0 && scenario.target.height > 0
            &&& real_of(0).lt(scenario.target.grid_res)
            &&& scenario.province.len() == scenario.maps.world_control.len()
        },
{
}

/// The rows and columns of one grid under those of another are those from where it begins to just
/// before it ends.
pub proof fn spans_reach_from_end_to_end(
    results: Map<Operation, u64>,
    position: u64,
    source_res: Real,
    target_res: Real,
    shift: Real,
    near: Real,
)
    requires
        near == difference(results, product(results, integer(results, position), source_res), shift),
    ensures
        ({
            let span = span_over(results, position, source_res, target_res, shift);
            let first = results[Operation::Signed(
                number_at(
                    results,
                    Operation::Floor(quotient(results, sum(results, near, shift), target_res)),
                ),
            )];
            let last = results[Operation::Signed(
                number_at(
                    results,
                    Operation::Floor(
                        quotient(
                            results,
                            difference(
                                results,
                                sum(results, sum(results, near, source_res), shift),
                                real_of(N_0_0001),
                            ),
                            target_res,
                        ),
                    ),
                ),
            )];
            &&& first <= i64::MAX ==> span.start == first
            &&& last <= i64::MAX ==> span.end == last
        }),
{
}

/// Cells without an owner have no province.
pub proof fn unowned_cells_have_no_province(
    results: Map<Operation, u64>,
    owners: Seq<u16>,
    grid: GridSpec,
    cell: int,
)
    requires
        0 <= cell < owners.len(),
        owners[cell] == 0,
    ensures
        province_map(results, owners, grid)[cell] == 0,
{
}

// ---------------------------------------------------------------------------------------------
// Countries and cities
// ---------------------------------------------------------------------------------------------

/// A place lies in the cell of its column and row: by its longitude east of the left edge and its
/// latitude north of the lower one, the last row taking in the pole.
pub proof fn places_lie_in_a_cell(
    results: Map<Operation, u64>,
    grid: GridSpec,
    lat: Real,
    lng: Real,
    column: u64,
    row: u64,
)
    requires
        column == results[Operation::Whole(
            number_at(
                results,
                Operation::Floor(
                    quotient(
                        results,
                        sum(results, wrapped_longitude(results, lng), real_of(N_180)),
                        grid.grid_res,
                    ),
                ),
            ),
        )],
        row == results[Operation::Whole(
            number_at(
                results,
                Operation::Floor(
                    quotient(
                        results,
                        sum(
                            results,
                            if lat.lt(real_of(MINUS_N_90)) {
                                real_of(MINUS_N_90)
                            } else if real_of(N_90).lt(lat) {
                                real_of(N_90)
                            } else {
                                lat
                            },
                            real_of(N_90),
                        ),
                        grid.grid_res,
                    ),
                ),
            ),
        )],
    ensures
        cell_at(results, grid, lat, lng) matches Some(cell) ==> {
            &&& lat.finite() && lng.finite()
            &&& column < grid.width
            &&& row < grid.height ==> cell == row * grid.width + column
            &&& row >= grid.height ==> cell == (grid.height - 1) * grid.width + column
            &&& 0 <= cell < grid.width * grid.height
        },
        !lat.finite() || !lng.finite() ==> cell_at(results, grid, lat, lng) is None,
{
    if let Some(cell) = cell_at(results, grid, lat, lng) {
        let line: int = if row < grid.height {
            row as int
        } else {
            grid.height - 1
        };
        assert(line * grid.width + column < grid.width * grid.height) by (nonlinear_arith)
            requires
                0 <= line < grid.height,
                0 <= column < grid.width,
        ;
        assert(0 <= line * grid.width) by (nonlinear_arith)
            requires
                0 <= line,
                0 <= grid.width,
        ;
    }
}

/// An army is estimated by its land, thinned out above the reference, and is never smaller than
/// the least nor larger than the most that the rules allow.
pub proof fn armies_are_estimated_by_land(
    results: Map<Operation, u64>,
    cell_count: u64,
    config: ProductionConfig,
    cells: Real,
    by_land: Real,
)
    requires
        cells == integer(results, if cell_count > 0 { cell_count } else { 1 }),
        by_land == number_at(
            results,
            Operation::Floor(
                product(
                    results,
                    product(results, cells, config.unit_density_factor),
                    quotient(
                        results,
                        real_of(ONE_BITS),
                        number_at(
                            results,
                            Operation::Power(
                                quotient(
                                    results,
                                    cells,
                                    config.density_reference_cells,
                                ).max_of(real_of(ONE_BITS)),
                                config.density_exponent,
                            ),
                        ),
                    ),
                ),
            ),
        ),
        !integer(results, config.min_expected_army_units as u64).nan(),
        !integer(results, config.max_units_per_side as u64).nan(),
    ensures
        army_estimate(results, cell_count, config) is Ok <==> config.valid() && by_land.finite(),
        army_estimate(results, cell_count, config) matches Ok(units) ==> {
            let least = integer(results, config.min_expected_army_units as u64);
            let most = integer(results, config.max_units_per_side as u64);
            &&& units.le(most)
            &&& least.le(most) ==> least.le(units)
            &&& least.le(by_land) && by_land.le(most) ==> units.same(by_land)
            &&& by_land.lt(least) && least.le(most) ==> units.same(least)
            &&& most.lt(by_land) ==> units == most
        },
{
}

/// The first amount that is given counts, otherwise the second, and nothing where neither is; an
/// amount is a number not below zero.
pub proof fn amounts_are_numbers_not_below_zero(first: FieldModel, second: FieldModel)
    ensures
        ({
            let none = |field: FieldModel| field is Absent || field is Null;
            let given = if none(first) { second } else { first };
            &&& none(first) && none(second) ==> first_amount(first, second) == Ok::<
                Real,
                &'static str,
            >(real_of(0))
            &&& first_amount(first, second) matches Ok(amount) ==> amount.finite_nonnegative() && (
            none(given) || given.number() == Some(amount))
        }),
{
}

/// A country's row holds what its entry says of it, and nothing yet of its land.
pub proof fn countries_are_what_their_entries_say(
    entry: CountryEntryModel,
    index: usize,
    country_id: u16,
)
    ensures
        country_row(entry, index, country_id) matches Ok(row) ==> {
            &&& row.country_id == country_id
            &&& entry.gdp.number() matches Some(gdp) ==> !(entry.gdp is Absent || entry.gdp
                is Null) ==> row.gdp == gdp
            &&& !(entry.pop is Absent || entry.pop is Null) ==> entry.pop.number() == Some(
                row.population,
            )
            &&& (entry.pop is Absent || entry.pop is Null) && !(entry.population is Absent
                || entry.population is Null) ==> entry.population.number() == Some(row.population)
            &&& row.is_rebel == entry.is_rebel.flagged()
            &&& row.initial_core_cells == 0 && row.initial_owned_land_cells == 0
            &&& row.capital_cell is None
            &&& entry.name matches FieldModel::Text(text) ==> !crate::catalogue::blank(text)
                ==> row.name == text
        },
{
}

/// A city's row holds what its entry says of it: its place, its people, whether it is a capital,
/// and the owner that it names or else that of the land.
pub proof fn cities_are_what_their_entries_say(
    results: Map<Operation, u64>,
    entry: CityEntryModel,
    index: usize,
    city_id: u64,
    grid: GridSpec,
    world_control: Seq<u16>,
    ids: Set<u16>,
)
    requires
        grid.width * grid.height <= usize::MAX,
    ensures
        city_row(results, entry, index, city_id, grid, world_control, ids) matches Ok(city) ==> {
            let silent = |field: FieldModel| field is Absent || field is Null;
            &&& city.city_id == city_id
            &&& entry.lat.number() == Some(city.lat)
            &&& entry.lng.number() matches Some(lng) && {
                &&& city.lng == wrapped_longitude(results, lng)
                &&& cell_at(results, grid, city.lat, lng) matches Some(cell) && {
                    &&& city.cell == cell as usize
                    &&& silent(entry.owner_id) && silent(entry.sovereign_id) ==> city.owner_id
                        == world_control[cell]
                }
            }
            &&& !silent(entry.owner_id) ==> entry.owner_id.whole() == Some(city.owner_id as u64)
            &&& silent(entry.owner_id) && !silent(entry.sovereign_id) ==> entry.sovereign_id.whole()
                == Some(city.owner_id as u64)
            &&& city.owner_id == 0 || ids.contains(city.owner_id)
            &&& !silent(entry.pop) ==> entry.pop.number() == Some(city.population)
            &&& silent(entry.pop) && !silent(entry.population) ==> entry.population.number() == Some(
                city.population,
            )
            &&& city.capital == entry.is_capital.flagged()
        },
{
}

/// A country begins with the land that it owns, the people of its own cities, and its first
/// capital.
pub proof fn countries_begin_with_what_they_own(
    results: Map<Operation, u64>,
    country: CountryModel,
    cities: Seq<CityModel>,
    world_control: Seq<u16>,
    land: Seq<u8>,
)
    requires
        country.country_id != 0,
        world_control.len() == land.len(),
        land.len() <= u32::MAX,
    ensures
        ({
            let after = settled_country(results, country, cities, world_control, land);
            let owned = owned_land(world_control, land, country.country_id);
            &&& after.initial_core_cells == owned && after.initial_owned_land_cells == owned
            &&& after.initial_city_population == city_population(
                results,
                cities,
                country.country_id,
                cities.len(),
            )
            &&& after.capital_cell == capital_of(cities, country.country_id, cities.len())
            &&& after.country_id == country.country_id && after.name == country.name && after.gdp
                == country.gdp && after.population == country.population && after.is_rebel
                == country.is_rebel
        }),
{
    lemma_owned(world_control, land, country.country_id, land.len());
}

proof fn lemma_owned(world_control: Seq<u16>, land: Seq<u8>, owner: u16, count: nat)
    requires
        count <= land.len(),
    ensures
        owned_cells(world_control, land, owner, count) <= count,
    decreases count,
{
    if count > 0 {
        lemma_owned(world_control, land, owner, (count - 1) as nat);
    }
}

/// One more cell adds to the land of the country that controls it, and to no other; water adds to
/// none.
pub proof fn land_counts_for_its_owner(
    world_control: Seq<u16>,
    land: Seq<u8>,
    owner: u16,
    count: nat,
)
    requires
        0 < count <= land.len(),
    ensures
        ({
            let before = owned_cells(world_control, land, owner, (count - 1) as nat);
            let after = owned_cells(world_control, land, owner, count);
            let mine = land[count - 1] != 0 && world_control[count - 1] == owner;
            &&& mine ==> after == before + 1
            &&& !mine ==> after == before
            &&& land[count - 1] != 0 ==> land_cells(land, count) == land_cells(
                land,
                (count - 1) as nat,
            ) + 1
            &&& land[count - 1] == 0 ==> land_cells(land, count) == land_cells(
                land,
                (count - 1) as nat,
            )
        }),
{
}

/// One more city adds its people to its owner, and is the owner's capital where it is one and the
/// owner had none.
pub proof fn cities_count_for_their_owner(
    results: Map<Operation, u64>,
    cities: Seq<CityModel>,
    country_id: u16,
    count: nat,
)
    requires
        0 < count <= cities.len(),
        country_id != 0,
    ensures
        ({
            let city = cities[count - 1];
            let before = (count - 1) as nat;
            let people = city_population(results, cities, country_id, before);
            let all = city_population(results, cities, country_id, count);
            let had = capital_of(cities, country_id, before);
            let has = capital_of(cities, country_id, count);
            &&& city.owner_id == country_id ==> all == sum(results, people, city.population)
            &&& city.owner_id != country_id ==> all == people
            &&& had is Some ==> has == had
            &&& had is None && city.owner_id == country_id && city.capital ==> has == Some(city.cell)
            &&& had is None && !(city.owner_id == country_id && city.capital) ==> has is None
        }),
{
}

/// An economy is opened with what the country is and has: its product, its people, its land, the
/// people of its cities, and the army that was estimated for it.
pub proof fn economies_open_with_what_there_is(country: CountryModel, units: Real)
    ensures
        ({
            let seed = seed_of(country, units);
            &&& seed.country_id == country.country_id
            &&& seed.gdp == country.gdp && seed.population == country.population
            &&& seed.territory_units == units
            &&& seed.initial_core_cells == country.initial_core_cells
            &&& seed.initial_city_population == country.initial_city_population
        }),
{
}

/// A cell of land may only be owned, in fact or by right, by a country of the catalogue.
pub proof fn land_belongs_to_known_countries(
    world_control: Seq<u16>,
    de_jure: Seq<u16>,
    land: Seq<u8>,
    ids: Set<u16>,
    cell: int,
)
    ensures
        land[cell] == 0 ==> cell_fault(world_control, de_jure, land, ids, cell) is None,
        cell_fault(world_control, de_jure, land, ids, cell) is None && land[cell] != 0 ==> {
            &&& de_jure[cell] == 0 || ids.contains(de_jure[cell])
            &&& world_control[cell] == 0 || ids.contains(world_control[cell])
        },
{
}

/// A country's identifier is a whole number from one to the largest of sixteen bits; zero stands
/// for no country.
pub proof fn countries_have_small_identifiers(entry: CountryEntryModel, index: usize)
    ensures
        entry_country(entry, index) matches Ok(Some(id)) ==> id > 0 && entry.id.whole() == Some(
            id as u64,
        ),
        entry_country(entry, index) == Ok::<Option<u16>, ProductionError>(None)
            ==> entry.id.whole() == Some(0u64),
        entry.is_object && entry.id.whole() == Some(0u64) ==> entry_country(entry, index) == Ok::<
            Option<u16>,
            ProductionError,
        >(None),
        !entry.is_object ==> entry_country(entry, index) is Err,
{
}

} // verus!
