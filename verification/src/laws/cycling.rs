//! What a strategic cycle is told: what was counted of each country and each occupation, who still
//! fights, and whom.

use vstd::prelude::*;
use crate::numbers::{N_100, N_1000, N_3};
use crate::order::{lemma_permutation_contains, rank_order, stable_sort_orders};
use crate::production::{cell_at, ProductionConfig};
use crate::scalar::{real_of, Real, ONE_BITS};
use crate::simulation::UnitSnapshot;
use crate::strategic::{
    amount_at, count_at, cycle_countries, cycle_country, cycle_occupation, derived_cycle,
    garrisoned, mapping_fault, mappings_fault, mustered, CountryAggregate, CountryCycleInput,
    Muster, StrategicDerivationInput,
};
use crate::tables::{ascending, countries_can_be_ordered};
use crate::worksheet::{integer, product, quotient, sum, Operation};

verus! {

/// Whether a formation on a frame is counted among those of a country: it lives, and is on foot or
/// has vehicles.
pub open spec fn is_counted(unit: UnitSnapshot, country_id: u16) -> bool {
    &&& !unit.health.le(real_of(0))
    &&& unit.sovereign == country_id
    &&& unit.kind is Army || unit.equipment > 0
}

/// What the first formations of a country are owed for a cycle, added up in their order: one for
/// every thousand men on foot that they can have, three for every hundred vehicles that they do
/// have.
pub open spec fn owed(
    results: Map<Operation, u64>,
    units: Seq<UnitSnapshot>,
    country_id: u16,
    count: nat,
) -> Real
    decreases count,
{
    if count == 0 {
        real_of(0)
    } else {
        let rest = owed(results, units, country_id, (count - 1) as nat);
        let unit = units[count - 1];
        if unit.health.le(real_of(0)) || unit.sovereign != country_id {
            rest
        } else if unit.kind is Army {
            sum(
                results,
                rest,
                quotient(results, integer(results, unit.personnel_capacity), real_of(N_1000)),
            )
        } else {
            sum(
                results,
                rest,
                product(
                    results,
                    quotient(results, integer(results, unit.equipment), real_of(N_100)),
                    real_of(N_3),
                ),
            )
        }
    }
}

proof fn lemma_muster(
    results: Map<Operation, u64>,
    source: StrategicDerivationInput<'_>,
    country_id: u16,
    count: nat,
)
    requires
        count <= source.frame.units@.len(),
    ensures
        mustered(results, source, count) matches Ok(muster) ==> {
            &&& amount_at(muster.payroll, country_id) == owed(
                results,
                source.frame.units@,
                country_id,
                count,
            )
            &&& count_at(muster.unit_counts, country_id) == source.frame.units@.take(
                count as int,
            ).filter(|unit: UnitSnapshot| is_counted(unit, country_id)).len()
            &&& muster.payroll_units == source.frame.units@.take(count as int).filter(
                |unit: UnitSnapshot| !unit.health.le(real_of(0)),
            ).len()
        },
    decreases count,
{
    reveal(Seq::filter);
    let units = source.frame.units@;
    if count > 0 {
        let before = (count - 1) as nat;
        lemma_muster(results, source, country_id, before);
        assert(units.take(count as int).drop_last() =~= units.take(before as int));
        assert(units.take(count as int).last() == units[before as int]);
    }
}

/// Whether the territory counted a country so.
pub open spec fn counted_so(
    source: StrategicDerivationInput<'_>,
    told: CountryCycleInput,
    counted: CountryAggregate,
) -> bool {
    &&& counted.country_id == told.country_id
    &&& told.owned_cells == counted.owned
    &&& told.controlled_cells == counted.controlled
    &&& told.core_controlled == counted.core_controlled
    &&& told.city_population_controlled == counted.city_population_controlled
    &&& told.capital_held == counted.capital_held
}

proof fn lemma_countries_told(
    source: StrategicDerivationInput<'_>,
    muster: Muster,
    keys: Seq<u16>,
    count: nat,
)
    requires
        count <= keys.len(),
    ensures
        cycle_countries(source, muster, keys, count) matches Ok(countries) ==> {
            &&& countries.len() == count
            &&& forall|i: int|
                0 <= i < count ==> cycle_country(source, muster, keys[i]) == Ok::<
                    CountryCycleInput,
                    crate::production::ProductionError,
                >(#[trigger] countries[i])
        },
    decreases count,
{
    if count > 0 {
        lemma_countries_told(source, muster, keys, (count - 1) as nat);
    }
}

proof fn lemma_mappings(source: StrategicDerivationInput<'_>, keys: Seq<u16>, from: int, i: int)
    requires
        mappings_fault(source, keys, from) is None,
        0 <= from <= i < keys.len(),
    ensures
        mapping_fault(source, keys[i]) is None,
    decreases i - from,
{
    if from < i {
        lemma_mappings(source, keys, from + 1, i);
    }
}

/// A strategic cycle is told of every country what the territory counted of it, on which side it
/// fights, whether it still does, how many formations it has and what it owes them.
pub proof fn cycles_are_told_what_was_counted(
    results: Map<Operation, u64>,
    source: StrategicDerivationInput<'_>,
    config: ProductionConfig,
)
    ensures
        derived_cycle(results, source, config) matches Ok(model) ==> forall|i: int|
            0 <= i < model.countries.len() ==> {
                let told = #[trigger] model.countries[i];
                let units = source.frame.units@;
                &&& source.country_to_side@.contains_key(told.country_id)
                &&& told.side == source.country_to_side@[told.country_id]
                &&& told.active == !source.economies@[told.country_id].capitulated
                &&& told.initial_cells == source.economies@[told.country_id].initial_core_cells
                &&& told.unit_count == units.filter(
                    |unit: UnitSnapshot| is_counted(unit, told.country_id),
                ).len()
                &&& told.payroll_due == owed(results, units, told.country_id, units.len())
                &&& exists|k: int|
                    0 <= k < source.territory.countries@.len() && counted_so(
                        source,
                        told,
                        #[trigger] source.territory.countries@[k],
                    )
                &&& exists|k: int|
                    0 <= k < source.scenario.countries@.len() && (
                    #[trigger] source.scenario.countries@[k]).country_id == told.country_id
                        && source.scenario.countries@[k].is_rebel == told.is_rebel
            },
{
    if let Ok(model) = derived_cycle(results, source, config) {
        let units = source.frame.units@;
        let keys = ascending(source.country_to_side@.dom());
        let muster = mustered(results, source, units.len())->Ok_0;
        let listed = cycle_countries(source, muster, keys, keys.len())->Ok_0;
        let order = rank_order::<CountryCycleInput>();
        countries_can_be_ordered(source.country_to_side@.dom());
        lemma_countries_told(source, muster, keys, keys.len());
        stable_sort_orders(listed, order);
        lemma_permutation_contains(model.countries, listed);
        assert(units.take(units.len() as int) =~= units);
        assert forall|i: int| 0 <= i < model.countries.len() implies ({
            let told = #[trigger] model.countries[i];
            &&& source.country_to_side@.contains_key(told.country_id)
            &&& told.side == source.country_to_side@[told.country_id]
            &&& told.active == !source.economies@[told.country_id].capitulated
            &&& told.initial_cells == source.economies@[told.country_id].initial_core_cells
            &&& told.unit_count == units.filter(
                |unit: UnitSnapshot| is_counted(unit, told.country_id),
            ).len()
            &&& told.payroll_due == owed(results, units, told.country_id, units.len())
            &&& exists|k: int|
                0 <= k < source.territory.countries@.len() && counted_so(
                    source,
                    told,
                    #[trigger] source.territory.countries@[k],
                )
            &&& exists|k: int|
                0 <= k < source.scenario.countries@.len() && (
                #[trigger] source.scenario.countries@[k]).country_id == told.country_id
                    && source.scenario.countries@[k].is_rebel == told.is_rebel
        }) by {
            let told = model.countries[i];
            assert(model.countries.contains(told));
            let at = choose|at: int| 0 <= at < listed.len() && listed[at] == told;
            assert(cycle_country(source, muster, keys[at]) is Ok);
            assert(keys.contains(keys[at]));
            lemma_mappings(source, keys, 0, at);
            lemma_muster(results, source, keys[at], units.len());
            lemma_listed(source.scenario.countries@, keys[at], source.scenario.countries@.len());
            let aggregates = source.territory.countries@;
            let k = choose|k: int|
                0 <= k < aggregates.len() && (#[trigger] aggregates[k]).country_id == keys[at];
            assert(counted_so(source, told, aggregates[k]));
        }
    }
}

proof fn lemma_listed(
    countries: Seq<crate::production::ProductionCountry>,
    country_id: u16,
    count: nat,
)
    requires
        count <= countries.len(),
    ensures
        crate::strategic::listed_country(countries, country_id, count) matches Some(found)
            ==> exists|k: int|
            0 <= k < count && #[trigger] countries[k] == found && found.country_id == country_id,
    decreases count,
{
    if count > 0 {
        lemma_listed(countries, country_id, (count - 1) as nat);
        if countries[count - 1].country_id == country_id {
            assert(countries[count - 1] == crate::strategic::listed_country(
                countries,
                country_id,
                count,
            )->0);
        } else if crate::strategic::listed_country(countries, country_id, count) is Some {
            let k = choose|k: int|
                0 <= k < count - 1 && #[trigger] countries[k]
                    == crate::strategic::listed_country(countries, country_id, (count - 1) as nat)->0;
            assert(countries[k].country_id == country_id);
        }
    }
}

/// A strategic cycle is told of countries side by side, and within a side by country.
pub proof fn countries_come_side_by_side(
    results: Map<Operation, u64>,
    source: StrategicDerivationInput<'_>,
    config: ProductionConfig,
)
    ensures
        derived_cycle(results, source, config) matches Ok(model) ==> forall|i: int, j: int|
            #![trigger model.countries[i], model.countries[j]]
            0 <= i < j < model.countries.len() ==> {
                ||| model.countries[i].side < model.countries[j].side
                ||| model.countries[i].side == model.countries[j].side
                    && model.countries[i].country_id < model.countries[j].country_id
            },
{
    crate::strategic::cycle_countries_are_ordered(results, source, config);
}

/// The sides that take part are those of a country that did not give up.
pub proof fn sides_take_part_while_a_country_fights(
    results: Map<Operation, u64>,
    source: StrategicDerivationInput<'_>,
    config: ProductionConfig,
    side: u16,
)
    ensures
        derived_cycle(results, source, config) matches Ok(model) ==> {
            &&& model.active_sides.contains(side) <==> exists|country: u16| #[trigger]
                source.country_to_side@.contains_key(country) && source.country_to_side@[country]
                    == side && !source.economies@[country].capitulated
            &&& model.embattled_sides.contains(side) <==> model.active_sides.contains(side)
                && exists|i: int|
                0 <= i < model.active_sides.len() && #[trigger] model.active_sides[i] != side
                    && source.hostility_matrix@[side * source.side_count + model.active_sides[i]]
                    == 1
        },
{
    if let Ok(model) = derived_cycle(results, source, config) {
        let keys = ascending(source.country_to_side@.dom());
        countries_can_be_ordered(source.country_to_side@.dom());
        let fighting = crate::strategic::fighting_sides(source, keys, keys.len());
        crate::strategic::active_sides_still_fight(source, keys, keys.len(), side);
        countries_can_be_ordered(fighting);
        crate::strategic::embattled_sides_have_enemies(
            source.hostility_matrix@,
            source.side_count as int,
            model.active_sides,
            side,
        );
        if exists|country: u16| #[trigger]
            source.country_to_side@.contains_key(country) && source.country_to_side@[country]
                == side && !source.economies@[country].capitulated {
            let country = choose|country: u16| #[trigger]
                source.country_to_side@.contains_key(country) && source.country_to_side@[country]
                    == side && !source.economies@[country].capitulated;
            assert(keys.contains(country));
            let i = choose|i: int| 0 <= i < keys.len() && keys[i] == country;
            assert(!source.economies@[keys[i]].capitulated);
        }
        if model.active_sides.contains(side) {
            let i = choose|i: int|
                0 <= i < keys.len() && !source.economies@[#[trigger] keys[i]].capitulated
                    && source.country_to_side@[keys[i]] as u16 == side;
            assert(keys.contains(keys[i]));
            lemma_mappings(source, keys, 0, i);
            assert(source.country_to_side@.contains_key(keys[i]));
        }
    }
}

/// A formation garrisons an occupied country exactly where it is on foot, stands on that country's
/// rightful land, and fights for the side of the occupier; it counts with its men by the thousand.
pub proof fn garrisons_stand_on_occupied_land(
    results: Map<Operation, u64>,
    source: StrategicDerivationInput<'_>,
    muster: Muster,
    unit: UnitSnapshot,
)
    ensures
        ({
            let cell = cell_at(results, source.grid, unit.lat, unit.lng);
            let victim = source.de_jure@[cell->0];
            let joins = unit.kind is Army && cell is Some && source.occupations@.contains_key(
                victim,
            ) && source.country_to_side@.contains_key(source.occupations@[victim].annexer_id)
                && source.country_to_side@[source.occupations@[victim].annexer_id] == unit.side;
            garrisoned(results, source, muster, unit) matches Ok(after) ==> {
                &&& !joins ==> after == muster
                &&& joins ==> {
                    &&& amount_at(after.garrisons, victim) == sum(
                        results,
                        amount_at(muster.garrisons, victim),
                        quotient(results, integer(results, unit.personnel), real_of(N_1000)),
                    )
                    &&& after.garrison_units == muster.garrison_units + 1
                    &&& forall|other: u16|
                        other != victim ==> #[trigger] amount_at(after.garrisons, other)
                            == amount_at(muster.garrisons, other)
                    &&& after.payroll == muster.payroll && after.unit_counts == muster.unit_counts
                }
            }
        }),
{
}

/// A strategic cycle is told of an occupation how much of the victim's land the occupier's side
/// holds, how strong its garrison is, and how heavy its losses weigh against the army that was
/// expected, between nothing and one.
pub proof fn occupations_are_told_as_they_stand(
    results: Map<Operation, u64>,
    source: StrategicDerivationInput<'_>,
    muster: Muster,
    victim: u16,
)
    ensures
        cycle_occupation(results, source, muster, victim) matches Ok(told) ==> {
            let state = source.occupations@[victim];
            let side = source.country_to_side@[state.annexer_id];
            &&& told.victim_id == victim
            &&& told.garrison_strength == amount_at(muster.garrisons, victim)
            &&& told.casualty_pressure.unit_interval()
            &&& exists|k: int|
                0 <= k < source.territory.countries@.len() && ({
                    let counted = #[trigger] source.territory.countries@[k];
                    &&& counted.country_id == victim
                    &&& counted.de_jure_control_by_side@.contains_key(side) ==> told.held_cells
                        == counted.de_jure_control_by_side@[side]
                    &&& !counted.de_jure_control_by_side@.contains_key(side) ==> told.held_cells
                        == 0
                })
            &&& told.held_cells <= state.core_cells
            &&& ({
                let expected = product(results, state.expected_army_units, real_of(N_1000));
                let weight = quotient(
                    results,
                    amount_at(source.casualties@, victim),
                    if expected.le(real_of(ONE_BITS)) || expected.nan() {
                        real_of(ONE_BITS)
                    } else {
                        expected
                    },
                );
                real_of(0).le(weight) && weight.le(real_of(ONE_BITS)) && !expected.same(
                    real_of(ONE_BITS),
                ) ==> told.casualty_pressure == weight
            })
        },
{
    if let Ok(told) = cycle_occupation(results, source, muster, victim) {
        let aggregates = source.territory.countries@;
        let k = choose|k: int|
            0 <= k < aggregates.len() && (#[trigger] aggregates[k]).country_id == victim;
        assert(aggregates[k].country_id == victim);
    }
}

} // verus!
