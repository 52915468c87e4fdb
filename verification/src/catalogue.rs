//! Scenario metadata: from the entries of a document to the baselines of countries and cities.

use std::collections::{BTreeMap, BTreeSet};
use vstd::prelude::*;
use crate::economy::EconomyState;
use crate::json::{
    field_at, json_contents, json_member, member_of, read_field, Field, FieldModel, Json,
};
use crate::order::{
    distinct_keys, lemma_permutation_contains, lemma_sort_commutes,
    lemma_sorted_distinct_is_strict, permutation, rank_order, sort_stable, sorted,
    stable_sort_orders, stable_sorted, strictly_sorted, Keyed,
};
use crate::production::{
    army_estimate, cell_at, cell_supplied, checked_grid, city_order, country_order, enforce_limit,
    estimate_army, estimate_supplied, grid_index, usable_grid, validate_config, wrap_longitude,
    wrapped_longitude, wrapping_supplied, CityModel, CountryModel, EconomySeed, ProductionCity,
    ProductionConfig, ProductionCountry, ProductionError, ScenarioProduction,
    ScenarioProductionCounters, PRODUCTION_SCHEMA_VERSION,
};
use crate::scalar::{real_of, Real};
use crate::scenario::{positive, DecodedScenario, GridSpec};
use crate::text::{decimal, decimal_text, fnv_hash, fnv_of};
use crate::units::KernelFault;
use crate::views::{lemma_views_push, shown, views};
use crate::worksheet::{all_missing, integer, sum, Operation, Reader, Stop, Worksheet};

verus! {

/// A country entry of the metadata.
#[derive(Debug)]
pub struct CountryEntry {
    pub is_object: bool,
    pub id: Field,
    pub gdp: Field,
    pub pop: Field,
    pub population: Field,
    pub name: Field,
    pub is_rebel: Field,
}

/// What a [`CountryEntry`] says.
pub ghost struct CountryEntryModel {
    pub is_object: bool,
    pub id: FieldModel,
    pub gdp: FieldModel,
    pub pop: FieldModel,
    pub population: FieldModel,
    pub name: FieldModel,
    pub is_rebel: FieldModel,
}

impl View for CountryEntry {
    type V = CountryEntryModel;

    open spec fn view(&self) -> CountryEntryModel {
        CountryEntryModel {
            is_object: self.is_object,
            id: self.id@,
            gdp: self.gdp@,
            pop: self.pop@,
            population: self.population@,
            name: self.name@,
            is_rebel: self.is_rebel@,
        }
    }
}

/// A city entry of the metadata.
#[derive(Debug)]
pub struct CityEntry {
    pub is_object: bool,
    pub id: Field,
    pub lat: Field,
    pub lng: Field,
    pub pop: Field,
    pub population: Field,
    pub owner_id: Field,
    pub sovereign_id: Field,
    pub name: Field,
    pub is_capital: Field,
}

/// What a [`CityEntry`] says.
pub ghost struct CityEntryModel {
    pub is_object: bool,
    pub id: FieldModel,
    pub lat: FieldModel,
    pub lng: FieldModel,
    pub pop: FieldModel,
    pub population: FieldModel,
    pub owner_id: FieldModel,
    pub sovereign_id: FieldModel,
    pub name: FieldModel,
    pub is_capital: FieldModel,
}

impl View for CityEntry {
    type V = CityEntryModel;

    open spec fn view(&self) -> CityEntryModel {
        CityEntryModel {
            is_object: self.is_object,
            id: self.id@,
            lat: self.lat@,
            lng: self.lng@,
            pop: self.pop@,
            population: self.population@,
            owner_id: self.owner_id@,
            sovereign_id: self.sovereign_id@,
            name: self.name@,
            is_capital: self.is_capital@,
        }
    }
}

/// The entries of a scenario.
#[derive(Debug)]
pub struct Catalogue {
    pub countries: Option<Vec<CountryEntry>>,
    pub cities: Vec<CityEntry>,
}

/// What a [`Catalogue`] says.
pub ghost struct CatalogueModel {
    pub countries: Option<Seq<CountryEntryModel>>,
    pub cities: Seq<CityEntryModel>,
}

impl View for Catalogue {
    type V = CatalogueModel;

    open spec fn view(&self) -> CatalogueModel {
        CatalogueModel {
            countries: match self.countries {
                Some(entries) => Some(views(entries@)),
                None => None,
            },
            cities: views(self.cities@),
        }
    }
}

pub open spec fn country_entry(value: Json) -> CountryEntryModel {
    CountryEntryModel {
        is_object: value is Table,
        id: field_at(value, "id"@),
        gdp: field_at(value, "gdp"@),
        pop: field_at(value, "pop"@),
        population: field_at(value, "population"@),
        name: field_at(value, "name"@),
        is_rebel: field_at(value, "isRebel"@),
    }
}

pub open spec fn city_entry(value: Json) -> CityEntryModel {
    CityEntryModel {
        is_object: value is Table,
        id: field_at(value, "id"@),
        lat: field_at(value, "lat"@),
        lng: field_at(value, "lng"@),
        pop: field_at(value, "pop"@),
        population: field_at(value, "population"@),
        owner_id: field_at(value, "ownerId"@),
        sovereign_id: field_at(value, "sovereignId"@),
        name: field_at(value, "name"@),
        is_capital: field_at(value, "isCapital"@),
    }
}

pub open spec fn list_of(value: Option<Json>) -> Option<Seq<Json>> {
    match value {
        Some(Json::List(items)) => Some(items),
        _ => None,
    }
}

/// The countries of a document: the list under `metadata`, else the one under `countries`, else
/// the document itself.
pub open spec fn country_list(metadata: Json) -> Option<Seq<Json>> {
    if list_of(member_of(metadata, "metadata"@)) is Some {
        list_of(member_of(metadata, "metadata"@))
    } else if list_of(member_of(metadata, "countries"@)) is Some {
        list_of(member_of(metadata, "countries"@))
    } else {
        list_of(Some(metadata))
    }
}

pub open spec fn city_list(metadata: Json) -> Seq<Json> {
    match list_of(member_of(metadata, "cities"@)) {
        Some(items) => items,
        None => Seq::empty(),
    }
}

/// The entries of a document.
pub open spec fn catalogue_of(metadata: Json) -> CatalogueModel {
    CatalogueModel {
        countries: match country_list(metadata) {
            Some(items) => Some(Seq::new(items.len(), |i: int| country_entry(items[i]))),
            None => None,
        },
        cities: Seq::new(
            city_list(metadata).len(),
            |i: int| city_entry(city_list(metadata)[i]),
        ),
    }
}

fn read_country(value: &serde_json::Value) -> (entry: CountryEntry)
    ensures
        entry@ == country_entry(json_contents(*value)),
{
    CountryEntry {
        is_object: value.is_object(),
        id: read_field(value, "id"),
        gdp: read_field(value, "gdp"),
        pop: read_field(value, "pop"),
        population: read_field(value, "population"),
        name: read_field(value, "name"),
        is_rebel: read_field(value, "isRebel"),
    }
}

fn read_city(value: &serde_json::Value) -> (entry: CityEntry)
    ensures
        entry@ == city_entry(json_contents(*value)),
{
    CityEntry {
        is_object: value.is_object(),
        id: read_field(value, "id"),
        lat: read_field(value, "lat"),
        lng: read_field(value, "lng"),
        pop: read_field(value, "pop"),
        population: read_field(value, "population"),
        owner_id: read_field(value, "ownerId"),
        sovereign_id: read_field(value, "sovereignId"),
        name: read_field(value, "name"),
        is_capital: read_field(value, "isCapital"),
    }
}

fn member_list<'a>(value: &'a serde_json::Value, key: &str) -> (items: Option<
    &'a Vec<serde_json::Value>,
>)
    ensures
        match list_of(member_of(json_contents(*value), key@)) {
            Some(contents) => {
                &&& items is Some
                &&& items->Some_0@.len() == contents.len()
                &&& forall|i: int|
                    0 <= i < contents.len() ==> json_contents(#[trigger] items->Some_0@[i])
                        == contents[i]
            },
            None => items is None,
        },
{
    match json_member(value, key) {
        Some(member) => member.as_array(),
        None => None,
    }
}

fn country_array<'a>(metadata: &'a serde_json::Value) -> (items: Option<
    &'a Vec<serde_json::Value>,
>)
    ensures
        match country_list(json_contents(*metadata)) {
            Some(contents) => {
                &&& items is Some
                &&& items->Some_0@.len() == contents.len()
                &&& forall|i: int|
                    0 <= i < contents.len() ==> json_contents(#[trigger] items->Some_0@[i])
                        == contents[i]
            },
            None => items is None,
        },
{
    let listed = member_list(metadata, "metadata");
    if listed.is_some() {
        return listed;
    }
    let named = member_list(metadata, "countries");
    if named.is_some() {
        return named;
    }
    metadata.as_array()
}

/// Read the entries of a document.
pub fn read_catalogue(metadata: &serde_json::Value) -> (catalogue: Catalogue)
    ensures
        catalogue@ == catalogue_of(json_contents(*metadata)),
{
    let ghost document = json_contents(*metadata);
    let countries: Option<Vec<CountryEntry>> = match country_array(metadata) {
        None => None,
        Some(items) => {
            let ghost contents = country_list(document)->Some_0;
            let mut entries: Vec<CountryEntry> = Vec::new();
            let mut at: usize = 0;
            while at < items.len()
                invariant
                    at <= items@.len(),
                    items@.len() == contents.len(),
                    forall|i: int|
                        0 <= i < contents.len() ==> json_contents(#[trigger] items@[i])
                            == contents[i],
                    entries@.len() == at,
                    forall|i: int|
                        0 <= i < at ==> (#[trigger] entries@[i])@ == country_entry(contents[i]),
                decreases items@.len() - at,
            {
                entries.push(read_country(&items[at]));
                at = at + 1;
            }
            assert(views(entries@) =~= Seq::new(
                contents.len(),
                |i: int| country_entry(contents[i]),
            ));
            Some(entries)
        },
    };
    let mut cities: Vec<CityEntry> = Vec::new();
    if let Some(items) = member_list(metadata, "cities") {
        let ghost contents = city_list(document);
        let mut at: usize = 0;
        while at < items.len()
            invariant
                at <= items@.len(),
                items@.len() == contents.len(),
                forall|i: int|
                    0 <= i < contents.len() ==> json_contents(#[trigger] items@[i]) == contents[i],
                cities@.len() == at,
                forall|i: int|
                    0 <= i < at ==> (#[trigger] cities@[i])@ == city_entry(contents[i]),
            decreases items@.len() - at,
        {
            cities.push(read_city(&items[at]));
            at = at + 1;
        }
    }
    let catalogue = Catalogue { countries, cities };
    proof {
        let model = catalogue_of(document);
        assert(catalogue@.cities =~= model.cities);
        if let Some(items) = country_list(document) {
            assert(catalogue@.countries->Some_0 =~= model.countries->Some_0);
        }
    }
    catalogue
}

/// Characters that leave no mark.
pub open spec fn is_white(c: char) -> bool {
    let code = c as u32;
    ||| 0x9 <= code <= 0xd
    ||| code == 0x20
    ||| code == 0x85
    ||| code == 0xa0
    ||| code == 0x1680
    ||| 0x2000 <= code <= 0x200a
    ||| code == 0x2028
    ||| code == 0x2029
    ||| code == 0x202f
    ||| code == 0x205f
    ||| code == 0x3000
}

pub open spec fn blank(text: Seq<char>) -> bool {
    forall|i: int| 0 <= i < text.len() ==> is_white(#[trigger] text[i])
}

fn is_blank(text: &str) -> (answer: bool)
    ensures
        answer == blank(text@),
{
    let length: usize = text.unicode_len();
    let mut at: usize = 0;
    while at < length
        invariant
            at <= length,
            length == text@.len(),
            forall|i: int| 0 <= i < at ==> is_white(#[trigger] text@[i]),
        decreases length - at,
    {
        let c: char = text.get_char(at);
        let code: u32 = c as u32;
        if !((0x9 <= code && code <= 0xd) || code == 0x20 || code == 0x85 || code == 0xa0 || code
            == 0x1680 || (0x2000 <= code && code <= 0x200a) || code == 0x2028 || code == 0x2029
            || code == 0x202f || code == 0x205f || code == 0x3000) {
            assert(!is_white(text@[at as int]));
            return false;
        }
        at = at + 1;
    }
    true
}

/// A positive identifier of 16 bits.
pub open spec fn small_id(field: FieldModel) -> Option<u16> {
    match field.whole() {
        Some(id) => if 0 < id <= u16::MAX {
            Some(id as u16)
        } else {
            None
        },
        None => None,
    }
}

fn read_small_id(field: &Field) -> (id: Option<u16>)
    ensures
        id == small_id(field@),
{
    match field.as_whole() {
        Some(id) => if 0 < id && id <= 65_535 {
            Some(id as u16)
        } else {
            None
        },
        None => None,
    }
}

/// The number of the first field that has a value; zero where none has.
pub open spec fn first_amount(first: FieldModel, second: FieldModel) -> Result<
    Real,
    &'static str,
> {
    let field = if first.missing() {
        second
    } else {
        first
    };
    if field.missing() {
        Ok(real_of(0))
    } else {
        match field.number() {
            Some(number) => if number.finite_nonnegative() {
                Ok(number)
            } else {
                Err("numeric value must be finite and non-negative")
            },
            None => Err("numeric value must be finite and non-negative"),
        }
    }
}

fn optional_nonnegative_number(first: &Field, second: &Field) -> (amount: Result<
    Real,
    &'static str,
>)
    ensures
        amount == first_amount(first@, second@),
{
    let field = if first.is_missing() {
        second
    } else {
        first
    };
    if field.is_missing() {
        return Ok(Real::zero());
    }
    match field.as_number() {
        Some(number) => if number.is_finite_nonnegative() {
            Ok(number)
        } else {
            Err("numeric value must be finite and non-negative")
        },
        None => Err("numeric value must be finite and non-negative"),
    }
}

/// A text that leaves a mark, if the field has one.
pub open spec fn marked_text(field: FieldModel) -> Result<Option<Seq<char>>, &'static str> {
    match field {
        FieldModel::Absent => Ok(None),
        FieldModel::Null => Ok(None),
        FieldModel::Text(text) => if blank(text) {
            Ok(None)
        } else {
            Ok(Some(text))
        },
        _ => Err("text value must be a string"),
    }
}

fn optional_string(field: &Field) -> (text: Result<Option<String>, &'static str>)
    ensures
        match text {
            Ok(Some(held)) => marked_text(field@) == Ok::<Option<Seq<char>>, &'static str>(
                Some(held@),
            ),
            Ok(None) => marked_text(field@) == Ok::<Option<Seq<char>>, &'static str>(None),
            Err(reason) => marked_text(field@) == Err::<Option<Seq<char>>, &'static str>(reason),
        },
{
    match field {
        Field::Absent => Ok(None),
        Field::Null => Ok(None),
        Field::Text(text) => if is_blank(text.as_str()) {
            Ok(None)
        } else {
            Ok(Some(text.clone()))
        },
        _ => Err("text value must be a string"),
    }
}

/// The identifier of a country entry. Zero stands for empty land, which is no country.
pub open spec fn entry_country(entry: CountryEntryModel, index: usize) -> Result<
    Option<u16>,
    ProductionError,
> {
    if !entry.is_object {
        Err(ProductionError::InvalidCountry { index, reason: "entry must be an object" })
    } else if entry.id.whole() == Some(0u64) {
        Ok(None)
    } else {
        match small_id(entry.id) {
            Some(id) => Ok(Some(id)),
            None => Err(
                ProductionError::InvalidCountry {
                    index,
                    reason: "country id must be a positive u16",
                },
            ),
        }
    }
}

pub open spec fn country_name(entry: CountryEntryModel, country_id: u16) -> Result<
    Seq<char>,
    &'static str,
> {
    match marked_text(entry.name) {
        Ok(Some(text)) => Ok(text),
        Ok(None) => Ok("Country "@ + decimal(country_id as nat)),
        Err(reason) => Err(reason),
    }
}

/// What an entry says of its country.
pub open spec fn country_row(entry: CountryEntryModel, index: usize, country_id: u16) -> Result<
    CountryModel,
    ProductionError,
> {
    match first_amount(entry.gdp, FieldModel::Absent) {
        Err(reason) => Err(ProductionError::InvalidCountry { index, reason }),
        Ok(gdp) => match first_amount(entry.pop, entry.population) {
            Err(reason) => Err(ProductionError::InvalidCountry { index, reason }),
            Ok(population) => match country_name(entry, country_id) {
                Err(reason) => Err(ProductionError::InvalidCountry { index, reason }),
                Ok(name) => Ok(
                    CountryModel {
                        country_id,
                        name,
                        gdp,
                        population,
                        is_rebel: entry.is_rebel.flagged(),
                        initial_core_cells: 0,
                        initial_owned_land_cells: 0,
                        initial_city_population: real_of(0),
                        capital_cell: None,
                        expected_army_units: real_of(0),
                    },
                ),
            },
        },
    }
}

pub open spec fn lists_country(countries: Seq<CountryModel>, country_id: u16) -> bool {
    exists|i: int|
        0 <= i < countries.len() && (#[trigger] countries[i]).country_id == country_id
}

/// The countries of the first entries, or the first thing that is wrong with one.
pub open spec fn country_rows(entries: Seq<CountryEntryModel>, count: nat) -> Result<
    Seq<CountryModel>,
    ProductionError,
>
    decreases count,
{
    if count == 0 {
        Ok(Seq::empty())
    } else {
        match country_rows(entries, (count - 1) as nat) {
            Err(error) => Err(error),
            Ok(rest) => {
                let index = (count - 1) as usize;
                match entry_country(entries[count - 1], index) {
                    Err(error) => Err(error),
                    Ok(None) => Ok(rest),
                    Ok(Some(id)) => if lists_country(rest, id) {
                        Err(ProductionError::DuplicateCountry(id))
                    } else {
                        match country_row(entries[count - 1], index, id) {
                            Err(error) => Err(error),
                            Ok(row) => Ok(rest.push(row)),
                        }
                    },
                }
            },
        }
    }
}

proof fn lemma_country_rows_fail(entries: Seq<CountryEntryModel>, count: nat, whole: nat)
    requires
        count <= whole,
        country_rows(entries, count) is Err,
    ensures
        country_rows(entries, whole) == country_rows(entries, count),
    decreases whole - count,
{
    if count < whole {
        lemma_country_rows_fail(entries, count, (whole - 1) as nat);
    }
}

fn name_or(name: Option<String>, prefix: &str, number: u64) -> (text: String)
    ensures
        text@ == (match name {
            Some(held) => held@,
            None => prefix@ + decimal(number as nat),
        }),
{
    match name {
        Some(held) => held,
        None => {
            let mut made = prefix.to_owned();
            made.append(decimal_text(number).as_str());
            made
        },
    }
}

fn build_country(entry: &CountryEntry, index: usize, country_id: u16) -> (row: Result<
    ProductionCountry,
    ProductionError,
>)
    ensures
        match row {
            Ok(country) => country_row(entry@, index, country_id) == Ok::<
                CountryModel,
                ProductionError,
            >(country@),
            Err(error) => country_row(entry@, index, country_id) == Err::<
                CountryModel,
                ProductionError,
            >(error),
        },
{
    let absent = Field::Absent;
    let gdp = match optional_nonnegative_number(&entry.gdp, &absent) {
        Ok(amount) => amount,
        Err(reason) => {
            return Err(ProductionError::InvalidCountry { index, reason });
        },
    };
    let population = match optional_nonnegative_number(&entry.pop, &entry.population) {
        Ok(amount) => amount,
        Err(reason) => {
            return Err(ProductionError::InvalidCountry { index, reason });
        },
    };
    let name = match optional_string(&entry.name) {
        Ok(text) => name_or(text, "Country ", country_id as u64),
        Err(reason) => {
            return Err(ProductionError::InvalidCountry { index, reason });
        },
    };
    Ok(
        ProductionCountry {
            country_id,
            name,
            gdp,
            population,
            is_rebel: entry.is_rebel.is_flagged(),
            initial_core_cells: 0,
            initial_owned_land_cells: 0,
            initial_city_population: Real::zero(),
            capital_cell: None,
            expected_army_units: Real::zero(),
        },
    )
}

pub open spec fn listed_ids(countries: Seq<CountryModel>) -> Set<u16> {
    Set::new(|id: u16| lists_country(countries, id))
}

proof fn lemma_listed_push(countries: Seq<CountryModel>, row: CountryModel)
    ensures
        listed_ids(countries.push(row)) == listed_ids(countries).insert(row.country_id),
{
    let longer = countries.push(row);
    assert forall|id: u16| listed_ids(longer).contains(id) == listed_ids(countries).insert(
        row.country_id,
    ).contains(id) by {
        if lists_country(longer, id) {
            let i = choose|i: int|
                0 <= i < longer.len() && (#[trigger] longer[i]).country_id == id;
            if i < countries.len() {
                assert(countries[i] == longer[i]);
            }
        }
        if lists_country(countries, id) {
            let i = choose|i: int|
                0 <= i < countries.len() && (#[trigger] countries[i]).country_id == id;
            assert(longer[i] == countries[i]);
        }
        assert(longer[countries.len() as int] == row);
    }
    assert(listed_ids(longer) =~= listed_ids(countries).insert(row.country_id));
}

fn build_countries(entries: &Vec<CountryEntry>) -> (rows: Result<
    Vec<ProductionCountry>,
    ProductionError,
>)
    ensures
        match rows {
            Ok(countries) => country_rows(views(entries@), entries@.len()) == Ok::<
                Seq<CountryModel>,
                ProductionError,
            >(views(countries@)),
            Err(error) => country_rows(views(entries@), entries@.len()) == Err::<
                Seq<CountryModel>,
                ProductionError,
            >(error),
        },
{
    broadcast use vstd::std_specs::btree::group_btree_axioms;

    let ghost models = views(entries@);
    let mut countries: Vec<ProductionCountry> = Vec::new();
    let mut ids: BTreeSet<u16> = BTreeSet::new();
    proof {
        assert(views(countries@) =~= Seq::<CountryModel>::empty());
        assert(ids@ =~= listed_ids(views(countries@)));
    }
    let mut index: usize = 0;
    while index < entries.len()
        invariant
            index <= entries@.len(),
            models == views(entries@),
            ids@ == listed_ids(views(countries@)),
            country_rows(models, index as nat) == Ok::<Seq<CountryModel>, ProductionError>(
                views(countries@),
            ),
        decreases entries@.len() - index,
    {
        broadcast use vstd::std_specs::btree::group_btree_axioms;

        let entry = &entries[index];
        assert(models[index as int] == entry@);
        if !entry.is_object {
            proof {
                lemma_country_rows_fail(models, (index + 1) as nat, models.len());
            }
            return Err(
                ProductionError::InvalidCountry { index, reason: "entry must be an object" },
            );
        }
        let empty_land = match entry.id.as_whole() {
            Some(id) => id == 0,
            None => false,
        };
        if !empty_land {
            let country_id: u16 = match read_small_id(&entry.id) {
                Some(id) => id,
                None => {
                    proof {
                        lemma_country_rows_fail(models, (index + 1) as nat, models.len());
                    }
                    return Err(
                        ProductionError::InvalidCountry {
                            index,
                            reason: "country id must be a positive u16",
                        },
                    );
                },
            };
            if ids.contains(&country_id) {
                proof {
                    lemma_country_rows_fail(models, (index + 1) as nat, models.len());
                }
                return Err(ProductionError::DuplicateCountry(country_id));
            }
            let country = match build_country(entry, index, country_id) {
                Ok(country) => country,
                Err(error) => {
                    proof {
                        lemma_country_rows_fail(models, (index + 1) as nat, models.len());
                    }
                    return Err(error);
                },
            };
            proof {
                lemma_views_push(countries@, country);
                lemma_listed_push(views(countries@), country@);
            }
            ids.insert(country_id);
            countries.push(country);
        }
        index = index + 1;
    }
    Ok(countries)
}

proof fn lemma_country_rows_distinct(entries: Seq<CountryEntryModel>, count: nat)
    ensures
        country_rows(entries, count) matches Ok(rows) ==> forall|i: int, j: int|
            #![trigger rows[i], rows[j]]
            0 <= i < j < rows.len() ==> rows[i].country_id != rows[j].country_id,
    decreases count,
{
    if count > 0 {
        lemma_country_rows_distinct(entries, (count - 1) as nat);
        if let Ok(rest) = country_rows(entries, (count - 1) as nat) {
            if let Ok(rows) = country_rows(entries, count) {
                assert forall|i: int, j: int| #![trigger rows[i], rows[j]] 0 <= i < j
                    < rows.len() implies rows[i].country_id != rows[j].country_id by {
                    if rows.len() > rest.len() && j == rest.len() {
                        assert(rows[i] == rest[i]);
                        assert(!lists_country(rest, rows[j].country_id));
                    }
                }
            }
        }
    }
}

fn sort_countries(countries: Vec<ProductionCountry>) -> (ordered: Vec<ProductionCountry>)
    requires
        distinct_keys(countries@),
    ensures
        views(ordered@) == stable_sorted(views(countries@), country_order()),
        strictly_sorted(ordered@),
{
    proof {
        lemma_sort_commutes(
            countries@,
            shown::<ProductionCountry>(),
            rank_order::<ProductionCountry>(),
            country_order(),
        );
        stable_sort_orders(countries@, rank_order::<ProductionCountry>());
        let after = stable_sorted(countries@, rank_order::<ProductionCountry>());
        assert forall|i: int, j: int| #![trigger after[i], after[j]] 0 <= i < j
            < after.len() implies after[i].sort_key() <= after[j].sort_key() by {
            assert(!rank_order::<ProductionCountry>()(after[j], after[i]));
        }
        assert(sorted(after));
        lemma_sorted_distinct_is_strict(countries@, after);
    }
    sort_stable(countries)
}

fn sort_cities(cities: Vec<ProductionCity>) -> (ordered: Vec<ProductionCity>)
    ensures
        views(ordered@) == stable_sorted(views(cities@), city_order()),
        permutation(ordered@, cities@),
{
    proof {
        lemma_sort_commutes(
            cities@,
            shown::<ProductionCity>(),
            rank_order::<ProductionCity>(),
            city_order(),
        );
        stable_sort_orders(cities@, rank_order::<ProductionCity>());
    }
    sort_stable(cities)
}

/// How many of the first cells are land that an owner holds.
pub open spec fn owned_cells(
    world_control: Seq<u16>,
    land: Seq<u8>,
    owner: u16,
    count: nat,
) -> nat
    decreases count,
{
    if count == 0 {
        0
    } else {
        let rest = owned_cells(world_control, land, owner, (count - 1) as nat);
        if land[count - 1] != 0 && world_control[count - 1] == owner {
            rest + 1
        } else {
            rest
        }
    }
}

/// How many of the first cells are land.
pub open spec fn land_cells(land: Seq<u8>, count: nat) -> nat
    decreases count,
{
    if count == 0 {
        0
    } else if land[count - 1] != 0 {
        land_cells(land, (count - 1) as nat) + 1
    } else {
        land_cells(land, (count - 1) as nat)
    }
}

/// What is wrong with one cell of the dense maps.
pub open spec fn cell_fault(
    world_control: Seq<u16>,
    de_jure: Seq<u16>,
    land: Seq<u8>,
    ids: Set<u16>,
    cell: int,
) -> Option<ProductionError> {
    let owner = world_control[cell];
    if land[cell] == 0 {
        None
    } else if de_jure[cell] > 0 && !ids.contains(de_jure[cell]) {
        Some(ProductionError::UnknownMapCountry(de_jure[cell]))
    } else if owner > 0 && !ids.contains(owner) {
        Some(ProductionError::UnknownMapCountry(owner))
    } else if owner > 0 && owned_cells(world_control, land, owner, cell as nat) >= u32::MAX {
        Some(ProductionError::AggregateOverflow)
    } else {
        None
    }
}

/// What is wrong with the first faulty cell.
pub open spec fn cells_fault(
    world_control: Seq<u16>,
    de_jure: Seq<u16>,
    land: Seq<u8>,
    ids: Set<u16>,
    from: int,
) -> Option<ProductionError>
    decreases land.len() - from,
{
    if from < 0 || from >= land.len() {
        None
    } else if cell_fault(world_control, de_jure, land, ids, from) is Some {
        cell_fault(world_control, de_jure, land, ids, from)
    } else {
        cells_fault(world_control, de_jure, land, ids, from + 1)
    }
}

/// Where each country stands in an ordered list.
pub open spec fn positions_of(
    index: Map<u16, usize>,
    countries: Seq<ProductionCountry>,
) -> bool {
    &&& forall|id: u16|
        #[trigger] index.contains_key(id) ==> index[id] < countries.len()
            && countries[index[id] as int].country_id == id
    &&& forall|i: int|
        0 <= i < countries.len() ==> index.contains_key((#[trigger] countries[i]).country_id)
            && index[countries[i].country_id] == i
}

fn index_countries(countries: &Vec<ProductionCountry>) -> (index: BTreeMap<u16, usize>)
    requires
        strictly_sorted(countries@),
    ensures
        positions_of(index@, countries@),
{
    broadcast use vstd::std_specs::btree::group_btree_axioms;

    let mut index: BTreeMap<u16, usize> = BTreeMap::new();
    let mut at: usize = 0;
    while at < countries.len()
        invariant
            at <= countries@.len(),
            strictly_sorted(countries@),
            forall|id: u16|
                #[trigger] index@.contains_key(id) ==> index@[id] < at
                    && countries@[index@[id] as int].country_id == id,
            forall|i: int|
                0 <= i < at ==> index@.contains_key((#[trigger] countries@[i]).country_id)
                    && index@[countries@[i].country_id] == i,
        decreases countries@.len() - at,
    {
        broadcast use vstd::std_specs::btree::group_btree_axioms;

        let id: u16 = countries[at].country_id;
        proof {
            assert forall|i: int| 0 <= i < at implies (#[trigger] countries@[i]).country_id
                != id by {
                assert(countries@[i].sort_key() < countries@[at as int].sort_key());
            }
        }
        index.insert(id, at);
        at = at + 1;
    }
    index
}

proof fn lemma_positions_ids(index: Map<u16, usize>, countries: Seq<ProductionCountry>)
    requires
        positions_of(index, countries),
    ensures
        forall|id: u16|
            #[trigger] index.contains_key(id) == listed_ids(views(countries)).contains(id),
{
    let models = views(countries);
    assert forall|id: u16| #[trigger] index.contains_key(id) == listed_ids(models).contains(
        id,
    ) by {
        if index.contains_key(id) {
            assert(models[index[id] as int].country_id == id);
        }
        if lists_country(models, id) {
            let i = choose|i: int|
                0 <= i < models.len() && (#[trigger] models[i]).country_id == id;
            assert(countries[i].country_id == id);
        }
    }
}

/// Count the land of every country.
fn census_cells(
    countries: &Vec<ProductionCountry>,
    index: &BTreeMap<u16, usize>,
    world_control: &[u16],
    de_jure: &[u16],
    land: &[u8],
) -> (outcome: Result<(Vec<u32>, usize), ProductionError>)
    requires
        positions_of(index@, countries@),
        world_control@.len() == land@.len(),
        de_jure@.len() == land@.len(),
    ensures
        ({
            let fault = cells_fault(
                world_control@,
                de_jure@,
                land@,
                listed_ids(views(countries@)),
                0,
            );
            match outcome {
                Ok((counts, land_count)) => {
                    &&& fault is None
                    &&& land_count == land_cells(land@, land@.len())
                    &&& counts@.len() == countries@.len()
                    &&& forall|i: int|
                        0 <= i < counts@.len() ==> #[trigger] counts@[i] == owned_land(
                            world_control@,
                            land@,
                            countries@[i].country_id,
                        )
                },
                Err(error) => fault == Some(error),
            }
        }),
{
    broadcast use vstd::std_specs::btree::group_btree_axioms;

    let ghost ids = listed_ids(views(countries@));
    proof {
        lemma_positions_ids(index@, countries@);
    }
    let mut counts: Vec<u32> = Vec::new();
    let mut fill: usize = 0;
    while fill < countries.len()
        invariant
            fill <= countries@.len(),
            counts@.len() == fill,
            forall|i: int| 0 <= i < fill ==> #[trigger] counts@[i] == 0,
        decreases countries@.len() - fill,
    {
        counts.push(0);
        fill = fill + 1;
    }
    let mut land_count: usize = 0;
    let mut cell: usize = 0;
    while cell < land.len()
        invariant
            cell <= land@.len(),
            land_count <= cell,
            land_count == land_cells(land@, cell as nat),
            world_control@.len() == land@.len(),
            de_jure@.len() == land@.len(),
            positions_of(index@, countries@),
            ids == listed_ids(views(countries@)),
            forall|id: u16| #[trigger] index@.contains_key(id) == ids.contains(id),
            counts@.len() == countries@.len(),
            forall|i: int|
                0 <= i < counts@.len() ==> #[trigger] counts@[i] == owned_unless_zero(
                    world_control@,
                    land@,
                    countries@[i].country_id,
                    cell as nat,
                ),
            cells_fault(world_control@, de_jure@, land@, ids, 0) == cells_fault(
                world_control@,
                de_jure@,
                land@,
                ids,
                cell as int,
            ),
        decreases land@.len() - cell,
    {
        broadcast use vstd::std_specs::btree::group_btree_axioms;

        if land[cell] != 0 {
            land_count = land_count + 1;
            let claimed: u16 = de_jure[cell];
            if claimed > 0 && !index.contains_key(&claimed) {
                return Err(ProductionError::UnknownMapCountry(claimed));
            }
            let owner: u16 = world_control[cell];
            if owner > 0 {
                match index.get(&owner) {
                    Some(found) => {
                        let at: usize = *found;
                        assert(countries@[at as int].country_id == owner);
                        assert(counts@[at as int] == owned_cells(
                            world_control@,
                            land@,
                            owner,
                            cell as nat,
                        ));
                        let ghost before = counts@;
                        if counts[at] == 0xffff_ffff {
                            return Err(ProductionError::AggregateOverflow);
                        }
                        counts[at] = counts[at] + 1;
                        proof {
                            assert forall|i: int| 0 <= i < counts@.len() implies
                                #[trigger] counts@[i] == owned_unless_zero(
                                world_control@,
                                land@,
                                countries@[i].country_id,
                                (cell + 1) as nat,
                            ) by {
                                assert(before[i] == owned_unless_zero(
                                    world_control@,
                                    land@,
                                    countries@[i].country_id,
                                    cell as nat,
                                ));
                                if i != at {
                                    assert(index@[countries@[i].country_id] == i);
                                }
                            }
                        }
                    },
                    None => {
                        return Err(ProductionError::UnknownMapCountry(owner));
                    },
                }
            }
        }
        cell = cell + 1;
    }
    Ok((counts, land_count))
}

/// The land of one owner; nobody owns land under the identifier zero.
pub open spec fn owned_unless_zero(
    world_control: Seq<u16>,
    land: Seq<u8>,
    owner: u16,
    count: nat,
) -> nat {
    if owner == 0 {
        0
    } else {
        owned_cells(world_control, land, owner, count)
    }
}

pub open spec fn owned_land(world_control: Seq<u16>, land: Seq<u8>, owner: u16) -> nat {
    owned_unless_zero(world_control, land, owner, land.len())
}

/// A hash of text that is never zero.
pub open spec fn nonzero_hash(text: Seq<char>) -> u64 {
    let bytes = vstd::utf8::encode_utf8(text);
    if fnv_of(bytes, bytes.len()) == 0 {
        1
    } else {
        fnv_of(bytes, bytes.len())
    }
}

pub fn stable_nonzero_hash(value: &str) -> (hash: u64)
    ensures
        hash == nonzero_hash(value@),
        hash > 0,
{
    let hash: u64 = fnv_hash(value.as_bytes());
    if hash == 0 {
        1
    } else {
        hash
    }
}

/// The identifier of a city: its own number, or a hash of its own text or of its place in the
/// list.
pub open spec fn city_identity(id: FieldModel, index: usize) -> Result<u64, ProductionError> {
    match id {
        FieldModel::Number { unsigned, value } => match unsigned {
            Some(number) => if number > 0 {
                Ok(number)
            } else {
                Err(
                    ProductionError::InvalidCity {
                        index,
                        reason: "city id must be a positive integer",
                    },
                )
            },
            None => Err(
                ProductionError::InvalidCity {
                    index,
                    reason: "city id must be a positive integer",
                },
            ),
        },
        FieldModel::Text(text) => if text.len() > 0 {
            Ok(nonzero_hash("city:string:"@ + text))
        } else {
            Err(
                ProductionError::InvalidCity {
                    index,
                    reason: "city id must be an integer or string",
                },
            )
        },
        FieldModel::Absent => Ok(nonzero_hash("city:index:"@ + decimal(index as nat))),
        FieldModel::Null => Ok(nonzero_hash("city:index:"@ + decimal(index as nat))),
        _ => Err(
            ProductionError::InvalidCity {
                index,
                reason: "city id must be an integer or string",
            },
        ),
    }
}

fn normalized_city_id(id: &Field, index: usize) -> (identity: Result<u64, ProductionError>)
    ensures
        identity == city_identity(id@, index),
{
    match id {
        Field::Number { unsigned, value: _ } => match *unsigned {
            Some(number) => if number > 0 {
                Ok(number)
            } else {
                Err(
                    ProductionError::InvalidCity {
                        index,
                        reason: "city id must be a positive integer",
                    },
                )
            },
            None => Err(
                ProductionError::InvalidCity {
                    index,
                    reason: "city id must be a positive integer",
                },
            ),
        },
        Field::Text(text) => if !text.as_str().is_empty() {
            assert(text@.len() > 0);
            let mut name = "city:string:".to_owned();
            name.append(text.as_str());
            Ok(stable_nonzero_hash(name.as_str()))
        } else {
            assert(text@.len() == 0);
            Err(
                ProductionError::InvalidCity {
                    index,
                    reason: "city id must be an integer or string",
                },
            )
        },
        Field::Absent => {
            let name = name_or(None, "city:index:", index as u64);
            Ok(stable_nonzero_hash(name.as_str()))
        },
        Field::Null => {
            let name = name_or(None, "city:index:", index as u64);
            Ok(stable_nonzero_hash(name.as_str()))
        },
        _ => Err(
            ProductionError::InvalidCity {
                index,
                reason: "city id must be an integer or string",
            },
        ),
    }
}

/// A finite number.
pub open spec fn finite_number(field: FieldModel) -> Option<Real> {
    match field.number() {
        Some(number) => if number.finite() {
            Some(number)
        } else {
            None
        },
        None => None,
    }
}

fn required_number(field: &Field) -> (number: Option<Real>)
    ensures
        number == finite_number(field@),
{
    match field.as_number() {
        Some(number) => if number.is_finite() {
            Some(number)
        } else {
            None
        },
        None => None,
    }
}

/// The owner that an entry names.
pub open spec fn named_owner(first: FieldModel, second: FieldModel) -> Result<
    Option<u16>,
    &'static str,
> {
    let field = if first.missing() {
        second
    } else {
        first
    };
    if field.missing() {
        Ok(None)
    } else {
        match small_id(field) {
            Some(id) => Ok(Some(id)),
            None => Err("city owner must be a positive u16"),
        }
    }
}

fn optional_country_id(first: &Field, second: &Field) -> (owner: Result<
    Option<u16>,
    &'static str,
>)
    ensures
        owner == named_owner(first@, second@),
{
    let field = if first.is_missing() {
        second
    } else {
        first
    };
    if field.is_missing() {
        return Ok(None);
    }
    match read_small_id(field) {
        Some(id) => Ok(Some(id)),
        None => Err("city owner must be a positive u16"),
    }
}

/// What an entry says of its city, once its identifier is known to be new. A city that names no
/// owner belongs to whoever holds its cell.
pub open spec fn city_row(
    results: Map<Operation, u64>,
    entry: CityEntryModel,
    index: usize,
    city_id: u64,
    grid: GridSpec,
    world_control: Seq<u16>,
    ids: Set<u16>,
) -> Result<CityModel, ProductionError> {
    match (finite_number(entry.lat), finite_number(entry.lng)) {
        (Some(lat), Some(lng)) => match cell_at(results, grid, lat, lng) {
            None => Err(
                ProductionError::InvalidCity {
                    index,
                    reason: "coordinates are outside the scenario grid",
                },
            ),
            Some(cell) => match first_amount(entry.pop, entry.population) {
                Err(reason) => Err(ProductionError::InvalidCity { index, reason }),
                Ok(population) => match named_owner(entry.owner_id, entry.sovereign_id) {
                    Err(reason) => Err(ProductionError::InvalidCity { index, reason }),
                    Ok(named) => {
                        let owner_id = match named {
                            Some(id) => id,
                            None => world_control[cell],
                        };
                        if owner_id > 0 && !ids.contains(owner_id) {
                            Err(
                                ProductionError::UnknownCityCountry {
                                    city_id,
                                    country_id: owner_id,
                                },
                            )
                        } else {
                            match marked_text(entry.name) {
                                Err(reason) => Err(
                                    ProductionError::InvalidCity { index, reason },
                                ),
                                Ok(name) => Ok(
                                    CityModel {
                                        city_id,
                                        name: match name {
                                            Some(text) => text,
                                            None => "City "@ + decimal(city_id as nat),
                                        },
                                        owner_id,
                                        cell: cell as usize,
                                        lat,
                                        lng: wrapped_longitude(results, lng),
                                        population,
                                        capital: entry.is_capital.flagged(),
                                    },
                                ),
                            }
                        }
                    },
                },
            },
        },
        _ => Err(
            ProductionError::InvalidCity {
                index,
                reason: "required number is missing or non-finite",
            },
        ),
    }
}

pub open spec fn lists_city(cities: Seq<CityModel>, city_id: u64) -> bool {
    exists|i: int| 0 <= i < cities.len() && (#[trigger] cities[i]).city_id == city_id
}

pub open spec fn city_ids(cities: Seq<CityModel>) -> Set<u64> {
    Set::new(|id: u64| lists_city(cities, id))
}

proof fn lemma_city_push(cities: Seq<CityModel>, row: CityModel)
    ensures
        city_ids(cities.push(row)) == city_ids(cities).insert(row.city_id),
{
    let longer = cities.push(row);
    assert forall|id: u64| city_ids(longer).contains(id) == city_ids(cities).insert(
        row.city_id,
    ).contains(id) by {
        if lists_city(longer, id) {
            let i = choose|i: int| 0 <= i < longer.len() && (#[trigger] longer[i]).city_id == id;
            if i < cities.len() {
                assert(cities[i] == longer[i]);
            }
        }
        if lists_city(cities, id) {
            let i = choose|i: int| 0 <= i < cities.len() && (#[trigger] cities[i]).city_id == id;
            assert(longer[i] == cities[i]);
        }
        assert(longer[cities.len() as int] == row);
    }
    assert(city_ids(longer) =~= city_ids(cities).insert(row.city_id));
}

/// The cities of the first entries, or the first thing that is wrong with one.
pub open spec fn city_rows(
    results: Map<Operation, u64>,
    entries: Seq<CityEntryModel>,
    grid: GridSpec,
    world_control: Seq<u16>,
    ids: Set<u16>,
    count: nat,
) -> Result<Seq<CityModel>, ProductionError>
    decreases count,
{
    if count == 0 {
        Ok(Seq::empty())
    } else {
        match city_rows(results, entries, grid, world_control, ids, (count - 1) as nat) {
            Err(error) => Err(error),
            Ok(rest) => {
                let index = (count - 1) as usize;
                let entry = entries[count - 1];
                if !entry.is_object {
                    Err(
                        ProductionError::InvalidCity { index, reason: "entry must be an object" },
                    )
                } else {
                    match city_identity(entry.id, index) {
                        Err(error) => Err(error),
                        Ok(city_id) => if lists_city(rest, city_id) {
                            Err(ProductionError::DuplicateCity(city_id))
                        } else {
                            match city_row(
                                results,
                                entry,
                                index,
                                city_id,
                                grid,
                                world_control,
                                ids,
                            ) {
                                Err(error) => Err(error),
                                Ok(row) => Ok(rest.push(row)),
                            }
                        },
                    }
                }
            },
        }
    }
}

proof fn lemma_city_rows_fail(
    results: Map<Operation, u64>,
    entries: Seq<CityEntryModel>,
    grid: GridSpec,
    world_control: Seq<u16>,
    ids: Set<u16>,
    count: nat,
    whole: nat,
)
    requires
        count <= whole,
        city_rows(results, entries, grid, world_control, ids, count) is Err,
    ensures
        city_rows(results, entries, grid, world_control, ids, whole) == city_rows(
            results,
            entries,
            grid,
            world_control,
            ids,
            count,
        ),
    decreases whole - count,
{
    if count < whole {
        lemma_city_rows_fail(
            results,
            entries,
            grid,
            world_control,
            ids,
            count,
            (whole - 1) as nat,
        );
    }
}

/// Whether a worksheet holds all that placing a city takes.
pub open spec fn city_supplied(
    results: Map<Operation, u64>,
    entry: CityEntryModel,
    grid: GridSpec,
) -> bool {
    finite_number(entry.lat) matches Some(lat) ==> (finite_number(entry.lng) matches Some(lng) ==> {
        &&& wrapping_supplied(results, lng)
        &&& cell_supplied(results, grid, lat, lng)
    })
}

/// Whether a worksheet holds all that placing cities takes.
pub open spec fn cities_supplied(
    results: Map<Operation, u64>,
    entries: Seq<CityEntryModel>,
    grid: GridSpec,
    world_control: Seq<u16>,
    ids: Set<u16>,
) -> bool {
    forall|k: int|
        0 <= k < entries.len() && city_rows(
            results,
            entries,
            grid,
            world_control,
            ids,
            k as nat,
        ) is Ok ==> city_supplied(results, #[trigger] entries[k], grid)
}

fn build_city(
    entry: &CityEntry,
    index: usize,
    city_id: u64,
    grid: GridSpec,
    world_control: &[u16],
    countries: &BTreeMap<u16, usize>,
    reader: &mut Reader<'_>,
) -> (row: Result<ProductionCity, ProductionError>)
    requires
        old(reader).sound(),
        world_control@.len() == grid.area(),
    ensures
        final(reader)@ == old(reader)@,
        final(reader).sound(),
        row matches Ok(city) ==> city.city_id == city_id && (city.owner_id == 0
            || countries@.contains_key(city.owner_id)),
        final(reader).complete() ==> old(reader).complete() && (match row {
            Ok(city) => city_row(
                old(reader)@,
                entry@,
                index,
                city_id,
                grid,
                world_control@,
                countries@.dom(),
            ) == Ok::<CityModel, ProductionError>(city@),
            Err(error) => city_row(
                old(reader)@,
                entry@,
                index,
                city_id,
                grid,
                world_control@,
                countries@.dom(),
            ) == Err::<CityModel, ProductionError>(error),
        }),
        old(reader).complete() && city_supplied(old(reader)@, entry@, grid) ==>
            final(reader).complete(),
{
    broadcast use vstd::std_specs::btree::group_btree_axioms;

    let lat = match required_number(&entry.lat) {
        Some(number) => number,
        None => {
            return Err(
                ProductionError::InvalidCity {
                    index,
                    reason: "required number is missing or non-finite",
                },
            );
        },
    };
    let lng = match required_number(&entry.lng) {
        Some(number) => number,
        None => {
            return Err(
                ProductionError::InvalidCity {
                    index,
                    reason: "required number is missing or non-finite",
                },
            );
        },
    };
    let wrapped = wrap_longitude(lng, reader);
    let cell: usize = match grid_index(grid, lat, lng, reader) {
        Some(cell) => cell,
        None => {
            return Err(
                ProductionError::InvalidCity {
                    index,
                    reason: "coordinates are outside the scenario grid",
                },
            );
        },
    };
    let population = match optional_nonnegative_number(&entry.pop, &entry.population) {
        Ok(amount) => amount,
        Err(reason) => {
            return Err(ProductionError::InvalidCity { index, reason });
        },
    };
    let owner_id: u16 = match optional_country_id(&entry.owner_id, &entry.sovereign_id) {
        Ok(Some(id)) => id,
        Ok(None) => world_control[cell],
        Err(reason) => {
            return Err(ProductionError::InvalidCity { index, reason });
        },
    };
    if owner_id > 0 && !countries.contains_key(&owner_id) {
        return Err(ProductionError::UnknownCityCountry { city_id, country_id: owner_id });
    }
    let name = match optional_string(&entry.name) {
        Ok(text) => name_or(text, "City ", city_id),
        Err(reason) => {
            return Err(ProductionError::InvalidCity { index, reason });
        },
    };
    Ok(
        ProductionCity {
            city_id,
            name,
            owner_id,
            cell,
            lat,
            lng: wrapped,
            population,
            capital: entry.is_capital.is_flagged(),
        },
    )
}

pub open spec fn held_by_known(cities: Seq<ProductionCity>, ids: Set<u16>) -> bool {
    forall|i: int|
        0 <= i < cities.len() ==> (#[trigger] cities[i]).owner_id == 0 || ids.contains(
            cities[i].owner_id,
        )
}

fn build_cities(
    entries: &Vec<CityEntry>,
    grid: GridSpec,
    world_control: &[u16],
    countries: &BTreeMap<u16, usize>,
    reader: &mut Reader<'_>,
) -> (rows: Result<Vec<ProductionCity>, ProductionError>)
    requires
        old(reader).sound(),
        world_control@.len() == grid.area(),
    ensures
        final(reader)@ == old(reader)@,
        final(reader).sound(),
        rows matches Ok(cities) ==> held_by_known(cities@, countries@.dom()),
        final(reader).complete() ==> old(reader).complete() && (match rows {
            Ok(cities) => city_rows(
                old(reader)@,
                views(entries@),
                grid,
                world_control@,
                countries@.dom(),
                entries@.len(),
            ) == Ok::<Seq<CityModel>, ProductionError>(views(cities@)),
            Err(error) => city_rows(
                old(reader)@,
                views(entries@),
                grid,
                world_control@,
                countries@.dom(),
                entries@.len(),
            ) == Err::<Seq<CityModel>, ProductionError>(error),
        }),
        old(reader).complete() && cities_supplied(
            old(reader)@,
            views(entries@),
            grid,
            world_control@,
            countries@.dom(),
        ) ==> final(reader).complete(),
{
    broadcast use vstd::std_specs::btree::group_btree_axioms;

    let ghost models = views(entries@);
    let ghost results = reader@;
    let ghost untouched = reader.complete();
    let ghost ids = countries@.dom();
    let ghost held = world_control@;
    let mut cities: Vec<ProductionCity> = Vec::new();
    let mut seen: BTreeSet<u64> = BTreeSet::new();
    proof {
        assert(views(cities@) =~= Seq::<CityModel>::empty());
        assert(seen@ =~= city_ids(views(cities@)));
    }
    let mut index: usize = 0;
    while index < entries.len()
        invariant
            index <= entries@.len(),
            models == views(entries@),
            results == old(reader)@,
            untouched == old(reader).complete(),
            reader@ == results,
            reader.sound(),
            ids == countries@.dom(),
            held == world_control@,
            world_control@.len() == grid.area(),
            held_by_known(cities@, ids),
            seen@ == city_ids(views(cities@)),
            reader.complete() ==> untouched && city_rows(
                results,
                models,
                grid,
                held,
                ids,
                index as nat,
            ) == Ok::<Seq<CityModel>, ProductionError>(views(cities@)),
            untouched && cities_supplied(results, models, grid, held, ids) ==> reader.complete(),
        decreases entries@.len() - index,
    {
        broadcast use vstd::std_specs::btree::group_btree_axioms;

        let entry = &entries[index];
        assert(models[index as int] == entry@);
        let ghost next = (index + 1) as nat;
        if !entry.is_object {
            proof {
                if reader.complete() {
                    lemma_city_rows_fail(results, models, grid, held, ids, next, models.len());
                }
            }
            return Err(
                ProductionError::InvalidCity { index, reason: "entry must be an object" },
            );
        }
        let city_id: u64 = match normalized_city_id(&entry.id, index) {
            Ok(id) => id,
            Err(error) => {
                proof {
                    if reader.complete() {
                        lemma_city_rows_fail(results, models, grid, held, ids, next, models.len());
                    }
                }
                return Err(error);
            },
        };
        if seen.contains(&city_id) {
            proof {
                if reader.complete() {
                    lemma_city_rows_fail(results, models, grid, held, ids, next, models.len());
                }
            }
            return Err(ProductionError::DuplicateCity(city_id));
        }
        let city = match build_city(
            entry,
            index,
            city_id,
            grid,
            world_control,
            countries,
            reader,
        ) {
            Ok(city) => city,
            Err(error) => {
                proof {
                    if reader.complete() {
                        lemma_city_rows_fail(results, models, grid, held, ids, next, models.len());
                    }
                }
                return Err(error);
            },
        };
        proof {
            lemma_views_push(cities@, city);
            lemma_city_push(views(cities@), city@);
        }
        seen.insert(city_id);
        cities.push(city);
        index = index + 1;
    }
    Ok(cities)
}

/// How many of the first cities belong to nobody.
pub open spec fn unowned_cities(cities: Seq<CityModel>, count: nat) -> nat
    decreases count,
{
    if count == 0 {
        0
    } else if cities[count - 1].owner_id == 0 {
        unowned_cities(cities, (count - 1) as nat) + 1
    } else {
        unowned_cities(cities, (count - 1) as nat)
    }
}

/// The population of a country's cities among the first ones.
pub open spec fn city_population(
    results: Map<Operation, u64>,
    cities: Seq<CityModel>,
    country_id: u16,
    count: nat,
) -> Real
    decreases count,
{
    if count == 0 {
        real_of(0)
    } else {
        let rest = city_population(results, cities, country_id, (count - 1) as nat);
        let city = cities[count - 1];
        if city.owner_id == country_id && country_id != 0 {
            sum(results, rest, city.population)
        } else {
            rest
        }
    }
}

/// The cell of a country's first capital among the first cities.
pub open spec fn capital_of(cities: Seq<CityModel>, country_id: u16, count: nat) -> Option<usize>
    decreases count,
{
    if count == 0 {
        None
    } else {
        let rest = capital_of(cities, country_id, (count - 1) as nat);
        let city = cities[count - 1];
        if rest is None && city.owner_id == country_id && country_id != 0 && city.capital {
            Some(city.cell)
        } else {
            rest
        }
    }
}

/// A country with what its land and its cities amount to.
pub open spec fn settled_country(
    results: Map<Operation, u64>,
    country: CountryModel,
    cities: Seq<CityModel>,
    world_control: Seq<u16>,
    land: Seq<u8>,
) -> CountryModel {
    let cells = owned_land(world_control, land, country.country_id) as u32;
    CountryModel {
        initial_core_cells: cells,
        initial_owned_land_cells: cells,
        initial_city_population: city_population(
            results,
            cities,
            country.country_id,
            cities.len(),
        ),
        capital_cell: capital_of(cities, country.country_id, cities.len()),
        ..country
    }
}

pub open spec fn settled_countries(
    results: Map<Operation, u64>,
    countries: Seq<CountryModel>,
    cities: Seq<CityModel>,
    world_control: Seq<u16>,
    land: Seq<u8>,
) -> Seq<CountryModel> {
    Seq::new(
        countries.len(),
        |i: int| settled_country(results, countries[i], cities, world_control, land),
    )
}

/// The seeds of the first economies, and what is wrong with the first country that has none.
pub ghost struct Seeding {
    pub seeds: Seq<EconomySeed>,
    pub fault: Option<ProductionError>,
}

pub open spec fn seed_of(country: CountryModel, units: Real) -> EconomySeed {
    EconomySeed {
        country_id: country.country_id,
        gdp: country.gdp,
        population: country.population,
        territory_units: units,
        initial_core_cells: country.initial_core_cells,
        initial_city_population: country.initial_city_population,
    }
}

pub open spec fn seeding(
    results: Map<Operation, u64>,
    countries: Seq<CountryModel>,
    config: ProductionConfig,
    count: nat,
) -> Seeding
    decreases count,
{
    if count == 0 {
        Seeding { seeds: Seq::empty(), fault: None }
    } else {
        let rest = seeding(results, countries, config, (count - 1) as nat);
        let country = countries[count - 1];
        if rest.fault is Some {
            rest
        } else if !country.initial_city_population.finite() {
            Seeding { fault: Some(ProductionError::NonFinite), ..rest }
        } else {
            match army_estimate(results, country.initial_core_cells as u64, config) {
                Err(error) => Seeding { fault: Some(error), ..rest },
                Ok(units) => Seeding { seeds: rest.seeds.push(seed_of(country, units)), ..rest },
            }
        }
    }
}

/// Baselines that still wait for their economies.
#[derive(Debug)]
pub struct ScenarioDraft {
    pub grid: GridSpec,
    pub countries: Vec<ProductionCountry>,
    pub cities: Vec<ProductionCity>,
    /// What the economies grow from, in the order of countries.
    pub seeds: Vec<EconomySeed>,
    /// Why the next country has no seed.
    pub fault: Option<ProductionError>,
    pub unresolved_city_owners: usize,
    pub land_cells: usize,
}

/// What a [`ScenarioDraft`] says.
pub ghost struct DraftModel {
    pub grid: GridSpec,
    pub countries: Seq<CountryModel>,
    pub cities: Seq<CityModel>,
    pub seeds: Seq<EconomySeed>,
    pub fault: Option<ProductionError>,
    pub unresolved_city_owners: nat,
    pub land_cells: nat,
}

impl View for ScenarioDraft {
    type V = DraftModel;

    open spec fn view(&self) -> DraftModel {
        DraftModel {
            grid: self.grid,
            countries: views(self.countries@),
            cities: views(self.cities@),
            seeds: self.seeds@,
            fault: self.fault,
            unresolved_city_owners: self.unresolved_city_owners as nat,
            land_cells: self.land_cells as nat,
        }
    }
}

/// Countries that know how many formations they are expected to raise, as far as there are seeds.
pub open spec fn with_expectations(
    countries: Seq<CountryModel>,
    seeds: Seq<EconomySeed>,
) -> Seq<CountryModel> {
    Seq::new(
        countries.len(),
        |i: int|
            if i < seeds.len() {
                CountryModel { expected_army_units: seeds[i].territory_units, ..countries[i] }
            } else {
                countries[i]
            },
    )
}

pub open spec fn draft_of(
    results: Map<Operation, u64>,
    countries: Seq<CountryModel>,
    cities: Seq<CityModel>,
    world_control: Seq<u16>,
    land: Seq<u8>,
    grid: GridSpec,
    config: ProductionConfig,
) -> DraftModel {
    let settled = settled_countries(results, countries, cities, world_control, land);
    let seeded = seeding(results, settled, config, settled.len());
    DraftModel {
        grid,
        countries: with_expectations(settled, seeded.seeds),
        cities,
        seeds: seeded.seeds,
        fault: seeded.fault,
        unresolved_city_owners: unowned_cities(cities, cities.len()),
        land_cells: land_cells(land, land.len()),
    }
}

/// The baselines of a scenario: countries in the order of their identifiers, cities in the order
/// of their cells.
pub open spec fn drafted(
    results: Map<Operation, u64>,
    catalogue: CatalogueModel,
    grid: GridSpec,
    world_control: Seq<u16>,
    de_jure: Seq<u16>,
    land: Seq<u8>,
    config: ProductionConfig,
) -> Result<DraftModel, ProductionError> {
    if !config.valid() {
        Err(ProductionError::InvalidConfig)
    } else if !usable_grid(grid) || world_control.len() != grid.area() || de_jure.len()
        != grid.area() || land.len() != grid.area() {
        Err(ProductionError::InvalidScenarioGrid)
    } else {
        match catalogue.countries {
            None => Err(ProductionError::MissingCountries),
            Some(entries) => if entries.len() > config.max_countries {
                Err(
                    ProductionError::Limit {
                        kind: "countries",
                        actual: entries.len() as usize,
                        limit: config.max_countries,
                    },
                )
            } else {
                match country_rows(entries, entries.len()) {
                    Err(error) => Err(error),
                    Ok(rows) => {
                        let countries = stable_sorted(rows, country_order());
                        let ids = listed_ids(countries);
                        match cells_fault(world_control, de_jure, land, ids, 0) {
                            Some(error) => Err(error),
                            None => if catalogue.cities.len() > config.max_cities {
                                Err(
                                    ProductionError::Limit {
                                        kind: "cities",
                                        actual: catalogue.cities.len() as usize,
                                        limit: config.max_cities,
                                    },
                                )
                            } else {
                                match city_rows(
                                    results,
                                    catalogue.cities,
                                    grid,
                                    world_control,
                                    ids,
                                    catalogue.cities.len(),
                                ) {
                                    Err(error) => Err(error),
                                    Ok(cities) => Ok(
                                        draft_of(
                                            results,
                                            countries,
                                            stable_sorted(cities, city_order()),
                                            world_control,
                                            land,
                                            grid,
                                            config,
                                        ),
                                    ),
                                }
                            },
                        }
                    },
                }
            },
        }
    }
}

/// Whether a worksheet holds all that adding up cities takes.
pub open spec fn populations_supplied(
    results: Map<Operation, u64>,
    cities: Seq<CityModel>,
) -> bool {
    forall|k: int|
        0 <= k < cities.len() && (#[trigger] cities[k]).owner_id != 0 ==> results.contains_key(
            Operation::Sum(
                city_population(results, cities, cities[k].owner_id, k as nat),
                cities[k].population,
            ),
        )
}

/// What the cities of every country amount to.
fn tally_cities(
    countries: &Vec<ProductionCountry>,
    index: &BTreeMap<u16, usize>,
    cities: &Vec<ProductionCity>,
    reader: &mut Reader<'_>,
) -> (tally: (Vec<Real>, Vec<Option<usize>>, usize))
    requires
        old(reader).sound(),
        positions_of(index@, countries@),
        held_by_known(cities@, index@.dom()),
    ensures
        final(reader)@ == old(reader)@,
        final(reader).sound(),
        tally.0@.len() == countries@.len(),
        tally.1@.len() == countries@.len(),
        tally.2 == unowned_cities(views(cities@), cities@.len()),
        forall|i: int|
            0 <= i < countries@.len() ==> #[trigger] tally.1@[i] == capital_of(
                views(cities@),
                countries@[i].country_id,
                cities@.len(),
            ),
        final(reader).complete() ==> old(reader).complete() && forall|i: int|
            0 <= i < countries@.len() ==> #[trigger] tally.0@[i] == city_population(
                old(reader)@,
                views(cities@),
                countries@[i].country_id,
                cities@.len(),
            ),
        old(reader).complete() && populations_supplied(old(reader)@, views(cities@)) ==>
            final(reader).complete(),
{
    broadcast use vstd::std_specs::btree::group_btree_axioms;

    let ghost models = views(cities@);
    let ghost results = reader@;
    let ghost untouched = reader.complete();
    let mut populations: Vec<Real> = Vec::new();
    let mut capitals: Vec<Option<usize>> = Vec::new();
    let mut fill: usize = 0;
    while fill < countries.len()
        invariant
            fill <= countries@.len(),
            populations@.len() == fill,
            capitals@.len() == fill,
            forall|i: int| 0 <= i < fill ==> #[trigger] populations@[i] == real_of(0),
            forall|i: int| 0 <= i < fill ==> (#[trigger] capitals@[i]) is None,
        decreases countries@.len() - fill,
    {
        populations.push(Real::zero());
        capitals.push(None);
        fill = fill + 1;
    }
    let mut unowned: usize = 0;
    let mut at: usize = 0;
    while at < cities.len()
        invariant
            at <= cities@.len(),
            models == views(cities@),
            reader@ == results,
            reader.sound(),
            positions_of(index@, countries@),
            held_by_known(cities@, index@.dom()),
            populations@.len() == countries@.len(),
            capitals@.len() == countries@.len(),
            unowned <= at,
            unowned == unowned_cities(models, at as nat),
            forall|i: int|
                0 <= i < countries@.len() ==> #[trigger] capitals@[i] == capital_of(
                    models,
                    countries@[i].country_id,
                    at as nat,
                ),
            reader.complete() ==> untouched && forall|i: int|
                0 <= i < countries@.len() ==> #[trigger] populations@[i] == city_population(
                    results,
                    models,
                    countries@[i].country_id,
                    at as nat,
                ),
            untouched && populations_supplied(results, models) ==> reader.complete(),
        decreases cities@.len() - at,
    {
        broadcast use vstd::std_specs::btree::group_btree_axioms;

        let city = &cities[at];
        assert(models[at as int] == city@);
        if city.owner_id == 0 {
            unowned = unowned + 1;
        } else if let Some(found) = index.get(&city.owner_id) {
            let place: usize = *found;
            assert(countries@[place as int].country_id == city.owner_id);
            let ghost earlier_populations = populations@;
            let ghost earlier_capitals = capitals@;
            let grown = reader.sum(populations[place], city.population);
            populations[place] = grown;
            if city.capital && capitals[place].is_none() {
                capitals[place] = Some(city.cell);
            }
            proof {
                assert forall|i: int| 0 <= i < countries@.len() implies #[trigger] capitals@[i]
                    == capital_of(models, countries@[i].country_id, (at + 1) as nat) by {
                    assert(earlier_capitals[i] == capital_of(
                        models,
                        countries@[i].country_id,
                        at as nat,
                    ));
                    assert(index@[countries@[i].country_id] == i);
                }
                if reader.complete() {
                    assert forall|i: int| 0 <= i < countries@.len() implies
                        #[trigger] populations@[i] == city_population(
                        results,
                        models,
                        countries@[i].country_id,
                        (at + 1) as nat,
                    ) by {
                        assert(earlier_populations[i] == city_population(
                            results,
                            models,
                            countries@[i].country_id,
                            at as nat,
                        ));
                        assert(index@[countries@[i].country_id] == i);
                    }
                }
            }
        }
        at = at + 1;
    }
    (populations, capitals, unowned)
}

/// Whether a worksheet holds all that seeding economies takes.
pub open spec fn seeding_supplied(
    results: Map<Operation, u64>,
    countries: Seq<CountryModel>,
    config: ProductionConfig,
) -> bool {
    forall|k: int|
        0 <= k < countries.len() && seeding(results, countries, config, k as nat).fault is None
            && (#[trigger] countries[k]).initial_city_population.finite() ==> estimate_supplied(
                results,
                countries[k].initial_core_cells as u64,
                config,
            )
}

fn seed_economies(
    countries: &mut Vec<ProductionCountry>,
    config: &ProductionConfig,
    reader: &mut Reader<'_>,
) -> (seeded: (Vec<EconomySeed>, Option<ProductionError>))
    requires
        old(reader).sound(),
        config.valid(),
    ensures
        final(reader)@ == old(reader)@,
        final(reader).sound(),
        final(reader).complete() ==> old(reader).complete() && ({
            let all = seeding(
                old(reader)@,
                views(old(countries)@),
                *config,
                old(countries)@.len(),
            );
            &&& seeded.0@ == all.seeds
            &&& seeded.1 == all.fault
            &&& views(final(countries)@) == with_expectations(views(old(countries)@), all.seeds)
        }),
        old(reader).complete() && seeding_supplied(old(reader)@, views(old(countries)@), *config) ==>
            final(reader).complete(),
{
    let ghost results = reader@;
    let ghost untouched = reader.complete();
    let ghost before = countries@;
    let ghost models = views(countries@);
    let mut seeds: Vec<EconomySeed> = Vec::new();
    let mut fault: Option<ProductionError> = None;
    let mut at: usize = 0;
    while at < countries.len()
        invariant
            at <= countries@.len(),
            countries@.len() == before.len(),
            models == views(before),
            models.len() == before.len(),
            config.valid(),
            reader@ == results,
            reader.sound(),
            fault is None ==> seeds@.len() == at,
            seeds@.len() <= at,
            forall|i: int|
                0 <= i < seeds@.len() ==> (#[trigger] countries@[i])@ == (CountryModel {
                    expected_army_units: seeds@[i].territory_units,
                    ..models[i]
                }),
            forall|i: int|
                seeds@.len() <= i < countries@.len() ==> (#[trigger] countries@[i])@ == models[i],
            reader.complete() ==> untouched && seeding(results, models, *config, at as nat) == (
            Seeding { seeds: seeds@, fault }),
            untouched && seeding_supplied(results, models, *config) ==> reader.complete(),
        decreases countries@.len() - at,
    {
        if fault.is_none() {
            assert(countries@[at as int]@ == models[at as int]);
            let population = countries[at].initial_city_population;
            if !population.is_finite() {
                fault = Some(ProductionError::NonFinite);
            } else {
                match estimate_army(countries[at].initial_core_cells as u64, config, reader) {
                    Err(error) => {
                        fault = Some(error);
                    },
                    Ok(units) => {
                        let seed = EconomySeed {
                            country_id: countries[at].country_id,
                            gdp: countries[at].gdp,
                            population: countries[at].population,
                            territory_units: units,
                            initial_core_cells: countries[at].initial_core_cells,
                            initial_city_population: population,
                        };
                        countries[at].expected_army_units = units;
                        seeds.push(seed);
                    },
                }
            }
        }
        at = at + 1;
    }
    proof {
        if reader.complete() {
            assert(views(countries@) =~= with_expectations(models, seeds@));
        }
    }
    (seeds, fault)
}

/// Whether a worksheet holds all that a draft takes.
/// What fails its checks takes nothing.
pub open spec fn draft_supplied(
    results: Map<Operation, u64>,
    catalogue: CatalogueModel,
    grid: GridSpec,
    world_control: Seq<u16>,
    de_jure: Seq<u16>,
    land: Seq<u8>,
    config: ProductionConfig,
) -> bool {
    config.valid() && usable_grid(grid) && world_control.len() == grid.area() && de_jure.len()
        == grid.area() && land.len() == grid.area() ==> (catalogue.countries matches Some(entries)
        ==> (entries.len() <= config.max_countries ==> (country_rows(
        entries,
        entries.len(),
    ) matches Ok(rows) ==> {
        let countries = stable_sorted(rows, country_order());
        let ids = listed_ids(countries);
        cells_fault(world_control, de_jure, land, ids, 0) is None && catalogue.cities.len()
            <= config.max_cities ==> {
            &&& cities_supplied(results, catalogue.cities, grid, world_control, ids)
            &&& city_rows(
                results,
                catalogue.cities,
                grid,
                world_control,
                ids,
                catalogue.cities.len(),
            ) matches Ok(found) ==> {
                let cities = stable_sorted(found, city_order());
                let settled = settled_countries(results, countries, cities, world_control, land);
                &&& populations_supplied(results, cities)
                &&& seeding_supplied(results, settled, config)
            }
        }
    })))
}

/// Derive the baselines of a scenario from its entries.
pub fn draft_scenario(
    catalogue: &Catalogue,
    grid: GridSpec,
    world_control: &[u16],
    de_jure: &[u16],
    land: &[u8],
    config: &ProductionConfig,
    sheet: &Worksheet,
) -> (outcome: Result<ScenarioDraft, Stop<ProductionError>>)
    ensures
        match outcome {
            Ok(draft) => drafted(
                sheet@,
                catalogue@,
                grid,
                world_control@,
                de_jure@,
                land@,
                *config,
            ) == Ok::<DraftModel, ProductionError>(draft@),
            Err(Stop::Failed(error)) => drafted(
                sheet@,
                catalogue@,
                grid,
                world_control@,
                de_jure@,
                land@,
                *config,
            ) == Err::<DraftModel, ProductionError>(error),
            Err(Stop::Missing(missing)) => {
            &&& missing@.len() > 0
            &&& all_missing(missing@, sheet@)
            &&& !draft_supplied(
                sheet@,
                catalogue@,
                grid,
                world_control@,
                de_jure@,
                land@,
                *config,
            )
        },
        },
{
    broadcast use vstd::std_specs::btree::group_btree_axioms;

    if let Err(error) = validate_config(config) {
        return Err(Stop::Failed(error));
    }
    let cells: usize = match checked_grid(grid) {
        Ok(cells) => cells,
        Err(error) => {
            return Err(Stop::Failed(error));
        },
    };
    if world_control.len() != cells || de_jure.len() != cells || land.len() != cells {
        return Err(Stop::Failed(ProductionError::InvalidScenarioGrid));
    }
    let entries = match &catalogue.countries {
        Some(entries) => entries,
        None => {
            return Err(Stop::Failed(ProductionError::MissingCountries));
        },
    };
    assert(catalogue@.countries == Some(views(entries@)));
    if let Err(error) = enforce_limit("countries", entries.len(), config.max_countries) {
        return Err(Stop::Failed(error));
    }
    let rows = match build_countries(entries) {
        Ok(rows) => rows,
        Err(error) => {
            return Err(Stop::Failed(error));
        },
    };
    let ghost row_models = views(rows@);
    proof {
        lemma_country_rows_distinct(views(entries@), entries@.len());
        assert forall|i: int, j: int| #![trigger rows@[i], rows@[j]] 0 <= i < j
            < rows@.len() implies rows@[i].sort_key() != rows@[j].sort_key() by {
            assert(row_models[i].country_id != row_models[j].country_id);
        }
    }
    let mut countries = sort_countries(rows);
    let ghost ordered = views(countries@);
    let index = index_countries(&countries);
    proof {
        lemma_positions_ids(index@, countries@);
        assert(index@.dom() =~= listed_ids(ordered));
    }
    let (counts, land_count) = match census_cells(
        &countries,
        &index,
        world_control,
        de_jure,
        land,
    ) {
        Ok(census) => census,
        Err(error) => {
            return Err(Stop::Failed(error));
        },
    };
    if let Err(error) = enforce_limit("cities", catalogue.cities.len(), config.max_cities) {
        return Err(Stop::Failed(error));
    }
    let mut reader = sheet.reader();
    let built = build_cities(&catalogue.cities, grid, world_control, &index, &mut reader);
    let city_list = match built {
        Ok(cities) => cities,
        Err(error) => {
            if !reader.is_complete() {
                return Err(Stop::Missing(reader.into_missing()));
            }
            return Err(Stop::Failed(error));
        },
    };
    let ghost known = index@.dom();
    let ghost unsorted = city_list@;
    let cities = sort_cities(city_list);
    proof {
        assert forall|i: int| 0 <= i < cities@.len() implies (#[trigger] cities@[i]).owner_id == 0
            || known.contains(cities@[i].owner_id) by {
            lemma_permutation_contains(cities@, unsorted);
            assert(cities@.contains(cities@[i]));
            let k = choose|k: int| 0 <= k < unsorted.len() && unsorted[k] == cities@[i];
            assert(unsorted[k].owner_id == 0 || known.contains(unsorted[k].owner_id));
        }
    }
    let (populations, capitals, unowned) = tally_cities(&countries, &index, &cities, &mut reader);
    let ghost start = countries@;
    let ghost results = sheet@;
    let mut at: usize = 0;
    while at < countries.len()
        invariant
            at <= countries@.len(),
            countries@.len() == start.len(),
            counts@.len() == start.len(),
            populations@.len() == start.len(),
            capitals@.len() == start.len(),
            results == sheet@,
            ordered == views(start),
            forall|i: int|
                0 <= i < counts@.len() ==> #[trigger] counts@[i] == owned_land(
                    world_control@,
                    land@,
                    start[i].country_id,
                ),
            forall|i: int|
                0 <= i < start.len() ==> #[trigger] capitals@[i] == capital_of(
                    views(cities@),
                    start[i].country_id,
                    cities@.len(),
                ),
            reader.complete() ==> forall|i: int|
                0 <= i < start.len() ==> #[trigger] populations@[i] == city_population(
                    results,
                    views(cities@),
                    start[i].country_id,
                    cities@.len(),
                ),
            forall|i: int| at <= i < countries@.len() ==> #[trigger] countries@[i] == start[i],
            reader.complete() ==> forall|i: int|
                0 <= i < at ==> (#[trigger] countries@[i])@ == settled_country(
                    results,
                    ordered[i],
                    views(cities@),
                    world_control@,
                    land@,
                ),
        decreases countries@.len() - at,
    {
        assert(countries@[at as int] == start[at as int]);
        assert(ordered[at as int] == start[at as int]@);
        countries[at].initial_core_cells = counts[at];
        countries[at].initial_owned_land_cells = counts[at];
        countries[at].initial_city_population = populations[at];
        countries[at].capital_cell = capitals[at];
        at = at + 1;
    }
    let ghost settled = settled_countries(
        results,
        ordered,
        views(cities@),
        world_control@,
        land@,
    );
    proof {
        if reader.complete() {
            assert(views(countries@) =~= settled);
        }
    }
    let (seeds, fault) = seed_economies(&mut countries, config, &mut reader);
    if !reader.is_complete() {
        return Err(Stop::Missing(reader.into_missing()));
    }
    Ok(
        ScenarioDraft {
            grid,
            countries,
            cities,
            seeds,
            fault,
            unresolved_city_owners: unowned,
            land_cells: land_count,
        },
    )
}

/// The first economy that could not be opened.
pub open spec fn first_refusal(
    economies: Seq<Result<EconomyState, KernelFault>>,
    from: int,
) -> Option<KernelFault>
    decreases economies.len() - from,
{
    if from < 0 || from >= economies.len() {
        None
    } else {
        match economies[from] {
            Err(fault) => Some(fault),
            Ok(_) => first_refusal(economies, from + 1),
        }
    }
}

impl ScenarioDraft {
    /// Complete the baselines with the economies that grew from the seeds.
    pub fn complete(self, economies: &[Result<EconomyState, KernelFault>]) -> (outcome: Result<
        ScenarioProduction,
        ProductionError,
    >)
        requires
            economies@.len() == self.seeds@.len(),
        ensures
            match outcome {
                Ok(production) => {
                    &&& first_refusal(economies@, 0) is None
                    &&& self.fault is None
                    &&& production.schema_version@ == PRODUCTION_SCHEMA_VERSION@
                    &&& production.grid == self.grid
                    &&& views(production.countries@) == self@.countries
                    &&& views(production.cities@) == self@.cities
                    &&& production.economy_seeds@ == self.seeds@
                    &&& production.economy_states@.len() == economies@.len()
                    &&& forall|i: int|
                        0 <= i < economies@.len() ==> economies@[i] == Ok::<
                            EconomyState,
                            KernelFault,
                        >(#[trigger] production.economy_states@[i])
                    &&& production.counters == (ScenarioProductionCounters {
                        countries: self.countries@.len() as usize,
                        cities: self.cities@.len() as usize,
                        unresolved_city_owners: self.unresolved_city_owners,
                        economy_seeds: self.seeds@.len() as usize,
                        land_cells: self.land_cells,
                    })
                },
                Err(error) => match first_refusal(economies@, 0) {
                    Some(fault) => error == ProductionError::Economy(fault),
                    None => self.fault == Some(error),
                },
            },
    {
        let mut states: Vec<EconomyState> = Vec::new();
        let mut at: usize = 0;
        while at < economies.len()
            invariant
                at <= economies@.len(),
                states@.len() == at,
                first_refusal(economies@, 0) == first_refusal(economies@, at as int),
                forall|i: int|
                    0 <= i < at ==> economies@[i] == Ok::<EconomyState, KernelFault>(
                        #[trigger] states@[i],
                    ),
            decreases economies@.len() - at,
        {
            match economies[at] {
                Ok(state) => {
                    states.push(state);
                },
                Err(fault) => {
                    return Err(ProductionError::Economy(fault));
                },
            }
            at = at + 1;
        }
        if let Some(error) = self.fault {
            return Err(error);
        }
        let counters = ScenarioProductionCounters {
            countries: self.countries.len(),
            cities: self.cities.len(),
            unresolved_city_owners: self.unresolved_city_owners,
            economy_seeds: self.seeds.len(),
            land_cells: self.land_cells,
        };
        Ok(
            ScenarioProduction {
                schema_version: PRODUCTION_SCHEMA_VERSION,
                grid: self.grid,
                countries: self.countries,
                cities: self.cities,
                economy_seeds: self.seeds,
                economy_states: states,
                counters,
            },
        )
    }
}

/// Derive the baselines of a decoded scenario. Economies are opened from the seeds of the draft;
/// [`ScenarioDraft::complete`] takes them in.
pub fn derive_scenario_production(
    scenario: &DecodedScenario,
    config: &ProductionConfig,
    sheet: &Worksheet,
) -> (outcome: Result<ScenarioDraft, Stop<ProductionError>>)
    ensures
        ({
            let expected = drafted(
                sheet@,
                catalogue_of(json_contents(scenario.metadata)),
                scenario.target,
                scenario.world_control@,
                scenario.de_jure@,
                scenario.land@,
                *config,
            );
            match outcome {
                Ok(draft) => expected == Ok::<DraftModel, ProductionError>(draft@),
                Err(Stop::Failed(error)) => expected == Err::<DraftModel, ProductionError>(error),
                Err(Stop::Missing(missing)) => {
                    &&& missing@.len() > 0
                    &&& all_missing(missing@, sheet@)
                    &&& !draft_supplied(
                        sheet@,
                        catalogue_of(json_contents(scenario.metadata)),
                        scenario.target,
                        scenario.world_control@,
                        scenario.de_jure@,
                        scenario.land@,
                        *config,
                    )
                },
            }
        }),
{
    let catalogue = read_catalogue(&scenario.metadata);
    draft_scenario(
        &catalogue,
        scenario.target,
        scenario.world_control.as_slice(),
        scenario.de_jure.as_slice(),
        scenario.land.as_slice(),
        config,
        sheet,
    )
}

proof fn lemma_city_rows(
    results: Map<Operation, u64>,
    entries: Seq<CityEntryModel>,
    grid: GridSpec,
    world_control: Seq<u16>,
    ids: Set<u16>,
    count: nat,
)
    ensures
        city_rows(results, entries, grid, world_control, ids, count) matches Ok(rows) ==> {
            &&& forall|i: int|
                0 <= i < rows.len() ==> (#[trigger] rows[i]).owner_id == 0 || ids.contains(
                    rows[i].owner_id,
                )
            &&& forall|i: int, j: int|
                #![trigger rows[i], rows[j]]
                0 <= i < j < rows.len() ==> rows[i].city_id != rows[j].city_id
        },
    decreases count,
{
    if count > 0 {
        lemma_city_rows(results, entries, grid, world_control, ids, (count - 1) as nat);
        if let Ok(rest) = city_rows(
            results,
            entries,
            grid,
            world_control,
            ids,
            (count - 1) as nat,
        ) {
            if let Ok(rows) = city_rows(results, entries, grid, world_control, ids, count) {
                assert forall|i: int, j: int| #![trigger rows[i], rows[j]] 0 <= i < j
                    < rows.len() implies rows[i].city_id != rows[j].city_id by {
                    if j == rest.len() {
                        assert(rows[i] == rest[i]);
                        assert(!lists_city(rest, rows[j].city_id));
                    }
                }
            }
        }
    }
}

/// Every city of a draft belongs to a listed country or to nobody; no two cities share an
/// identifier, and they stand in the order of their cells, then of their identifiers.
pub proof fn drafted_cities_have_known_owners(
    results: Map<Operation, u64>,
    entries: Seq<CityEntryModel>,
    grid: GridSpec,
    world_control: Seq<u16>,
    ids: Set<u16>,
)
    ensures
        city_rows(results, entries, grid, world_control, ids, entries.len()) matches Ok(rows) ==> {
            let cities = stable_sorted(rows, city_order());
            &&& cities.len() == rows.len()
            &&& forall|i: int|
                0 <= i < cities.len() ==> (#[trigger] cities[i]).owner_id == 0 || ids.contains(
                    cities[i].owner_id,
                )
            &&& forall|i: int, j: int|
                #![trigger cities[i], cities[j]]
                0 <= i < j < cities.len() ==> cities[i].city_id != cities[j].city_id && (
                cities[i].cell < cities[j].cell || (cities[i].cell == cities[j].cell
                    && cities[i].city_id < cities[j].city_id))
        },
{
    lemma_city_rows(results, entries, grid, world_control, ids, entries.len());
    if let Ok(rows) = city_rows(results, entries, grid, world_control, ids, entries.len()) {
        stable_sort_orders(rows, city_order());
        let cities = stable_sorted(rows, city_order());
        lemma_permutation_contains(cities, rows);
        assert(cities.len() == rows.len()) by {
            broadcast use vstd::seq_lib::group_to_multiset_ensures;

            assert(cities.to_multiset().len() == cities.len());
            assert(rows.to_multiset().len() == rows.len());
        }
        assert forall|i: int| 0 <= i < cities.len() implies (#[trigger] cities[i]).owner_id == 0
            || ids.contains(cities[i].owner_id) by {
            assert(cities.contains(cities[i]));
            let k = choose|k: int| 0 <= k < rows.len() && rows[k] == cities[i];
            assert(rows[k].owner_id == 0 || ids.contains(rows[k].owner_id));
        }
        assert(rows.no_duplicates());
        rows.lemma_multiset_has_no_duplicates();
        cities.to_multiset_ensures();
        cities.lemma_multiset_has_no_duplicates_conv();
        assert forall|i: int, j: int| #![trigger cities[i], cities[j]] 0 <= i < j
            < cities.len() implies cities[i].city_id != cities[j].city_id && (cities[i].cell
            < cities[j].cell || (cities[i].cell == cities[j].cell && cities[i].city_id
            < cities[j].city_id)) by {
            assert(!city_order()(cities[j], cities[i]));
            assert(cities.contains(cities[i]));
            assert(cities.contains(cities[j]));
            let a = choose|a: int| 0 <= a < rows.len() && rows[a] == cities[i];
            let b = choose|b: int| 0 <= b < rows.len() && rows[b] == cities[j];
            assert(cities[i] != cities[j]);
            if a < b {
                assert(rows[a].city_id != rows[b].city_id);
            } else {
                assert(rows[b].city_id != rows[a].city_id);
            }
        }
    }
}

proof fn lemma_country_rows(entries: Seq<CountryEntryModel>, count: nat)
    ensures
        country_rows(entries, count) matches Ok(rows) ==> {
            &&& forall|i: int| 0 <= i < rows.len() ==> (#[trigger] rows[i]).country_id != 0
            &&& forall|i: int, j: int|
                #![trigger rows[i], rows[j]]
                0 <= i < j < rows.len() ==> rows[i].country_id != rows[j].country_id
        },
    decreases count,
{
    if count > 0 {
        lemma_country_rows(entries, (count - 1) as nat);
        if let Ok(rest) = country_rows(entries, (count - 1) as nat) {
            if let Ok(rows) = country_rows(entries, count) {
                assert forall|i: int, j: int| #![trigger rows[i], rows[j]] 0 <= i < j
                    < rows.len() implies rows[i].country_id != rows[j].country_id by {
                    assert(rows[i] == rest[i]);
                    if j == rest.len() {
                        assert(!lists_country(rest, rows[j].country_id));
                    } else {
                        assert(rows[j] == rest[j]);
                    }
                }
            }
        }
    }
}

proof fn lemma_seeding(
    results: Map<Operation, u64>,
    countries: Seq<CountryModel>,
    config: ProductionConfig,
    count: nat,
)
    requires
        count <= countries.len(),
    ensures
        ({
            let seeded = seeding(results, countries, config, count);
            &&& seeded.seeds.len() <= count
            &&& seeded.fault is None ==> seeded.seeds.len() == count
            &&& forall|i: int|
                0 <= i < seeded.seeds.len() ==> (#[trigger] seeded.seeds[i]).country_id
                    == countries[i].country_id
        }),
    decreases count,
{
    if count > 0 {
        lemma_seeding(results, countries, config, (count - 1) as nat);
    }
}

proof fn lemma_cells_sound(
    world_control: Seq<u16>,
    de_jure: Seq<u16>,
    land: Seq<u8>,
    ids: Set<u16>,
    from: int,
    cell: int,
)
    requires
        0 <= from <= cell < land.len(),
        cells_fault(world_control, de_jure, land, ids, from) is None,
    ensures
        cell_fault(world_control, de_jure, land, ids, cell) is None,
    decreases cell - from,
{
    if from < cell {
        lemma_cells_sound(world_control, de_jure, land, ids, from + 1, cell);
    }
}

proof fn lemma_owned_countable(
    world_control: Seq<u16>,
    de_jure: Seq<u16>,
    land: Seq<u8>,
    ids: Set<u16>,
    owner: u16,
    count: nat,
)
    requires
        count <= land.len(),
        owner != 0,
        cells_fault(world_control, de_jure, land, ids, 0) is None,
    ensures
        owned_cells(world_control, land, owner, count) <= u32::MAX,
    decreases count,
{
    if count > 0 {
        lemma_owned_countable(world_control, de_jure, land, ids, owner, (count - 1) as nat);
        lemma_cells_sound(world_control, de_jure, land, ids, 0, count - 1);
    }
}

/// The countries of a draft come in ascending order of identifiers that are not zero; each starts
/// with all the land that it owns as its core, and the seeds of the economies follow the countries.
/// Cities come in the order of their cells, then of their identifiers, which no two share; each
/// belongs to a listed country or to nobody, and those of nobody are counted.
pub proof fn drafts_are_ordered(
    results: Map<Operation, u64>,
    catalogue: CatalogueModel,
    grid: GridSpec,
    world_control: Seq<u16>,
    de_jure: Seq<u16>,
    land: Seq<u8>,
    config: ProductionConfig,
)
    ensures
        drafted(results, catalogue, grid, world_control, de_jure, land, config) matches Ok(draft)
            ==> {
            &&& forall|i: int, j: int|
                #![trigger draft.countries[i], draft.countries[j]]
                0 <= i < j < draft.countries.len() ==> draft.countries[i].country_id
                    < draft.countries[j].country_id
            &&& forall|i: int|
                0 <= i < draft.countries.len() ==> {
                    let country = #[trigger] draft.countries[i];
                    &&& country.country_id != 0
                    &&& country.initial_core_cells == country.initial_owned_land_cells
                    &&& country.initial_core_cells == owned_cells(
                        world_control,
                        land,
                        country.country_id,
                        land.len(),
                    )
                }
            &&& draft.seeds.len() <= draft.countries.len()
            &&& draft.fault is None ==> draft.seeds.len() == draft.countries.len()
            &&& forall|i: int|
                0 <= i < draft.seeds.len() ==> (#[trigger] draft.seeds[i]).country_id
                    == draft.countries[i].country_id
            &&& draft.unresolved_city_owners == unowned_cities(draft.cities, draft.cities.len())
            &&& forall|i: int, j: int|
                #![trigger draft.cities[i], draft.cities[j]]
                0 <= i < j < draft.cities.len() ==> draft.cities[i].city_id
                    != draft.cities[j].city_id && (draft.cities[i].cell < draft.cities[j].cell || (
                draft.cities[i].cell == draft.cities[j].cell && draft.cities[i].city_id
                    < draft.cities[j].city_id))
            &&& forall|i: int|
                0 <= i < draft.cities.len() ==> (#[trigger] draft.cities[i]).owner_id == 0
                    || lists_country(draft.countries, draft.cities[i].owner_id)
        },
{
    broadcast use vstd::seq_lib::group_to_multiset_ensures;

    if let Ok(draft) = drafted(results, catalogue, grid, world_control, de_jure, land, config) {
        let entries = catalogue.countries->Some_0;
        let rows = country_rows(entries, entries.len())->Ok_0;
        let countries = stable_sorted(rows, country_order());
        let settled = settled_countries(results, countries, draft.cities, world_control, land);
        drafted_cities_have_known_owners(
            results,
            catalogue.cities,
            grid,
            world_control,
            listed_ids(countries),
        );
        assert forall|i: int| 0 <= i < draft.cities.len() implies (
        #[trigger] draft.cities[i]).owner_id == 0 || lists_country(
            draft.countries,
            draft.cities[i].owner_id,
        ) by {
            let owner = draft.cities[i].owner_id;
            if owner != 0 {
                assert(listed_ids(countries).contains(owner));
                let k = choose|k: int|
                    0 <= k < countries.len() && (#[trigger] countries[k]).country_id == owner;
                assert(draft.countries[k].country_id == owner);
            }
        }
        lemma_country_rows(entries, entries.len());
        stable_sort_orders(rows, country_order());
        lemma_permutation_contains(countries, rows);
        lemma_permutation_contains(rows, countries);
        lemma_seeding(results, settled, config, settled.len());
        assert(rows.no_duplicates());
        rows.lemma_multiset_has_no_duplicates();
        countries.lemma_multiset_has_no_duplicates_conv();
        assert(draft.countries.len() == countries.len());
        assert forall|i: int| 0 <= i < countries.len() implies (#[trigger] countries[i]).country_id
            != 0 by {
            assert(countries.contains(countries[i]));
            let a = choose|a: int| 0 <= a < rows.len() && rows[a] == countries[i];
            assert(rows[a].country_id != 0);
        }
        assert forall|i: int, j: int|
            #![trigger countries[i], countries[j]]
            0 <= i < j < countries.len() implies countries[i].country_id
            < countries[j].country_id by {
            assert(!country_order()(countries[j], countries[i]));
            assert(countries.contains(countries[i]));
            assert(countries.contains(countries[j]));
            let a = choose|a: int| 0 <= a < rows.len() && rows[a] == countries[i];
            let b = choose|b: int| 0 <= b < rows.len() && rows[b] == countries[j];
            assert(countries[i] != countries[j]);
            if a < b {
                assert(rows[a].country_id != rows[b].country_id);
            } else {
                assert(rows[b].country_id != rows[a].country_id);
            }
        }
        assert forall|i: int, j: int|
            #![trigger draft.countries[i], draft.countries[j]]
            0 <= i < j < draft.countries.len() implies draft.countries[i].country_id
            < draft.countries[j].country_id by {
            assert(countries[i].country_id < countries[j].country_id);
        }
        assert forall|i: int| 0 <= i < draft.countries.len() implies {
            let country = #[trigger] draft.countries[i];
            country.country_id != 0 && country.initial_core_cells
                == country.initial_owned_land_cells && country.initial_core_cells == owned_cells(
                world_control,
                land,
                country.country_id,
                land.len(),
            )
        } by {
            assert(countries[i].country_id != 0);
            lemma_owned_countable(
                world_control,
                de_jure,
                land,
                listed_ids(countries),
                countries[i].country_id,
                land.len(),
            );
        }
    }
}

} // verus!
