use mw_core::catalogue::{derive_scenario_production, read_catalogue, stable_nonzero_hash};
use mw_core::economy::{CommandBand, EconomyState};
use mw_core::json::read_field;
use mw_core::production::{
    enforce_limit, estimate_territory_army_units, u32_count, EconomySeed, ProductionConfig,
    ProductionError, ScenarioProduction, PRODUCTION_SCHEMA_VERSION,
};
use mw_core::runtime::effects::restrict_to_explicit_active_sides;
use mw_core::scalar::Real;
use mw_core::scenario::{DecodedScenario, GridSpec};
use mw_core::simulation::{FrameSnapshot, UnitSnapshot, NATIVE_TICK_SCHEMA_VERSION};
use mw_core::strategic::{
    derive_strategic_cycle_input, CountryAggregate, OccupationState, SideAggregate,
    StrategicDerivationInput, TerritoryCommitMarker, TerritorySnapshot,
};
use mw_core::units::{KernelFault, UnitKind};
use mw_core::worksheet::{Operation, Stop, Worksheet};
use serde_json::Value;
use std::collections::BTreeMap;

fn val(value: f64) -> Real {
    Real::from_bits(value.to_bits())
}

fn number(value: Real) -> f64 {
    f64::from_bits(value.bits)
}

fn evaluate(operation: Operation) -> u64 {
    let value = match operation {
        Operation::Integer(n) => n as f64,
        Operation::Sum(a, b) => number(a) + number(b),
        Operation::Difference(a, b) => number(a) - number(b),
        Operation::Product(a, b) => number(a) * number(b),
        Operation::Quotient(a, b) => number(a) / number(b),
        Operation::Floor(a) => number(a).floor(),
        Operation::Ceiling(a) => number(a).ceil(),
        Operation::Power(a, b) => number(a).powf(number(b)),
        Operation::Whole(a) => return number(a) as u64,
        Operation::Round(a) => number(a).round(),
        Operation::Root(a) => number(a).sqrt(),
        Operation::Hypotenuse(a, b) => number(a).hypot(number(b)),
        Operation::LongitudeDelta(a, b) => {
            (number(b) - number(a) + 540.0).rem_euclid(360.0) - 180.0
        }
        Operation::Distance(a, b, c, d) => {
            let (lat, other) = (number(a).to_radians(), number(c).to_radians());
            let up = (number(c) - number(a)).to_radians();
            let mut across = number(d) - number(b);
            if across > 180.0 {
                across -= 360.0;
            } else if across < -180.0 {
                across += 360.0;
            }
            let across = across.to_radians();
            let chord = (up / 2.0).sin().powi(2)
                + lat.cos() * other.cos() * (across / 2.0).sin().powi(2);
            6_371.0 * 2.0 * chord.sqrt().atan2((1.0 - chord).max(0.0).sqrt())
        }
        Operation::Remainder(a, b) => number(a) % number(b),
        Operation::Signed(a) => return (number(a) as i64) as u64,
        Operation::Sine(a) => number(a).sin(),
        Operation::Cosine(a) => number(a).cos(),
        Operation::Wrapped(a) => return number(a).trunc().rem_euclid(4_294_967_296.0) as u64,
        Operation::Single(a) => f64::from(number(a) as f32),
    };
    value.to_bits()
}

fn fill(sheet: &mut Worksheet, missing: Vec<Operation>) {
    assert!(!missing.is_empty());
    for operation in missing {
        sheet.record(operation, evaluate(operation));
    }
}

fn solve<T>(
    attempt: impl Fn(&Worksheet) -> Result<T, Stop<ProductionError>>,
) -> Result<T, ProductionError> {
    let mut sheet = Worksheet::new();
    loop {
        match attempt(&sheet) {
            Ok(value) => return Ok(value),
            Err(Stop::Failed(error)) => return Err(error),
            Err(Stop::Missing(missing)) => fill(&mut sheet, missing),
        }
    }
}

fn json(text: &str) -> Value {
    serde_json::from_str(text).unwrap()
}

fn sample_scenario() -> DecodedScenario {
    let grid = GridSpec { grid_res: val(90.0), width: 4, height: 2 };
    DecodedScenario {
        metadata: json(
            "{
                \"metadata\": [
                    {\"id\": 0, \"name\": \"Empty Land\"},
                    {\"id\": 2, \"name\": \"Beta\", \"gdp\": 64, \"population\": 2000},
                    {\"id\": 1, \"name\": \"Alpha\", \"gdp\": 100, \"pop\": 1000}
                ],
                \"cities\": [
                    {\"id\": 10, \"name\": \"Alpha City\", \"lat\": -45, \"lng\": -90,
                     \"pop\": 100, \"isCapital\": true},
                    {\"id\": 11, \"name\": \"Alpha Outpost\", \"lat\": 45, \"lng\": 90,
                     \"population\": 50, \"ownerId\": 1},
                    {\"id\": \"unresolved\", \"lat\": 45, \"lng\": -90, \"pop\": 25}
                ]
            }",
        ),
        source: grid,
        target: grid,
        entry_count: 6,
        world_control: vec![1, 2, 0, 0, 0, 0, 0, 2],
        de_jure: vec![1, 1, 0, 0, 0, 0, 0, 2],
        land: vec![1, 1, 0, 0, 0, 0, 0, 1],
        biome: vec![0; 8],
        province: vec![0; 8],
    }
}

fn economy(seed: &EconomySeed) -> EconomyState {
    EconomyState {
        country_id: seed.country_id,
        economic_strength: val(1.0),
        base_income: val(1.0),
        treasury: val(0.0),
        income: val(0.0),
        occupation_yield: val(0.0),
        payroll_due: val(0.0),
        occupation_due: val(0.0),
        payroll_coverage: val(1.0),
        occupation_coverage: val(1.0),
        arrears_cycles: val(0.0),
        command_band: CommandBand::Paid,
        mutiny_recovery_cycles: 0,
        initial_core_cells: seed.initial_core_cells,
        initial_city_population: seed.initial_city_population,
        core_control_ratio: val(1.0),
        city_control_ratio: val(1.0),
        capital_held: true,
        last_event_band: CommandBand::Paid,
        capitulated: false,
    }
}

fn derive(
    scenario: &DecodedScenario,
    config: &ProductionConfig,
) -> Result<ScenarioProduction, ProductionError> {
    let draft = solve(|sheet| derive_scenario_production(scenario, config, sheet))?;
    let economies: Vec<Result<EconomyState, KernelFault>> =
        draft.seeds.iter().map(|seed| Ok(economy(seed))).collect();
    draft.complete(&economies)
}

fn estimate(cells: u64, config: &ProductionConfig) -> Result<f64, ProductionError> {
    solve(|sheet| estimate_territory_army_units(cells, config, sheet)).map(number)
}

#[test]
fn area_model_matches_browser_boundaries() {
    let config = ProductionConfig::default();
    assert_eq!(estimate(0, &config).unwrap(), 3.0);
    assert_eq!(estimate(1_500, &config).unwrap(), 99.0);
    assert_eq!(estimate(6_000, &config).unwrap(), 212.0);
    assert_eq!(estimate(1_000_000, &config).unwrap(), 2_400.0);
}

#[test]
fn normalizes_metadata_maps_cities_and_economy_seeds() {
    let production = derive(&sample_scenario(), &ProductionConfig::default()).unwrap();
    assert_eq!(production.schema_version, PRODUCTION_SCHEMA_VERSION);
    assert_eq!(production.countries.len(), 2);
    assert_eq!(production.cities.len(), 3);
    assert_eq!(production.counters.unresolved_city_owners, 1);

    let alpha = &production.countries[0];
    assert_eq!(alpha.country_id, 1);
    assert_eq!(alpha.initial_core_cells, 1);
    assert_eq!(alpha.initial_owned_land_cells, 1);
    assert_eq!(number(alpha.initial_city_population), 50.0);
    assert_eq!(alpha.capital_cell, None);
    assert_eq!(number(alpha.expected_army_units), 3.0);

    let beta = &production.countries[1];
    assert_eq!(beta.initial_core_cells, 2);
    assert_eq!(beta.initial_owned_land_cells, 2);
    assert_eq!(number(beta.initial_city_population), 100.0);
    assert_eq!(beta.capital_cell, Some(1));
    assert_eq!(production.economy_seeds[0].initial_core_cells, 1);
    assert_eq!(production.economy_states[1].initial_core_cells, 2);
}

fn aggregate(
    country_id: u16,
    side_index: i16,
    owned: u64,
    controlled: u64,
    core_controlled: u64,
) -> CountryAggregate {
    CountryAggregate {
        country_id,
        side_index,
        owned,
        controlled,
        core_controlled,
        de_jure_total: owned.max(1),
        core_control_ratio: val(0.0),
        city_population_total: val(0.0),
        city_population_controlled: val(0.0),
        capital_held: true,
        cities_controlled: 0,
        de_jure_control_by_side: BTreeMap::new(),
    }
}

fn unit(
    id: u64,
    side: u16,
    sovereign: u64,
    kind: UnitKind,
    position: (f64, f64),
    formation: (u64, u64),
    equipment: u64,
) -> UnitSnapshot {
    UnitSnapshot {
        id,
        side,
        sovereign,
        kind,
        lat: val(position.0),
        lng: val(position.1),
        health: val(100.0),
        max_health: val(100.0),
        health_fraction: val(1.0),
        personnel: formation.0,
        personnel_capacity: formation.1,
        equipment,
        max_equipment: equipment,
        dir_lat: val(0.0),
        dir_lng: val(0.0),
        coast_stuck_ticks: 0,
        last_combat_tick: 0,
        victory_boost_ticks: 0,
        landing_penalty_active: false,
        transport: false,
        at_sea: false,
        armor_supported: false,
        is_alpenjager: false,
        encircled_ticks: 0,
        mountain_intensity: val(0.0),
    }
}

#[test]
fn derives_payroll_garrisons_casualties_and_directed_hostility() {
    let config = ProductionConfig::default();
    let scenario = sample_scenario();
    let production = derive(&scenario, &config).unwrap();
    let economies = production
        .economy_states
        .iter()
        .cloned()
        .map(|state| (state.country_id, state))
        .collect::<BTreeMap<_, _>>();
    let country_to_side = BTreeMap::from([(1_u16, 0_usize), (2, 1)]);

    let mut country_one = aggregate(1, 0, 1, 2, 2);
    country_one.city_population_controlled = val(150.0);
    let mut country_two = aggregate(2, 1, 2, 1, 0);
    country_two.capital_held = false;
    country_two.de_jure_control_by_side.insert(0, 1);
    let territory = TerritorySnapshot {
        schema_version: "territory".to_owned(),
        generation: 7,
        commit_sequence: 3,
        topology_revision: 1,
        world_revision: 2,
        city_revision: 3,
        countries: vec![country_one, country_two],
        sides: vec![
            SideAggregate {
                side_index: 0,
                country_ids: vec![1],
                city_population_controlled: val(0.0),
            },
            SideAggregate {
                side_index: 1,
                country_ids: vec![2],
                city_population_controlled: val(0.0),
            },
        ],
    };
    let frame = FrameSnapshot {
        schema_version: NATIVE_TICK_SCHEMA_VERSION,
        tick: 600,
        frame: 60,
        units: vec![
            // Unit id zero is valid.
            unit(0, 0, 1, UnitKind::Army, (45.0, 90.0), (500, 1_000), 0),
            unit(2, 0, 1, UnitKind::Armor, (-45.0, -90.0), (0, 0), 50),
            unit(3, 1, 2, UnitKind::Army, (-45.0, 90.0), (1_500, 2_000), 0),
        ],
        events: Vec::new(),
        removed_ids: Vec::new(),
        abandoned_ids: Vec::new(),
    };
    let occupation = OccupationState {
        victim_id: 2,
        annexer_id: 1,
        base_income: val(20.0),
        core_cells: 1,
        expected_army_units: val(10.0),
        resistance: val(0.0),
        occupation_coverage: val(1.0),
        garrison_coverage: val(0.0),
        garrison_assigned: val(0.0),
        required_garrison: 3,
        held_ratio: val(1.0),
        active_rebellion: false,
        queued_at_cycle: 0,
        cooldown_until_cycle: 0,
    };
    let occupations = BTreeMap::from([(2_u16, occupation)]);
    let casualties = BTreeMap::from([(2_u16, val(5_000.0))]);
    let marker = TerritoryCommitMarker::of(&territory);
    let input = StrategicDerivationInput {
        tick: 600,
        force: false,
        scenario: &production,
        grid: scenario.target,
        de_jure: &scenario.de_jure,
        territory: &territory,
        territory_schema: "territory",
        expected_territory: marker,
        territory_fresh: true,
        frame: &frame,
        country_to_side: &country_to_side,
        side_count: 2,
        // Directed input; strategic output canonicalizes the pair.
        hostility_matrix: &[0, 1, 0, 0],
        economies: &economies,
        occupations: &occupations,
        casualties: &casualties,
    };
    let output = solve(|sheet| derive_strategic_cycle_input(input, &config, sheet)).unwrap();

    assert_eq!(output.input.active_sides, [0, 1]);
    assert_eq!(output.input.active_hostile_pairs, [(0, 1)]);
    assert_eq!(output.input.capitulation_active_sides, Some(vec![0]));
    assert_eq!(output.input.countries[0].unit_count, 2);
    assert_eq!(number(output.input.countries[0].payroll_due), 2.5);
    assert_eq!(output.input.countries[1].unit_count, 1);
    assert_eq!(number(output.input.countries[1].payroll_due), 2.0);
    assert_eq!(output.input.occupations[0].held_cells, 1);
    assert_eq!(number(output.input.occupations[0].garrison_strength), 0.5);
    assert_eq!(number(output.input.occupations[0].casualty_pressure), 0.5);
    assert_eq!(output.counters.garrison_units, 1);

    let mut stale = input;
    stale.territory_fresh = false;
    assert!(matches!(
        solve(|sheet| derive_strategic_cycle_input(stale, &config, sheet)),
        Err(ProductionError::StaleTerritory)
    ));
    let mut undeclared = input;
    undeclared.hostility_matrix = &[1, 1, 0, 0];
    assert!(matches!(
        solve(|sheet| derive_strategic_cycle_input(undeclared, &config, sheet)),
        Err(ProductionError::InvalidHostility)
    ));

    let mut restricted = output.input;
    restrict_to_explicit_active_sides(&mut restricted, &vec![1], &vec![0, 1, 0, 0], 2);
    assert_eq!(restricted.active_sides, [1]);
    assert!(restricted.active_hostile_pairs.is_empty());
    assert_eq!(restricted.capitulation_active_sides, Some(Vec::new()));
    assert!(!restricted.countries[0].active);
}

#[test]
fn rejects_duplicate_countries_and_unknown_dense_map_ids() {
    let mut duplicate = sample_scenario();
    duplicate.metadata["metadata"] = json("[{\"id\": 1}, {\"id\": 1}]");
    assert!(matches!(
        derive(&duplicate, &ProductionConfig::default()),
        Err(ProductionError::DuplicateCountry(1))
    ));

    let mut unknown = sample_scenario();
    unknown.de_jure[0] = 99;
    assert!(matches!(
        derive(&unknown, &ProductionConfig::default()),
        Err(ProductionError::UnknownMapCountry(99))
    ));
}

#[test]
fn metadata_is_read_by_kind() {
    let catalogue = read_catalogue(&sample_scenario().metadata);
    assert!(!format!("{catalogue:?}").is_empty());
    // Numbers, flags and texts are told apart from one another and from what is missing.
    let value = json("{\"n\": 2.5, \"w\": 7, \"t\": true, \"s\": \"x\", \"z\": null}");
    assert_eq!(read_field(&value, "n").as_number().map(number), Some(2.5));
    assert_eq!(read_field(&value, "w").as_whole(), Some(7));
    assert_eq!(read_field(&value, "n").as_whole(), None);
    assert!(read_field(&value, "t").is_flagged());
    assert!(!read_field(&value, "w").is_flagged());
    assert_eq!(read_field(&value, "s").as_number(), None);
    assert!(read_field(&value, "absent").is_missing());
}

#[test]
fn scenarios_without_countries_or_beyond_limits_are_refused() {
    let mut empty = sample_scenario();
    empty.metadata = json("{}");
    assert!(matches!(
        derive(&empty, &ProductionConfig::default()),
        Err(ProductionError::MissingCountries)
    ));
    let mut tight = ProductionConfig::default();
    tight.max_cities = 1;
    assert!(matches!(
        derive(&sample_scenario(), &tight),
        Err(ProductionError::Limit { actual: 3, limit: 1, .. })
    ));
    let mut nonsense = ProductionConfig::default();
    nonsense.unit_density_factor = val(f64::NAN);
    assert!(matches!(
        derive(&sample_scenario(), &nonsense),
        Err(ProductionError::InvalidConfig)
    ));
    let mut torn = sample_scenario();
    torn.land.pop();
    assert!(matches!(
        derive(&torn, &ProductionConfig::default()),
        Err(ProductionError::InvalidScenarioGrid)
    ));
    assert!(matches!(enforce_limit("units", 3, 2), Err(ProductionError::Limit { .. })));
    assert!(enforce_limit("units", 2, 2).is_ok());
    assert!(matches!(u32_count(4_294_967_296), Err(ProductionError::AggregateOverflow)));
    assert!(matches!(u32_count(4_294_967_295), Ok(4_294_967_295)));
}

#[test]
fn refused_economies_refuse_the_scenario() {
    let scenario = sample_scenario();
    let config = ProductionConfig::default();
    let draft = solve(|sheet| derive_scenario_production(&scenario, &config, sheet)).unwrap();
    let economies: Vec<Result<EconomyState, KernelFault>> =
        draft.seeds.iter().map(|_| Err(KernelFault { code: 4 })).collect();
    assert!(matches!(
        draft.complete(&economies),
        Err(ProductionError::Economy(KernelFault { code: 4 }))
    ));
}

#[test]
fn hashes_are_never_zero() {
    assert_eq!(stable_nonzero_hash(""), 0xcbf2_9ce4_8422_2325);
    assert_eq!(stable_nonzero_hash("a"), 0xaf63_dc4c_8601_ec8c);
}
