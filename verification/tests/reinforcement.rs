use mw_core::air::{
    AirCountryCoverage, AirPowerState, AirRole, AirWing, AirWingState, Airfield,
};
use mw_core::economy::{CommandBand, EconomyState};
use mw_core::paycycle::{AirPayCycleOutcome, MaterialPayCycleOutcome};
use mw_core::reinforcement::{
    MaterialLogisticsState, ReinforcementError, ReinforcementState,
    MATERIAL_LOGISTICS_SCHEMA_VERSION, REINFORCEMENT_SCHEMA_VERSION,
};
use mw_core::scalar::Real;
use mw_core::settlement::{repair_airfield, AirWingCreationStatus, Halt};
use mw_core::units::{CombatUnit, KernelFault, SimulationUnit, UnitKind};
use mw_core::worksheet::{Operation, Worksheet};
use std::collections::BTreeMap;

fn val(value: f64) -> Real {
    Real::from_bits(value.to_bits())
}

fn number(value: Real) -> f64 {
    f64::from_bits(value.bits)
}

fn evaluate(operation: Operation) -> u64 {
    let value = match operation {
        Operation::Integer(n) => n as f64,
        Operation::Sum(a, b) => number(a) + number(b),
        Operation::Difference(a, b) => number(a) - number(b),
        Operation::Product(a, b) => number(a) * number(b),
        Operation::Quotient(a, b) => number(a) / number(b),
        Operation::Floor(a) => number(a).floor(),
        Operation::Ceiling(a) => number(a).ceil(),
        Operation::Power(a, b) => number(a).powf(number(b)),
        Operation::Whole(a) => return number(a) as u64,
        Operation::Round(a) => number(a).round(),
        Operation::Root(a) => number(a).sqrt(),
        Operation::Hypotenuse(a, b) => number(a).hypot(number(b)),
        Operation::LongitudeDelta(a, b) => {
            (number(b) - number(a) + 540.0).rem_euclid(360.0) - 180.0
        }
        Operation::Distance(a, b, c, d) => {
            let (lat, other) = (number(a).to_radians(), number(c).to_radians());
            let up = (number(c) - number(a)).to_radians();
            let mut across = number(d) - number(b);
            if across > 180.0 {
                across -= 360.0;
            } else if across < -180.0 {
                across += 360.0;
            }
            let across = across.to_radians();
            let chord = (up / 2.0).sin().powi(2)
                + lat.cos() * other.cos() * (across / 2.0).sin().powi(2);
            6_371.0 * 2.0 * chord.sqrt().atan2((1.0 - chord).max(0.0).sqrt())
        }
        Operation::Remainder(a, b) => number(a) % number(b),
        Operation::Signed(a) => return (number(a) as i64) as u64,
        Operation::Sine(a) => number(a).sin(),
        Operation::Cosine(a) => number(a).cos(),
        Operation::Wrapped(a) => return number(a).trunc().rem_euclid(4_294_967_296.0) as u64,
        Operation::Single(a) => f64::from(number(a) as f32),
    };
    value.to_bits()
}

fn drive<T>(
    mut attempt: impl FnMut(&[bool], &Worksheet) -> Result<T, Halt>,
) -> Result<T, ReinforcementError> {
    let mut sheet = Worksheet::new();
    let mut verdicts = Vec::new();
    loop {
        match attempt(&verdicts, &sheet) {
            Ok(value) => return Ok(value),
            Err(Halt::Failed(error)) => return Err(error),
            Err(Halt::Missing(operation)) => sheet.record(operation, evaluate(operation)),
            Err(Halt::CheckAir(_)) => verdicts.push(true),
        }
    }
}

fn settle_air(
    state: &mut ReinforcementState,
    air: &mut AirPowerState,
    economies: &mut BTreeMap<u16, EconomyState>,
    personnel: &mut BTreeMap<usize, Real>,
) -> Result<AirPayCycleOutcome, ReinforcementError> {
    drive(|verdicts, sheet| {
        state.settle_air_pay_cycle(air, economies, personnel, &topology(), 2, verdicts, sheet)
    })
}

fn settle_material(
    state: &mut ReinforcementState,
    material: &mut MaterialLogisticsState,
    units: &mut Vec<SimulationUnit>,
    air: &mut AirPowerState,
    economies: &mut BTreeMap<u16, EconomyState>,
    personnel: &mut BTreeMap<usize, Real>,
) -> Result<MaterialPayCycleOutcome, ReinforcementError> {
    let homes =
        BTreeMap::from([(1, (val(0.0), val(0.0))), (2, (val(10.0), val(0.0)))]);
    drive(|verdicts, sheet| {
        state.settle_material_pay_cycle(
            material,
            units,
            air,
            economies,
            personnel,
            &topology(),
            2,
            &homes,
            100,
            verdicts,
            sheet,
        )
    })
}

fn topology() -> BTreeMap<u16, usize> {
    BTreeMap::from([(1, 0), (2, 1)])
}

fn economy(country_id: u16, treasury: f64) -> EconomyState {
    EconomyState {
        country_id,
        economic_strength: val(1.0),
        base_income: val(1.0),
        treasury: val(treasury),
        income: val(1.0),
        occupation_yield: val(0.0),
        payroll_due: val(0.0),
        occupation_due: val(0.0),
        payroll_coverage: val(1.0),
        occupation_coverage: val(1.0),
        arrears_cycles: val(0.0),
        command_band: CommandBand::Paid,
        mutiny_recovery_cycles: 0,
        initial_core_cells: 1,
        initial_city_population: val(0.0),
        core_control_ratio: val(1.0),
        city_control_ratio: val(1.0),
        capital_held: true,
        last_event_band: CommandBand::Paid,
        capitulated: false,
    }
}

fn field(id: u64, side: usize, country_id: u16, capacity: u32) -> Airfield {
    Airfield {
        id,
        side,
        owner_country_id: country_id,
        controller_country_id: country_id,
        lat: val(side as f64 * 10.0),
        lng: val(0.0),
        capacity,
        health: val(100.0),
        disabled: false,
        capture_repair_cycles: 0,
        capital: true,
    }
}

fn wing(
    id: u64,
    side: usize,
    country_id: u16,
    field_id: u64,
    role: AirRole,
    count: u32,
    max_count: u32,
    state: AirWingState,
) -> AirWing {
    AirWing {
        id,
        side,
        sovereign_country_id: country_id,
        airfield_id: field_id,
        return_airfield_id: None,
        role,
        quality: val(60.0),
        max_count,
        count,
        lat: val(side as f64 * 10.0),
        lng: val(0.0),
        state,
        target_kind: None,
        target_id: None,
        rearm_ticks: 0,
        cooldown_ticks: 0,
        endurance_ticks: 0,
        next_mission_tick: None,
        force_mission: false,
    }
}

fn air_state() -> AirPowerState {
    AirPowerState {
        airfields: vec![field(10, 0, 1, 4), field(20, 1, 2, 4)],
        wings: vec![
            wing(
                100,
                0,
                1,
                10,
                AirRole::Fighter,
                50,
                100,
                AirWingState::Patrol,
            ),
            wing(
                101,
                0,
                1,
                10,
                AirRole::Strike,
                25,
                100,
                AirWingState::Evacuated,
            ),
            wing(
                200,
                1,
                2,
                20,
                AirRole::Fighter,
                100,
                100,
                AirWingState::Patrol,
            ),
            wing(
                201,
                1,
                2,
                20,
                AirRole::Strike,
                100,
                100,
                AirWingState::Grounded,
            ),
        ],
        country_coverage: vec![
            AirCountryCoverage { country_id: 1, operations_coverage: val(1.0) },
            AirCountryCoverage { country_id: 2, operations_coverage: val(1.0) },
        ],
    }
}

fn worlds(
    treasury: f64,
) -> (
    ReinforcementState,
    AirPowerState,
    BTreeMap<u16, EconomyState>,
    BTreeMap<usize, Real>,
) {
    let air = air_state();
    let state = ReinforcementState::bootstrap(&air, Ok(()), 500, 202, &topology(), 2).unwrap();
    (
        state,
        air,
        BTreeMap::from([(1, economy(1, treasury)), (2, economy(2, treasury))]),
        BTreeMap::from([(0, val(1_000.0)), (1, val(1_000.0))]),
    )
}

#[test]
fn reinforcement_bootstrap_is_canonical() {
    let air = air_state();
    let state = ReinforcementState::bootstrap(&air, Ok(()), 500, 202, &topology(), 2).unwrap();
    assert_eq!(state.schema, REINFORCEMENT_SCHEMA_VERSION);
    assert_eq!(state.next_unit_id, 500);
    assert_eq!(state.countries[0].fighter_capacity, 100);
    assert_eq!(state.countries[0].strike_capacity, 100);
    assert_eq!(state.countries[0].reserve_fighters, 0);
}

#[test]
fn bootstrap_rejects_air_topology_disagreement_and_stale_id() {
    let mut air = air_state();
    air.wings[0].side = 1;
    assert!(matches!(
        ReinforcementState::bootstrap(&air, Ok(()), 500, 202, &topology(), 2),
        Err(ReinforcementError::Air(_)) | Err(ReinforcementError::InvalidWorld(_))
    ));

    let air = air_state();
    assert!(matches!(
        ReinforcementState::bootstrap(&air, Ok(()), 500, 201, &topology(), 2),
        Err(ReinforcementError::InvalidState(_))
    ));
}

#[test]
fn operations_exclude_evacuated_wings_and_pay_before_replacements() {
    let (mut state, mut air, mut economies, mut personnel) = worlds(1.0);
    let outcome =
        settle_air(&mut state, &mut air, &mut economies, &mut personnel).unwrap();
    let country = &outcome.countries[0];
    assert_eq!(number(state.countries[0].air_operations_due), 0.5);
    assert_eq!(number(country.operations_spent), 0.5);
    assert_eq!(country.fighters_purchased, 1);
    assert_eq!(country.strike_purchased, 1);
    assert_eq!(number(state.countries[0].replacement_spent), 0.35);
    assert!((number(economies[&1].treasury) - 0.15).abs() < 1e-12);
    assert_eq!(number(air.country_coverage[0].operations_coverage), 1.0);
}

#[test]
fn funding_gate_blocks_operations_and_all_replacement_purchases() {
    let (mut state, mut air, mut economies, mut personnel) = worlds(100.0);
    economies.get_mut(&1).unwrap().payroll_coverage = val(0.998);
    let outcome =
        settle_air(&mut state, &mut air, &mut economies, &mut personnel).unwrap();
    assert_eq!(number(outcome.countries[0].operations_spent), 0.0);
    assert_eq!(outcome.countries[0].fighters_purchased, 0);
    assert_eq!(outcome.countries[0].strike_purchased, 0);
    assert_eq!(number(state.countries[0].operations_coverage), 0.0);
    assert_eq!(number(economies[&1].treasury), 100.0);
    assert_eq!(number(air.country_coverage[0].operations_coverage), 0.0);
}

#[test]
fn capitulated_country_publishes_zero_without_touching_resources_or_wings() {
    let (mut state, mut air, mut economies, mut personnel) = worlds(100.0);
    state.countries[0].reserve_fighters = 40;
    state.countries[0].reserve_strike = 50;
    economies.get_mut(&1).unwrap().capitulated = true;
    let wings_before = air.wings.clone();
    let treasury_before = economies[&1].treasury;
    let personnel_before = personnel[&0];
    let next_air_wing_id_before = state.next_air_wing_id;

    let outcome =
        settle_air(&mut state, &mut air, &mut economies, &mut personnel).unwrap();

    let country = &outcome.countries[0];
    assert_eq!(country.country_id, 1);
    assert_eq!(number(country.operations_spent), 0.0);
    assert_eq!(country.fighters_purchased, 0);
    assert_eq!(country.strike_purchased, 0);
    assert_eq!(country.fighters_reinforced, 0);
    assert_eq!(country.strike_reinforced, 0);
    assert!(country.wing_creation.is_empty());
    assert_eq!(number(state.countries[0].air_operations_due), 0.0);
    assert_eq!(number(state.countries[0].operations_coverage), 0.0);
    assert_eq!(number(state.countries[0].replacement_spent), 0.0);
    assert_eq!(state.countries[0].reserve_fighters, 40);
    assert_eq!(state.countries[0].reserve_strike, 50);
    assert_eq!(state.next_air_wing_id, next_air_wing_id_before);
    assert_eq!(air.wings, wings_before);
    assert_eq!(number(air.country_coverage[0].operations_coverage), 0.0);
    assert_eq!(economies[&1].treasury, treasury_before);
    assert_eq!(personnel[&0], personnel_before);
}

#[test]
fn partial_operations_spend_prevents_replacements() {
    let (mut state, mut air, mut economies, mut personnel) = worlds(0.25);
    let outcome =
        settle_air(&mut state, &mut air, &mut economies, &mut personnel).unwrap();
    assert_eq!(number(outcome.countries[0].operations_spent), 0.25);
    assert_eq!(number(state.countries[0].operations_coverage), 0.5);
    assert_eq!(number(state.countries[0].replacement_spent), 0.0);
    assert_eq!(outcome.countries[0].fighters_purchased, 0);
}

#[test]
fn existing_wings_fill_in_id_order_and_consume_one_crew_each() {
    let (mut state, mut air, mut economies, mut personnel) = worlds(100.0);
    state.countries[0].reserve_fighters = 50;
    state.countries[0].fighter_capacity = 150;
    personnel.insert(0, val(20.0));
    settle_air(&mut state, &mut air, &mut economies, &mut personnel)
        .unwrap();
    assert_eq!(air.wings[0].count, 70);
    assert_eq!(state.countries[0].reserve_fighters, 31);
    assert_eq!(number(personnel[&0]), 0.0);
}

#[test]
fn creates_one_missing_role_wing_with_monotonic_id() {
    let mut air = air_state();
    air.wings
        .retain(|wing| !(wing.sovereign_country_id == 1 && wing.role == AirRole::Strike));
    let mut state = ReinforcementState::bootstrap(&air, Ok(()), 500, 202, &topology(), 2).unwrap();
    state.countries[0].strike_capacity = 48;
    state.countries[0].reserve_strike = 30;
    let mut economies = BTreeMap::from([(1, economy(1, 100.0)), (2, economy(2, 100.0))]);
    let mut personnel = BTreeMap::from([(0, val(30.0)), (1, val(0.0))]);
    let outcome =
        settle_air(&mut state, &mut air, &mut economies, &mut personnel).unwrap();
    let created = &outcome.countries[0].wing_creation[1];
    assert_eq!(created.status, AirWingCreationStatus::Created);
    assert_eq!(created.created_wing_id, Some(202));
    assert_eq!(created.created_aircraft, 24);
    assert_eq!(created.remaining_missing_wings, 1);
    assert_eq!(state.next_air_wing_id, 203);
    // One crew fills the existing fighter with this cycle's purchase,
    // then 24 crews staff the newly created strike wing.
    assert_eq!(number(personnel[&0]), 5.0);
    assert_eq!(air.wings.last().unwrap().state, AirWingState::Grounded);
}

#[test]
fn wing_creation_reports_airfield_and_personnel_bounds() {
    let mut air = air_state();
    air.wings
        .retain(|wing| !(wing.sovereign_country_id == 1 && wing.role == AirRole::Strike));
    air.airfields[0].capacity = 1;
    let mut state = ReinforcementState::bootstrap(&air, Ok(()), 500, 202, &topology(), 2).unwrap();
    state.countries[0].strike_capacity = 24;
    state.countries[0].reserve_strike = 24;
    let mut economies = BTreeMap::from([(1, economy(1, 100.0)), (2, economy(2, 100.0))]);
    let mut personnel = BTreeMap::from([(0, val(24.0)), (1, val(0.0))]);
    let outcome =
        settle_air(&mut state, &mut air, &mut economies, &mut personnel).unwrap();
    assert_eq!(
        outcome.countries[0].wing_creation[1].status,
        AirWingCreationStatus::NoEligibleAirfield
    );
    assert_eq!(state.next_air_wing_id, 202);

    air.airfields[0].capacity = 4;
    personnel.insert(0, val(0.0));
    let outcome =
        settle_air(&mut state, &mut air, &mut economies, &mut personnel).unwrap();
    assert_eq!(
        outcome.countries[0].wing_creation[1].status,
        AirWingCreationStatus::NoPersonnel
    );
}

#[test]
fn validation_failure_is_atomic_for_every_mutable_input() {
    let (mut state, mut air, mut economies, mut personnel) = worlds(100.0);
    personnel.remove(&1);
    let before_state = format!("{state:?}");
    let before_air = format!("{air:?}");
    let before_economies = format!("{economies:?}");
    let before_personnel = format!("{personnel:?}");
    assert!(
        settle_air(&mut state, &mut air, &mut economies, &mut personnel)
            .is_err()
    );
    assert_eq!(format!("{state:?}"), before_state);
    assert_eq!(format!("{air:?}"), before_air);
    assert_eq!(format!("{economies:?}"), before_economies);
    assert_eq!(format!("{personnel:?}"), before_personnel);
}

#[test]
fn late_id_overflow_rolls_back_operations_spend_purchase_and_claimed_crew() {
    let mut air = air_state();
    air.wings
        .retain(|wing| !(wing.sovereign_country_id == 1 && wing.role == AirRole::Strike));
    let mut state = ReinforcementState::bootstrap(&air, Ok(()), 500, u64::MAX, &topology(), 2).unwrap();
    state.countries[0].strike_capacity = 24;
    state.countries[0].reserve_strike = 24;
    let mut economies = BTreeMap::from([(1, economy(1, 100.0)), (2, economy(2, 100.0))]);
    let mut personnel = BTreeMap::from([(0, val(24.0)), (1, val(0.0))]);
    let before_state = format!("{state:?}");
    let before_air = format!("{air:?}");
    let before_economies = format!("{economies:?}");
    let before_personnel = format!("{personnel:?}");

    assert!(matches!(
        settle_air(&mut state, &mut air, &mut economies, &mut personnel),
        Err(ReinforcementError::Overflow("next air-wing ID"))
    ));
    assert_eq!(format!("{state:?}"), before_state);
    assert_eq!(format!("{air:?}"), before_air);
    assert_eq!(format!("{economies:?}"), before_economies);
    assert_eq!(format!("{personnel:?}"), before_personnel);
}

#[test]
fn cycle_order_is_country_id_then_fighter_then_strike() {
    let (mut state, mut air, mut economies, mut personnel) = worlds(100.0);
    state.countries[0].reserve_fighters = 10;
    state.countries[0].fighter_capacity = 110;
    state.countries[1].reserve_fighters = 10;
    state.countries[1].fighter_capacity = 110;
    personnel.insert(0, val(10.0));
    personnel.insert(1, val(10.0));
    let outcome =
        settle_air(&mut state, &mut air, &mut economies, &mut personnel).unwrap();
    assert_eq!(
        outcome
            .countries
            .iter()
            .map(|country| country.country_id)
            .collect::<Vec<_>>(),
        vec![1, 2]
    );
    assert_eq!(
        outcome.countries[0]
            .wing_creation
            .iter()
            .map(|entry| entry.role)
            .collect::<Vec<_>>(),
        vec![AirRole::Fighter, AirRole::Strike]
    );
}

fn armor_unit(id: u64, country_id: u16, side: usize, equipment: u64) -> SimulationUnit {
    SimulationUnit {
        combat: CombatUnit {
            id,
            side: side as u64,
            sovereign: country_id as u64,
            kind: UnitKind::Armor,
            lat: val(side as f64 * 10.0),
            lng: val(0.0),
            health: val(50.0),
            max_health: val(100.0),
            personnel: 0,
            personnel_capacity: 0,
            equipment,
            max_equipment: 100,
            quality: val(60.0),
            transport: false,
            armor_supported: false,
            landing_penalty_active: false,
            at_sea: false,
            last_combat_tick: 0,
            victory_boost_ticks: 0,
        },
        dir_lat: val(0.0),
        dir_lng: val(0.0),
        coast_stuck_ticks: 0,
        armor_landing_penalty_until_tick: 0,
        is_support: false,
        ally_weight: val(1.0),
    }
}

type MaterialWorld = (
    ReinforcementState,
    MaterialLogisticsState,
    Vec<SimulationUnit>,
    AirPowerState,
    BTreeMap<u16, EconomyState>,
    BTreeMap<usize, Real>,
);

fn material_world() -> MaterialWorld {
    let air = air_state();
    let units = vec![armor_unit(1, 1, 0, 50)];
    let profiles = BTreeMap::from([(1, (100_u64, val(70.0))), (2, (0_u64, val(70.0)))]);
    let material =
        MaterialLogisticsState::bootstrap(&units, &profiles, &topology(), 2).unwrap();
    let reinforcement = ReinforcementState::bootstrap(&air, Ok(()), 500, 202, &topology(), 2).unwrap();
    (
        reinforcement,
        material,
        units,
        air,
        BTreeMap::from([(1, economy(1, 100.0)), (2, economy(2, 100.0))]),
        BTreeMap::from([(0, val(200.0)), (1, val(0.0))]),
    )
}

#[test]
fn material_bootstrap_is_ordered_and_validated() {
    let (_, material, units, _, _, _) = material_world();
    assert_eq!(material.schema, MATERIAL_LOGISTICS_SCHEMA_VERSION);
    assert_eq!(
        material
            .countries
            .iter()
            .map(|c| c.country_id)
            .collect::<Vec<_>>(),
        vec![1, 2]
    );
    let mut invalid = material;
    invalid.countries[0].reserve_armor = invalid.countries[0].armor_capacity + 1;
    assert!(invalid.validate(&units, &topology(), 2).is_err());
}

#[test]
fn material_cycle_repairs_then_buys_and_reinforces_armor() {
    let (mut reinforcement, mut material, mut units, mut air, mut economies, mut personnel) =
        material_world();
    air.airfields[0].health = val(50.0);
    air.airfields[0].disabled = true;
    let before = economies[&1].treasury;
    let outcome = settle_material(
        &mut reinforcement,
        &mut material,
        &mut units,
        &mut air,
        &mut economies,
        &mut personnel,
    )
        .unwrap();
    let country = &outcome.countries[0];
    assert_eq!(country.airfields_repaired, 1);
    assert!(number(country.airfield_repair_spent) > 0.0);
    assert!(country.armor_purchased > 0);
    assert_eq!(country.armor_reinforced, 1);
    assert!(number(units[0].combat.health) > 50.0);
    assert!(number(personnel[&0]) < 200.0);
    assert!(number(economies[&1].treasury) < number(before));
}

#[test]
fn material_capitulation_clears_reserves_and_evacuates_wings() {
    let (mut reinforcement, mut material, mut units, mut air, mut economies, mut personnel) =
        material_world();
    material.countries[0].reserve_armor = 20;
    reinforcement.countries[0].reserve_fighters = 10;
    reinforcement.countries[0].reserve_strike = 10;
    economies.get_mut(&1).unwrap().capitulated = true;
    let outcome = settle_material(
        &mut reinforcement,
        &mut material,
        &mut units,
        &mut air,
        &mut economies,
        &mut personnel,
    )
        .unwrap();
    assert_eq!(material.countries[0].reserve_armor, 0);
    assert_eq!(reinforcement.countries[0].reserve_fighters, 0);
    assert_eq!(reinforcement.countries[0].reserve_strike, 0);
    assert!(
        outcome.countries[0].evacuated_aircraft > 0 || outcome.countries[0].lost_aircraft > 0
    );
}

#[test]
fn material_late_allocator_overflow_is_atomic() {
    let (mut reinforcement, mut material, mut units, mut air, mut economies, mut personnel) =
        material_world();
    reinforcement.next_unit_id = u64::MAX;
    material.countries[0].armor_capacity = 200;
    material.countries[0].reserve_armor = 150;
    personnel.insert(0, val(1_000.0));
    let before = format!(
        "{:?}",
        (&reinforcement, &material, &units, &air, &economies, &personnel)
    );
    assert!(matches!(
        settle_material(
        &mut reinforcement,
        &mut material,
        &mut units,
        &mut air,
        &mut economies,
        &mut personnel,
    ),
        Err(ReinforcementError::Overflow("land unit ID"))
    ));
    assert_eq!(
        format!("{:?}", (&reinforcement, &material, &units, &air, &economies, &personnel)),
        before
    );
}

#[test]
fn refused_air_states_refuse_the_cycle() {
    let (mut state, mut air, mut economies, mut personnel) = worlds(100.0);
    let sheet = Worksheet::new();
    let outcome = state.settle_air_pay_cycle(
        &mut air,
        &mut economies,
        &mut personnel,
        &topology(),
        2,
        &[false],
        &sheet,
    );
    assert!(matches!(outcome, Err(Halt::Failed(ReinforcementError::Air(_)))));
    assert!(matches!(
        ReinforcementState::bootstrap(&air, Err(KernelFault { code: 1 }), 500, 202, &topology(), 2),
        Err(ReinforcementError::Air(_))
    ));
}

#[test]
fn a_new_armored_formation_takes_the_next_id() {
    let (mut reinforcement, mut material, mut units, mut air, mut economies, mut personnel) =
        material_world();
    material.countries[0].armor_capacity = 200;
    material.countries[0].reserve_armor = 150;
    personnel.insert(0, val(1_000.0));
    let outcome = settle_material(
        &mut reinforcement,
        &mut material,
        &mut units,
        &mut air,
        &mut economies,
        &mut personnel,
    )
    .unwrap();
    assert_eq!(outcome.countries[0].armor_creation.created_unit_id, Some(500));
    assert_eq!(reinforcement.next_unit_id, 501);
    assert_eq!(units.len(), 2);
    assert_eq!(units[1].combat.id, 500);
    assert_eq!(units[1].combat.kind, UnitKind::Armor);
}

#[test]
fn a_repair_that_lacks_a_result_leaves_the_field() {
    let mut sheet = Worksheet::new();
    let mut damaged = field(1, 0, 1, 4);
    damaged.health = val(40.0);
    let before = damaged;
    let missing = repair_airfield(&mut damaged, &mut sheet.reader()).unwrap_err();
    assert_eq!(missing, Operation::Sum(val(40.0), val(25.0)));
    assert_eq!(damaged, before);
    sheet.record(missing, val(65.0).bits);
    assert_eq!(repair_airfield(&mut damaged, &mut sheet.reader()), Ok(true));
    assert_eq!(damaged.health, val(65.0));
}
