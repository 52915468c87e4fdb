use mw_core::operations::{
    stable_task_force_key, CountryDesperationMode, CountryDesperationState,
    CountryOperationalInput, IntelStatus, OperationalError, OperationalPoint,
    OperationalRuntimeState, OperationalTaskForce, TacticalContactObservation, TaskForceMember,
    TaskForcePhase, TaskForcePosture, TaskForceRole, WarPosture, OPERATIONAL_AI_SCHEMA_VERSION,
};
use mw_core::scalar::Real;
use mw_core::taskforce::OperationalUnitInput;
use mw_core::worksheet::{Operation, Worksheet};
use std::collections::{BTreeMap, BTreeSet};

fn val(value: f64) -> Real {
    Real::from_bits(value.to_bits())
}

fn number(value: Real) -> f64 {
    f64::from_bits(value.bits)
}

fn evaluate(operation: Operation) -> u64 {
    let value = match operation {
        Operation::Integer(n) => n as f64,
        Operation::Sum(a, b) => number(a) + number(b),
        Operation::Difference(a, b) => number(a) - number(b),
        Operation::Product(a, b) => number(a) * number(b),
        Operation::Quotient(a, b) => number(a) / number(b),
        Operation::Floor(a) => number(a).floor(),
        Operation::Ceiling(a) => number(a).ceil(),
        Operation::Power(a, b) => number(a).powf(number(b)),
        Operation::Whole(a) => return number(a) as u64,
        Operation::Round(a) => number(a).round(),
        Operation::Root(a) => number(a).sqrt(),
        Operation::Hypotenuse(a, b) => number(a).hypot(number(b)),
        Operation::LongitudeDelta(a, b) => {
            (number(b) - number(a) + 540.0).rem_euclid(360.0) - 180.0
        }
        Operation::Distance(a, b, c, d) => {
            let (lat, other) = (number(a).to_radians(), number(c).to_radians());
            let up = (number(c) - number(a)).to_radians();
            let mut across = number(d) - number(b);
            if across > 180.0 {
                across -= 360.0;
            } else if across < -180.0 {
                across += 360.0;
            }
            let across = across.to_radians();
            let chord = (up / 2.0).sin().powi(2)
                + lat.cos() * other.cos() * (across / 2.0).sin().powi(2);
            6_371.0 * 2.0 * chord.sqrt().atan2((1.0 - chord).max(0.0).sqrt())
        }
        Operation::Remainder(a, b) => number(a) % number(b),
        Operation::Signed(a) => return (number(a) as i64) as u64,
        Operation::Sine(a) => number(a).sin(),
        Operation::Cosine(a) => number(a).cos(),
        Operation::Wrapped(a) => return number(a).trunc().rem_euclid(4_294_967_296.0) as u64,
        Operation::Single(a) => f64::from(number(a) as f32),
    };
    value.to_bits()
}

fn fill(sheet: &mut Worksheet, missing: Vec<Operation>) {
    assert!(!missing.is_empty());
    for operation in missing {
        sheet.record(operation, evaluate(operation));
    }
}

fn settle<T>(mut attempt: impl FnMut(&Worksheet) -> Result<T, Vec<Operation>>) -> T {
    let mut sheet = Worksheet::new();
    loop {
        match attempt(&sheet) {
            Ok(value) => return value,
            Err(missing) => fill(&mut sheet, missing),
        }
    }
}

fn point(lat: f64, lng: f64) -> OperationalPoint {
    OperationalPoint { lat: val(lat), lng: val(lng) }
}

fn units() -> BTreeMap<u64, usize> {
    BTreeMap::from([(1, 0), (2, 0), (3, 0), (9, 1)])
}

fn countries() -> BTreeSet<u16> {
    BTreeSet::from([10, 20])
}

fn task_force() -> OperationalTaskForce {
    OperationalTaskForce {
        id: "tf-1".to_owned(),
        signature: "plan:1".to_owned(),
        side_index: 0,
        plan_signature: "plan:1".to_owned(),
        plan_type: "PUSH_FRONT".to_owned(),
        theater_id: None,
        target: Some(point(0.0, 10.0)),
        staging_anchor: Some(point(0.0, 0.0)),
        route: Vec::new(),
        phase: TaskForcePhase::Attacking,
        posture: TaskForcePosture::Balanced,
        members: (1..=3)
            .map(|unit_id| TaskForceMember {
                unit_id,
                role: TaskForceRole::Line,
                assigned_tick: 0,
                route_progress: val(0.2),
            })
            .collect(),
        reserve_unit_ids: Vec::new(),
        desired_power: val(3.0),
        launch_power: val(3.0),
        current_power: val(3.0),
        peak_power: val(3.0),
        readiness: val(1.0),
        max_assigned_units: 3,
        created_tick: 0,
        phase_started_tick: 0,
        last_progress_tick: 0,
        last_recovery_tick: 0,
        recovery_power: val(0.0),
        progress: val(0.0),
        withdrawal_anchor: Some(point(0.0, 0.0)),
        completion_reason: None,
        outcome: None,
        severe_surprise: false,
        parent_task_force_id: None,
        supply_invalidated_tick: None,
        intent_revision: 0,
    }
}

fn state() -> OperationalRuntimeState {
    let mut state =
        OperationalRuntimeState::bootstrap(2, &[0, 1, 1, 0], &[val(3.0), val(10.0)]);
    state.task_forces.push(task_force());
    state.country_desperation = [10, 20]
        .into_iter()
        .map(|country_id| CountryDesperationState {
            country_id,
            mode: CountryDesperationMode::Normal,
            initial_cities: Some(2),
            initial_manpower: Some(val(100.0)),
            previous_controlled: Some(100),
            stall_ticks: 0,
        })
        .collect();
    state
}

fn sighting() -> TacticalContactObservation {
    TacticalContactObservation {
        observer_side: 0,
        enemy_side: 1,
        target_unit_id: 9,
        target_country_id: 20,
        target_position: point(1.0, 2.0),
        observed_power: val(4.0),
        kind: "army".to_owned(),
    }
}

fn ingest(state: &mut OperationalRuntimeState, tick: u64, seen: &[TacticalContactObservation]) {
    settle(|sheet| state.ingest_tactical_contacts(tick, seen, sheet));
}

fn pre_tick(state: &mut OperationalRuntimeState, tick: u64) {
    settle(|sheet| state.pre_tick(tick, sheet));
}

fn known(state: &OperationalRuntimeState, side: usize) -> Option<f64> {
    settle(|sheet| state.known_hostile_strength(side, sheet)).map(number)
}

fn advance(
    state: &mut OperationalRuntimeState,
    tick: u64,
    units: &[OperationalUnitInput],
    collapsing: &BTreeSet<usize>,
) {
    settle(|sheet| state.advance_task_forces(tick, units, collapsing, sheet));
}

fn unit(unit_id: u64, supply_collapsed_tick: Option<u64>) -> OperationalUnitInput {
    OperationalUnitInput {
        unit_id,
        side_index: 0,
        country_id: 10,
        position: point(0.0, unit_id as f64),
        power: val(1.0),
        readiness: val(1.0),
        supply_collapsed_tick,
        encircled_ticks: 0,
    }
}

#[test]
fn intel_decay_and_known_power_match_browser_fallback() {
    let mut state = state();
    ingest(&mut state, 10, &[sighting()]);
    assert_eq!(known(&state, 0), Some(4.0));
    pre_tick(&mut state, 311);
    assert_eq!(state.sides[0].intel.contacts[0].status, IntelStatus::Stale);
    pre_tick(&mut state, 1_811);
    assert!(state.sides[0].intel.contacts.is_empty());
    assert_eq!(known(&state, 0), Some(10.0));
}

#[test]
fn planning_prunes_contacts_for_units_destroyed_before_ai_resolution() {
    let mut state = state();
    ingest(&mut state, 10, &[sighting()]);
    pre_tick(&mut state, 11);

    let surviving_units = [1, 2, 3].map(|unit_id| unit(unit_id, None));
    advance(&mut state, 11, &surviving_units, &BTreeSet::new());

    assert!(state.sides[0].intel.contacts.is_empty());
    let live_units = BTreeMap::from([(1, 0), (2, 0), (3, 0)]);
    assert!(state.validate(2, &live_units, &countries(), 11).is_ok());
}

#[test]
fn membership_is_sticky_and_supply_collapse_invalidates_only_its_force() {
    let mut state = state();
    let inputs = [unit(1, Some(1)), unit(2, Some(1)), unit(3, None)];
    advance(&mut state, 1, &inputs, &BTreeSet::new());
    let task_force = &state.task_forces[0];
    assert_eq!(task_force.phase, TaskForcePhase::Culminated);
    assert_eq!(task_force.supply_invalidated_tick, Some(1));
    assert_eq!(
        task_force.members.iter().map(|member| member.unit_id).collect::<Vec<_>>(),
        vec![1, 2, 3]
    );
}

#[test]
fn supply_collapse_window_is_inclusive_and_expires_after_fifteen_ticks() {
    let inputs = [1, 2, 3].map(|unit_id| unit(unit_id, (unit_id <= 2).then_some(1)));

    let mut inclusive = state();
    advance(&mut inclusive, 16, &inputs, &BTreeSet::new());
    assert_eq!(
        inclusive.task_forces[0].completion_reason.as_deref(),
        Some("SUPPLY_COLLAPSE")
    );

    let mut expired = state();
    advance(&mut expired, 17, &inputs, &BTreeSet::new());
    assert_eq!(expired.task_forces[0].phase, TaskForcePhase::Attacking);
    assert_eq!(expired.task_forces[0].supply_invalidated_tick, None);
}

#[test]
fn collapsing_side_holds_regrouping_force_as_defense() {
    let mut state = state();
    state.task_forces[0].phase = TaskForcePhase::Regrouping;
    let inputs = [1, 2, 3].map(|unit_id| unit(unit_id, None));

    advance(&mut state, 1, &inputs, &BTreeSet::from([0]));

    let task_force = &state.task_forces[0];
    assert_eq!(task_force.phase, TaskForcePhase::Regrouping);
    assert_eq!(task_force.plan_type, "DEFEND");
    assert_eq!(task_force.completion_reason.as_deref(), Some("COLLAPSING_DEFENSE"));
    assert_eq!(task_force.outcome, None);
}

#[test]
fn steering_uses_role_progress_and_post_movement_advances_route() {
    let mut state = state();
    let inputs = [unit(1, None)];
    let steering = settle(|sheet| state.steering(&inputs, sheet));
    assert_eq!(steering.len(), 1);
    assert!(number(steering[0].dir_lng) > 0.0);
    settle(|sheet| state.post_movement(1, &inputs, sheet));
    assert!(number(state.task_forces[0].progress) > 0.0);
}

#[test]
fn task_force_repulsion_key_survives_other_force_removal() {
    let mut state = state();
    let mut second = state.task_forces[0].clone();
    second.id = "tf-2".to_owned();
    second.signature = "tf-2".to_owned();
    second.side_index = 1;
    second.members[0].unit_id = 2;
    state.task_forces.push(second);
    let before = state.task_force_key_by_unit()[&2];

    state.task_forces.remove(0);

    assert_eq!(state.task_force_key_by_unit()[&2], before);
    assert_eq!(before, stable_task_force_key("tf-2"));
}

#[test]
fn last_stand_override_wins_and_validation_rejects_cross_side_membership() {
    let mut state = state();
    state.country_desperation[0].mode = CountryDesperationMode::LastStand;
    state.evolve_overrides(1, &BTreeMap::from([(10, 0), (20, 1)]));
    assert_eq!(state.posture_override(0), Some(WarPosture::Defensive));
    assert!(state.validate(2, &units(), &countries(), 1).is_ok());
    state.task_forces[0].members[0].unit_id = 9;
    assert_eq!(
        state.validate(2, &units(), &countries(), 1),
        Err(OperationalError::Invalid("task force member"))
    );
}

#[test]
fn an_override_is_recorded_once_and_ends_with_its_cause() {
    let mut state = state();
    let sides = BTreeMap::from([(10, 0), (20, 1)]);
    state.country_desperation[0].mode = CountryDesperationMode::LastStand;
    state.evolve_overrides(5, &sides);
    state.evolve_overrides(6, &sides);
    assert_eq!(state.override_events.len(), 1);
    assert_eq!(state.override_events[0].sequence, 1);
    assert_eq!(state.override_events[0].started_tick, 5);
    state.country_desperation[0].mode = CountryDesperationMode::Normal;
    state.evolve_overrides(7, &sides);
    assert_eq!(state.override_events.len(), 2);
    assert_eq!(state.override_events[1].posture, None);
    assert_eq!(state.posture_override(0), None);
}

#[test]
fn a_fresh_state_is_valid_and_knows_its_declared_enemies() {
    let fresh = OperationalRuntimeState::bootstrap(2, &[0, 1, 0, 0], &[val(3.0), val(-1.0)]);
    assert!(fresh.validate(2, &BTreeMap::new(), &BTreeSet::new(), 0).is_ok());
    assert_eq!(fresh.sides[0].hostile_side_indices, vec![1]);
    assert_eq!(fresh.sides[1].hostile_side_indices, Vec::<usize>::new());
    // A negative strength counts as none.
    assert_eq!(number(fresh.sides[0].intel.prewar_enemy_power[0].power), 0.0);
    assert_eq!(known(&fresh, 1), None);
}

#[test]
fn validation_names_the_first_fault() {
    let mut wrong = state();
    wrong.schema = "other".to_owned();
    assert_eq!(
        wrong.validate(2, &units(), &countries(), 1),
        Err(OperationalError::Invalid("schema or side coverage"))
    );
    let right = state();
    assert_eq!(
        right.validate(3, &units(), &countries(), 1),
        Err(OperationalError::Invalid("schema or side coverage"))
    );
    let mut restless = state();
    restless.sides[0].intel.config.fresh_ticks = 0;
    assert!(restless.validate(2, &units(), &countries(), 1).is_err());
}

#[test]
fn desperation_follows_the_loss_of_cities() {
    let mut state = state();
    let input = CountryOperationalInput {
        country_id: 10,
        initial_land: 100,
        controlled: 20,
        cities_controlled: 0,
        current_personnel: val(10.0),
        offensive_role: true,
    };
    settle(|sheet| state.update_country_desperation(30, 30, &[input], sheet));
    assert_ne!(state.country_desperation[0].mode, CountryDesperationMode::Normal);
    assert_eq!(state.country_desperation[1].mode, CountryDesperationMode::Normal);
}

#[test]
fn a_snapshot_shows_the_state_at_its_tick() {
    let state = state();
    let snapshot = state.snapshot(17);
    assert_eq!(snapshot.schema_version, OPERATIONAL_AI_SCHEMA_VERSION);
    assert_eq!(snapshot.tick, 17);
    assert_eq!(snapshot.task_forces.len(), 1);
    assert_eq!(snapshot.task_forces[0].id, "tf-1");
    assert_eq!(snapshot.country_desperation, state.country_desperation);
}

#[test]
fn task_force_keys_follow_the_id() {
    // The offset basis folded with one byte.
    assert_eq!(stable_task_force_key("a"), 0xaf63_dc4c_8601_ec8c);
    assert_ne!(stable_task_force_key("tf-1"), stable_task_force_key("tf-2"));
}

#[test]
fn power_and_readiness_stay_in_bounds() {
    let mut state = state();
    let mut inputs = [1, 2, 3].map(|unit_id| unit(unit_id, None));
    inputs[0].power = val(-4.0);
    inputs[0].readiness = val(-1.0);
    inputs[1].power = val(f64::NAN);
    inputs[1].readiness = val(7.0);
    inputs[2].readiness = val(0.5);
    advance(&mut state, 1, &inputs, &BTreeSet::new());
    assert_eq!(state.task_forces[0].current_power, val(1.0));
    assert_eq!(state.task_forces[0].readiness, val(0.5));
}
