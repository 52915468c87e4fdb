use mw_core::scalar::Real;
use mw_core::simulation::{
    order_reaches, CombatConfig, FrameSnapshot, MovementOutput, Simulation, SimulationConfig,
    SimulationError, Tick, TickAction, TickCounters, TickInput, DEFAULT_TACTICAL_CELL_SIZE_BITS,
};
use mw_core::units::{
    CombatEvent, CombatLayer, CombatUnit, HostilityMatrix, MovementFactors, ResolvedUnitOrder,
    SimulationUnit, UnitKind,
};
use mw_core::worksheet::{Operation, Worksheet};

fn val(value: f64) -> Real {
    Real::from_bits(value.to_bits())
}

fn number(value: Real) -> f64 {
    f64::from_bits(value.bits)
}

fn evaluate(operation: Operation) -> u64 {
    let value = match operation {
        Operation::Integer(n) => n as f64,
        Operation::Sum(a, b) => number(a) + number(b),
        Operation::Difference(a, b) => number(a) - number(b),
        Operation::Product(a, b) => number(a) * number(b),
        Operation::Quotient(a, b) => number(a) / number(b),
        Operation::Floor(a) => number(a).floor(),
        Operation::Ceiling(a) => number(a).ceil(),
        Operation::Power(a, b) => number(a).powf(number(b)),
        Operation::Whole(a) => return number(a) as u64,
        Operation::Round(a) => number(a).round(),
        Operation::Root(a) => number(a).sqrt(),
        Operation::Hypotenuse(a, b) => number(a).hypot(number(b)),
        Operation::LongitudeDelta(a, b) => {
            (number(b) - number(a) + 540.0).rem_euclid(360.0) - 180.0
        }
        Operation::Distance(a, b, c, d) => {
            let (lat, other) = (number(a).to_radians(), number(c).to_radians());
            let up = (number(c) - number(a)).to_radians();
            let mut across = number(d) - number(b);
            if across > 180.0 {
                across -= 360.0;
            } else if across < -180.0 {
                across += 360.0;
            }
            let across = across.to_radians();
            let chord = (up / 2.0).sin().powi(2)
                + lat.cos() * other.cos() * (across / 2.0).sin().powi(2);
            6_371.0 * 2.0 * chord.sqrt().atan2((1.0 - chord).max(0.0).sqrt())
        }
        Operation::Remainder(a, b) => number(a) % number(b),
        Operation::Signed(a) => return (number(a) as i64) as u64,
        Operation::Sine(a) => number(a).sin(),
        Operation::Cosine(a) => number(a).cos(),
        Operation::Wrapped(a) => return number(a).trunc().rem_euclid(4_294_967_296.0) as u64,
        Operation::Single(a) => f64::from(number(a) as f32),
    };
    value.to_bits()
}

fn fill(sheet: &mut Worksheet, missing: Vec<Operation>) {
    assert!(!missing.is_empty());
    for operation in missing {
        sheet.record(operation, evaluate(operation));
    }
}

fn settle<T>(mut attempt: impl FnMut(&Worksheet) -> Result<T, Vec<Operation>>) -> T {
    let mut sheet = Worksheet::new();
    loop {
        match attempt(&sheet) {
            Ok(value) => return value,
            Err(missing) => fill(&mut sheet, missing),
        }
    }
}

fn army(id: u64, side: u64, lat: f64, lng: f64) -> SimulationUnit {
    SimulationUnit {
        combat: CombatUnit {
            id,
            side,
            sovereign: side + 10,
            kind: UnitKind::Army,
            lat: val(lat),
            lng: val(lng),
            health: val(100.0),
            max_health: val(100.0),
            personnel: 1_000,
            personnel_capacity: 1_000,
            equipment: 0,
            max_equipment: 0,
            quality: val(50.0),
            transport: false,
            armor_supported: false,
            landing_penalty_active: false,
            at_sea: false,
            last_combat_tick: 0,
            victory_boost_ticks: 0,
        },
        dir_lat: val(0.0),
        dir_lng: val(0.0),
        coast_stuck_ticks: 0,
        armor_landing_penalty_until_tick: 0,
        is_support: false,
        ally_weight: val(1.0),
    }
}

fn config() -> SimulationConfig {
    SimulationConfig {
        tactical_cell_size: Real::from_bits(DEFAULT_TACTICAL_CELL_SIZE_BITS),
        combat: CombatConfig {
            combat_damage: val(1.0),
            proximity_radius: val(0.5),
            direct_radius: val(0.05),
            target_jitter_scale: val(0.0),
            unit_speed: val(1.0),
            unit_naval_speed: val(1.0),
            armor_crew_per_vehicle: 4,
        },
    }
}

fn move_order(id: u64) -> ResolvedUnitOrder {
    let mut order = ResolvedUnitOrder::hold(id);
    order.movement_enabled = true;
    order.dir_lat = val(0.0);
    order.dir_lng = val(1.0);
    order.factors = MovementFactors {
        base_speed: val(1.25),
        speed_mult: val(1.0),
        plan_speed_mult: val(1.0),
        neutral_penalty: val(1.0),
        retreat_boost: val(1.0),
        push_readiness: val(1.0),
    };
    order
}

/// A kernel in which every exchange costs both sides one point of health, and a quarter of it while
/// the attacker still lands.
fn exchange(
    simulation: &Simulation,
    tick: &Tick<'_>,
    attacker: usize,
    target: usize,
    layer: CombatLayer,
) -> ((CombatUnit, CombatUnit), Option<CombatEvent>) {
    let mut first = simulation.units[attacker].combat;
    let mut second = simulation.units[target].combat;
    let context = simulation.combat_context(tick, attacker);
    let across = number(second.lng) - number(first.lng);
    let up = number(second.lat) - number(first.lat);
    let distance = across.hypot(up);
    if layer == CombatLayer::Direct && distance > number(simulation.config.combat.direct_radius) {
        return ((first, second), None);
    }
    let dealt = if first.landing_penalty_active { 0.25 } else { 1.0 };
    first.health = val(number(first.health) - 1.0);
    second.health = val(number(second.health) - dealt);
    first.last_combat_tick = context.sim_tick;
    second.last_combat_tick = context.sim_tick;
    let event = CombatEvent {
        layer,
        attacker_id: first.id,
        target_id: second.id,
        attacker_damage: val(1.0),
        target_damage: val(dealt),
        attacker_personnel_loss: 0,
        target_personnel_loss: 0,
        attacker_equipment_loss: 0,
        target_equipment_loss: 0,
    };
    ((first, second), Some(event))
}

fn step(
    simulation: &mut Simulation,
    clock: u64,
    orders: &[ResolvedUnitOrder],
    relations: Option<&[u8]>,
) -> Result<(FrameSnapshot, TickCounters), SimulationError> {
    let reaches = settle(|sheet| order_reaches(orders, sheet));
    let mut tick = simulation.step(TickInput {
        tick: clock,
        frame: clock,
        war_grace_end: 0,
        world: Ok(()),
        hostility: HostilityMatrix { relations, max_sides: 2 },
        orders,
        reaches: &reaches,
    })?;
    let mut sheet = Worksheet::new();
    loop {
        match simulation.next_action(&tick) {
            TickAction::IndexContacts => simulation.record_index(&mut tick, 1),
            TickAction::FindContacts { attacker } => {
                let found: Vec<usize> =
                    (0..simulation.units.len()).filter(|&index| index != attacker).collect();
                let near = settle(|sheet| simulation.measure_contacts(&tick, attacker, &found, sheet));
                simulation.record_contacts(&mut tick, &near);
            }
            TickAction::Proximity { attacker, target } => {
                let (pair, event) =
                    exchange(simulation, &tick, attacker, target, CombatLayer::Proximity);
                simulation.record_proximity(&mut tick, pair, event);
            }
            TickAction::Direct { attacker, target } => {
                let (pair, event) =
                    exchange(simulation, &tick, attacker, target, CombatLayer::Direct);
                simulation.record_direct(&mut tick, pair, event);
            }
            TickAction::Move { attacker } => {
                let order = simulation.order_of(&tick, attacker);
                let reach = settle(|sheet| order_reaches(&[order], sheet))[0];
                let unit = simulation.units[attacker].combat;
                simulation.record_movement(
                    &mut tick,
                    MovementOutput {
                        lat: val(number(unit.lat) + number(reach.lat_step)),
                        lng: val(number(unit.lng) + number(reach.lng_step)),
                        coast_stuck_ticks: 0,
                        applied_dir_lat: order.dir_lat,
                        applied_dir_lng: order.dir_lng,
                        abandon_target: false,
                    },
                );
            }
            TickAction::Hold { .. } => simulation.record_hold(&mut tick),
            TickAction::Finish => match simulation.finish(tick, &sheet) {
                Ok(published) => return Ok(published),
                Err((back, missing)) => {
                    tick = back;
                    fill(&mut sheet, missing);
                }
            },
        }
    }
}

#[test]
fn resolved_movement_publishes_an_owned_sorted_snapshot() {
    let mut simulation =
        Simulation::new(config(), vec![army(9, 0, 0.0, 0.0), army(2, 0, 4.0, 0.0)]).unwrap();
    let orders = [move_order(9)];
    let (snapshot, counters) = step(&mut simulation, 10, &orders, None).unwrap();
    assert_eq!(counters.moved_units, 1);
    assert_eq!(snapshot.units.iter().map(|unit| unit.id).collect::<Vec<_>>(), [2, 9]);
    assert_eq!(number(snapshot.units[1].lng), 1.0);
    let retained = snapshot.clone();
    simulation.units[0].combat.lng = val(20.0);
    assert_eq!(number(retained.units[1].lng), 1.0);
}

#[test]
fn proximity_contact_does_not_suppress_movement_when_direct_gate_misses() {
    let mut simulation =
        Simulation::new(config(), vec![army(1, 0, 0.0, 0.0), army(2, 1, 0.1, 0.0)]).unwrap();
    let orders = [move_order(1)];
    let (snapshot, counters) = step(&mut simulation, 10, &orders, None).unwrap();
    assert!(counters.proximity_events >= 1);
    assert_eq!(counters.moved_units, 1);
    assert!(number(snapshot.units.iter().find(|unit| unit.id == 1).unwrap().lng) > 0.0);
}

#[test]
fn directed_hostility_can_disable_one_direction() {
    let relations = [0, 1, 0, 0];
    let mut simulation =
        Simulation::new(config(), vec![army(1, 0, 0.0, 0.0), army(2, 1, 0.1, 0.0)]).unwrap();
    let (snapshot, counters) = step(&mut simulation, 10, &[], Some(&relations)).unwrap();
    assert_eq!(counters.proximity_events, 1);
    assert_eq!(snapshot.events[0].attacker_id, 1);
}

#[test]
fn all_contacts_are_applied_before_preferred_direct_target() {
    let mut wide = config();
    wide.combat.direct_radius = val(1.0);
    wide.combat.target_jitter_scale = val(0.0);
    let mut simulation = Simulation::new(
        wide,
        vec![army(10, 0, 0.0, 0.0), army(30, 1, 0.1, 0.0), army(20, 1, 0.2, 0.0)],
    )
    .unwrap();
    let mut order = ResolvedUnitOrder::hold(10);
    order.preferred_target_id = Some(30);
    let (snapshot, _) = step(&mut simulation, 10, &[order], None).unwrap();
    let attacks =
        snapshot.events.iter().filter(|event| event.attacker_id == 10).collect::<Vec<_>>();
    assert_eq!(attacks[0].target_id, 20);
    assert_eq!(attacks[1].target_id, 30);
    assert_eq!(attacks[2].target_id, 30);
}

#[test]
fn cleanup_is_deferred_and_removed_ids_are_sorted() {
    let mut a = army(9, 0, 0.0, 0.0);
    let mut b = army(2, 1, 0.1, 0.0);
    a.combat.health = val(0.0);
    b.combat.personnel = 0;
    let mut simulation = Simulation::new(config(), vec![a, b]).unwrap();
    let (snapshot, counters) = step(&mut simulation, 10, &[], None).unwrap();
    assert_eq!(snapshot.removed_ids, [2, 9]);
    assert!(snapshot.units.is_empty());
    assert_eq!(counters.removed_units, 2);
}

#[test]
fn invalid_orders_fail_before_any_state_mutation() {
    let mut simulation = Simulation::new(config(), vec![army(1, 0, 0.0, 0.0)]).unwrap();
    let before = simulation.units.clone();
    let mut bad = move_order(1);
    bad.dir_lng = val(f64::NAN);
    assert_eq!(
        step(&mut simulation, 10, &[bad], None).map(|_| ()),
        Err(SimulationError::NonFiniteInput)
    );
    assert_eq!(simulation.units, before);
}

#[test]
fn overflow_in_a_later_reverse_loop_order_is_rejected_atomically() {
    let mut simulation =
        Simulation::new(config(), vec![army(1, 0, 8.0, 0.0), army(2, 0, 0.0, 0.0)]).unwrap();
    let before = simulation.units.clone();
    let mut bad = move_order(1);
    bad.factors.base_speed = val(1e308);
    bad.factors.speed_mult = val(1e308);
    let orders = [bad, move_order(2)];
    assert_eq!(
        step(&mut simulation, 10, &orders, None).map(|_| ()),
        Err(SimulationError::NonFiniteInput)
    );
    assert_eq!(simulation.units, before);
}

#[test]
fn stale_orders_and_removed_preferred_targets_are_ignored_on_later_steps() {
    let mut target = army(2, 1, 0.0, 0.0);
    target.combat.health = val(0.1);
    target.combat.personnel = 1;
    let mut simulation =
        Simulation::new(config(), vec![army(1, 0, 0.0, 0.0), target]).unwrap();
    let mut attacker = ResolvedUnitOrder::hold(1);
    attacker.preferred_target_id = Some(2);
    let orders = [attacker, ResolvedUnitOrder::hold(2)];
    let (first, _) = step(&mut simulation, 10, &orders, None).unwrap();
    assert_eq!(first.removed_ids, [2]);

    let (second, _) = step(&mut simulation, 11, &orders, None).unwrap();
    assert_eq!(second.units.len(), 1);
    assert_eq!(second.units[0].id, 1);
}

#[test]
fn armor_landing_penalty_expires_from_logical_tick() {
    let mut armor = army(1, 0, 0.0, 0.0);
    armor.combat.kind = UnitKind::Armor;
    armor.combat.personnel = 0;
    armor.combat.personnel_capacity = 0;
    armor.combat.equipment = 100;
    armor.combat.max_equipment = 100;
    armor.armor_landing_penalty_until_tick = 11;
    let mut simulation =
        Simulation::new(config(), vec![armor, army(2, 1, 0.1, 0.0)]).unwrap();
    let orders = [ResolvedUnitOrder::hold(1), ResolvedUnitOrder::hold(2)];
    let (first, _) = step(&mut simulation, 10, &orders, None).unwrap();
    let penalized = first
        .events
        .iter()
        .find(|event| event.layer == CombatLayer::Proximity && event.attacker_id == 1)
        .unwrap()
        .target_damage;
    assert!(first.units.iter().find(|unit| unit.id == 1).unwrap().landing_penalty_active);

    let (second, _) = step(&mut simulation, 11, &orders, None).unwrap();
    let unpenalized = second
        .events
        .iter()
        .find(|event| event.layer == CombatLayer::Proximity && event.attacker_id == 1)
        .unwrap()
        .target_damage;
    assert!(number(unpenalized) > number(penalized) * 3.0);
    assert!(!second.units.iter().find(|unit| unit.id == 1).unwrap().landing_penalty_active);
}

#[test]
fn boundaries_name_their_faults() {
    let twice = vec![army(1, 0, 0.0, 0.0), army(1, 1, 0.0, 0.0)];
    assert!(matches!(
        Simulation::new(config(), twice),
        Err(SimulationError::DuplicateUnit(1))
    ));
    let mut broken = config();
    broken.tactical_cell_size = val(0.0);
    assert!(matches!(
        Simulation::new(broken, Vec::new()),
        Err(SimulationError::InvalidConfig)
    ));
    let mut simulation = Simulation::new(config(), vec![army(1, 5, 0.0, 0.0)]).unwrap();
    assert_eq!(
        step(&mut simulation, 10, &[], None).map(|_| ()),
        Err(SimulationError::InvalidSide(5))
    );
    let mut simulation = Simulation::new(config(), vec![army(1, 0, 0.0, 0.0)]).unwrap();
    assert_eq!(
        step(&mut simulation, 10, &[move_order(1), move_order(1)], None).map(|_| ()),
        Err(SimulationError::DuplicateOrder(1))
    );
    assert_eq!(
        step(&mut simulation, 10, &[], Some(&[0, 1])).map(|_| ()),
        Err(SimulationError::InvalidHostility)
    );
}

#[test]
fn snapshots_show_what_is_left_of_the_health() {
    let mut hurt = army(1, 0, 0.0, 0.0);
    hurt.combat.health = val(25.0);
    let simulation = Simulation::new(config(), vec![hurt]).unwrap();
    let snapshot = settle(|sheet| simulation.initial_snapshot(3, 4, sheet));
    assert_eq!(number(snapshot.units[0].health_fraction), 0.25);
    assert_eq!((snapshot.tick, snapshot.frame), (3, 4));
    assert!(snapshot.events.is_empty());
}
