use mw_core::air::{
    AirCountryCoverage, AirPowerState, AirRole, AirTargetKind, AirWing, AirWingState, Airfield,
};
use mw_core::casualties::{
    next_casualties, AirAdvanceOutcome, DamageCommand, DamageOutcome, DamageResult, LandDamage,
    WingLoss,
};
use mw_core::economy::{CommandBand, EconomyState};
use mw_core::operations::{
    OperationalPoint, OperationalRuntimeState, OperationalTaskForce, TaskForceMember,
    TaskForcePhase, TaskForcePosture, TaskForceRole, WarPosture,
};
use mw_core::paycycle::{
    AirPayCycleOutcome, CountryAirPayCycleOutcome, CountryMaterialPayCycleOutcome,
    MaterialPayCycleOutcome,
};
use mw_core::production::{
    ProductionCity, ProductionCountry, ProductionError, ScenarioProduction, ScenarioProductionCounters, PRODUCTION_SCHEMA_VERSION,
};
use mw_core::runtime::aftermath::{close_combat, prepare_cycle, settle_cycle, TickDamage};
use mw_core::runtime::assembly::{
    census_after_surrender, conflict_inputs, count_step, record_removals, show_consequences,
    stage_strategic_effects, DiffusionReport, EffectsAnswers, StagedStrategicEffects, TickReport,
    UnitConsequences,
};
use mw_core::runtime::airstage::{
    air_country_policy, air_damage_commands, air_priority_areas, air_unit_targets, AirPriorityArea,
};
use mw_core::runtime::battlefield::{
    BattlefieldAttrition, BattlefieldBuff, BattlefieldCell, BattlefieldCountryState,
    BattlefieldInfluence, BattlefieldLocalUnitResult, BattlefieldRuntimeState,
    BattlefieldUnitResult, BattlefieldUnitState, BattlefieldWarPhase, SideDynamics, WarPhase,
};
use mw_core::runtime::boot::RuntimeState;
use mw_core::runtime::command::{capital_targets, country_bands};
use mw_core::runtime::counters::{
    air_counters, air_pay_cycle_counters, census_counters, influence_counters,
    material_pay_cycle_counters, AiPlanningCounters, CensusStepResult, InfluenceApplyResult,
    MissileReport, NavalPlanningCounters, RuntimeCensusCounters, RuntimeReinforcementCounters,
    OperationalExecutionCounters, StrategicCounters,
};
use mw_core::runtime::dynamics::{
    casualties_by_side, desertion_personnel_loss_by_side, find_collapsing, stage_side_dynamics,
    DesertionCommand, DynamicsDirective,
};
use mw_core::runtime::effects::{
    advance_census, apply_transfers, hostile_attackers, occupation_of, retain_standing,
    stage_surrender, surrender_positions,
    CensusAction, CensusProgress, CensusStatus, ConflictResolutionPlan, StrategicCountry,
    StrategicSnapshot, SurrenderAnswers, SurrenderCommand, SurrenderMaps, SurrenderPlan,
    SurrenderTransfer, TerritoryBoundary, TerritoryCommittedState,
};
use mw_core::runtime::enlistment::{
    stage_recruitment, RecruitmentHalt, RecruitmentInput, RecruitmentStaging,
};
use mw_core::runtime::error::RuntimeError;
use mw_core::runtime::execution::{
    defender_threats, operational_unit_inputs, DefenderThreatPhase, ExecutionUnitInput, NavalOperation, NavalOperationKind,
    NavalOperationPhase, OperationalExecutionState, TransportUpdate,
};
use mw_core::runtime::influence::{
    browser_influence_budgets, browser_influence_sources, browser_stable_unit_cohort,
    influence_sources,
    resolve_influence_timing, InfluenceSchedule,
};
use mw_core::runtime::logistics::{material_armor_profiles, material_home_positions};
use mw_core::runtime::losses::{
    apply_directions, attrition_commands, direction_inputs, inactive_units, merge_removed,
    prepare_units, stage_exile, BattlefieldDirection, Exile, ExileHalt,
};
use mw_core::runtime::mobilization::{
    created_formations, maintenance_costs, mobilize_armor, stage_command_policies,
    StagedCommandPolicies,
};
use mw_core::runtime::native::{
    FrontLayout, KernelHandle, KernelVerdicts, NativeRuntime, NativeRuntimeCheckpointState,
    RuntimeCheckpoint, RuntimeSnapshot, TerritoryRenderUpdate,
    NATIVE_RUNTIME_SCHEMA_VERSION,
};
use mw_core::runtime::orders::{operational_country_inputs, tactical_contact_observations};
use mw_core::runtime::planning::{
    ai_units, front_layout_units, front_objectives_by_unit, garrison_hold_orders,
    AiPlanningResult, AssignmentReason, PlanningContact, FrontAssignmentRecord, FrontLayoutPrior,
    FrontObjective, ResolvedCommandPolicy,
};
use mw_core::runtime::policy::{
    validate_unit_policy, CommandHomeTarget, RefusalShares, ResolvedMovementModifiers,
    RuntimeUnitPolicy, UnitAiPolicy, UnitCommandPolicy, UnitInfluencePolicy,
};
use mw_core::runtime::recruitment::RecruitmentRules;
use mw_core::runtime::stages::{
    count_losses, issue_orders, live_commands, plan_operations, settle_operations,
    steering_entries, ExecutionOutputs,
};
use mw_core::runtime::step::{RuntimeStep, StageEvent, StepFacts, StepStage};
use mw_core::runtime::tactics::{
    apply_battlefield_results, battlefield_local_inputs, battlefield_unit_inputs,
};
use mw_core::runtime::tick::{
    AirAnswer, CensusAnswer, CombatAnswer, CommittedCycle, CycleAnswer, DamageAnswer, Draw,
    EffectsAnswer,
    ExecutionAnswer, InfluenceAnswer, LocalAnswer, MissileAnswer, NavalAnswer, TickAction,
    TickAnswer, TickRules, TickWork, TreasuryAnswer,
};
use mw_core::runtime::validation::{FrontLayoutConfig, RuntimeConfig};
use mw_core::runtime::world::{
    airfield_controllers, hostile_controlled_land_by_side, AirfieldController, RuntimeDiplomacy,
    StrategicState, TerritoryControl,
};
use mw_core::scalar::Real;
use mw_core::scenario::GridSpec;
use mw_core::settlement::ArmorFormationCreationOutcome;
use mw_core::simulation::{
    CombatConfig, Simulation, SimulationConfig, SimulationError, TickCounters, UnitSnapshot,
};
use mw_core::strategic::{CountryAggregate, SideAggregate, TerritorySnapshot};
use mw_core::taskforce::{OperationalSteering, OperationalUnitInput};
use mw_core::units::{
    CombatEvent, CombatLayer, CombatUnit, KernelFault, MovementFactors, ResolvedCombatOrder,
    ResolvedUnitOrder, SimulationUnit, UnitKind,
};
use mw_core::worksheet::{Operation, Reader, Stop, Worksheet};
use std::cell::RefCell;
use std::collections::{BTreeMap, BTreeSet};
use std::sync::Arc;

fn val(value: f64) -> Real {
    Real::from_bits(value.to_bits())
}

fn number(value: Real) -> f64 {
    f64::from_bits(value.bits)
}

fn evaluate(operation: Operation) -> u64 {
    let value = match operation {
        Operation::Integer(n) => n as f64,
        Operation::Sum(a, b) => number(a) + number(b),
        Operation::Difference(a, b) => number(a) - number(b),
        Operation::Product(a, b) => number(a) * number(b),
        Operation::Quotient(a, b) => number(a) / number(b),
        Operation::Floor(a) => number(a).floor(),
        Operation::Ceiling(a) => number(a).ceil(),
        Operation::Power(a, b) => number(a).powf(number(b)),
        Operation::Whole(a) => return number(a) as u64,
        Operation::Round(a) => number(a).round(),
        Operation::Root(a) => number(a).sqrt(),
        Operation::Hypotenuse(a, b) => number(a).hypot(number(b)),
        Operation::LongitudeDelta(a, b) => {
            (number(b) - number(a) + 540.0).rem_euclid(360.0) - 180.0
        }
        Operation::Distance(a, b, c, d) => {
            let (lat, other) = (number(a).to_radians(), number(c).to_radians());
            let up = (number(c) - number(a)).to_radians();
            let mut across = number(d) - number(b);
            if across > 180.0 {
                across -= 360.0;
            } else if across < -180.0 {
                across += 360.0;
            }
            let across = across.to_radians();
            let chord = (up / 2.0).sin().powi(2)
                + lat.cos() * other.cos() * (across / 2.0).sin().powi(2);
            6_371.0 * 2.0 * chord.sqrt().atan2((1.0 - chord).max(0.0).sqrt())
        }
        Operation::Remainder(a, b) => number(a) % number(b),
        Operation::Signed(a) => return (number(a) as i64) as u64,
        Operation::Sine(a) => number(a).sin(),
        Operation::Cosine(a) => number(a).cos(),
        Operation::Wrapped(a) => return number(a).trunc().rem_euclid(4_294_967_296.0) as u64,
        Operation::Single(a) => f64::from(number(a) as f32),
    };
    value.to_bits()
}

fn fill(sheet: &mut Worksheet, missing: Vec<Operation>) {
    assert!(!missing.is_empty());
    for operation in missing {
        sheet.record(operation, evaluate(operation));
    }
}

fn settle<T>(mut attempt: impl FnMut(&Worksheet) -> Result<T, Vec<Operation>>) -> T {
    let mut sheet = Worksheet::new();
    loop {
        match attempt(&sheet) {
            Ok(value) => return value,
            Err(missing) => fill(&mut sheet, missing),
        }
    }
}

fn read<T>(attempt: impl Fn(&mut Reader<'_>) -> T) -> T {
    let mut sheet = Worksheet::new();
    loop {
        let missing = {
            let mut reader = sheet.reader();
            let value = attempt(&mut reader);
            if reader.is_complete() {
                return value;
            }
            reader.into_missing()
        };
        fill(&mut sheet, missing);
    }
}

fn country(country_id: u16) -> ProductionCountry {
    ProductionCountry {
        country_id,
        name: format!("Country {country_id}"),
        gdp: val(100.0),
        population: val(1_000_000.0),
        is_rebel: false,
        initial_core_cells: 4,
        initial_owned_land_cells: 4,
        initial_city_population: val(0.0),
        capital_cell: None,
        expected_army_units: val(3.0),
    }
}

fn unit(id: u64, side: u64, sovereign: u64, lng: f64) -> SimulationUnit {
    SimulationUnit {
        combat: CombatUnit {
            id,
            side,
            sovereign,
            kind: UnitKind::Army,
            lat: val(-90.0),
            lng: val(lng),
            health: val(100.0),
            max_health: val(100.0),
            personnel: 1_000,
            personnel_capacity: 1_000,
            equipment: 0,
            max_equipment: 0,
            quality: val(50.0),
            transport: false,
            armor_supported: false,
            landing_penalty_active: false,
            at_sea: false,
            last_combat_tick: 0,
            victory_boost_ticks: 0,
        },
        dir_lat: val(0.0),
        dir_lng: val(0.0),
        coast_stuck_ticks: 0,
        armor_landing_penalty_until_tick: 0,
        is_support: false,
        ally_weight: val(1.0),
    }
}

fn armor(id: u64, side: u64, sovereign: u64, equipment: u64) -> SimulationUnit {
    let mut armor = unit(id, side, sovereign, 90.0);
    armor.combat.kind = UnitKind::Armor;
    armor.combat.personnel = 0;
    armor.combat.personnel_capacity = 0;
    armor.combat.equipment = equipment;
    armor.combat.max_equipment = equipment;
    armor
}

fn economy(country_id: u16) -> EconomyState {
    EconomyState {
        country_id,
        economic_strength: val(1.0),
        base_income: val(10.0),
        treasury: val(100.0),
        income: val(10.0),
        occupation_yield: val(0.0),
        payroll_due: val(0.0),
        occupation_due: val(0.0),
        payroll_coverage: val(1.0),
        occupation_coverage: val(1.0),
        arrears_cycles: val(0.0),
        command_band: CommandBand::Paid,
        mutiny_recovery_cycles: 0,
        initial_core_cells: 4,
        initial_city_population: val(0.0),
        core_control_ratio: val(1.0),
        city_control_ratio: val(1.0),
        capital_held: true,
        last_event_band: CommandBand::Paid,
        capitulated: false,
    }
}

fn strategic() -> StrategicState {
    StrategicState {
        cycle: 0,
        economies: BTreeMap::from([(1, economy(1)), (2, economy(2))]),
        occupations: BTreeMap::new(),
    }
}

fn grid() -> GridSpec {
    GridSpec { grid_res: val(90.0), width: 4, height: 2 }
}

fn territory() -> TerritoryControl {
    let world_control = vec![1, 1, 2, 2, 1, 1, 2, 2];
    TerritoryControl {
        grid: grid(),
        land: vec![2; 8],
        world_control: world_control.clone(),
        de_jure: world_control.clone(),
        primary_occupier: world_control,
        dominant_side: vec![0, 0, 1, 1, 0, 0, 1, 1],
        country_to_side: BTreeMap::from([(1, 0), (2, 1)]),
        max_sides: 2,
        hostility: vec![0, 1, 1, 0],
        influence_runtime: false,
    }
}

fn aggregate(country_id: u16, side_index: i16) -> CountryAggregate {
    CountryAggregate {
        country_id,
        side_index,
        owned: 4,
        controlled: 4,
        core_controlled: 4,
        de_jure_total: 4,
        core_control_ratio: val(1.0),
        city_population_total: val(0.0),
        city_population_controlled: val(0.0),
        capital_held: true,
        cities_controlled: 0,
        de_jure_control_by_side: BTreeMap::new(),
    }
}

fn census() -> TerritorySnapshot {
    TerritorySnapshot {
        schema_version: "territory".to_owned(),
        generation: 1,
        commit_sequence: 1,
        topology_revision: 1,
        world_revision: 1,
        city_revision: 1,
        countries: vec![aggregate(1, 0), aggregate(2, 1)],
        sides: vec![
            SideAggregate {
                side_index: 0,
                country_ids: vec![1],
                city_population_controlled: val(0.0),
            },
            SideAggregate {
                side_index: 1,
                country_ids: vec![2],
                city_population_controlled: val(0.0),
            },
        ],
    }
}

fn scenario() -> ScenarioProduction {
    ScenarioProduction {
        schema_version: PRODUCTION_SCHEMA_VERSION,
        grid: grid(),
        countries: vec![country(1), country(2)],
        cities: Vec::new(),
        economy_seeds: Vec::new(),
        economy_states: vec![economy(1), economy(2)],
        counters: ScenarioProductionCounters {
            countries: 2,
            land_cells: 8,
            economy_seeds: 2,
            ..ScenarioProductionCounters::default()
        },
    }
}

fn simulation_config() -> SimulationConfig {
    SimulationConfig {
        tactical_cell_size: val(1.0),
        combat: CombatConfig {
            combat_damage: val(0.0),
            proximity_radius: val(0.5),
            direct_radius: val(0.05),
            target_jitter_scale: val(0.0),
            unit_speed: val(1.0),
            unit_naval_speed: val(1.0),
            armor_crew_per_vehicle: 2,
        },
    }
}

fn shares() -> RefusalShares {
    RefusalShares {
        paid: val(0.0),
        unpaid: val(0.3),
        breakdown: val(0.6),
        mutiny: val(1.0),
    }
}

fn policy(unit_id: u64, sovereign: u16) -> RuntimeUnitPolicy {
    RuntimeUnitPolicy::standard(unit_id, sovereign, val(0.5))
}

fn policies() -> BTreeMap<u64, RuntimeUnitPolicy> {
    BTreeMap::from([(1, policy(1, 1)), (2, policy(2, 2))])
}

fn config() -> RuntimeConfig {
    RuntimeConfig::standard(FrontLayoutConfig {
        max_grid_cells: 100,
        max_sides: 10,
        max_units: 100,
        max_frontier_cells: 100,
        max_segments: 100,
        max_assignment_edges: 100,
    })
}

fn objectives() -> Vec<FrontObjective> {
    vec![
        FrontObjective { id: 1, segment_id: 1, lat: val(-90.0), lng: val(0.0) },
        FrontObjective { id: 2, segment_id: 1, lat: val(-90.0), lng: val(-90.0) },
    ]
}

fn checkpoint(tick: u64) -> RuntimeCheckpoint {
    RuntimeCheckpoint {
        tick,
        frame: tick,
        war_grace_end: u64::MAX,
        simulation: Simulation::new(
            simulation_config(),
            vec![unit(1, 0, 1, 0.0), unit(2, 1, 2, 90.0)],
        )
        .unwrap(),
        territory: territory(),
        strategic: strategic(),
        strategic_snapshot: None,
        scenario: scenario(),
        diplomacy: RuntimeDiplomacy { hostility: vec![0, 1, 1, 0], active_sides: vec![0, 1] },
        unit_policies: policies().into_values().collect(),
        battlefield: None,
        objectives: objectives(),
        prior_objective_by_unit: BTreeMap::new(),
        front_prior_by_unit: BTreeMap::new(),
        last_front_refresh_tick: None,
        casualties: BTreeMap::new(),
        casualties_by_victim: BTreeMap::new(),
        gameplay_rng: KernelHandle { key: 0 },
        personnel_reserves: BTreeMap::from([(0, val(0.0)), (1, val(0.0))]),
        side_dynamics: None,
        operations: None,
        naval_planning: None,
        operational_execution: None,
        air_power: None,
        reinforcement: None,
        material_logistics: None,
        strategic_missiles: None,
    }
}

fn verdicts() -> KernelVerdicts {
    KernelVerdicts {
        missiles: Ok(()),
        refusal_shares: shares(),
        commands: Ok(BTreeMap::new()),
        battlefield: Ok(()),
        dynamics: vec![true, true],
        air: Ok(()),
        execution: Ok(()),
        naval: Ok(()),
        planning: Ok(()),
        strengths: vec![val(1.0), val(1.0)],
        urban_mask: Vec::new(),
        territory_schema: "territory".to_owned(),
        territory_snapshot: Arc::new(census()),
        render_update: Some(TerritoryRenderUpdate { key: 1 }),
    }
}

fn start(
    edit: impl Fn(&mut RuntimeCheckpoint, &mut KernelVerdicts),
    tick: u64,
) -> Result<NativeRuntime, RuntimeError> {
    start_under(config(), edit, tick)
}

fn start_under(
    config: RuntimeConfig,
    edit: impl Fn(&mut RuntimeCheckpoint, &mut KernelVerdicts),
    tick: u64,
) -> Result<NativeRuntime, RuntimeError> {
    let mut sheet = Worksheet::new();
    loop {
        let mut given = checkpoint(tick);
        let mut told = verdicts();
        edit(&mut given, &mut told);
        match NativeRuntime::new(config, given, told, &sheet) {
            Ok(runtime) => return Ok(runtime),
            Err(Stop::Failed(error)) => return Err(error),
            Err(Stop::Missing(missing)) => fill(&mut sheet, missing),
        }
    }
}

fn fixture(tick: u64) -> NativeRuntime {
    start(|_, _| {}, tick).unwrap()
}

const PAY_CYCLE: u64 = 600;

fn rules() -> TickRules {
    TickRules {
        pay_cycle_ticks: PAY_CYCLE,
        sample_due: false,
        sample_interval: 30,
        air_priority_radius_km: val(500.0),
        unit_health: val(100.0),
        recruitment: RecruitmentRules { cost: val(1.0), unit_health: val(100.0) },
    }
}

/// The generator that `key` seeds: its next number, and its next state.
fn mulberry(key: u64) -> Draw {
    let state = (key as u32).wrapping_add(0x6d2b_79f5);
    let mut mixed = (state ^ (state >> 15)).wrapping_mul(1 | state);
    mixed = mixed.wrapping_add((mixed ^ (mixed >> 7)).wrapping_mul(61 | mixed)) ^ mixed;
    Draw {
        value: val(f64::from(mixed ^ (mixed >> 14)) / 4_294_967_296.0),
        after: KernelHandle { key: u64::from(state) },
    }
}

fn shown(work: &TickWork) -> Vec<UnitSnapshot> {
    let standing = Simulation::new(simulation_config(), work.units.clone()).unwrap();
    settle(|sheet| standing.initial_snapshot(work.step.tick, work.step.frame, sheet)).units
}

fn same_ground(runtime: &NativeRuntime) -> TerritoryControl {
    let held = runtime.parts().territory;
    TerritoryControl {
        grid: held.grid,
        land: held.land.clone(),
        world_control: held.world_control.clone(),
        de_jure: held.de_jure.clone(),
        primary_occupier: held.primary_occupier.clone(),
        dominant_side: held.dominant_side.clone(),
        country_to_side: held.country_to_side.clone(),
        max_sides: held.max_sides,
        hostility: held.hostility.clone(),
        influence_runtime: held.influence_runtime,
    }
}

fn counted(runtime: &NativeRuntime, result: Option<CensusStepResult>) -> TickAnswer {
    TickAnswer::Census(CensusAnswer {
        counted: result,
        status: CensusStatus { active_generation: None, dirty_tiles: 0 },
        snapshot: runtime.parts().latest.territory_snapshot.clone(),
        schema: "territory".to_owned(),
    })
}

fn cycle_of(
    tick: u64,
    surrenders: Vec<SurrenderCommand>,
    conflict_resolution: Option<ConflictResolutionPlan>,
) -> StrategicSnapshot {
    StrategicSnapshot {
        cycle: 1,
        tick,
        countries: vec![
            StrategicCountry { country_id: 1, side: 0, economy: economy(1) },
            StrategicCountry { country_id: 2, side: 1, economy: economy(2) },
        ],
        desertions: Vec::new(),
        surrenders,
        conflict_resolution,
    }
}

fn same_commands() -> BTreeMap<u64, ResolvedCommandPolicy> {
    let mut resolved = BTreeMap::new();
    for (id, policy) in policies() {
        let kept = policy.command;
        resolved.insert(
            id,
            ResolvedCommandPolicy {
                band: kept.band,
                discipline: kept.discipline,
                refuses_offense: kept.refuses_offense,
                return_home: kept.return_home,
                self_defense_only: kept.self_defense_only,
                home_target: kept.home_target,
            },
        );
    }
    resolved
}

/// What kernels answer that find nothing to do.
fn quiet(runtime: &NativeRuntime, work: &TickWork, action: &TickAction) -> TickAnswer {
    match action {
        TickAction::Strengths => TickAnswer::Strengths(vec![val(1.0); work.units.len()]),
        TickAction::Draw => {
            let before = work.draws.last().map_or(work.rng, |drawn| drawn.after);
            TickAnswer::Draw(mulberry(before.key))
        }
        TickAction::Influence { .. } => TickAnswer::Influence(InfluenceAnswer {
            territory: same_ground(runtime),
            applied: InfluenceApplyResult {
                processed_source_cells: 0,
                touched_influence_cells: Vec::new(),
                changed_controller_cells: Vec::new(),
                changed_credit_cells: Vec::new(),
            },
            processed_items: 0,
            stale_entries: 0,
        }),
        TickAction::Layout(_) => TickAnswer::Layout(FrontLayout {
            objectives: objectives(),
            next_prior: Vec::new(),
            segments: 1,
        }),
        TickAction::Plan(_) => TickAnswer::Plan(AiPlanningResult {
            orders: Vec::new(),
            assignments: Vec::new(),
            contacts: Vec::new(),
            counters: AiPlanningCounters::default(),
        }),
        TickAction::Combat { .. } => {
            let mut frame = settle(|sheet| {
                Simulation::new(simulation_config(), work.units.clone())
                    .unwrap()
                    .initial_snapshot(work.step.tick, work.step.frame, sheet)
            });
            frame.units = shown(work);
            TickAnswer::Combat(CombatAnswer {
                units: work.units.clone(),
                frame,
                counters: TickCounters::default(),
            })
        }
        TickAction::CensusStatus => counted(runtime, None),
        TickAction::Census(_) => {
            counted(runtime, Some(CensusStepResult { processed_items: 8, committed: true }))
        }
        TickAction::Cycle(_) => TickAnswer::Cycle(CycleAnswer {
            evaluated: cycle_of(work.step.tick, Vec::new(), None),
            economies: strategic().economies,
        }),
        TickAction::Consequences => TickAnswer::Consequences(UnitConsequences {
            units: work.units.clone(),
            removed_ids: Vec::new(),
        }),
        TickAction::Effects { .. } => TickAnswer::Effects(EffectsAnswer {
            maps: maps(),
            boundary: boundary(),
            surrender: SurrenderAnswers {
                plan: Ok(SurrenderPlan { transfers: Vec::new(), primary_annexer_id: 1 }),
                restored: Ok(()),
                garrison: Ok(0),
                registered: Ok(()),
            },
            resolution: None,
        }),
        TickAction::Commands { .. } => TickAnswer::Commands(same_commands()),
        TickAction::CommitCycle => TickAnswer::CommitCycle(CommittedCycle {
            strategic: strategic(),
            published: Arc::new(cycle_of(work.step.tick, Vec::new(), None)),
            counters: StrategicCounters { countries: 2, desertions: 0, surrenders: 0, occupations: 0 },
            census: None,
        }),
        TickAction::Momentum { .. } | TickAction::FeelLosses(_) => {
            let judged = match &work.dynamics {
                Some(table) => table.clone(),
                None => runtime.parts().side_dynamics.unwrap().clone(),
            };
            TickAnswer::Momentum(judged)
        }
        TickAction::Local(inputs) => TickAnswer::Local(LocalAnswer {
            units: inputs.iter().map(|input| local(input.id)).collect(),
            near_city: vec![false; inputs.len()],
        }),
        TickAction::Battlefield { inputs, .. } => TickAnswer::Battlefield(
            inputs
                .iter()
                .map(|input| BattlefieldUnitResult {
                    encircled: false,
                    encircled_ticks: 0,
                    cell: BattlefieldCell { at_sea: false, mountain_intensity: val(0.0) },
                    attrition: BattlefieldAttrition {
                        damage: val(0.0),
                        supply_collapse_sampled: false,
                        supply_collapsed: false,
                    },
                    ..resolved(input.id)
                })
                .collect(),
        ),
        TickAction::Air { .. } => TickAnswer::Air(AirAnswer {
            air: air(vec![coverage(1, 1.0), coverage(2, 1.0)]),
            outcome: AirAdvanceOutcome {
                updated: true,
                missions_selected: 0,
                interceptions_completed: 0,
                strikes_completed: 0,
                wings_destroyed: 0,
                airfield_captures: Vec::new(),
                wing_losses: Vec::new(),
                land_damage: Vec::new(),
            },
        }),
        TickAction::Naval(_) => TickAnswer::Naval(NavalAnswer {
            planner: KernelHandle { key: 8 },
            execution: no_execution(),
            counters: NavalPlanningCounters { evaluated_plans: 1, created_operations: 0 },
        }),
        TickAction::Execution { .. } => TickAnswer::Execution(ExecutionAnswer {
            execution: no_execution(),
            outputs: ExecutionOutputs { transports: Vec::new(), steering: Vec::new() },
            counters: OperationalExecutionCounters {
                transport_updates: 0,
                steering_orders: 0,
                defender_units_recruited: 0,
            },
        }),
        TickAction::Directions(inputs) => TickAnswer::Directions(
            inputs
                .iter()
                .map(|input| BattlefieldDirection {
                    unit_id: input.unit_id,
                    dir_lat: val(0.0),
                    dir_lng: val(0.0),
                })
                .collect(),
        ),
        TickAction::Missiles => TickAnswer::Missiles(MissileAnswer {
            missiles: KernelHandle { key: 9 },
            rng: work.rng,
            report: MissileReport { launches: 0, impacts: 0 },
            impacts: Vec::new(),
        }),
        TickAction::CheckAir(_) => TickAnswer::AirVerdict(true),
        TickAction::Spend(_) | TickAction::SpendRecruitment(_) => {
            TickAnswer::Treasury(TreasuryAnswer { strategic: strategic(), published: None })
        }
        TickAction::Reactions(_) => TickAnswer::Reactions(no_execution()),
        TickAction::Disciplines(ids) => {
            TickAnswer::Disciplines(ids.iter().map(|id| (*id, val(1.0))).collect())
        }
        TickAction::RecruitCommand(wanted) => {
            TickAnswer::RecruitCommand(wanted.unit_id, Ok(breakdown()))
        }
        TickAction::RenderUpdate => TickAnswer::RenderUpdate(None),
        other => panic!("nothing answers {other:?}"),
    }
}

/// Runs one tick. `answer` may speak for a kernel; the others find nothing to do.
fn tick_with(
    runtime: &mut NativeRuntime,
    answer: impl Fn(&TickWork, &TickAction) -> Option<TickAnswer>,
) -> Result<Arc<RuntimeSnapshot>, RuntimeError> {
    tick_until(runtime, answer, |_| None)
}

fn tick_until(
    runtime: &mut NativeRuntime,
    answer: impl Fn(&TickWork, &TickAction) -> Option<TickAnswer>,
    fault: impl Fn(&TickAction) -> Option<RuntimeError>,
) -> Result<Arc<RuntimeSnapshot>, RuntimeError> {
    tick_seeing(runtime, |_, work, action| answer(work, action), fault)
}

/// As `tick_with`, with kernels that also see the runtime.
fn tick_by(
    runtime: &mut NativeRuntime,
    answer: impl Fn(&NativeRuntime, &TickWork, &TickAction) -> Option<TickAnswer>,
) -> Result<Arc<RuntimeSnapshot>, RuntimeError> {
    tick_seeing(runtime, answer, |_| None)
}

fn tick_seeing(
    runtime: &mut NativeRuntime,
    answer: impl Fn(&NativeRuntime, &TickWork, &TickAction) -> Option<TickAnswer>,
    fault: impl Fn(&TickAction) -> Option<RuntimeError>,
) -> Result<Arc<RuntimeSnapshot>, RuntimeError> {
    let mut tick = runtime.step(rules())?;
    let mut sheet = Worksheet::new();
    loop {
        match tick.next_action(runtime, &sheet) {
            Ok(TickAction::Moved) => {}
            Ok(TickAction::Finish) => break,
            Ok(action) => {
                if let Some(error) = fault(&action) {
                    return Err(runtime.abandon(tick, error));
                }
                let told = match answer(runtime, tick.work(), &action) {
                    Some(told) => told,
                    None => quiet(runtime, tick.work(), &action),
                };
                tick.record(told);
            }
            Err(Stop::Missing(missing)) => fill(&mut sheet, missing),
            Err(Stop::Failed(error)) => return Err(runtime.abandon(tick, error)),
        }
    }
    let outcome = tick.finish(runtime);
    Ok(runtime.commit(outcome))
}

fn maps() -> SurrenderMaps {
    let ground = territory();
    SurrenderMaps {
        world_control: ground.world_control,
        primary_occupier: ground.primary_occupier,
        land: ground.land,
        dominant_side: ground.dominant_side,
        side_influence: vec![vec![val(0.5); 8], vec![val(0.5); 8]],
        occupation: vec![val(0.0); 8],
        controller_cells: Vec::new(),
    }
}

fn boundary() -> TerritoryBoundary {
    TerritoryBoundary {
        committed: Some(TerritoryCommittedState {
            generation: 1,
            commit_sequence: 1,
            mutation_sequence: 1,
            processed_tiles: 2,
            processed_items: 8,
        }),
        world_revision: 1,
        tile_size: 2,
        city_count: 0,
    }
}

fn save(runtime: &mut NativeRuntime) -> Result<NativeRuntimeCheckpointState, RuntimeError> {
    let committed = TerritoryCommittedState {
        generation: 1,
        commit_sequence: 1,
        mutation_sequence: 1,
        processed_tiles: 2,
        processed_items: 8,
    };
    runtime.checkpoint_state(Arc::new(census()), Some(committed), None, None)
}

#[test]
fn casualty_lookup_survives_same_tick_unit_removal() {
    let event = CombatEvent {
        layer: CombatLayer::Direct,
        attacker_id: 1,
        target_id: 2,
        target_damage: val(100.0),
        attacker_damage: val(1.0),
        target_personnel_loss: 7,
        attacker_personnel_loss: 3,
        target_equipment_loss: 0,
        attacker_equipment_loss: 0,
    };
    let owners = BTreeMap::from([(1, 10), (2, 20)]);
    let casualties =
        read(|reader| next_casualties(&BTreeMap::new(), &owners, &vec![event], reader));
    assert_eq!(casualties, BTreeMap::from([(10, val(3.0)), (20, val(7.0))]));
}

#[test]
fn side_personnel_tracks_desertion_but_not_capitulation_removal() {
    let units = vec![unit(1, 0, 1, 0.0), armor(2, 1, 2, 10)];
    let commands = vec![
        DesertionCommand { country_id: 1, rate: val(0.1) },
        DesertionCommand { country_id: 2, rate: val(0.1) },
    ];
    let losses = read(|reader| {
        desertion_personnel_loss_by_side(&units, &commands, val(100.0), 2, reader)
    });
    assert_eq!(losses, BTreeMap::from([(0, val(100.0)), (1, val(2.0))]));
}

#[test]
fn attrition_land_totals_use_committed_country_control_and_directed_hostility() {
    let totals = read(|reader| {
        hostile_controlled_land_by_side(
            &census(),
            &territory().country_to_side,
            &vec![0, 1, 0, 0],
            2,
            reader,
        )
    });
    assert_eq!(totals.into_iter().map(number).collect::<Vec<_>>(), vec![4.0, 0.0]);
}

fn exile_of(units: Vec<SimulationUnit>, draws: Vec<f64>) -> Result<Exile, ExileHalt> {
    let mut aggregates = census().countries;
    aggregates[0].controlled = 0;
    let mut known = policies();
    known.insert(3, policy(3, 1));
    let reserves = BTreeMap::from([(0, val(0.0)), (1, val(0.0))]);
    let tape: Vec<Real> = draws.into_iter().map(val).collect();
    read(|reader| {
        stage_exile(&units, &known, None, &aggregates, 2, &reserves, 1, &tape, reader)
    })
}

#[test]
fn naval_exile_uses_reverse_draw_order_and_recovers_reserve() {
    let mut first = unit(1, 0, 1, 0.0);
    first.combat.at_sea = true;
    let mut second = unit(3, 0, 1, -90.0);
    second.combat.at_sea = true;
    let units = vec![first, unit(2, 1, 2, 90.0), second];
    // The last formation draws first and stays; the first one draws second and leaves.
    let exile = exile_of(units.clone(), vec![0.5, 0.01]).unwrap();
    assert_eq!(exile.unit_ids, vec![1]);
    assert_eq!(exile.recovered_personnel, 1_000);
    assert_eq!(number(exile.reserves[&0]), 1_000.0);
    assert_eq!(exile.draws_used, 2);
    assert!(matches!(exile_of(units, vec![0.5]), Err(ExileHalt::Draws)));
}

#[test]
fn armor_naval_exile_returns_live_crew() {
    let mut tanks = armor(1, 0, 1, 17);
    tanks.combat.at_sea = true;
    let exile = exile_of(vec![tanks, unit(2, 1, 2, 90.0)], vec![0.0]).unwrap();
    assert_eq!(exile.unit_ids, vec![1]);
    assert_eq!(exile.recovered_personnel, 34);
    assert_eq!(number(exile.reserves[&0]), 34.0);
}

#[test]
fn legacy_runtime_unit_visuals_use_explicit_defaults() {
    let runtime = fixture(0);
    assert!(runtime.latest_snapshot().frame_snapshot.units.iter().all(|unit| {
        !unit.is_alpenjager && unit.encircled_ticks == 0 && number(unit.mountain_intensity) == 0.0
    }));
}

#[test]
fn unit_visual_publication_is_enriched() {
    let runtime = start(
        |given, _| {
            given.simulation.units[0].combat.armor_supported = true;
            let mut mountaineers = BattlefieldUnitState::default();
            mountaineers.is_alpenjager = true;
            mountaineers.encircled_ticks = 61;
            given.battlefield = Some(BattlefieldRuntimeState {
                units: BTreeMap::from([(1, mountaineers), (2, BattlefieldUnitState::default())]),
                countries: BTreeMap::new(),
                mountains_enabled: true,
                terrain_intensity: vec![0.0, 0.0, 0.5, 0.0, 0.0, 0.0, 0.0, 0.0]
                    .into_iter()
                    .map(val)
                    .collect(),
            });
        },
        0,
    )
    .unwrap();
    let latest = runtime.latest_snapshot();
    let shown = latest.frame_snapshot.units.iter().find(|unit| unit.id == 1).unwrap();
    assert!(shown.armor_supported);
    assert!(shown.is_alpenjager);
    assert_eq!(shown.encircled_ticks, 61);
    assert_eq!(number(shown.mountain_intensity), 0.5);
}

#[test]
fn a_battlefield_must_remember_every_shown_formation() {
    let refused = start(
        |given, _| {
            given.battlefield = Some(BattlefieldRuntimeState {
                units: BTreeMap::from([(1, BattlefieldUnitState::default())]),
                countries: BTreeMap::new(),
                mountains_enabled: false,
                terrain_intensity: vec![val(0.0); 8],
            });
        },
        0,
    );
    assert!(matches!(
        refused,
        Err(RuntimeError::InvalidCheckpoint("battlefield state does not cover a published unit"))
    ));
}

struct Mulberry(u32);

impl Mulberry {
    fn next(&mut self) -> f64 {
        self.0 = self.0.wrapping_add(0x6d2b_79f5);
        let seed = self.0;
        let mut t = (seed ^ (seed >> 15)).wrapping_mul(1 | seed);
        t = t.wrapping_add((t ^ (t >> 7)).wrapping_mul(61 | t)) ^ t;
        f64::from(t ^ (t >> 14)) / 4_294_967_296.0
    }
}

fn recruit(
    next_unit_id: u64,
    reserves: BTreeMap<usize, Real>,
    commands: &BTreeMap<u64, Result<ResolvedCommandPolicy, KernelFault>>,
    draws: &Vec<Real>,
) -> Result<RecruitmentStaging, RecruitmentHalt> {
    let units = checkpoint(0).simulation.units;
    let production = scenario();
    let ground = territory();
    let counted = census();
    let state = strategic();
    let mut sheet = Worksheet::new();
    loop {
        let source = RecruitmentInput {
            tick: 1,
            frame: 1,
            units: &units,
            strengths: &vec![val(1.0), val(1.0)],
            countries: &production.countries,
            cities: &production.cities,
            territory: &ground,
            aggregates: &counted.countries,
            strategic: &state,
            dynamics: None,
            mountains: None,
            config: config().production,
            rules: RecruitmentRules { cost: val(5.0), unit_health: val(100.0) },
            draws,
            commands,
        };
        match stage_recruitment(&source, next_unit_id, &reserves, &sheet) {
            Ok(staging) => return Ok(staging),
            Err(Stop::Failed(halt)) => return Err(halt),
            Err(Stop::Missing(missing)) => fill(&mut sheet, missing),
        }
    }
}

fn obedience() -> ResolvedCommandPolicy {
    ResolvedCommandPolicy {
        band: CommandBand::Paid,
        discipline: val(0.5),
        refuses_offense: false,
        return_home: false,
        self_defense_only: false,
        home_target: None,
    }
}

#[test]
fn recruitment_consumes_reserve_rng_and_treasury_in_browser_order() {
    let mut rng = Mulberry(7);
    let draws: Vec<Real> = (0..8).map(|_| val(rng.next())).collect();
    let reserves = BTreeMap::from([(0, val(1_000.0)), (1, val(0.0))]);
    let commands = BTreeMap::from([(3, Ok(obedience()))]);
    let staged = recruit(3, reserves, &commands, &draws).unwrap();

    assert_eq!(staged.units.len(), 1);
    assert_eq!(staged.recruited_personnel, 1_000);
    assert_eq!(staged.treasury_costs, BTreeMap::from([(1, val(5.0))]));
    assert_eq!(staged.units[0].combat.id, 3);
    assert_eq!(staged.units[0].combat.sovereign, 1);
    assert_eq!(staged.policies[0].ai.deploy_until_tick, 31);
    assert!(staged.policies[0].influence.as_ref().unwrap().browser_temporal_seed.is_some());
    assert_eq!(staged.next_unit_id, 4);
    assert_eq!(number(staged.reserves[&0]), 0.0);
    // Chance, the choice of a cell, and the identity seed. There is no draw for mountains.
    assert_eq!(staged.draws_used, 3);
}

#[test]
fn recruitment_halts_for_draws_commands_and_stale_ids() {
    let mut rng = Mulberry(7);
    let draws: Vec<Real> = (0..8).map(|_| val(rng.next())).collect();
    let reserves = BTreeMap::from([(0, val(1_000.0)), (1, val(0.0))]);
    assert!(matches!(
        recruit(3, reserves.clone(), &BTreeMap::new(), &Vec::new()),
        Err(RecruitmentHalt::Draws)
    ));
    match recruit(3, reserves.clone(), &BTreeMap::new(), &draws) {
        Err(RecruitmentHalt::Command(asked)) => {
            assert_eq!((asked.unit_id, asked.sovereign_id, asked.side), (3, 1, 0));
            assert_eq!(asked.seed, draws[2]);
        }
        _ => panic!("the command kernel was not asked"),
    }
    let refused = BTreeMap::from([(3, Err(KernelFault { code: 9 }))]);
    assert!(matches!(
        recruit(3, reserves.clone(), &refused, &draws),
        Err(RecruitmentHalt::Failed(RuntimeError::Command(KernelFault { code: 9 })))
    ));
    assert!(matches!(
        recruit(2, reserves, &refused, &draws),
        Err(RecruitmentHalt::Failed(RuntimeError::InvalidCheckpoint(_)))
    ));
}

#[test]
fn air_target_strength_matches_browser_candidate_fields() {
    let mut tanks = armor(2, 1, 2, 100);
    tanks.combat.equipment = 87;
    let units = vec![unit(1, 0, 1, 0.0), tanks];
    let targets = read(|reader| air_unit_targets(&units, reader)).unwrap();
    assert_eq!(targets[0].kind, AirTargetKind::Army);
    assert_eq!(number(targets[0].strength), 1.0);
    assert_eq!(targets[1].kind, AirTargetKind::Armor);
    assert_eq!(number(targets[1].strength), 87.0);
}

fn point(lat: f64, lng: f64) -> OperationalPoint {
    OperationalPoint { lat: val(lat), lng: val(lng) }
}

fn operations() -> OperationalRuntimeState {
    let mut operations =
        OperationalRuntimeState::bootstrap(2, &[0, 1, 1, 0], &[val(1.0), val(1.0)]);
    operations.task_forces.push(OperationalTaskForce {
        id: "force-a".to_owned(),
        signature: "force-a".to_owned(),
        side_index: 0,
        plan_signature: "plan-a".to_owned(),
        plan_type: "FRONTLINE_PUSH".to_owned(),
        theater_id: None,
        target: Some(point(-90.0, 0.0)),
        staging_anchor: Some(point(-90.0, 0.0)),
        route: vec![point(-90.0, 0.0)],
        phase: TaskForcePhase::Attacking,
        posture: TaskForcePosture::Balanced,
        members: vec![TaskForceMember {
            unit_id: 1,
            role: TaskForceRole::Spearhead,
            assigned_tick: 0,
            route_progress: val(0.2),
        }],
        reserve_unit_ids: Vec::new(),
        desired_power: val(1.0),
        launch_power: val(1.0),
        current_power: val(1.0),
        peak_power: val(1.0),
        readiness: val(1.0),
        max_assigned_units: 1,
        created_tick: 0,
        phase_started_tick: 0,
        last_progress_tick: 0,
        last_recovery_tick: 0,
        recovery_power: val(0.0),
        progress: val(0.2),
        withdrawal_anchor: None,
        completion_reason: None,
        outcome: None,
        severe_surprise: false,
        parent_task_force_id: None,
        supply_invalidated_tick: None,
        intent_revision: 0,
    });
    operations
}

#[test]
fn air_priority_areas_match_browser_active_task_force_phases() {
    let radius = val(250.0);
    assert!(air_priority_areas(None, radius).is_empty());
    let mut operations = operations();
    assert_eq!(air_priority_areas(Some(&operations), radius).len(), 1);

    operations.task_forces[0].phase = TaskForcePhase::Culminated;
    assert!(air_priority_areas(Some(&operations), radius).is_empty());
    let (side, staging) = {
        let task_force = &mut operations.task_forces[0];
        task_force.phase = TaskForcePhase::Assembling;
        task_force.target = None;
        (task_force.side_index, task_force.staging_anchor.unwrap())
    };
    assert_eq!(
        air_priority_areas(Some(&operations), radius),
        vec![AirPriorityArea { side, lat: staging.lat, lng: staging.lng, radius_km: radius }]
    );
}

#[test]
fn inactive_sides_are_retired() {
    let directives = read(|reader| {
        stage_side_dynamics(
            &vec![0, 1],
            37,
            false,
            &census(),
            &territory().country_to_side,
            &vec![0],
            &vec![0, 1, 1, 0],
            2,
            &checkpoint(36).simulation.units,
            &vec![val(1.0), val(2.0)],
            &policies(),
            None,
            reader,
        )
    })
    .unwrap();
    assert_eq!(directives[1], DynamicsDirective::Retire);
    assert_eq!(
        directives[0],
        DynamicsDirective::Direct {
            sample: None,
            deployed: true,
            strength: val(1.0),
            hostile_deployed: true,
            hostile_strength: val(2.0),
        }
    );
}

fn coverage(country_id: u16, share: f64) -> AirCountryCoverage {
    AirCountryCoverage { country_id, operations_coverage: val(share) }
}

fn air(country_coverage: Vec<AirCountryCoverage>) -> AirPowerState {
    AirPowerState { airfields: Vec::new(), wings: Vec::new(), country_coverage }
}

fn no_execution() -> OperationalExecutionState {
    OperationalExecutionState { naval_operations: Vec::new(), defender_reactions: Vec::new() }
}

#[test]
fn capitulation_overrides_persisted_air_coverage() {
    let power = air(vec![coverage(1, 0.5), coverage(2, 1.0)]);
    let mut state = strategic();
    let (_, funded) = air_country_policy(&state, &power);
    assert_eq!(funded.get(&1), Some(&val(0.5)));

    state.economies.get_mut(&1).unwrap().capitulated = true;
    let (_, grounded) = air_country_policy(&state, &power);
    assert_eq!(grounded.get(&1), Some(&val(0.0)));
}

#[test]
fn air_coverage_country_must_exist_in_stable_topology() {
    let refused = start(
        |given, _| {
            given.operational_execution = Some(no_execution());
            given.air_power = Some(air(vec![coverage(99, 0.5)]));
        },
        0,
    );
    assert!(matches!(
        refused,
        Err(RuntimeError::InvalidCheckpoint(
            "air power disagrees with the stable country and side topology"
        ))
    ));
}

#[test]
fn air_coverage_must_include_no_wing_topology_countries() {
    let refused = start(
        |given, _| {
            given.operational_execution = Some(no_execution());
            given.air_power = Some(air(vec![coverage(1, 1.0)]));
        },
        0,
    );
    assert!(matches!(
        refused,
        Err(RuntimeError::InvalidCheckpoint(
            "air power disagrees with the stable country and side topology"
        ))
    ));
}

#[test]
fn missing_reinforcement_and_logistics_are_made_up() {
    let runtime = start(
        |given, _| {
            given.operational_execution = Some(no_execution());
            given.air_power = Some(air(vec![coverage(1, 1.0), coverage(2, 1.0)]));
        },
        0,
    )
    .unwrap();
    let latest = runtime.latest_snapshot();
    let reinforcement = latest.reinforcement_snapshot.as_ref().unwrap();
    assert_eq!((reinforcement.next_unit_id, reinforcement.next_air_wing_id), (3, 1));
    let material = latest.material_logistics_snapshot.as_ref().unwrap();
    // The square root of three formations, times eight, rounded.
    assert_eq!(material.countries[0].armor_capacity, 14);
    assert_eq!(number(material.countries[0].armor_quality), 50.0);
}

#[test]
fn landing_threat_counts_every_live_attacker_at_the_beachhead() {
    let target = point(-90.0, 0.0);
    let mut execution = no_execution();
    execution.naval_operations.push(NavalOperation {
        id: "invasion-a".to_owned(),
        signature: "invasion-a".to_owned(),
        kind: NavalOperationKind::Invasion,
        phase: NavalOperationPhase::Landing,
        side: 0,
        enemy_side: Some(1),
        target,
        member_unit_ids: vec![1],
    });
    let input = |unit_id: u64, side: usize, lng: f64, at_sea: bool| ExecutionUnitInput {
        unit_id,
        side,
        country: (side + 1) as u16,
        position: point(-90.0, lng),
        transport: false,
        at_sea,
        deploying: false,
        engaged: false,
        operationally_assigned: false,
    };
    let units = vec![
        input(1, 0, 0.0, false),
        input(3, 0, 0.5, false),
        input(4, 0, 1.5, false),
        input(5, 0, 0.0, true),
        input(6, 1, 0.0, false),
    ];
    let threats = read(|reader| {
        defender_threats(&execution, None, &units, &territory(), &vec![0, 1, 1, 0], 2, reader)
    });
    assert_eq!(threats.len(), 1);
    assert_eq!(threats[0].phase, DefenderThreatPhase::Landing);
    assert_eq!(threats[0].enemy_force, 4);
}

fn prior(unit_id: u64) -> FrontLayoutPrior {
    FrontLayoutPrior {
        unit_id,
        objective_id: 1,
        pair_key: "0:1".to_owned(),
        segment_idx: 0,
    }
}

#[test]
fn checkpoint_rejects_inconsistent_planner_history() {
    let planned = |given: &mut RuntimeCheckpoint| {
        given.last_front_refresh_tick = Some(given.tick);
        given.front_prior_by_unit.insert(1, prior(1));
    };
    assert!(start(|given, _| planned(given), 1).is_ok());
    assert!(matches!(
        start(
            |given, _| {
                planned(given);
                given.last_front_refresh_tick = Some(given.tick + 1);
            },
            1
        ),
        Err(RuntimeError::InvalidCheckpoint("last front refresh is newer than the runtime clock"))
    ));
    assert!(matches!(
        start(
            |given, _| {
                planned(given);
                given.front_prior_by_unit.insert(u64::MAX, prior(u64::MAX));
            },
            1
        ),
        Err(RuntimeError::InvalidCheckpoint(
            "front layout prior references missing units or objectives"
        ))
    ));
    assert!(matches!(
        start(
            |given, _| {
                planned(given);
                given.last_front_refresh_tick = None;
            },
            1
        ),
        Err(RuntimeError::InvalidCheckpoint("front layout prior has no completed refresh"))
    ));
}

#[test]
fn every_part_of_a_checkpoint_is_checked() {
    let refusal = |edit: &dyn Fn(&mut RuntimeCheckpoint, &mut KernelVerdicts)| {
        start(edit, 5).err().unwrap()
    };
    assert_eq!(
        refusal(&|given, _| given.diplomacy.hostility[1] = 0),
        RuntimeError::InvalidCheckpoint("runtime and territory hostility matrices differ")
    );
    assert_eq!(
        refusal(&|given, _| given.diplomacy.active_sides = vec![0, 0]),
        RuntimeError::InvalidCheckpoint("active sides must be unique and in range")
    );
    assert_eq!(
        refusal(&|given, _| given.scenario.grid.width = 5),
        RuntimeError::InvalidCheckpoint("scenario production grid does not match territory")
    );
    assert_eq!(
        refusal(&|given, _| {
            given.unit_policies.pop();
        }),
        RuntimeError::InvalidCheckpoint("unit policy count differs from live unit count")
    );
    assert_eq!(
        refusal(&|given, _| given.unit_policies[1].unit_id = 1),
        RuntimeError::InvalidUnitPolicy(1)
    );
    assert_eq!(
        refusal(&|given, _| {
            given.territory.influence_runtime = true;
        }),
        RuntimeError::InvalidCheckpoint(
            "influence runtime requires a temporal seed for every live formation"
        )
    );
    assert_eq!(
        refusal(&|given, _| {
            given.casualties.insert(9, val(1.0));
        }),
        RuntimeError::InvalidCheckpoint("invalid casualty ledger")
    );
    assert_eq!(
        refusal(&|given, _| {
            given.casualties_by_victim.insert(1, BTreeMap::from([(1, val(1.0))]));
        }),
        RuntimeError::InvalidCheckpoint("invalid victim-to-attacker casualty ledger")
    );
    assert_eq!(
        refusal(&|given, _| {
            given.personnel_reserves.remove(&1);
        }),
        RuntimeError::InvalidCheckpoint(
            "personnel reserves must exactly cover the stable side topology"
        )
    );
    assert_eq!(
        refusal(&|given, _| {
            given.prior_objective_by_unit.insert(1, 7);
        }),
        RuntimeError::InvalidCheckpoint(
            "prior front assignments reference missing units or objectives"
        )
    );
    assert_eq!(
        refusal(&|given, _| given.side_dynamics = Some(BTreeMap::new())),
        RuntimeError::InvalidCheckpoint("side dynamics must exactly cover the stable side topology")
    );
    assert_eq!(
        refusal(&|given, _| given.operational_execution = Some(no_execution())),
        RuntimeError::InvalidCheckpoint(
            "operational execution and air power must be restored together"
        )
    );
    assert_eq!(
        refusal(&|given, _| given.naval_planning = Some(KernelHandle { key: 1 })),
        RuntimeError::InvalidCheckpoint(
            "naval planning requires operational AI, execution, and air state"
        )
    );
    assert_eq!(
        refusal(&|given, told| {
            given.strategic_missiles = Some(KernelHandle { key: 1 });
            told.missiles = Err(KernelFault { code: 3 });
        }),
        RuntimeError::StrategicMissile(KernelFault { code: 3 })
    );
    assert_eq!(
        refusal(&|_, told| told.planning = Err(KernelFault { code: 8 })),
        RuntimeError::Ai(KernelFault { code: 8 })
    );
    assert!(matches!(
        refusal(&|_, told| told.territory_schema = "other".to_owned()),
        RuntimeError::Production(_)
    ));
    assert_eq!(
        refusal(&|given, _| {
            let mut forces = operations();
            forces.sides[0].hostile_side_indices.clear();
            forces.sides[0].intel.prewar_enemy_power.clear();
            given.operations = Some(forces);
        }),
        RuntimeError::InvalidCheckpoint(
            "operational intel hostility disagrees with runtime diplomacy"
        )
    );
}

#[test]
fn a_late_supply_collapse_is_refused() {
    let refused = start(
        |given, _| {
            let mut memory = BattlefieldUnitState::default();
            memory.supply_collapsed_tick = Some(6);
            given.battlefield = Some(BattlefieldRuntimeState {
                units: BTreeMap::from([(1, memory), (2, BattlefieldUnitState::default())]),
                countries: BTreeMap::new(),
                mountains_enabled: false,
                terrain_intensity: vec![val(0.0); 8],
            });
        },
        5,
    );
    assert_eq!(refused.err(), Some(RuntimeError::InvalidBattlefieldUnitState(1)));
}

#[test]
fn renderer_deltas_are_fifo_and_never_overwritten() {
    let mut runtime = fixture(0);
    assert_eq!(runtime.pending_render_updates(), 1);
    tick_with(&mut runtime, |_, action| match action {
        TickAction::RenderUpdate => {
            Some(TickAnswer::RenderUpdate(Some(TerritoryRenderUpdate { key: 2 })))
        }
        _ => None,
    })
    .unwrap();
    assert_eq!(runtime.pending_render_updates(), 2);

    let full = runtime.pop_render_update().unwrap();
    let sparse = runtime.pop_render_update().unwrap();
    assert_eq!((full.key, sparse.key), (1, 2));
    assert!(runtime.pop_render_update().is_none());
}

#[test]
fn front_layout_refreshes_first_then_on_configured_tick_phase() {
    let mut runtime = fixture(27);
    assert!(tick_with(&mut runtime, |_, _| None).unwrap().counters.front_refreshed);
    assert!(!tick_with(&mut runtime, |_, _| None).unwrap().counters.front_refreshed);
    assert!(tick_with(&mut runtime, |_, _| None).unwrap().counters.front_refreshed);
}

#[test]
fn pre_mutation_failure_does_not_publish_or_advance_clock() {
    let mut runtime = fixture(0);
    let published = runtime.latest_snapshot();
    let queued = runtime.pending_render_updates();

    let error = tick_until(
        &mut runtime,
        |_, _| None,
        |action| match action {
            TickAction::Layout(_) => Some(RuntimeError::Front(KernelFault { code: 1 })),
            _ => None,
        },
    );
    assert!(matches!(error, Err(RuntimeError::Front(_))));
    assert!(Arc::ptr_eq(&runtime.latest_snapshot(), &published));
    assert_eq!(runtime.tick(), 0);
    assert_eq!(runtime.frame(), 0);
    assert_eq!(runtime.pending_render_updates(), queued);
    assert_eq!(runtime.state(), RuntimeState::Running);
}

#[test]
fn a_failure_after_the_world_changed_poisons_the_runtime() {
    let mut runtime = fixture(PAY_CYCLE - 1);
    let published = runtime.latest_snapshot();
    let failed = tick_until(
        &mut runtime,
        |_, _| None,
        |action| match action {
            TickAction::Cycle(_) => Some(RuntimeError::Strategic(KernelFault { code: 1 })),
            _ => None,
        },
    );
    assert!(matches!(failed, Err(RuntimeError::Strategic(_))));
    assert_eq!(runtime.state(), RuntimeState::Poisoned);
    assert!(Arc::ptr_eq(&runtime.latest_snapshot(), &published));
    assert!(matches!(runtime.step(rules()), Err(RuntimeError::Poisoned)));
    assert!(matches!(save(&mut runtime), Err(RuntimeError::CheckpointUnavailable)));
}

#[test]
fn conflict_resolution_is_a_clean_terminal_publication() {
    let mut runtime = fixture(PAY_CYCLE - 1);
    let plan = ConflictResolutionPlan { stop_simulation: true, victor: Some(0) };
    let terminal = tick_with(&mut runtime, |work, action| match action {
        TickAction::Cycle(_) => Some(TickAnswer::Cycle(CycleAnswer {
            evaluated: cycle_of(work.step.tick, Vec::new(), Some(plan)),
            economies: strategic().economies,
        })),
        _ => None,
    })
    .unwrap();
    let RuntimeState::ConflictResolved { resolution, .. } = terminal.state else {
        panic!("expected resolved conflict");
    };
    assert!(resolution.stop_simulation);
    assert!(matches!(
        runtime.step(rules()),
        Err(RuntimeError::ConflictResolved { cycle: 1, tick: PAY_CYCLE })
    ));
}

#[test]
fn awaited_effects_hold_the_clock() {
    let runtime = start(
        |given, _| {
            given.strategic_snapshot = Some(StrategicSnapshot {
                cycle: 2,
                tick: 4,
                countries: Vec::new(),
                desertions: vec![DesertionCommand { country_id: 1, rate: val(0.1) }],
                surrenders: Vec::new(),
                conflict_resolution: None,
            });
        },
        5,
    )
    .unwrap();
    assert!(matches!(
        runtime.step(rules()),
        Err(RuntimeError::AwaitingStrategicEffects { cycle: 2, tick: 4 })
    ));
    assert_eq!(runtime.pending_strategic_snapshot().unwrap().cycle, 2);
    assert!(fixture(5).pending_strategic_snapshot().is_none());
    assert!(matches!(
        fixture(u64::MAX).step(rules()),
        Err(RuntimeError::ClockOverflow)
    ));
}

fn facts(strategy_due: bool) -> StepFacts {
    StepFacts {
        operations: false,
        dynamics: false,
        battlefield: false,
        spreading: false,
        air: false,
        execution: false,
        missiles: false,
        reinforcement: false,
        material: false,
        fronts_due: true,
        strategy_due,
    }
}

fn stages_of(facts: StepFacts) -> Vec<StepStage> {
    let mut step = RuntimeStep::begin(1, 1, facts);
    let mut stages = vec![step.stage];
    while step.stage != StepStage::Publication {
        step.complete(StageEvent::Done);
        stages.push(step.stage);
    }
    stages
}

#[test]
fn stages_come_in_order_and_only_where_there_is_work() {
    assert_eq!(
        stages_of(facts(true)),
        vec![
            StepStage::Exile,
            StepStage::Fronts,
            StepStage::Planning,
            StepStage::Replanning,
            StepStage::Orders,
            StepStage::Simulation,
            StepStage::Losses,
            StepStage::LateInfluence,
            StepStage::Census,
            StepStage::Strategy,
            StepStage::Publication,
        ]
    );
    assert!(!stages_of(facts(false)).contains(&StepStage::Strategy));
    let whole = stages_of(StepFacts {
        operations: true,
        execution: true,
        air: true,
        missiles: true,
        ..facts(true)
    });
    assert!(whole.contains(&StepStage::Operations) && whole.contains(&StepStage::Execution));
    assert!(whole.contains(&StepStage::Air) && whole.contains(&StepStage::Missiles));
}

#[test]
fn publications_are_immutable() {
    let mut runtime = fixture(0);
    let old = runtime.latest_snapshot();
    let next = tick_with(&mut runtime, |work, action| match action {
        TickAction::Combat { .. } => {
            let mut fought = quiet(&fixture(0), work, action);
            if let TickAnswer::Combat(told) = &mut fought {
                told.units.pop();
                told.frame.units.pop();
                told.frame.removed_ids = vec![2];
            }
            Some(fought)
        }
        _ => None,
    })
    .unwrap();
    assert_eq!((next.tick, next.frame), (1, 1));
    assert_eq!(next.schema_version, NATIVE_RUNTIME_SCHEMA_VERSION);
    assert_eq!(next.frame_snapshot.removed_ids, vec![2]);
    assert_eq!(old.tick, 0);
    assert_eq!(old.frame_snapshot.units.len(), 2);
    assert!(!Arc::ptr_eq(&old, &next));
    // Nothing of a formation that is gone is remembered.
    let state = save(&mut runtime).unwrap();
    assert_eq!(state.unit_policies.keys().copied().collect::<Vec<_>>(), vec![1]);
    assert_eq!((state.tick, state.gameplay_rng.key), (1, 0));
    assert_eq!(state.units.len(), 1);
}

fn breakdown() -> ResolvedCommandPolicy {
    ResolvedCommandPolicy {
        band: CommandBand::Breakdown,
        discipline: val(0.1),
        refuses_offense: true,
        return_home: true,
        self_defense_only: false,
        home_target: Some(CommandHomeTarget { cell: 0, lat: val(-45.0), lng: val(-135.0) }),
    }
}

/// Both formations hold a place in the fronts, and the first one breaks down.
fn placed(action: &TickAction) -> Option<TickAnswer> {
    match action {
        TickAction::Layout(_) => Some(TickAnswer::Layout(FrontLayout {
            objectives: objectives(),
            next_prior: vec![prior(1), prior(2)],
            segments: 1,
        })),
        TickAction::Plan(_) => Some(TickAnswer::Plan(AiPlanningResult {
            orders: Vec::new(),
            assignments: vec![
                FrontAssignmentRecord {
                    unit_id: 1,
                    objective_id: Some(1),
                    reason: AssignmentReason::Front,
                },
                FrontAssignmentRecord {
                    unit_id: 2,
                    objective_id: Some(2),
                    reason: AssignmentReason::Front,
                },
            ],
            contacts: Vec::new(),
            counters: AiPlanningCounters::default(),
        })),
        TickAction::Commands { .. } => {
            let mut resolved = same_commands();
            resolved.insert(1, breakdown());
            Some(TickAnswer::Commands(resolved))
        }
        _ => None,
    }
}

#[test]
fn commands_and_claims_clear_places_in_the_fronts() {
    let mut runtime = fixture(PAY_CYCLE - 1);
    let published = tick_with(&mut runtime, |_, action| placed(action)).unwrap();
    assert_eq!(published.counters.front_objectives, 2);
    assert_eq!(published.counters.front_segments, 1);
    let state = save(&mut runtime).unwrap();
    assert_eq!(state.prior_objective_by_unit, BTreeMap::from([(2, 2)]));
    assert_eq!(state.front_prior_by_unit.keys().copied().collect::<Vec<_>>(), vec![2]);
    let command = state.unit_policies[&1].command;
    assert_eq!(command.band, CommandBand::Breakdown);
    assert!(command.refuses_offense && command.return_home && !command.self_defense_only);
    assert_eq!(command.transition_cycle, 1);
    assert_eq!(command.home_target.unwrap().cell, 0);
    assert!(state.unit_policies[&1].influence.as_ref().unwrap().refuses_offense);
    assert_eq!(state.last_front_refresh_tick, Some(PAY_CYCLE));
}

fn judged(side_index: usize) -> SideDynamics {
    SideDynamics {
        side_index,
        posture: WarPosture::Balanced,
        posture_override: None,
        phase: WarPhase::Stalemate,
        initial_personnel: val(1_000.0),
        current_personnel: val(1_000.0),
    }
}

/// A runtime in which every kernel has something to do.
fn whole_world(tick: u64) -> NativeRuntime {
    start(
        |given, told| {
            given.territory.influence_runtime = true;
            for policy in given.unit_policies.iter_mut() {
                policy.influence.as_mut().unwrap().browser_temporal_seed = Some(val(0.5));
            }
            given.battlefield = Some(field());
            told.urban_mask = vec![0; 8];
            given.side_dynamics = Some(BTreeMap::from([(0, judged(0)), (1, judged(1))]));
            given.operations = Some(OperationalRuntimeState::bootstrap(
                2,
                &[0, 1, 1, 0],
                &[val(1.0), val(1.0)],
            ));
            given.operational_execution = Some(no_execution());
            given.naval_planning = Some(KernelHandle { key: 7 });
            given.air_power = Some(air(vec![coverage(1, 1.0), coverage(2, 1.0)]));
            given.strategic_missiles = Some(KernelHandle { key: 9 });
        },
        tick,
    )
    .unwrap()
}

/// What a tick of the whole world asks for, in order, apart from strengths and without repeats in a
/// row.
fn asked(tick: u64) -> (Vec<String>, Arc<RuntimeSnapshot>, NativeRuntime) {
    let mut runtime = whole_world(tick);
    let names: RefCell<Vec<String>> = RefCell::new(Vec::new());
    let published = tick_with(&mut runtime, |_, action| {
        let text = format!("{action:?}");
        let name: String = text.chars().take_while(|letter| letter.is_alphanumeric()).collect();
        if name != "Strengths" && names.borrow().last() != Some(&name) {
            names.borrow_mut().push(name);
        }
        None
    })
    .unwrap();
    (names.into_inner(), published, runtime)
}

#[test]
fn a_tick_asks_every_kernel_in_its_turn() {
    let (names, published, runtime) = asked(0);
    assert_eq!(
        names,
        vec![
            "Momentum", "Local", "Battlefield", "Influence", "Local", "Battlefield", "Air",
            "Layout", "Plan", "Naval", "Execution", "Directions", "Combat", "Missiles",
            "FeelLosses", "CensusStatus", "Census", "Reactions", "RenderUpdate",
        ]
    );
    assert_eq!(published.tick, 1);
    assert!(published.counters.front_refreshed);
    assert_eq!(published.frame_snapshot.units.len(), 2);
    let parts = runtime.parts();
    assert_eq!(parts.naval_planning, Some(KernelHandle { key: 8 }));
    assert!(parts.battlefield.is_some() && parts.operations.is_some());
    assert_eq!(parts.battlefield.unwrap().units[&1].last_ally_count, 4);
}

#[test]
fn a_pay_cycle_settles_after_its_strategic_cycle() {
    let (names, published, runtime) = asked(PAY_CYCLE - 1);
    let since = names.iter().position(|name| name == "CensusStatus").unwrap();
    assert_eq!(
        names[since..],
        [
            "CensusStatus", "Cycle", "Effects", "FeelLosses", "Commands", "CommitCycle",
            "CheckAir", "Reactions", "Disciplines", "RenderUpdate",
        ]
    );
    assert_eq!(published.tick, PAY_CYCLE);
    assert!(published.strategic_snapshot.is_some());
    let parts = runtime.parts();
    assert!(parts.reinforcement.is_some() && parts.material_logistics.is_some());
    assert_eq!(parts.operations.unwrap().sides.len(), 2);
}

#[test]
fn a_surrender_in_a_tick_clears_the_fronts() {
    let mut runtime = fixture(PAY_CYCLE - 1);
    let surrender = || vec![SurrenderCommand { country_id: 2, side: 1 }];
    let published = tick_with(&mut runtime, |work, action| match action {
        TickAction::Cycle(_) => Some(TickAnswer::Cycle(CycleAnswer {
            evaluated: cycle_of(work.step.tick, surrender(), None),
            economies: strategic().economies,
        })),
        TickAction::Effects { attackers, .. } => {
            assert_eq!(attackers, &vec![1]);
            Some(TickAnswer::Effects(EffectsAnswer {
                maps: maps(),
                boundary: boundary(),
                surrender: SurrenderAnswers {
                    plan: Ok(SurrenderPlan {
                        transfers: vec![SurrenderTransfer {
                            cell: 3,
                            original_owner: 2,
                            new_owner: 1,
                        }],
                        primary_annexer_id: 1,
                    }),
                    restored: Ok(()),
                    garrison: Ok(1),
                    registered: Ok(()),
                },
                resolution: Some(ConflictResolutionPlan {
                    stop_simulation: true,
                    victor: Some(0),
                }),
            }))
        }
        TickAction::CommitCycle => Some(TickAnswer::CommitCycle(CommittedCycle {
            strategic: strategic(),
            published: Arc::new(cycle_of(work.step.tick, surrender(), None)),
            counters: StrategicCounters { countries: 2, desertions: 0, surrenders: 1, occupations: 1 },
            census: Some(Arc::new(census())),
        })),
        _ => None,
    })
    .unwrap();
    assert_eq!(published.counters.front_objectives, 0);
    assert!(matches!(published.state, RuntimeState::ConflictResolved { cycle: 1, .. }));
    let parts = runtime.parts();
    assert_eq!(parts.last_front_refresh_tick, None);
    assert!(parts.objectives.is_empty() && parts.front_prior_by_unit.is_empty());
    // The tick itself hands the cell over.
    assert_eq!(parts.territory.world_control, vec![1, 1, 2, 1, 1, 1, 2, 2]);
    assert_eq!(parts.territory.primary_occupier[3], 1);
    assert_eq!(parts.territory.de_jure, territory().de_jure);
}

#[test]
fn garrison_hold_preserves_resolved_combat_modifiers() {
    let mut known = policies();
    let edited = known.get_mut(&1).unwrap();
    edited.ai.garrison_excluded = true;
    edited.ai.combat.dealt_multiplier = val(7.0);
    edited.ai.combat.taken_multiplier = val(0.4);
    edited.ai.combat.mountain = true;

    let orders = garrison_hold_orders(&checkpoint(0).simulation.units, &known, 1).unwrap();
    assert_eq!(orders.len(), 1);
    assert_eq!(orders[0].unit_id, 1);
    assert!(!orders[0].movement_enabled);
    assert_eq!(number(orders[0].combat.dealt_multiplier), 7.0);
    assert_eq!(number(orders[0].combat.taken_multiplier), 0.4);
    assert!(orders[0].combat.mountain);

    known.get_mut(&1).unwrap().ai.combat.dealt_multiplier = val(-1.0);
    assert!(matches!(
        validate_unit_policy(&known[&1], &territory(), shares()),
        Err(RuntimeError::InvalidUnitPolicy(1))
    ));
}

#[test]
fn browser_influence_timing_recomputes_ramp_and_noise_each_tick() {
    let mut influence = UnitInfluencePolicy::default();
    influence.radius = val(10.0);
    influence.delta = val(2.0);
    influence.browser_temporal_seed = Some(val(0.0));
    let (radius_zero, delta_zero) = read(|reader| resolve_influence_timing(&influence, 0, reader));
    assert_eq!(number(radius_zero), 9.0);
    assert!((number(delta_zero) - 0.08).abs() < 1e-15);

    let (radius_late, delta_late) =
        read(|reader| resolve_influence_timing(&influence, 600, reader));
    assert!((number(radius_late) - 10.0 * (0.9 + 60.0_f64.sin() * 0.2)).abs() < 1e-12);
    assert!((number(delta_late) - 2.0 * (0.8 + 30.0_f64.sin() * 0.4)).abs() < 1e-12);

    influence.browser_temporal_seed = Some(val(f64::NAN));
    assert!(matches!(
        validate_unit_policy(
            &RuntimeUnitPolicy {
                unit_id: 1,
                ai: UnitAiPolicy::default(),
                command: UnitCommandPolicy::paid(val(0.5)),
                influence: Some(influence),
            },
            &territory(),
            shares(),
        ),
        Err(RuntimeError::InvalidUnitPolicy(1))
    ));
}

#[test]
fn browser_influence_cohorts_and_side_scaled_budgets_match_javascript() {
    let cohort = |seed: f64| read(|reader| browser_stable_unit_cohort(val(seed), 3, reader));
    assert_eq!(cohort(0.1), 0);
    assert_eq!(cohort(0.2), 1);
    assert_eq!(cohort(0.3), 2);
    assert_eq!(cohort(0.5), 0);
    assert_eq!(cohort(1.0), 1);
    assert_eq!(cohort(2.000_000_001), 0);
    assert_eq!(cohort(f64::INFINITY), 0);

    assert_eq!(browser_influence_budgets(0), (300, 1_600));
    assert_eq!(browser_influence_budgets(2), (300, 1_600));
    assert_eq!(browser_influence_budgets(8), (75, 400));
    assert_eq!(browser_influence_budgets(24), (50, 400));
}

#[test]
fn restore_hydrates_missing_legacy_return_home_target() {
    let mut runtime = start(
        |given, told| {
            let economy = given.strategic.economies.get_mut(&1).unwrap();
            economy.arrears_cycles = val(3.0);
            economy.command_band = CommandBand::Breakdown;
            economy.last_event_band = CommandBand::Breakdown;
            let command = UnitCommandPolicy {
                band: CommandBand::Breakdown,
                discipline: val(0.1),
                refuses_offense: true,
                return_home: true,
                self_defense_only: false,
                home_target: None,
                transition_cycle: 0,
            };
            given.unit_policies[0].command = command;
            given.unit_policies[0].influence.as_mut().unwrap().refuses_offense = true;
            let mut resolved = obedience();
            resolved.home_target =
                Some(CommandHomeTarget { cell: 0, lat: val(-45.0), lng: val(-135.0) });
            told.commands = Ok(BTreeMap::from([(1, resolved)]));
        },
        0,
    )
    .unwrap();
    let state = save(&mut runtime).unwrap();
    assert_eq!(state.unit_policies[&1].command.home_target.unwrap().cell, 0);
    assert_eq!(state.unit_policies[&1].command.band, CommandBand::Breakdown);
    let before = runtime.parts().simulation.units[0].combat.lng;
    tick_by(&mut runtime, marching).unwrap();
    assert!(number(runtime.parts().simulation.units[0].combat.lng) < number(before));
}

/// Kernels that send every formation home that is told to go there, and that move each formation
/// as it is ordered.
fn marching(
    runtime: &NativeRuntime,
    work: &TickWork,
    action: &TickAction,
) -> Option<TickAnswer> {
    match action {
        TickAction::Plan(inputs) => {
            let mut orders = Vec::new();
            for input in inputs {
                let command = runtime.parts().unit_policies[&input.id].command;
                let west = match command.home_target {
                    Some(target) if command.return_home => {
                        number(target.lng) - number(input.lng)
                    }
                    _ => 0.0,
                };
                orders.push(ResolvedUnitOrder {
                    unit_id: input.id,
                    preferred_target_id: None,
                    movement_enabled: west != 0.0,
                    dir_lat: val(0.0),
                    dir_lng: val(if west < 0.0 { -1.0 } else { west }),
                    factors: MovementFactors {
                        base_speed: input.base_speed,
                        speed_mult: input.movement.speed_multiplier,
                        plan_speed_mult: input.movement.plan_speed_multiplier,
                        neutral_penalty: input.movement.neutral_penalty,
                        retreat_boost: val(1.0),
                        push_readiness: input.movement.push_readiness,
                    },
                    combat: input.combat,
                });
            }
            let held = orders.iter().filter(|order| !order.movement_enabled).count();
            Some(TickAnswer::Plan(AiPlanningResult {
                orders,
                assignments: Vec::new(),
                contacts: Vec::new(),
                counters: AiPlanningCounters {
                    input_units: inputs.len(),
                    hold_orders: held,
                    ..AiPlanningCounters::default()
                },
            }))
        }
        TickAction::Layout(units) => Some(TickAnswer::Layout(FrontLayout {
            objectives: if units.iter().all(|unit| unit.deploy_ticks > 0) {
                Vec::new()
            } else {
                objectives()
            },
            next_prior: Vec::new(),
            segments: 1,
        })),
        TickAction::Combat { orders, inactive } => {
            let mut units = work.units.clone();
            let mut counters = TickCounters::default();
            for unit in units.iter_mut() {
                let order = orders.iter().find(|order| order.unit_id == unit.combat.id);
                let free = !inactive.contains(&unit.combat.id);
                match order {
                    Some(order) if free && order.movement_enabled => {
                        unit.combat.lng =
                            val(number(unit.combat.lng) + number(order.dir_lng));
                        counters.moved_units += 1;
                    }
                    _ => counters.held_units += 1,
                }
            }
            let standing = Simulation::new(simulation_config(), units.clone()).unwrap();
            let frame = settle(|sheet| {
                standing.initial_snapshot(work.step.tick, work.step.frame, sheet)
            });
            Some(TickAnswer::Combat(CombatAnswer { units, frame, counters }))
        }
        _ => None,
    }
}

fn prompt_fronts() -> RuntimeConfig {
    RuntimeConfig { front_refresh_ticks: 1, ..config() }
}

#[test]
fn deploying_units_are_absent_from_planning_combat_movement_and_influence() {
    let mut runtime = start_under(
        prompt_fronts(),
        |given, _| {
            for policy in given.unit_policies.iter_mut() {
                policy.ai.deploy_until_tick = 1;
            }
        },
        0,
    )
    .unwrap();

    let deploying = tick_by(&mut runtime, marching).unwrap();
    assert_eq!(deploying.counters.ai.input_units, 0);
    assert_eq!(deploying.counters.front_objectives, 0);
    assert_eq!(deploying.counters.simulation.held_units, 2);
    assert_eq!(deploying.counters.simulation.accepted_contacts, 0);
    assert_eq!(deploying.counters.simulation.moved_units, 0);
    assert_eq!(deploying.counters.influence.sources, 0);

    let active = tick_by(&mut runtime, marching).unwrap();
    assert_eq!(active.counters.ai.input_units, 2);
    assert!(active.counters.front_objectives > 0);
    assert_eq!(active.counters.influence.sources, 2);
}

#[test]
fn garrison_excluded_units_hold_without_consuming_front_capacity() {
    let mut runtime = start_under(
        prompt_fronts(),
        |given, _| given.unit_policies[0].ai.garrison_excluded = true,
        0,
    )
    .unwrap();
    let place = |shown: &RuntimeSnapshot| {
        let unit = shown.frame_snapshot.units.iter().find(|unit| unit.id == 1).unwrap();
        (unit.lat, unit.lng)
    };
    let before = place(&runtime.latest_snapshot());

    let next = tick_by(&mut runtime, marching).unwrap();
    assert_eq!(next.counters.ai.input_units, 1);
    assert_eq!(place(&next), before);
    assert!(next.counters.simulation.held_units >= 1);
    assert_eq!(next.counters.influence.sources, 2);
}

#[test]
fn strategic_band_transition_updates_live_unit_policy_and_clears_front_memory() {
    let destitute = || {
        let mut economy = economy(1);
        economy.base_income = val(0.0);
        economy.income = val(0.0);
        economy.treasury = val(0.0);
        economy.arrears_cycles = val(2.0);
        economy.command_band = CommandBand::Unpaid;
        economy.last_event_band = CommandBand::Unpaid;
        economy
    };
    let mut runtime = start(
        |given, _| {
            given.strategic.economies.insert(1, destitute());
            given.unit_policies[0].command = UnitCommandPolicy {
                band: CommandBand::Unpaid,
                discipline: val(0.1),
                refuses_offense: true,
                return_home: false,
                self_defense_only: false,
                home_target: None,
                transition_cycle: 0,
            };
            given.unit_policies[0].influence.as_mut().unwrap().refuses_offense = true;
            given.prior_objective_by_unit = BTreeMap::from([(1, 1)]);
        },
        PAY_CYCLE - 1,
    )
    .unwrap();
    let broken = || {
        let mut after = strategic();
        after.cycle = 1;
        after.economies.insert(
            1,
            EconomyState {
                arrears_cycles: val(3.0),
                command_band: CommandBand::Breakdown,
                last_event_band: CommandBand::Breakdown,
                ..destitute()
            },
        );
        after
    };
    let evaluated = |tick: u64| {
        let mut cycle = cycle_of(tick, Vec::new(), None);
        cycle.countries[0].economy = broken().economies[&1];
        cycle
    };
    let kernels = |runtime: &NativeRuntime, work: &TickWork, action: &TickAction| match action {
        TickAction::Cycle(_) => Some(TickAnswer::Cycle(CycleAnswer {
            evaluated: evaluated(work.step.tick),
            economies: broken().economies,
        })),
        TickAction::Commands { bands, .. } => {
            assert_eq!(bands[&1], CommandBand::Breakdown);
            assert_eq!(bands[&2], CommandBand::Paid);
            let mut resolved = same_commands();
            resolved.insert(1, breakdown());
            Some(TickAnswer::Commands(resolved))
        }
        TickAction::CommitCycle => Some(TickAnswer::CommitCycle(CommittedCycle {
            strategic: broken(),
            published: Arc::new(evaluated(work.step.tick)),
            counters: StrategicCounters { countries: 2, desertions: 0, surrenders: 0, occupations: 0 },
            census: None,
        })),
        _ => marching(runtime, work, action),
    };
    let published = tick_by(&mut runtime, kernels).unwrap();
    {
        let parts = runtime.parts();
        let policy = &parts.unit_policies[&1];
        assert_eq!(policy.command.band, CommandBand::Breakdown);
        assert!(policy.command.refuses_offense);
        assert!(policy.command.return_home);
        assert!(!policy.command.self_defense_only);
        assert_eq!(policy.command.transition_cycle, 1);
        assert_eq!(policy.command.home_target.unwrap().cell, 0);
        assert!(policy.influence.as_ref().unwrap().refuses_offense);
        assert!(!parts.prior_objective_by_unit.contains_key(&1));
    }
    assert_eq!(
        published.strategic_snapshot.as_ref().unwrap().countries[0].economy.command_band,
        CommandBand::Breakdown
    );

    let place = |shown: &RuntimeSnapshot| {
        number(shown.frame_snapshot.units.iter().find(|unit| unit.id == 1).unwrap().lng)
    };
    let before_lng = place(&published);
    let next = tick_by(&mut runtime, kernels).unwrap();
    assert!(place(&next) < before_lng);
    assert!(next.counters.ai.hold_orders >= 1);
}

/// The cells of a country that gave up all go to the only one left.
fn last_side_kernels(work: &TickWork, action: &TickAction) -> Option<TickAnswer> {
    let surrenders = || vec![SurrenderCommand { country_id: 2, side: 1 }];
    let resolution = || Some(ConflictResolutionPlan { stop_simulation: true, victor: Some(0) });
    let beaten = || {
        let mut after = strategic();
        after.cycle = 1;
        after.economies.get_mut(&2).unwrap().capitulated = true;
        after
    };
    match action {
        TickAction::Cycle(_) => Some(TickAnswer::Cycle(CycleAnswer {
            evaluated: {
                let mut cycle = cycle_of(work.step.tick, surrenders(), None);
                cycle.countries[1].economy.capitulated = true;
                cycle
            },
            economies: beaten().economies,
        })),
        TickAction::Effects { attackers, standing, .. } => {
            assert_eq!(attackers, &vec![1]);
            assert_eq!(standing, &vec![0]);
            let lost = |cell: usize| SurrenderTransfer { cell, original_owner: 2, new_owner: 1 };
            Some(TickAnswer::Effects(EffectsAnswer {
                maps: maps(),
                boundary: boundary(),
                surrender: SurrenderAnswers {
                    plan: Ok(SurrenderPlan {
                        transfers: vec![lost(2), lost(3), lost(6), lost(7)],
                        primary_annexer_id: 1,
                    }),
                    restored: Ok(()),
                    garrison: Ok(1),
                    registered: Ok(()),
                },
                resolution: resolution(),
            }))
        }
        TickAction::CommitCycle => {
            let counted = TerritorySnapshot { generation: 2, commit_sequence: 2, ..census() };
            Some(TickAnswer::CommitCycle(CommittedCycle {
                strategic: beaten(),
                published: Arc::new(cycle_of(work.step.tick, surrenders(), resolution())),
                counters: StrategicCounters {
                    countries: 2,
                    desertions: 0,
                    surrenders: 1,
                    occupations: 1,
                },
                census: Some(Arc::new(counted)),
            }))
        }
        _ => None,
    }
}

#[test]
fn surrender_and_last_side_resolution_are_published_atomically() {
    let mut runtime = fixture(PAY_CYCLE - 1);
    let published = tick_with(&mut runtime, last_side_kernels).unwrap();
    assert!(matches!(published.state, RuntimeState::ConflictResolved { .. }));
    let cycle = published.strategic_snapshot.as_ref().unwrap();
    assert_eq!(cycle.surrenders.len(), 1);
    assert!(cycle.conflict_resolution.is_some());
    let parts = runtime.parts();
    assert!(parts.territory.world_control.iter().all(|owner| *owner == 1));
    assert!(parts.territory.primary_occupier.iter().all(|owner| *owner == 1));
    assert!(published.counters.census.committed);
    assert_eq!(published.territory_snapshot.commit_sequence, 2);

    assert!(matches!(runtime.step(rules()), Err(RuntimeError::ConflictResolved { .. })));
}

#[test]
fn explicit_single_active_side_cannot_surrender_to_an_inactive_side() {
    let mut runtime = start(
        |given, _| {
            given.territory.hostility = vec![0, 0, 1, 0];
            given.diplomacy.hostility = vec![0, 0, 1, 0];
            given.diplomacy.active_sides = vec![1];
        },
        PAY_CYCLE - 1,
    )
    .unwrap();
    let resolution = || Some(ConflictResolutionPlan { stop_simulation: true, victor: Some(1) });
    let published = tick_with(&mut runtime, |work, action| match action {
        TickAction::Cycle(input) => {
            assert_eq!(input.capitulation_active_sides, Some(Vec::new()));
            Some(TickAnswer::Cycle(CycleAnswer {
                evaluated: cycle_of(work.step.tick, Vec::new(), resolution()),
                economies: strategic().economies,
            }))
        }
        TickAction::Effects { attackers, pairs, .. } => {
            assert!(attackers.is_empty() && pairs.is_empty());
            Some(TickAnswer::Effects(EffectsAnswer {
                maps: maps(),
                boundary: boundary(),
                surrender: SurrenderAnswers {
                    plan: Ok(SurrenderPlan { transfers: Vec::new(), primary_annexer_id: 1 }),
                    restored: Ok(()),
                    garrison: Ok(0),
                    registered: Ok(()),
                },
                resolution: resolution(),
            }))
        }
        TickAction::CommitCycle => Some(TickAnswer::CommitCycle(CommittedCycle {
            strategic: strategic(),
            published: Arc::new(cycle_of(work.step.tick, Vec::new(), resolution())),
            counters: StrategicCounters { countries: 2, desertions: 0, surrenders: 0, occupations: 0 },
            census: None,
        })),
        _ => None,
    })
    .unwrap();
    assert!(matches!(published.state, RuntimeState::ConflictResolved { .. }));
    assert!(published.strategic_snapshot.as_ref().unwrap().surrenders.is_empty());
    assert!(!runtime.parts().strategic.economies[&2].capitulated);
}

#[test]
fn due_cycle_flushes_one_coherent_territory_snapshot() {
    let mut runtime = fixture(PAY_CYCLE - 1);
    let next = tick_with(&mut runtime, |_, action| match action {
        TickAction::CensusStatus => Some(TickAnswer::Census(CensusAnswer {
            counted: None,
            status: CensusStatus { active_generation: Some(1), dirty_tiles: 1 },
            snapshot: Arc::new(census()),
            schema: "territory".to_owned(),
        })),
        _ => None,
    })
    .unwrap();
    assert!(next.counters.census.flushed_for_strategic_cycle);
    assert_eq!(next.strategic_snapshot.as_ref().unwrap().tick, PAY_CYCLE);
    assert!(next.counters.strategic.is_some());
    assert!(next.counters.strategic_derivation.is_some());
}

/// One airfield of the first country, and one wing of strike aircraft on it.
fn squadron() -> AirPowerState {
    AirPowerState {
        airfields: vec![Airfield {
            id: 1,
            side: 0,
            owner_country_id: 1,
            controller_country_id: 1,
            lat: val(-90.0),
            lng: val(-170.0),
            capacity: 4,
            health: val(100.0),
            disabled: false,
            capture_repair_cycles: 0,
            capital: true,
        }],
        wings: vec![AirWing {
            id: 1,
            side: 0,
            sovereign_country_id: 1,
            airfield_id: 1,
            return_airfield_id: None,
            role: AirRole::Strike,
            quality: val(50.0),
            max_count: 100,
            count: 100,
            lat: val(-90.0),
            lng: val(-170.0),
            state: AirWingState::Grounded,
            target_kind: None,
            target_id: None,
            rearm_ticks: 0,
            cooldown_ticks: 0,
            endurance_ticks: 0,
            next_mission_tick: None,
            force_mission: true,
        }],
        country_coverage: vec![coverage(1, 1.0), coverage(2, 1.0)],
    }
}

fn with_air_and_execution(tick: u64) -> NativeRuntime {
    start(
        |given, _| {
            given.operational_execution = Some(no_execution());
            given.air_power = Some(squadron());
        },
        tick,
    )
    .unwrap()
}

/// Kernels that leave the wings on the ground and pay what is spent from the treasuries.
fn paying(runtime: &NativeRuntime, action: &TickAction) -> Option<TickAnswer> {
    match action {
        TickAction::Air { .. } => Some(TickAnswer::Air(AirAnswer {
            air: runtime.parts().air_power.unwrap().clone(),
            outcome: AirAdvanceOutcome {
                updated: false,
                missions_selected: 0,
                interceptions_completed: 0,
                strikes_completed: 0,
                wings_destroyed: 0,
                airfield_captures: Vec::new(),
                wing_losses: Vec::new(),
                land_damage: Vec::new(),
            },
        })),
        TickAction::Spend(costs) => {
            let mut after = strategic();
            for (country_id, cost) in costs {
                let economy = after.economies.get_mut(country_id).unwrap();
                economy.treasury = val(number(economy.treasury) - number(*cost));
            }
            Some(TickAnswer::Treasury(TreasuryAnswer { strategic: after, published: None }))
        }
        _ => None,
    }
}

fn paid_tick(runtime: &mut NativeRuntime) -> Arc<RuntimeSnapshot> {
    tick_by(runtime, |runtime, _, action| paying(runtime, action)).unwrap()
}

#[test]
fn pay_cycle_reinforcement_snapshot_and_next_tick_resume_exactly() {
    let mut uninterrupted = with_air_and_execution(PAY_CYCLE - 1);
    let pay_snapshot = paid_tick(&mut uninterrupted);
    let old_reinforcement = pay_snapshot.reinforcement_snapshot.clone().unwrap();
    assert_eq!(old_reinforcement.countries[0].air_operations_due, val(1.5));
    assert!(number(old_reinforcement.countries[0].operations_coverage) > 0.0);

    let split = save(&mut uninterrupted).unwrap();
    assert_eq!(
        format!("{:?}", split.reinforcement.as_ref()),
        format!("{:?}", Some(&old_reinforcement))
    );
    let mut restored = restore(&mut uninterrupted);
    let expected = paid_tick(&mut uninterrupted);
    let actual = paid_tick(&mut restored);

    assert_eq!(format!("{:?}", actual.frame_snapshot), format!("{:?}", expected.frame_snapshot));
    assert_eq!(
        format!("{:?}", actual.air_power_snapshot),
        format!("{:?}", expected.air_power_snapshot)
    );
    assert_eq!(
        format!("{:?}", actual.reinforcement_snapshot),
        format!("{:?}", expected.reinforcement_snapshot)
    );
    assert_eq!(actual.personnel_reserves, expected.personnel_reserves);
    assert_eq!(actual.gameplay_rng_state, expected.gameplay_rng_state);
    assert_eq!(
        format!("{:?}", actual.material_logistics_snapshot),
        format!("{:?}", expected.material_logistics_snapshot)
    );
    let expected_state = save(&mut uninterrupted).unwrap();
    let actual_state = save(&mut restored).unwrap();
    assert_eq!(actual_state.strategic_cycle, expected_state.strategic_cycle);
    assert_eq!(actual_state.economies, expected_state.economies);
    assert_eq!(
        format!("{:?}", actual_state.occupations),
        format!("{:?}", expected_state.occupations)
    );
    assert_eq!(
        format!("{:?}", actual_state.material_logistics),
        format!("{:?}", expected_state.material_logistics)
    );
    assert_eq!(old_reinforcement.countries[0].air_operations_due, val(1.5));
}

#[test]
fn a_pay_cycle_loses_no_aircraft() {
    let mut runtime = with_air_and_execution(PAY_CYCLE - 1);
    paid_tick(&mut runtime);
    let parts = runtime.parts();
    let flown: u32 = parts.air_power.unwrap().wings.iter().map(|wing| wing.count).sum();
    let stored: u32 = parts
        .reinforcement
        .unwrap()
        .countries
        .iter()
        .map(|country| country.reserve_fighters + country.reserve_strike)
        .sum();
    assert_eq!((flown, stored), (100, 0));
}

#[test]
fn failed_preplanning_tick_preserves_reinforcement_transaction_and_publication() {
    let mut runtime = start(
        |given, _| {
            given.operational_execution = Some(no_execution());
            given.air_power = Some(squadron());
            given.personnel_reserves = BTreeMap::from([(0, val(1_000.0)), (1, val(0.0))]);
            given.gameplay_rng = KernelHandle { key: 7 };
        },
        0,
    )
    .unwrap();
    let published = runtime.latest_snapshot();
    let kept = |runtime: &NativeRuntime| {
        let parts = runtime.parts();
        format!(
            "{:?} {:?} {:?} {:?} {:?}",
            parts.strategic,
            parts.air_power,
            parts.reinforcement,
            parts.personnel_reserves,
            parts.gameplay_rng
        )
    };
    let before = kept(&runtime);
    let fault = RuntimeError::Front(KernelFault { code: 1 });
    let failed = tick_until(
        &mut runtime,
        |_, _| None,
        |action| match action {
            TickAction::Layout(_) => Some(fault),
            _ => None,
        },
    );
    assert!(matches!(failed, Err(RuntimeError::Front(_))));
    assert_eq!(kept(&runtime), before);
    assert!(Arc::ptr_eq(&runtime.latest_snapshot(), &published));
}

#[test]
fn failed_tick_rolls_back_naval_exile_rng_reserve_and_unit_removal() {
    let mut runtime = exile_fixture(true, false);
    let published = runtime.latest_snapshot();
    let kept = |runtime: &NativeRuntime| {
        let parts = runtime.parts();
        format!(
            "{:?} {:?} {:?} {:?}",
            parts.simulation.units, parts.gameplay_rng, parts.personnel_reserves, parts.casualties
        )
    };
    let before = kept(&runtime);
    let fault = RuntimeError::Front(KernelFault { code: 1 });
    let failed = tick_until(
        &mut runtime,
        |_, _| None,
        |action| match action {
            TickAction::Layout(_) => Some(fault),
            _ => None,
        },
    );
    assert!(matches!(failed, Err(RuntimeError::Front(_))));
    assert_eq!(kept(&runtime), before);
    assert!(Arc::ptr_eq(&runtime.latest_snapshot(), &published));
    assert_eq!(runtime.tick(), 0);
    assert_eq!(runtime.frame(), 0);
}

#[test]
fn a_pay_cycle_raises_no_treasury() {
    let mut runtime = with_air_and_execution(PAY_CYCLE - 1);
    paid_tick(&mut runtime);
    let parts = runtime.parts();
    let left = number(parts.strategic.economies[&1].treasury);
    assert!((0.0..100.0).contains(&left));
    assert_eq!(parts.strategic.economies[&2].treasury, val(100.0));
}

#[test]
fn combat_must_account_for_every_formation() {
    let fault = RuntimeError::InvalidCheckpoint("combat does not account for every formation");
    let fought = |edit: fn(&mut CombatAnswer)| {
        let mut runtime = fixture(0);
        let outcome = tick_by(&mut runtime, |runtime, work, action| match action {
            TickAction::Combat { .. } => match quiet(runtime, work, action) {
                TickAnswer::Combat(mut answer) => {
                    edit(&mut answer);
                    Some(TickAnswer::Combat(answer))
                }
                other => Some(other),
            },
            _ => None,
        });
        outcome.map(|published| published.frame_snapshot.units.len())
    };
    assert_eq!(fought(|_| {}), Ok(2));
    assert_eq!(
        fought(|answer| {
            answer.units.pop();
            answer.frame.units.pop();
            answer.frame.removed_ids.push(2);
        }),
        Ok(1)
    );
    assert_eq!(fought(|answer| answer.units.truncate(1)), Err(fault));
    assert_eq!(fought(|answer| answer.frame.removed_ids.push(2)), Err(fault));
    assert_eq!(fought(|answer| answer.units[1].combat.id = 7), Err(fault));
    assert_eq!(fought(|answer| answer.units[1].combat.id = 1), Err(fault));
    assert_eq!(fought(|answer| answer.frame.removed_ids.push(9)), Err(fault));
}

#[test]
fn kernels_cannot_file_an_economy_under_another_country() {
    let mut runtime = with_air_and_execution(PAY_CYCLE - 1);
    let failed = tick_with(&mut runtime, |_, action| match action {
        TickAction::Spend(_) => {
            let mut after = strategic();
            after.economies.insert(1, economy(2));
            Some(TickAnswer::Treasury(TreasuryAnswer { strategic: after, published: None }))
        }
        _ => None,
    });
    assert!(failed.is_err());
}

fn memory(encircled_ticks: u64) -> BattlefieldUnitState {
    let mut memory = BattlefieldUnitState::default();
    memory.encircled_ticks = encircled_ticks;
    memory
}

fn field() -> BattlefieldRuntimeState {
    let standing = BattlefieldCountryState {
        influence_buff: BattlefieldBuff::Buff,
        ai_speed_multiplier: val(1.0),
        war_phase: BattlefieldWarPhase::Stable,
        capital_lost: false,
    };
    BattlefieldRuntimeState {
        units: BTreeMap::from([(1, memory(77)), (2, memory(0))]),
        countries: BTreeMap::from([(1, standing), (2, standing)]),
        mountains_enabled: false,
        terrain_intensity: vec![val(0.0); 8],
    }
}

fn resolved(unit_id: u64) -> BattlefieldUnitResult {
    BattlefieldUnitResult {
        unit_id,
        base_speed: val(0.5),
        movement: ResolvedMovementModifiers::default(),
        combat: ResolvedCombatOrder::default(),
        encircled: true,
        encircled_ticks: 5,
        cell: BattlefieldCell { at_sea: true, mountain_intensity: val(0.0) },
        attrition: BattlefieldAttrition {
            damage: val(2.0),
            supply_collapse_sampled: true,
            supply_collapsed: true,
        },
        influence: BattlefieldInfluence {
            radius: val(3.0),
            delta: val(0.5),
            concentration_bonus: val(1.0),
            eligible: true,
        },
    }
}

fn local(unit_id: u64) -> BattlefieldLocalUnitResult {
    BattlefieldLocalUnitResult {
        unit_id,
        armor_supported: true,
        armor_support_last_tick: Some(1),
        last_ally_count: 4,
    }
}

#[test]
fn capital_loss_uses_hostile_dominance_instead_of_owner() {
    let mut ground = territory();
    ground.dominant_side[0] = 1;
    let mut countries = scenario().countries;
    countries[0].capital_cell = Some(0);
    let units = checkpoint(0).simulation.units;
    let (inputs, weights) = read(|reader| {
        battlefield_unit_inputs(
            &units,
            &vec![val(1.0), val(2.0)],
            &vec![false, true],
            &field(),
            &countries,
            &ground,
            &vec![0, 1, 1, 0],
            None,
            reader,
        )
    })
    .unwrap();
    assert_eq!(ground.world_control[0], 1);
    assert!(inputs[0].country.capital_lost);
    assert!(!inputs[1].country.capital_lost);
    assert_eq!(weights, BTreeMap::from([(1, val(50.0)), (2, val(100.0))]));
    let defending = SideDynamics {
        side_index: 0,
        posture: WarPosture::Defensive,
        posture_override: None,
        phase: WarPhase::Collapsing,
        initial_personnel: val(1_000.0),
        current_personnel: val(200.0),
    };
    let (driven, _) = read(|reader| {
        battlefield_unit_inputs(
            &units,
            &vec![val(1.0), val(2.0)],
            &vec![false, true],
            &field(),
            &countries,
            &ground,
            &vec![0, 1, 1, 0],
            Some(&BTreeMap::from([(0, defending)])),
            reader,
        )
    })
    .unwrap();
    assert_eq!(driven[0].country.war_phase, BattlefieldWarPhase::Collapsing);
    assert_eq!(number(driven[0].country.ai_speed_multiplier), 0.96 * 0.6);
    assert_eq!(number(driven[1].country.ai_speed_multiplier), 1.0);
}

#[test]
fn deploying_formations_preserve_encirclement_and_momentum() {
    let mut known = policies();
    known.get_mut(&1).unwrap().ai.deploy_until_tick = 1;
    let mut units = checkpoint(0).simulation.units;
    units[0].combat.victory_boost_ticks = 5;
    units[1].combat.victory_boost_ticks = 5;
    let staged = read(|reader| {
        apply_battlefield_results(
            &units,
            &known,
            &field().units,
            &vec![local(1), local(2)],
            &vec![resolved(1), resolved(2)],
            BTreeMap::from([(1, val(1.0)), (2, val(1.0))]),
            1,
            reader,
        )
    })
    .unwrap();
    assert_eq!(staged.next_unit_state[&1].encircled_ticks, 77);
    assert_eq!(staged.next_unit_state[&1].supply_collapsed_tick, None);
    assert_eq!(staged.next_unit_state[&2].encircled_ticks, 5);
    assert_eq!(staged.next_unit_state[&2].supply_collapsed_tick, Some(1));
    assert_eq!(number(staged.policies[&2].ai.base_speed), 0.5);
    assert_eq!(staged.influence_eligible, BTreeSet::from([1, 2]));

    let commands = attrition_commands(&units, &staged.policies, &staged.resolved_by_id, 1);
    assert_eq!(commands, vec![DamageCommand { unit_id: 2, damage: val(2.0) }]);
    let prepared = prepare_units(
        &units,
        &staged.policies,
        &staged.resolved_by_id,
        &staged.local_by_id,
        &staged.ally_weight_by_id,
        1,
    )
    .unwrap();
    assert_eq!(prepared[0].combat.victory_boost_ticks, 5);
    assert_eq!(prepared[1].combat.victory_boost_ticks, 4);
    assert!(prepared[0].combat.at_sea && prepared[0].combat.armor_supported);
    assert_eq!(inactive_units(&units, &staged.policies, 1), vec![1]);

    assert!(matches!(
        read(|reader| {
            apply_battlefield_results(
                &units,
                &known,
                &field().units,
                &vec![local(1)],
                &vec![resolved(1), resolved(2)],
                BTreeMap::new(),
                1,
                reader,
            )
        }),
        Err(RuntimeError::InvalidCheckpoint("battlefield tactics omitted a live unit"))
    ));
}

#[test]
fn directions_are_bent_for_every_order() {
    let orders = vec![ResolvedUnitOrder::hold(1), ResolvedUnitOrder::hold(2)];
    let assignments = vec![FrontAssignmentRecord {
        unit_id: 2,
        objective_id: None,
        reason: AssignmentReason::Retreat,
    }];
    let table = BTreeMap::from([(1, resolved(1)), (2, resolved(2))]);
    let inputs = direction_inputs(
        &orders,
        &assignments,
        &policies(),
        &table,
        &BTreeSet::from([1]),
        &BTreeSet::from([2]),
    )
    .unwrap();
    assert!(inputs[0].is_plan_unit && !inputs[0].active_retreat);
    assert!(inputs[1].active_retreat && inputs[1].occupation_garrison_holding);
    let bend = |unit_id: u64| BattlefieldDirection {
        unit_id,
        dir_lat: val(0.25),
        dir_lng: val(-0.5),
    };
    let bent = apply_directions(&orders, &vec![bend(1), bend(2)]).unwrap();
    assert_eq!(number(bent[1].dir_lng), -0.5);
    assert!(matches!(
        apply_directions(&orders, &vec![bend(1)]),
        Err(RuntimeError::InvalidCheckpoint("battlefield direction omitted an order"))
    ));
}

#[test]
fn surrendered_cells_change_hands() {
    let ground = territory();
    let mut maps = SurrenderMaps {
        world_control: ground.world_control.clone(),
        primary_occupier: ground.primary_occupier.clone(),
        land: vec![1; 8],
        dominant_side: ground.dominant_side.clone(),
        side_influence: vec![vec![val(0.5); 8], vec![val(0.5); 8]],
        occupation: vec![val(0.0); 8],
        controller_cells: Vec::new(),
    };
    let transfer = SurrenderTransfer { cell: 2, original_owner: 2, new_owner: 1 };
    assert!(apply_transfers(&mut maps, &ground, 2, &vec![transfer]).is_ok());
    assert_eq!(maps.world_control[2], 1);
    assert_eq!(maps.primary_occupier[2], 1);
    assert_eq!(maps.land[2], 2);
    assert_eq!(maps.dominant_side[2], 0);
    assert_eq!(number(maps.side_influence[0][2]), 1.0);
    assert_eq!(number(maps.side_influence[1][2]), 0.0);
    assert_eq!(number(maps.occupation[2]), 1.0);
    assert_eq!(maps.controller_cells, vec![2]);
    assert!(matches!(
        apply_transfers(&mut maps, &ground, 2, &vec![transfer]),
        Err(RuntimeError::InvalidCheckpoint("surrender transfer does not match live territory"))
    ));
    assert_eq!(
        hostile_attackers(&ground, &vec![0, 1, 1, 0], &vec![0, 1], &strategic().economies, 1),
        vec![1]
    );
    assert!(hostile_attackers(&ground, &vec![0, 1, 0, 0], &vec![0, 1], &strategic().economies, 1)
        .is_empty());
    let occupation =
        occupation_of(&scenario().countries, &strategic().economies, 2, 1, Ok(3)).unwrap();
    assert_eq!((occupation.victim_id, occupation.annexer_id), (2, 1));
    assert_eq!(occupation.required_garrison, 3);
    assert_eq!(number(occupation.expected_army_units), 3.0);
}

#[test]
fn a_census_is_counted_once_or_until_it_is_clean() {
    let snapshot = census();
    let busy = CensusStatus { active_generation: Some(4), dirty_tiles: 1 };
    let clean = CensusStatus { active_generation: None, dirty_tiles: 0 };
    let mut progress = CensusProgress::start();
    assert_eq!(
        advance_census(progress, busy, 10, 20, false, &snapshot),
        CensusAction::Advance(10)
    );
    assert_eq!(
        advance_census(progress, busy, 10, 20, true, &snapshot),
        CensusAction::Advance(20)
    );
    progress.record(CensusStepResult { processed_items: 7, committed: true });
    assert!(matches!(
        advance_census(progress, busy, 10, 20, false, &snapshot),
        CensusAction::Finished(counters) if counters.processed_items == 7 && counters.committed
    ));
    assert!(matches!(
        advance_census(progress, clean, 10, 20, true, &snapshot),
        CensusAction::Finished(counters) if counters.flushed_for_strategic_cycle
    ));
}

#[test]
fn several_removals_are_merged_once() {
    assert_eq!(merge_removed(&vec![vec![5, 2], vec![2], Vec::new(), vec![9]]), vec![2, 5, 9]);
}

#[test]
fn losses_of_a_tick_add_up() {
    let owners = BTreeMap::from([(1, 10), (2, 20)]);
    let wings = BTreeMap::from([(7, 10)]);
    let strikes = AirAdvanceOutcome {
        updated: true,
        missions_selected: 1,
        interceptions_completed: 0,
        strikes_completed: 1,
        wings_destroyed: 0,
        airfield_captures: Vec::new(),
        wing_losses: vec![WingLoss { wing_id: 7, attacker: 20, aircraft: 3 }],
        land_damage: vec![LandDamage { unit_id: 2, attacker: 10, damage: val(4.0) }],
    };
    let damage = DamageOutcome {
        results: vec![DamageResult { unit_id: 2, personnel_loss: 12, equipment_loss: 0 }],
        removed_ids: Vec::new(),
    };
    let impacts = vec![DamageOutcome {
        results: vec![DamageResult { unit_id: 1, personnel_loss: 5, equipment_loss: 0 }],
        removed_ids: Vec::new(),
    }];
    let (toll, ledger) = read(|reader| {
        count_losses(
            &BTreeMap::new(),
            &BTreeMap::new(),
            &owners,
            &wings,
            &Vec::new(),
            Some(&strikes),
            Some(&damage),
            None,
            &impacts,
            reader,
        )
    });
    assert_eq!(toll, BTreeMap::from([(10, val(8.0)), (20, val(12.0))]));
    assert_eq!(ledger[&20], BTreeMap::from([(10, val(12.0))]));
    assert_eq!(ledger[&10], BTreeMap::from([(20, val(3.0))]));
}

#[test]
fn a_failed_operational_plan_changes_nothing() {
    let mut forces = operations();
    let before = format!("{forces:?}");
    let inputs = vec![OperationalUnitInput {
        unit_id: 1,
        side_index: 0,
        country_id: 1,
        position: point(-90.0, 0.0),
        power: val(1.0),
        readiness: val(1.0),
        supply_collapsed_tick: None,
        encircled_ticks: 0,
    }];
    let mut plan = |side_count: usize| {
        let mut sheet = Worksheet::new();
        loop {
            match plan_operations(
                &mut forces,
                1,
                &Vec::new(),
                &inputs,
                &BTreeSet::new(),
                &territory().country_to_side,
                &scenario().countries,
                side_count,
                &sheet,
            ) {
                Err(Stop::Missing(missing)) => fill(&mut sheet, missing),
                outcome => return outcome.is_ok(),
            }
        }
    };
    assert!(!plan(3));
    assert!(plan(2));
    assert_ne!(format!("{forces:?}"), before);
}

fn snapshot_of(units: Vec<SimulationUnit>) -> Vec<UnitSnapshot> {
    let simulation = Simulation::new(simulation_config(), units).unwrap();
    settle(|sheet| simulation.initial_snapshot(0, 0, sheet)).units
}

fn two_armies() -> Vec<SimulationUnit> {
    vec![unit(1, 0, 1, 0.0), unit(2, 1, 2, 90.0)]
}

#[test]
fn deploying_formations_are_absent_from_planning_and_influence() {
    let units = two_armies();
    let mut orders = policies();
    for policy in orders.values_mut() {
        policy.ai.deploy_until_tick = 1;
    }
    let strengths = vec![val(1.0), val(1.0)];
    let planned = |tick: u64| {
        ai_units(
            &units,
            &strengths,
            &orders,
            &BTreeMap::new(),
            &BTreeSet::new(),
            tick,
            None,
            None,
            None,
        )
        .unwrap()
        .len()
    };
    let shown = snapshot_of(units.clone());
    let sources = |tick: u64| {
        read(|reader| influence_sources(&shown, &orders, tick, None, reader)).unwrap().len()
    };
    assert_eq!(planned(1), 0);
    assert_eq!(sources(1), 0);
    assert_eq!(inactive_units(&units, &orders, 1), vec![1, 2]);
    assert_eq!(planned(2), 2);
    assert_eq!(sources(2), 2);
    assert!(inactive_units(&units, &orders, 2).is_empty());
}

#[test]
fn garrisons_hold_without_being_planned() {
    let units = two_armies();
    let mut orders = policies();
    orders.get_mut(&1).unwrap().ai.garrison_excluded = true;
    let planned = ai_units(
        &units,
        &vec![val(1.0), val(1.0)],
        &orders,
        &BTreeMap::new(),
        &BTreeSet::new(),
        1,
        None,
        None,
        None,
    )
    .unwrap();
    assert_eq!(planned.len(), 1);
    let held = garrison_hold_orders(&units, &orders, 1).unwrap();
    assert_eq!(held.len(), 1);
    assert!(!held[0].movement_enabled);
    let shown = snapshot_of(units);
    let sources = read(|reader| influence_sources(&shown, &orders, 1, None, reader)).unwrap();
    assert_eq!(sources.len(), 2);
}

#[test]
fn at_sea_units_stamp_their_pre_resolved_reduced_influence() {
    let mut units = two_armies();
    units[0].combat.at_sea = true;
    let mut orders = policies();
    let influence = orders.get_mut(&1).unwrap().influence.as_mut().unwrap();
    let reduced = val(number(influence.delta) * 0.4);
    influence.delta = reduced;
    let shown = snapshot_of(units);
    let sources = read(|reader| influence_sources(&shown, &orders, 1, None, reader)).unwrap();
    assert_eq!(sources[0].delta, reduced);
    let applied = InfluenceApplyResult {
        processed_source_cells: 0,
        touched_influence_cells: Vec::new(),
        changed_controller_cells: Vec::new(),
        changed_credit_cells: Vec::new(),
    };
    assert_eq!(influence_counters(sources.len(), &applied).sources, 2);
}

#[test]
fn aircraft_losses_charge_aircrew_to_totals_and_attribution() {
    let owners = BTreeMap::from([(1, 1), (2, 2)]);
    let wings = BTreeMap::from([(1, 1), (2, 2)]);
    let flown = AirAdvanceOutcome {
        updated: true,
        missions_selected: 1,
        interceptions_completed: 1,
        strikes_completed: 0,
        wings_destroyed: 0,
        airfield_captures: Vec::new(),
        wing_losses: vec![
            WingLoss { wing_id: 1, attacker: 2, aircraft: 1 },
            WingLoss { wing_id: 2, attacker: 1, aircraft: 2 },
        ],
        land_damage: Vec::new(),
    };
    let counters = air_counters(Some(&flown), None);
    assert_eq!(counters.interceptions_completed, 1);
    assert_eq!(counters.aircraft_loss, 3);
    assert_eq!(counters.personnel_loss, 3);
    assert_eq!(counters.damaged_land_units, 0);
    let (toll, ledger) = read(|reader| {
        count_losses(
            &BTreeMap::new(),
            &BTreeMap::new(),
            &owners,
            &wings,
            &Vec::new(),
            Some(&flown),
            None,
            None,
            &Vec::new(),
            reader,
        )
    });
    assert_eq!(toll, BTreeMap::from([(1, val(1.0)), (2, val(2.0))]));
    assert_eq!(ledger[&1], BTreeMap::from([(2, val(1.0))]));
    assert_eq!(ledger[&2], BTreeMap::from([(1, val(2.0))]));
    let by_side = read(|reader| {
        casualties_by_side(&BTreeMap::new(), &toll, &territory().country_to_side, reader)
    });
    assert_eq!(by_side, BTreeMap::from([(0, val(1.0)), (1, val(2.0))]));
}

#[test]
fn claimed_formations_are_left_out_of_the_fronts() {
    let claimed = BTreeSet::from([1]);
    let laid =
        front_layout_units(&two_armies(), &policies(), &BTreeMap::new(), &claimed, 1).unwrap();
    assert!(laid[0].garrison_excluded && !laid[1].garrison_excluded);
}

#[test]
fn a_new_command_band_changes_the_staged_formations() {
    let resolved = ResolvedCommandPolicy {
        band: CommandBand::Breakdown,
        discipline: val(0.1),
        refuses_offense: true,
        return_home: true,
        self_defense_only: false,
        home_target: Some(CommandHomeTarget { cell: 0, lat: val(-45.0), lng: val(-135.0) }),
    };
    let kept = policies()[&2].command;
    let same = ResolvedCommandPolicy {
        band: kept.band,
        discipline: kept.discipline,
        refuses_offense: kept.refuses_offense,
        return_home: kept.return_home,
        self_defense_only: kept.self_defense_only,
        home_target: kept.home_target,
    };
    let staged =
        stage_command_policies(1, &policies(), BTreeMap::from([(1, resolved), (2, same)]));
    assert_eq!(staged.cycle, 1);
    assert_eq!(staged.changed_unit_ids, vec![1]);
    assert_eq!(staged.policies[&1], resolved);

    let mut runtime = fixture(PAY_CYCLE - 1);
    tick_with(&mut runtime, |_, action| placed(action)).unwrap();
    let parts = runtime.parts();
    assert_eq!(parts.unit_policies[&1].command.band, CommandBand::Breakdown);
    assert_eq!(parts.unit_policies[&1].command.transition_cycle, 1);
    assert!(parts.unit_policies[&1].influence.as_ref().unwrap().refuses_offense);
    assert!(!parts.prior_objective_by_unit.contains_key(&1));
    assert_eq!(parts.unit_policies[&2].command, kept);
}

fn resume(saved: NativeRuntimeCheckpointState) -> RuntimeCheckpoint {
    let mut given = checkpoint(saved.tick);
    given.frame = saved.frame;
    given.war_grace_end = saved.war_grace_end;
    given.simulation = Simulation::new(saved.simulation_config, saved.units).unwrap();
    given.strategic = StrategicState {
        cycle: saved.strategic_cycle,
        economies: saved.economies.into_iter().map(|one| (one.country_id, one)).collect(),
        occupations: saved.occupations,
    };
    given.diplomacy = saved.diplomacy;
    given.unit_policies = saved.unit_policies.into_values().collect();
    given.objectives = saved.objectives;
    given.prior_objective_by_unit = saved.prior_objective_by_unit;
    given.front_prior_by_unit = saved.front_prior_by_unit;
    given.last_front_refresh_tick = saved.last_front_refresh_tick;
    given.casualties = (*saved.casualties).clone();
    given.casualties_by_victim = (*saved.casualties_by_victim).clone();
    given.gameplay_rng = saved.gameplay_rng;
    given.personnel_reserves = (*saved.personnel_reserves).clone();
    given.operational_execution = saved.operational_execution.map(|kept| (*kept).clone());
    given.air_power = saved.air_power.map(|kept| (*kept).clone());
    given.reinforcement = saved.reinforcement.map(|kept| (*kept).clone());
    given.material_logistics = saved.material_logistics.map(|kept| (*kept).clone());
    given.battlefield = saved.battlefield;
    given.side_dynamics = saved.side_dynamics;
    given.operations = saved.operations;
    given.naval_planning = saved.naval_planning;
    given.strategic_missiles = saved.strategic_missiles;
    given
}

fn restore(original: &mut NativeRuntime) -> NativeRuntime {
    let mut sheet = Worksheet::new();
    loop {
        let saved = save(original).unwrap();
        let told = KernelVerdicts {
            strengths: vec![val(1.0); saved.units.len()],
            territory_snapshot: original.latest_snapshot().territory_snapshot.clone(),
            urban_mask: original.parts().battlefield_urban_mask.cloned().unwrap_or_default(),
            ..verdicts()
        };
        match NativeRuntime::new(config(), resume(saved), told, &sheet) {
            Ok(runtime) => return runtime,
            Err(Stop::Failed(error)) => panic!("{error:?}"),
            Err(Stop::Missing(missing)) => fill(&mut sheet, missing),
        }
    }
}

#[test]
fn checkpoint_restores_exact_planner_history_and_refresh_phase() {
    let mut original = fixture(0);
    assert!(tick_with(&mut original, |_, action| placed(action)).unwrap().counters.front_refreshed);
    let captured = save(&mut original).unwrap();
    assert_eq!(captured.last_front_refresh_tick, Some(1));
    assert!(!captured.objectives.is_empty());
    assert!(!captured.front_prior_by_unit.is_empty());

    let mut restored = restore(&mut original);
    {
        let (left, right) = (restored.parts(), original.parts());
        assert_eq!(left.tick, 1);
        assert_eq!(left.objectives, right.objectives);
        assert_eq!(
            format!("{:?}", left.front_prior_by_unit),
            format!("{:?}", right.front_prior_by_unit)
        );
        assert_eq!(left.last_front_refresh_tick, Some(1));
        assert_eq!(left.prior_objective_by_unit, right.prior_objective_by_unit);
        assert_eq!(left.casualties, right.casualties);
    }
    let uninterrupted = tick_with(&mut original, |_, action| placed(action)).unwrap();
    let continued = tick_with(&mut restored, |_, action| placed(action)).unwrap();
    assert!(!uninterrupted.counters.front_refreshed);
    assert_eq!(continued.tick, uninterrupted.tick);
    assert_eq!(
        format!("{:?}", continued.frame_snapshot),
        format!("{:?}", uninterrupted.frame_snapshot)
    );
    assert_eq!(
        format!("{:?}", continued.territory_snapshot),
        format!("{:?}", uninterrupted.territory_snapshot)
    );
    assert_eq!(
        format!("{:?}", continued.strategic_snapshot),
        format!("{:?}", uninterrupted.strategic_snapshot)
    );
    assert_eq!(continued.casualty_totals, uninterrupted.casualty_totals);
    assert_eq!(continued.casualties_by_victim, uninterrupted.casualties_by_victim);
}

/// A country that controls nothing, with armies at sea.
fn exile_fixture(two_armies: bool, armor: bool) -> NativeRuntime {
    let lost = TerritorySnapshot {
        countries: vec![
            CountryAggregate { controlled: 0, ..aggregate(1, 0) },
            CountryAggregate { controlled: 8, ..aggregate(2, 1) },
        ],
        ..census()
    };
    let mut afloat = unit(1, 0, 1, 0.0);
    afloat.combat.at_sea = true;
    if armor {
        afloat.combat.kind = UnitKind::Armor;
        afloat.combat.personnel = 0;
        afloat.combat.personnel_capacity = 0;
        afloat.combat.equipment = 17;
        afloat.combat.max_equipment = 20;
    }
    let mut units = vec![afloat, unit(2, 1, 2, 90.0)];
    if two_armies {
        let mut second = afloat;
        second.combat.id = 3;
        second.combat.lng = val(-90.0);
        units.push(second);
    }
    let lost = Arc::new(lost);
    start(
        |given, told| {
            given.gameplay_rng = KernelHandle { key: if two_armies { 0 } else { 0x6d2b_79f5 } };
            given.simulation = Simulation::new(simulation_config(), units.clone()).unwrap();
            if two_armies {
                given.unit_policies.push(policy(3, 1));
            }
            told.strengths = vec![val(1.0); units.len()];
            told.territory_snapshot = lost.clone();
        },
        0,
    )
    .unwrap()
}

#[test]
fn naval_exile_uses_reverse_draw_order_recovers_reserve_and_resumes_exactly() {
    let mut uninterrupted = exile_fixture(true, false);
    let snapshot = tick_with(&mut uninterrupted, |_, _| None).unwrap();

    assert_eq!(snapshot.counters.attrition.exiled_units, 1);
    assert_eq!(snapshot.counters.attrition.recovered_personnel, 1_000);
    assert_eq!(snapshot.frame_snapshot.removed_ids, vec![1]);
    assert_eq!(
        snapshot.frame_snapshot.units.iter().map(|unit| unit.id).collect::<Vec<_>>(),
        vec![2, 3]
    );
    assert_eq!(snapshot.personnel_reserves.get(&0), Some(&val(1_000.0)));
    assert!(snapshot.casualty_totals.is_empty());
    assert!(snapshot.casualties_by_victim.is_empty());

    let split = save(&mut uninterrupted).unwrap();
    assert_eq!(split.gameplay_rng.key, u64::from(0x6d2b_79f5_u32.wrapping_mul(2)));
    let mut restored = restore(&mut uninterrupted);
    let expected = tick_with(&mut uninterrupted, |_, _| None).unwrap();
    let actual = tick_with(&mut restored, |_, _| None).unwrap();
    assert_eq!(
        format!("{:?}", actual.frame_snapshot),
        format!("{:?}", expected.frame_snapshot)
    );
    assert_eq!(actual.personnel_reserves, expected.personnel_reserves);
    assert_eq!(
        save(&mut restored).unwrap().gameplay_rng,
        save(&mut uninterrupted).unwrap().gameplay_rng
    );
}

#[test]
fn armor_naval_exile_returns_live_crew_without_casualties() {
    let mut runtime = exile_fixture(false, true);
    let snapshot = tick_with(&mut runtime, |_, _| None).unwrap();

    assert_eq!(snapshot.counters.attrition.exiled_units, 1);
    assert_eq!(snapshot.counters.attrition.recovered_personnel, 34);
    assert_eq!(snapshot.personnel_reserves.get(&0), Some(&val(34.0)));
    assert_eq!(snapshot.frame_snapshot.removed_ids, vec![1]);
    assert!(snapshot.casualty_totals.is_empty());
}

#[test]
fn a_failure_before_the_world_changes_leaves_no_trace() {
    let mut runtime = start(
        |given, _| given.personnel_reserves = BTreeMap::from([(0, val(7.0)), (1, val(0.0))]),
        0,
    )
    .unwrap();
    let published = runtime.latest_snapshot();
    let fault = RuntimeError::Front(KernelFault { code: 3 });
    let failed = tick_until(
        &mut runtime,
        |_, _| None,
        |action| match action {
            TickAction::Layout(_) => Some(fault),
            _ => None,
        },
    );
    assert_eq!(failed.err(), Some(fault));
    assert_eq!(runtime.state(), RuntimeState::Running);
    assert!(Arc::ptr_eq(&runtime.latest_snapshot(), &published));
    let parts = runtime.parts();
    assert_eq!((parts.tick, parts.frame), (0, 0));
    assert_eq!(parts.simulation.units.len(), 2);
    assert_eq!(parts.gameplay_rng, KernelHandle { key: 0 });
    assert_eq!(parts.personnel_reserves, &BTreeMap::from([(0, val(7.0)), (1, val(0.0))]));
    assert!(parts.casualties.is_empty());
}

#[test]
fn a_surrender_is_staged_as_a_whole() {
    let ground = territory();
    let maps = || SurrenderMaps {
        world_control: ground.world_control.clone(),
        primary_occupier: ground.primary_occupier.clone(),
        land: ground.land.clone(),
        dominant_side: ground.dominant_side.clone(),
        side_influence: vec![vec![val(0.5); 8], vec![val(0.5); 8]],
        occupation: vec![val(0.0); 8],
        controller_cells: Vec::new(),
    };
    let boundary = TerritoryBoundary {
        committed: Some(TerritoryCommittedState {
            generation: 4,
            commit_sequence: 6,
            mutation_sequence: 8,
            processed_tiles: 2,
            processed_items: 8,
        }),
        world_revision: 9,
        tile_size: 2,
        city_count: 3,
    };
    let answers = |restored: Result<(), KernelFault>, registered: Result<(), KernelFault>| {
        SurrenderAnswers {
            plan: Ok(SurrenderPlan {
                transfers: vec![SurrenderTransfer { cell: 2, original_owner: 2, new_owner: 1 }],
                primary_annexer_id: 1,
            }),
            restored,
            garrison: Ok(3),
            registered,
        }
    };
    let stage = |answers: &SurrenderAnswers| {
        stage_surrender(
            maps(),
            &ground,
            boundary,
            &scenario().countries,
            &strategic().economies,
            2,
            answers,
        )
    };
    let staged = stage(&answers(Ok(()), Ok(()))).unwrap();
    assert_eq!(staged.maps.world_control, vec![1, 1, 1, 2, 1, 1, 2, 2]);
    assert_eq!(staged.committed.generation, 5);
    assert_eq!(staged.committed.commit_sequence, 7);
    assert_eq!(staged.committed.processed_tiles, 2);
    assert_eq!(staged.committed.processed_items, 11);
    assert_eq!(staged.world_revision, 10);
    assert_eq!((staged.occupation.victim_id, staged.occupation.annexer_id), (2, 1));
    let fault = KernelFault { code: 5 };
    assert_eq!(
        stage(&answers(Err(fault), Err(fault))).unwrap_err(),
        RuntimeError::Territory(fault)
    );
    assert_eq!(
        stage(&answers(Ok(()), Err(fault))).unwrap_err(),
        RuntimeError::Strategic(fault)
    );
}

fn cycle_snapshot(surrenders: Vec<SurrenderCommand>) -> StrategicSnapshot {
    StrategicSnapshot {
        cycle: 1,
        tick: 600,
        countries: Vec::new(),
        desertions: Vec::new(),
        surrenders,
        conflict_resolution: None,
    }
}

fn staged_effects(
    evaluated: &StrategicSnapshot,
    consequences: Result<UnitConsequences, SimulationError>,
    resolution: Option<ConflictResolutionPlan>,
) -> Result<StagedStrategicEffects, RuntimeError> {
    let ground = territory();
    let maps = SurrenderMaps {
        world_control: ground.world_control.clone(),
        primary_occupier: ground.primary_occupier.clone(),
        land: ground.land.clone(),
        dominant_side: ground.dominant_side.clone(),
        side_influence: vec![vec![val(0.5); 8], vec![val(0.5); 8]],
        occupation: vec![val(0.0); 8],
        controller_cells: Vec::new(),
    };
    let boundary = TerritoryBoundary {
        committed: Some(TerritoryCommittedState {
            generation: 1,
            commit_sequence: 1,
            mutation_sequence: 1,
            processed_tiles: 2,
            processed_items: 8,
        }),
        world_revision: 1,
        tile_size: 2,
        city_count: 0,
    };
    let answers = EffectsAnswers {
        consequences,
        surrender: SurrenderAnswers {
            plan: Ok(SurrenderPlan {
                transfers: vec![SurrenderTransfer { cell: 3, original_owner: 2, new_owner: 1 }],
                primary_annexer_id: 1,
            }),
            restored: Ok(()),
            garrison: Ok(3),
            registered: Ok(()),
        },
        resolution,
    };
    stage_strategic_effects(
        evaluated,
        maps,
        &ground,
        boundary,
        &scenario().countries,
        &strategic().economies,
        answers,
    )
}

fn consequences() -> UnitConsequences {
    UnitConsequences { units: vec![unit(1, 0, 1, 0.0)], removed_ids: vec![2] }
}

#[test]
fn a_surrender_and_the_end_of_the_war_take_effect_together() {
    let end = ConflictResolutionPlan { stop_simulation: true, victor: Some(0) };
    let evaluated = cycle_snapshot(vec![SurrenderCommand { country_id: 2, side: 1 }]);
    let effects = staged_effects(&evaluated, Ok(consequences()), Some(end)).unwrap();
    assert_eq!(effects.units.unwrap().len(), 1);
    assert_eq!(effects.removed_ids, vec![2]);
    assert_eq!(effects.surrender.unwrap().maps.world_control, vec![1, 1, 2, 1, 1, 1, 2, 2]);
    assert!(effects.fronts_invalidated);
    assert_eq!(
        effects.state,
        RuntimeState::ConflictResolved { cycle: 1, tick: 600, resolution: end }
    );
    let going_on = staged_effects(&evaluated, Ok(consequences()), None).unwrap();
    assert_eq!(going_on.state, RuntimeState::Running);
}

#[test]
fn a_cycle_that_cannot_take_effect_says_why() {
    let fault = SimulationError::NonFiniteInput;
    let two = cycle_snapshot(vec![
        SurrenderCommand { country_id: 1, side: 0 },
        SurrenderCommand { country_id: 2, side: 1 },
    ]);
    assert_eq!(
        staged_effects(&two, Err(fault), None).unwrap_err(),
        RuntimeError::InvalidCheckpoint("strategic cycle produced more than one capitulation")
    );
    let stray = cycle_snapshot(vec![SurrenderCommand { country_id: 2, side: 0 }]);
    assert_eq!(
        staged_effects(&stray, Err(fault), None).unwrap_err(),
        RuntimeError::Simulation(fault)
    );
    assert_eq!(
        staged_effects(&stray, Ok(consequences()), None).unwrap_err(),
        RuntimeError::InvalidCheckpoint(
            "capitulating country does not belong to its strategic side"
        )
    );
    let quiet = staged_effects(&cycle_snapshot(Vec::new()), Err(fault), None).unwrap();
    assert!(quiet.units.is_none() && quiet.surrender.is_none() && !quiet.fronts_invalidated);
}

#[test]
fn reverse_hostility_leaves_no_one_to_fight() {
    let mut evaluated = cycle_snapshot(Vec::new());
    evaluated.countries = vec![
        StrategicCountry { country_id: 1, side: 0, economy: economy(1) },
        StrategicCountry { country_id: 2, side: 1, economy: economy(2) },
    ];
    let hostility = vec![0, 1, 0, 0];
    assert_eq!(
        conflict_inputs(&evaluated, &vec![0, 1], &hostility, 2),
        (vec![0, 1], vec![(0, 1)])
    );
    assert_eq!(conflict_inputs(&evaluated, &vec![1], &hostility, 2), (vec![1], Vec::new()));
    evaluated.countries[1].economy.capitulated = true;
    assert_eq!(conflict_inputs(&evaluated, &vec![0, 1], &hostility, 2), (vec![0], Vec::new()));
}

#[test]
fn a_frame_reports_every_removal_once() {
    let simulation = Simulation::new(simulation_config(), two_armies()).unwrap();
    let mut frame = settle(|sheet| simulation.initial_snapshot(1, 1, sheet));
    frame.removed_ids = vec![9];
    let counters = TickCounters { input_units: 2, moved_units: 1, ..TickCounters::default() };
    let (same, kept) = record_removals(frame.clone(), counters, 5, Vec::new());
    assert_eq!((same.removed_ids, kept), (vec![9], counters));
    let (shown, counted) =
        record_removals(frame.clone(), counters, 5, vec![vec![7, 9], Vec::new(), vec![4]]);
    assert_eq!(shown.removed_ids, vec![4, 7, 9]);
    assert_eq!(shown.units.len(), 2);
    assert_eq!(counted.input_units, 5);
    assert_eq!(counted.removed_units, 3);
    assert_eq!(counted.moved_units, 1);
    let (left, counted) = show_consequences(frame, counters, Vec::new(), vec![2, 1]);
    assert_eq!(left.removed_ids, vec![1, 2, 9]);
    assert!(left.units.is_empty());
    assert_eq!((counted.input_units, counted.removed_units), (2, 3));
}

#[test]
fn everything_in_a_tick_is_counted() {
    let applied = InfluenceApplyResult {
        processed_source_cells: 11,
        touched_influence_cells: vec![1, 2],
        changed_controller_cells: vec![1],
        changed_credit_cells: Vec::new(),
    };
    let impacts = vec![DamageOutcome {
        results: vec![DamageResult { unit_id: 1, personnel_loss: 5, equipment_loss: 2 }],
        removed_ids: vec![1],
    }];
    let report = TickReport {
        ai: AiPlanningCounters { input_units: 2, ..AiPlanningCounters::default() },
        simulation: TickCounters { moved_units: 1, ..TickCounters::default() },
        air: None,
        air_damage: None,
        missiles: Some(MissileReport { launches: 3, impacts: 1 }),
        impacts: &impacts,
        reinforcement: RuntimeReinforcementCounters {
            armor_purchased: 6,
            ..RuntimeReinforcementCounters::default()
        },
        recruited_units: 1,
        recruited_personnel: 1_000,
        naval_planning: NavalPlanningCounters::default(),
        operational_execution: None,
        attrition: None,
        resolved: None,
        exiled_units: 1,
        recovered_personnel: 34,
        influence_sources: 2,
        influence: &applied,
        schedule: Some(InfluenceSchedule { cohort: 2, application_budget: 75, selected_units: 2 }),
        diffusion: DiffusionReport { budget: 400, processed_items: 12, stale_entries: 1 },
        census: census_after_surrender(RuntimeCensusCounters::default(), &census()),
        strategic: None,
        strategic_derivation: None,
    };
    let counters = count_step(report);
    assert_eq!(counters.ai.input_units, 2);
    assert_eq!(counters.simulation.moved_units, 1);
    assert_eq!((counters.missiles.launches, counters.missiles.personnel_loss), (3, 5));
    assert_eq!(counters.reinforcement.armor_purchased, 6);
    assert_eq!(counters.reinforcement.recruited_personnel, 1_000);
    assert_eq!(counters.attrition.recovered_personnel, 34);
    assert_eq!(counters.influence.sources, 2);
    assert_eq!(counters.influence.cohort, Some(2));
    assert_eq!(counters.influence.application_budget, 75);
    assert_eq!(counters.influence.diffusion_processed_items, 12);
    assert_eq!(counters.influence.touched_influence_cells, 2);
    assert!(counters.census.committed && counters.census.flushed_for_strategic_cycle);
    assert_eq!(counters.census.territory_generation, 1);
}

fn capital(city_id: u64, owner_id: u16, cell: usize, lat: f64, lng: f64) -> ProductionCity {
    ProductionCity {
        city_id,
        name: format!("City {city_id}"),
        owner_id,
        cell,
        lat: val(lat),
        lng: val(lng),
        population: val(1_000.0),
        capital: true,
    }
}

#[test]
fn air_strikes_on_one_formation_are_one_command() {
    let strike = |unit_id: u64, damage: f64| LandDamage { unit_id, attacker: 1, damage: val(damage) };
    let flown = AirAdvanceOutcome {
        updated: true,
        missions_selected: 4,
        interceptions_completed: 0,
        strikes_completed: 4,
        wings_destroyed: 0,
        airfield_captures: Vec::new(),
        wing_losses: Vec::new(),
        land_damage: vec![
            strike(2, 4.0),
            strike(1, 0.0),
            strike(2, 1.5),
            strike(3, f64::INFINITY),
        ],
    };
    assert_eq!(
        read(|reader| air_damage_commands(&flown, reader)),
        vec![DamageCommand { unit_id: 2, damage: val(5.5) }]
    );
}

#[test]
fn overrun_airfields_get_a_controller() {
    let field = |id: u64, side: usize| Airfield {
        id,
        side,
        owner_country_id: 1,
        controller_country_id: 1,
        lat: val(-45.0),
        lng: val(45.0),
        capacity: 3,
        health: val(100.0),
        disabled: false,
        capture_repair_cycles: 0,
        capital: false,
    };
    let power = AirPowerState {
        airfields: vec![field(10, 0), field(20, 1)],
        wings: Vec::new(),
        country_coverage: Vec::new(),
    };
    assert_eq!(
        read(|reader| airfield_controllers(&power, &territory(), reader)),
        BTreeMap::from([(10, AirfieldController { side: 1, controller_country_id: 2 })])
    );
    let mut ground = territory();
    ground.primary_occupier[2] = 1;
    assert_eq!(
        read(|reader| airfield_controllers(&power, &ground, reader))[&10].controller_country_id,
        2
    );
}

#[test]
fn operations_see_formations_and_contacts() {
    let mut units = two_armies();
    units[0].combat.health = val(50.0);
    let inputs = read(|reader| {
        operational_unit_inputs(&units, &vec![val(1.5), val(-1.0)], None, None, reader)
    })
    .unwrap();
    assert_eq!(inputs[0].power, val(1.5));
    assert_eq!(inputs[0].readiness, val(0.5));
    assert_eq!(number(inputs[1].power), 0.0);
    assert_eq!((inputs[1].side_index, inputs[1].country_id), (1, 2));
    let contacts = vec![
        PlanningContact { unit_id: 1, target_unit_id: Some(2) },
        PlanningContact { unit_id: 2, target_unit_id: None },
        PlanningContact { unit_id: 1, target_unit_id: Some(9) },
    ];
    let seen = tactical_contact_observations(&contacts, &inputs, &units);
    assert_eq!(seen.len(), 1);
    assert_eq!((seen[0].observer_side, seen[0].enemy_side, seen[0].target_unit_id), (0, 1, 2));
    assert_eq!(seen[0].kind, "army");
}

#[test]
fn countries_are_judged_by_land_and_people() {
    let units = vec![unit(1, 0, 1, 0.0), armor(2, 1, 2, 10)];
    let judged = read(|reader| {
        operational_country_inputs(&units, 4, &scenario().countries, &census().countries, reader)
    })
    .unwrap();
    assert_eq!(number(judged[0].current_personnel), 1_000.0);
    assert_eq!(number(judged[1].current_personnel), 40.0);
    assert_eq!((judged[0].initial_land, judged[0].controlled), (4, 4));
    assert!(judged[1].offensive_role);
}

#[test]
fn armor_profiles_and_homes_follow_the_country() {
    let units = vec![unit(1, 0, 1, 0.0), armor(2, 1, 2, 20)];
    let profiles = read(|reader| {
        material_armor_profiles(
            &units,
            &scenario().countries,
            &strategic().economies,
            &territory().country_to_side,
            reader,
        )
    })
    .unwrap();
    assert_eq!(profiles, BTreeMap::from([(1, (14, val(50.0))), (2, (20, val(50.0)))]));

    let cities = vec![capital(5, 1, 0, -45.0, -135.0)];
    let homes =
        |units: Vec<SimulationUnit>| {
            read(|reader| material_home_positions(&units, &cities, &territory(), reader))
        };
    assert_eq!(
        homes(units),
        BTreeMap::from([(1, (val(-45.0), val(-135.0))), (2, (val(-90.0), val(90.0)))])
    );
    assert_eq!(homes(Vec::new())[&2], (val(-45.0), val(45.0)));
    let targets = capital_targets(&cities, &territory(), true);
    assert_eq!(
        targets,
        BTreeMap::from([(1, CommandHomeTarget { cell: 0, lat: val(-45.0), lng: val(-135.0) })])
    );
    assert_eq!(country_bands(&strategic().economies)[&2], CommandBand::Paid);
}

#[test]
fn influence_is_applied_by_thirds() {
    let units = two_armies();
    let mut orders = policies();
    for (id, seed) in [(1, 1.0), (2, 2.000_000_001)] {
        let influence = orders.get_mut(&id).unwrap().influence.as_mut().unwrap();
        influence.browser_temporal_seed = Some(val(seed));
    }
    let (sources, schedule) =
        read(|reader| browser_influence_sources(&units, &orders, 601, 20, 2, reader)).unwrap();
    assert_eq!(schedule, InfluenceSchedule { cohort: 1, application_budget: 100, selected_units: 1 });
    assert_eq!(sources.len(), 1);
    assert_eq!(sources[0].id, 1);
    let timed = read(|reader| {
        resolve_influence_timing(orders[&1].influence.as_ref().unwrap(), 601, reader)
    });
    assert_eq!(number(sources[0].delta), number(timed.1) * 3.0);

    let (waiting, _) =
        read(|reader| browser_influence_sources(&units, &orders, 601, 5, 2, reader)).unwrap();
    assert!(waiting.is_empty());
    assert_eq!(
        read(|reader| browser_influence_sources(&units, &policies(), 601, 20, 2, reader))
            .unwrap_err(),
        RuntimeError::InvalidCheckpoint(
            "influence runtime requires a temporal seed for every live formation"
        )
    );
}

#[test]
fn only_live_formations_are_hit() {
    let hit = |unit_id: u64| DamageCommand { unit_id, damage: val(1.0) };
    assert_eq!(live_commands(&vec![hit(1), hit(9), hit(2)], &two_armies()), vec![hit(1), hit(2)]);
    let positions = surrender_positions(&two_armies());
    assert_eq!(positions.len(), 2);
    assert_eq!((positions[1].country_id, positions[1].lng), (2, val(90.0)));
}

#[test]
fn sides_without_a_country_leave_diplomacy() {
    let mut fallen = economy(2);
    fallen.capitulated = true;
    let countries = vec![
        StrategicCountry { country_id: 1, side: 0, economy: economy(1) },
        StrategicCountry { country_id: 2, side: 1, economy: fallen },
    ];
    assert_eq!(retain_standing(vec![0, 1], &countries), vec![0]);
}

#[test]
fn new_armor_takes_its_orders_from_its_country() {
    let units = vec![unit(1, 0, 1, 0.0), armor(7, 0, 1, 20)];
    let created = BTreeSet::from([7]);
    let disciplines = BTreeMap::from([(7, val(0.3))]);
    let mobilize = |commands: Option<&StagedCommandPolicies>| {
        read(|reader| {
            mobilize_armor(
                &units,
                &created,
                &two_armies(),
                &policies(),
                &territory().country_to_side,
                &disciplines,
                commands,
                5,
                reader,
            )
        })
        .unwrap()
    };
    let fresh = mobilize(None);
    assert_eq!(fresh.units.len(), 1);
    assert_eq!(fresh.policies[0].unit_id, 7);
    assert_eq!(fresh.policies[0].ai.deploy_until_tick, 35);
    assert_eq!(fresh.policies[0].command, policies()[&1].command);
    let influence = fresh.policies[0].influence.as_ref().unwrap();
    assert_eq!(influence.browser_temporal_seed, Some(val(7.0)));
    assert_eq!(influence.owner_ally_country_ids, BTreeSet::from([1]));
    assert_eq!(number(fresh.battlefield_units[&7].cohesion_seed), 0.003);

    let mut unruly = obedience();
    unruly.band = CommandBand::Unpaid;
    let staged = stage_command_policies(4, &policies(), BTreeMap::from([(1, unruly)]));
    let told = mobilize(Some(&staged));
    assert_eq!(told.policies[0].command.band, CommandBand::Unpaid);
    assert_eq!(told.policies[0].command.transition_cycle, 4);
}

#[test]
fn maintenance_is_what_left_the_treasury() {
    let before = BTreeMap::from([(1, val(100.0)), (2, val(100.0))]);
    let mut after = strategic().economies;
    after.get_mut(&1).unwrap().treasury = val(90.0);
    assert_eq!(read(|reader| maintenance_costs(&before, &after, reader)), vec![(1, val(10.0))]);
}

#[test]
fn execution_owns_transport_and_steering_owns_movement() {
    let order = |unit_id: u64| ResolvedUnitOrder::hold(unit_id);
    let assignment = |unit_id: u64| FrontAssignmentRecord {
        unit_id,
        objective_id: None,
        reason: AssignmentReason::Field,
    };
    let steering = steering_entries(&vec![OperationalSteering {
        unit_id: 1,
        task_force_id: "force-a".to_owned(),
        phase: TaskForcePhase::Attacking,
        role: TaskForceRole::Spearhead,
        target: point(0.0, 0.0),
        dir_lat: val(1.0),
        dir_lng: val(0.0),
        speed_multiplier: val(2.0),
        movement_enabled: true,
    }]);
    assert_eq!(steering[0].unit_id, 1);
    let execution = ExecutionOutputs {
        transports: vec![TransportUpdate { unit_id: 2, transport: true }],
        steering: Vec::new(),
    };
    let issue = |execution: &ExecutionOutputs| {
        read(|reader| {
            let planning = AiPlanningResult {
                orders: vec![order(1), order(2)],
                assignments: vec![assignment(1), assignment(2)],
                contacts: Vec::new(),
                counters: AiPlanningCounters::default(),
            };
            issue_orders(
                planning,
                Some(&steering),
                Some(execution),
                two_armies(),
                &policies(),
                &BTreeMap::new(),
                1,
                reader,
            )
        })
    };
    let issued = issue(&execution).unwrap();
    assert!(!issued.units[0].combat.transport && issued.units[1].combat.transport);
    assert_eq!(issued.planned, BTreeSet::from([1]));
    assert!(issued.overridden.is_empty());
    assert_eq!(number(issued.planning.orders[0].dir_lat), 1.0);
    assert!(issued.planning.orders[0].movement_enabled);
    assert!(!issued.planning.orders[1].movement_enabled);
    let stray = ExecutionOutputs {
        transports: vec![TransportUpdate { unit_id: 9, transport: true }],
        steering: Vec::new(),
    };
    assert!(issue(&stray).is_err());
}

#[test]
fn battlefield_inputs_name_the_task_force() {
    let inputs = battlefield_local_inputs(
        &two_armies(),
        &vec![val(1.0), val(2.0)],
        &policies(),
        &BTreeMap::from([(1, 77)]),
    )
    .unwrap();
    assert_eq!(inputs[0].task_force_key, Some(77));
    assert_eq!(inputs[1].task_force_key, None);
    assert_eq!(inputs[1].formation_strength, val(2.0));
    assert_eq!(
        battlefield_local_inputs(
            &two_armies(),
            &vec![val(1.0), val(2.0)],
            &BTreeMap::new(),
            &BTreeMap::new(),
        )
        .unwrap_err(),
        RuntimeError::InvalidUnitPolicy(1)
    );
}

#[test]
fn a_pay_cycle_is_counted() {
    let air = || CountryAirPayCycleOutcome {
        country_id: 1,
        operations_spent: val(1.0),
        fighters_purchased: 2,
        strike_purchased: 3,
        fighters_reinforced: 4,
        strike_reinforced: 5,
        wing_creation: Vec::new(),
    };
    let flown = air_pay_cycle_counters(&AirPayCycleOutcome { countries: vec![air(), air()] });
    assert_eq!((flown.aircraft_purchased, flown.aircraft_reinforced), (10, 18));
    let settled = MaterialPayCycleOutcome {
        countries: vec![CountryMaterialPayCycleOutcome {
            country_id: 1,
            airfields_repaired: 1,
            airfield_repair_spent: val(2.0),
            armor_purchased: 6,
            armor_reinforced: 7,
            armor_creation: ArmorFormationCreationOutcome {
                desired_formations: 2,
                formations_before: 1,
                formations_after: 2,
                created_unit_id: Some(40),
                created_equipment: 20,
            },
            air: air(),
            evacuated_aircraft: 8,
            lost_aircraft: 9,
        }],
    };
    let counters = material_pay_cycle_counters(&settled);
    assert_eq!((counters.armor_purchased, counters.armor_reinforced), (6, 7));
    assert_eq!(counters.armor_formations_created, 1);
    assert_eq!((counters.aircraft_evacuated, counters.aircraft_lost_on_capitulation), (8, 9));
    assert_eq!(created_formations(&settled), BTreeSet::from([40]));
}

#[test]
fn places_in_the_fronts_are_tabled_by_formation() {
    assert_eq!(
        front_objectives_by_unit(&vec![prior(4), prior(2)]),
        BTreeMap::from([(2, 1), (4, 1)])
    );
    let counters = census_counters(
        &CensusStepResult { processed_items: 7, committed: true },
        &census(),
        false,
    );
    assert_eq!((counters.processed_items, counters.territory_generation), (7, 1));
    assert!(counters.committed && !counters.flushed_for_strategic_cycle);
}

#[test]
fn collapsing_sides_are_found() {
    let side = |side_index: usize, phase: WarPhase| SideDynamics {
        side_index,
        posture: WarPosture::Offensive,
        posture_override: None,
        phase,
        initial_personnel: val(1.0),
        current_personnel: val(1.0),
    };
    let mut phases = BTreeMap::new();
    phases.insert(0, side(0, WarPhase::Collapsing));
    assert_eq!(find_collapsing(&phases), BTreeSet::from([0]));
}

#[test]
fn operations_are_settled_after_movement() {
    let inputs = vec![
        OperationalUnitInput {
            unit_id: 1,
            side_index: 0,
            country_id: 1,
            position: point(-90.0, 0.0),
            power: val(1.0),
            readiness: val(1.0),
            supply_collapsed_tick: None,
            encircled_ticks: 0,
        },
        OperationalUnitInput {
            unit_id: 2,
            side_index: 1,
            country_id: 2,
            position: point(-90.0, 90.0),
            power: val(1.0),
            readiness: val(1.0),
            supply_collapsed_tick: None,
            encircled_ticks: 0,
        },
    ];
    let settled = |side_count: usize| {
        let mut forces = operations();
        let mut sheet = Worksheet::new();
        loop {
            match settle_operations(
                &mut forces,
                30,
                &inputs,
                None,
                60,
                &territory().country_to_side,
                &scenario().countries,
                side_count,
                &sheet,
            ) {
                Err(Stop::Missing(missing)) => fill(&mut sheet, missing),
                Err(Stop::Failed(error)) => return Err(error),
                Ok(()) => return Ok(forces),
            }
        }
    };
    assert_eq!(settled(2).unwrap().task_forces[0].members.len(), 1);
    assert!(matches!(settled(3), Err(RuntimeError::Operational(_))));
}

#[test]
fn combat_is_closed_with_all_losses() {
    let simulation = Simulation::new(simulation_config(), two_armies()).unwrap();
    let mut frame = settle(|sheet| simulation.initial_snapshot(1, 1, sheet));
    frame.removed_ids = vec![9];
    let worn = DamageOutcome {
        results: vec![DamageResult { unit_id: 2, personnel_loss: 12, equipment_loss: 0 }],
        removed_ids: vec![2],
    };
    let exiled = vec![5, 4];
    let owners = BTreeMap::from([(1, 1), (2, 2)]);
    let none = Vec::new();
    let close = |damage: TickDamage<'_>| {
        read(|reader| {
            close_combat(
                frame.clone(),
                TickCounters::default(),
                7,
                damage,
                &BTreeMap::from([(2, val(30.0))]),
                &BTreeMap::new(),
                &owners,
                &BTreeMap::new(),
                &territory().country_to_side,
                reader,
            )
        })
    };
    let counted = close(TickDamage {
        air: None,
        air_damage: None,
        exiled: Some(&exiled),
        attrition: Some(&worn),
        impacts: &none,
    });
    assert_eq!(counted.frame.removed_ids, vec![2, 4, 5, 9]);
    assert_eq!((counted.counters.input_units, counted.counters.removed_units), (7, 4));
    assert_eq!(counted.casualties, BTreeMap::from([(2, val(42.0))]));
    assert!(counted.casualties_by_victim.is_empty());
    assert_eq!(counted.losses_by_side, BTreeMap::from([(1, val(12.0))]));
    let quiet = close(TickDamage {
        air: None,
        air_damage: None,
        exiled: None,
        attrition: None,
        impacts: &none,
    });
    assert_eq!(quiet.frame.removed_ids, vec![9]);
    assert_eq!(quiet.counters, TickCounters::default());
    assert_eq!(quiet.losses_by_side, BTreeMap::from([(1, val(0.0))]));
}

#[test]
fn only_declared_sides_enter_a_cycle() {
    let prepare = |active: Vec<u16>, tick: u64| {
        let given = checkpoint(600);
        let frame = settle(|sheet| given.simulation.initial_snapshot(tick, 600, sheet));
        let diplomacy = RuntimeDiplomacy { hostility: vec![0, 1, 1, 0], active_sides: active };
        let mut sheet = Worksheet::new();
        loop {
            match prepare_cycle(
                600,
                &given.scenario,
                &given.territory,
                &census(),
                "territory",
                &frame,
                &diplomacy,
                &given.strategic,
                &given.casualties,
                &config().production,
                &sheet,
            ) {
                Ok(output) => return Ok(output),
                Err(Stop::Failed(error)) => return Err(error),
                Err(Stop::Missing(missing)) => fill(&mut sheet, missing),
            }
        }
    };
    let both = prepare(vec![0, 1], 600).unwrap();
    assert_eq!(both.input.active_sides, vec![0, 1]);
    assert_eq!(both.input.active_hostile_pairs, vec![(0, 1)]);
    assert_eq!(both.input.capitulation_active_sides, Some(vec![0, 1]));
    let one = prepare(vec![1], 600).unwrap();
    assert_eq!(one.input.active_sides, vec![1]);
    assert!(one.input.active_hostile_pairs.is_empty());
    assert_eq!(one.input.capitulation_active_sides, Some(Vec::new()));
    assert_eq!((one.counters.active_sides, one.counters.hostile_pairs), (1, 0));
    assert!(!one.input.countries[0].active && one.input.countries[1].active);
    assert_eq!(prepare(vec![0, 1], 599).unwrap_err(), ProductionError::StaleFrame);
}

#[test]
fn a_settled_cycle_changes_what_is_published() {
    let simulation = Simulation::new(simulation_config(), two_armies()).unwrap();
    let frame = settle(|sheet| simulation.initial_snapshot(600, 600, sheet));
    let mut fallen = economy(2);
    fallen.capitulated = true;
    let published = vec![
        StrategicCountry { country_id: 1, side: 0, economy: economy(1) },
        StrategicCountry { country_id: 2, side: 1, economy: fallen },
    ];
    let settled = settle_cycle(
        frame.clone(),
        TickCounters::default(),
        RuntimeCensusCounters::default(),
        vec![0, 1],
        &published,
        Some(vec![frame.units[0]]),
        vec![2],
        Some(&census()),
    );
    assert_eq!(settled.active_sides, vec![0]);
    assert_eq!(settled.frame.removed_ids, vec![2]);
    assert_eq!(settled.frame.units.len(), 1);
    assert_eq!(settled.counters.removed_units, 1);
    assert!(settled.census.committed && settled.census.territory_generation == 1);
    let quiet = settle_cycle(
        frame,
        TickCounters::default(),
        RuntimeCensusCounters::default(),
        vec![0, 1],
        &published[..1].to_vec(),
        None,
        Vec::new(),
        None,
    );
    assert_eq!(quiet.frame.units.len(), 2);
    assert!(!quiet.census.committed);
}

/// A runtime with a live battlefield.
fn live(
    edit: impl Fn(&mut RuntimeCheckpoint, &mut KernelVerdicts),
    tick: u64,
) -> NativeRuntime {
    start(
        |given, told| {
            given.battlefield = Some(field());
            told.urban_mask = vec![0; 8];
            edit(given, told);
        },
        tick,
    )
    .unwrap()
}

fn front_fault(action: &TickAction) -> Option<RuntimeError> {
    match action {
        TickAction::Layout(_) => Some(RuntimeError::Front(KernelFault { code: 1 })),
        _ => None,
    }
}

fn source_fault(action: &TickAction) -> Option<RuntimeError> {
    match action {
        TickAction::Influence { .. } => Some(RuntimeError::Territory(KernelFault { code: 2 })),
        _ => None,
    }
}

#[test]
fn orchestrates_ai_simulation_influence_and_immutable_publication() {
    let mut runtime = fixture(0);
    let old = runtime.latest_snapshot();
    let old_units = old.frame_snapshot.units.clone();

    let next = tick_by(&mut runtime, |runtime, work, action| {
        match marching(runtime, work, action) {
            Some(TickAnswer::Combat(mut fought)) => {
                fought.counters.input_units = work.units.len();
                Some(TickAnswer::Combat(fought))
            }
            told => told,
        }
    })
    .unwrap();

    assert_eq!(next.tick, 1);
    assert_eq!(next.frame, 1);
    assert_eq!(next.counters.ai.input_units, 2);
    assert!(next.counters.front_refreshed);
    assert!(next.counters.front_objectives > 0);
    assert_eq!(next.counters.simulation.input_units, 2);
    assert_eq!(next.counters.influence.sources, 2);
    assert_eq!(old.tick, 0);
    assert_eq!(old.frame_snapshot.units, old_units);
    assert!(!Arc::ptr_eq(&old, &next));
}

#[test]
fn post_influence_planning_failure_rolls_back_sparse_territory_transaction() {
    let mut runtime = live(|_, _| {}, 0);
    let published = runtime.latest_snapshot();
    let maps = format!("{:?}", runtime.parts().territory);
    let queued = runtime.pending_render_updates();

    let failed = tick_until(&mut runtime, |_, _| None, front_fault);
    assert!(matches!(failed, Err(RuntimeError::Front(_))));
    assert_eq!(format!("{:?}", runtime.parts().territory), maps);
    assert!(Arc::ptr_eq(&runtime.latest_snapshot(), &published));
    assert_eq!(runtime.tick(), 0);
    assert_eq!(runtime.frame(), 0);
    assert_eq!(runtime.pending_render_updates(), queued);
    assert_eq!(runtime.state(), RuntimeState::Running);
}

#[test]
fn invalid_influence_rolls_back_the_already_stepped_simulation() {
    let mut runtime = fixture(0);
    let published = runtime.latest_snapshot();
    let failed = tick_seeing(&mut runtime, marching, source_fault);
    assert!(matches!(failed, Err(RuntimeError::Territory(_))));
    assert!(Arc::ptr_eq(&runtime.latest_snapshot(), &published));
    assert_eq!(runtime.tick(), 0);
    assert_eq!(
        settle(|sheet| runtime.parts().simulation.initial_snapshot(0, 0, sheet)).units,
        published.frame_snapshot.units
    );
    assert_eq!(runtime.state(), RuntimeState::Running);
}

#[test]
fn failed_tick_does_not_advance_side_dynamics() {
    let mut runtime = start(
        |given, _| {
            given.side_dynamics = Some(BTreeMap::from([(0, judged(0)), (1, judged(1))]));
        },
        36,
    )
    .unwrap();
    let before = runtime.parts().side_dynamics.cloned();
    let failed = tick_until(
        &mut runtime,
        |work, action| match action {
            TickAction::Momentum { .. } => {
                let mut moved = BTreeMap::from([(0, judged(0)), (1, judged(1))]);
                moved.get_mut(&0).unwrap().phase = WarPhase::Collapsing;
                assert_eq!(work.step.tick, 37);
                Some(TickAnswer::Momentum(moved))
            }
            _ => None,
        },
        source_fault,
    );
    assert!(failed.is_err());
    assert_eq!(runtime.parts().side_dynamics.cloned(), before);
    assert_eq!(runtime.tick(), 36);
    assert_eq!(runtime.frame(), 36);
}

#[test]
fn side_dynamics_continue_exactly_across_checkpoint_split() {
    let mut uninterrupted = live(
        |given, _| {
            given.side_dynamics = Some(BTreeMap::from([(0, judged(0)), (1, judged(1))]));
        },
        36,
    );
    let falling = |runtime: &NativeRuntime, _: &TickWork, action: &TickAction| match action {
        TickAction::Momentum { .. } => {
            let mut moved = runtime.parts().side_dynamics.unwrap().clone();
            let side = moved.get_mut(&0).unwrap();
            side.current_personnel = val(number(side.current_personnel) * 0.3);
            side.phase = WarPhase::Collapsing;
            Some(TickAnswer::Momentum(moved))
        }
        _ => None,
    };
    tick_by(&mut uninterrupted, falling).unwrap();
    let mut resumed = restore(&mut uninterrupted);

    let expected = tick_by(&mut uninterrupted, falling).unwrap();
    let actual = tick_by(&mut resumed, falling).unwrap();
    assert_eq!(format!("{actual:?}"), format!("{expected:?}"));
    assert_eq!(resumed.parts().side_dynamics, uninterrupted.parts().side_dynamics);
    assert_eq!(
        resumed.parts().side_dynamics.unwrap()[&0].current_personnel,
        val(1_000.0 * 0.3 * 0.3)
    );
}

/// The supply of the first formation collapses in the first tick, and is not looked at later.
fn starving(_: &NativeRuntime, work: &TickWork, action: &TickAction) -> Option<TickAnswer> {
    match action {
        TickAction::Battlefield { inputs, .. } => Some(TickAnswer::Battlefield(
            inputs
                .iter()
                .map(|input| BattlefieldUnitResult {
                    attrition: BattlefieldAttrition {
                        damage: val(0.0),
                        supply_collapse_sampled: work.step.tick == 1 && input.id == 1,
                        supply_collapsed: true,
                    },
                    ..resolved(input.id)
                })
                .collect(),
        )),
        _ => None,
    }
}

#[test]
fn operational_state_and_renderer_snapshot_continue_exactly_across_split() {
    let mut uninterrupted = live(|given, _| given.operations = Some(operations()), 0);
    let initial = uninterrupted.latest_snapshot();
    tick_by(&mut uninterrupted, starving).unwrap();
    let captured = save(&mut uninterrupted).unwrap();
    assert_eq!(captured.battlefield.unwrap().units[&1].supply_collapsed_tick, Some(1));
    let mut resumed = restore(&mut uninterrupted);

    let expected = tick_by(&mut uninterrupted, starving).unwrap();
    let actual = tick_by(&mut resumed, starving).unwrap();
    assert_eq!(format!("{actual:?}"), format!("{expected:?}"));
    assert_eq!(
        format!("{:?}", resumed.parts().operations),
        format!("{:?}", uninterrupted.parts().operations)
    );
    assert_eq!(
        format!("{:?}", resumed.parts().battlefield),
        format!("{:?}", uninterrupted.parts().battlefield)
    );
    let shown = initial.operational_snapshot.as_ref().unwrap();
    assert_eq!(shown.tick, 0);
    assert_eq!(shown.task_forces[0].phase, TaskForcePhase::Attacking);
}

#[test]
fn failed_staged_tick_does_not_advance_operational_state_or_publication() {
    let mut runtime = live(|given, _| given.operations = Some(operations()), 0);
    let published = runtime.latest_snapshot();
    let kept = format!("{:?}", runtime.parts().operations);
    let queued = runtime.pending_render_updates();

    let failed = tick_until(&mut runtime, |_, _| None, front_fault);
    assert!(matches!(failed, Err(RuntimeError::Front(_))));
    assert_eq!(format!("{:?}", runtime.parts().operations), kept);
    assert!(Arc::ptr_eq(&runtime.latest_snapshot(), &published));
    assert_eq!(runtime.tick(), 0);
    assert_eq!(runtime.frame(), 0);
    assert_eq!(runtime.pending_render_updates(), queued);
}

#[test]
fn live_battlefield_memory_and_policy_resume_exactly() {
    let mut uninterrupted =
        live(|given, _| given.battlefield.as_mut().unwrap().terrain_intensity[2] = val(0.5), 0);
    tick_with(&mut uninterrupted, |_, _| None).unwrap();
    let mut resumed = restore(&mut uninterrupted);

    let expected = tick_with(&mut uninterrupted, |_, _| None).unwrap();
    let actual = tick_with(&mut resumed, |_, _| None).unwrap();
    assert_eq!(format!("{actual:?}"), format!("{expected:?}"));
    let expected_state = save(&mut uninterrupted).unwrap();
    let actual_state = save(&mut resumed).unwrap();
    assert_eq!(
        format!("{:?}", actual_state.unit_policies),
        format!("{:?}", expected_state.unit_policies)
    );
    assert_eq!(
        format!("{:?}", actual_state.battlefield),
        format!("{:?}", expected_state.battlefield)
    );
}

#[test]
fn deploying_live_units_preserve_momentum_and_encirclement_history() {
    let mut runtime = live(
        |given, _| {
            given.unit_policies[0].ai.deploy_until_tick = 1;
            let mut units = given.simulation.units.clone();
            units[0].combat.victory_boost_ticks = 5;
            given.simulation = Simulation::new(simulation_config(), units).unwrap();
            given.battlefield.as_mut().unwrap().units.insert(1, memory(77));
        },
        0,
    );
    tick_with(&mut runtime, |_, _| None).unwrap();
    let parts = runtime.parts();
    assert_eq!(parts.simulation.units[0].combat.victory_boost_ticks, 5);
    assert_eq!(parts.battlefield.unwrap().units[&1].encircled_ticks, 77);
}

#[test]
fn supply_collapse_marker_commits_and_survives_exact_runtime_restore() {
    let mut runtime = live(|_, _| {}, 0);
    tick_by(&mut runtime, starving).unwrap();
    assert_eq!(runtime.parts().battlefield.unwrap().units[&1].supply_collapsed_tick, Some(1));
    let mut restored = restore(&mut runtime);
    tick_by(&mut restored, starving).unwrap();
    // Ticks outside the supply scan keep the marker.
    assert_eq!(restored.parts().battlefield.unwrap().units[&1].supply_collapsed_tick, Some(1));
}

#[test]
fn reverse_only_hostility_cannot_poison_surrender_application() {
    let mut runtime = start(
        |given, _| {
            given.territory.hostility = vec![0, 1, 0, 0];
            given.diplomacy.hostility = vec![0, 1, 0, 0];
        },
        PAY_CYCLE - 1,
    )
    .unwrap();
    let published = tick_with(&mut runtime, |_, action| match action {
        TickAction::Cycle(input) => {
            // The side that nobody can beat is not asked to give up.
            assert_eq!(input.capitulation_active_sides, Some(vec![0]));
            None
        }
        _ => None,
    })
    .unwrap();
    assert_eq!(published.state, RuntimeState::Running);
    assert!(published.strategic_snapshot.as_ref().unwrap().surrenders.is_empty());
    assert!(!runtime.parts().strategic.economies[&2].capitulated);
}

/// A missile in flight hits the second formation when its time has come.
fn missile_strikes(
    at: u64,
) -> impl Fn(&NativeRuntime, &TickWork, &TickAction) -> Option<TickAnswer> {
    move |_, work, action| match action {
        TickAction::Missiles => {
            let hit = work.step.tick == at;
            Some(TickAnswer::Missiles(MissileAnswer {
                missiles: KernelHandle { key: if hit { 0 } else { 9 } },
                rng: mulberry(work.rng.key).after,
                report: MissileReport { launches: 0, impacts: usize::from(hit) },
                impacts: if hit {
                    vec![vec![
                        DamageCommand { unit_id: 2, damage: val(20.0) },
                        DamageCommand { unit_id: 77, damage: val(20.0) },
                    ]]
                } else {
                    Vec::new()
                },
            }))
        }
        TickAction::Damage(commands) => {
            let mut units = work.units.clone();
            let mut results = Vec::new();
            for command in commands {
                let unit =
                    units.iter_mut().find(|unit| unit.combat.id == command.unit_id).unwrap();
                unit.combat.health =
                    val(number(unit.combat.health) - number(command.damage));
                unit.combat.personnel -= 200;
                results.push(DamageResult {
                    unit_id: command.unit_id,
                    personnel_loss: 200,
                    equipment_loss: 0,
                });
            }
            let outcome = DamageOutcome { results, removed_ids: Vec::new() };
            Some(TickAnswer::Damage(DamageAnswer { units, outcome }))
        }
        _ => None,
    }
}

fn with_test_missile() -> NativeRuntime {
    start(|given, _| given.strategic_missiles = Some(KernelHandle { key: 9 }), 0).unwrap()
}

fn target_health(shown: &RuntimeSnapshot) -> f64 {
    number(shown.frame_snapshot.units.iter().find(|unit| unit.side == 1).unwrap().health)
}

#[test]
fn missile_impact_publishes_damage_and_effects_without_mutating_old_snapshot() {
    let mut runtime = with_test_missile();
    let old = runtime.latest_snapshot();
    let target_before = target_health(&old);

    let next = tick_by(&mut runtime, missile_strikes(1)).unwrap();
    assert_eq!(next.strategic_missile_snapshot, Some(KernelHandle { key: 0 }));
    assert_eq!(target_health(&next), target_before - 20.0);
    assert_eq!(next.counters.missiles.impacts, 1);
    assert_eq!(next.counters.missiles.damaged_units, 1);
    assert_eq!(next.counters.missiles.personnel_loss, 200);
    assert_eq!(next.casualty_totals.get(&2), Some(&val(200.0)));
    assert!(next.strategic_snapshot.is_none() && old.strategic_snapshot.is_none());

    assert_eq!(old.strategic_missile_snapshot, Some(KernelHandle { key: 9 }));
    assert_eq!(target_health(&old), target_before);
}

#[test]
fn same_tick_land_combat_events_survive_missile_snapshot_refresh() {
    let mut runtime = with_test_missile();
    let next = tick_by(&mut runtime, |runtime, work, action| match action {
        TickAction::Combat { .. } => match quiet(runtime, work, action) {
            TickAnswer::Combat(mut fought) => {
                fought.counters.accepted_contacts = 1;
                fought.frame.events.push(CombatEvent {
                    layer: CombatLayer::Direct,
                    attacker_id: 1,
                    target_id: 2,
                    attacker_damage: val(1.0),
                    target_damage: val(1.0),
                    attacker_personnel_loss: 3,
                    target_personnel_loss: 4,
                    attacker_equipment_loss: 0,
                    target_equipment_loss: 0,
                });
                Some(TickAnswer::Combat(fought))
            }
            other => Some(other),
        },
        _ => missile_strikes(1)(runtime, work, action),
    })
    .unwrap();
    assert!(next.counters.simulation.accepted_contacts > 0);
    assert!(!next.frame_snapshot.events.is_empty());
    assert_eq!(next.counters.missiles.impacts, 1);
    assert_eq!(next.counters.missiles.damaged_units, 1);
    assert_eq!(next.casualty_totals.get(&1), Some(&val(3.0)));
    assert_eq!(next.casualty_totals.get(&2), Some(&val(204.0)));
}

#[test]
fn missile_flight_and_impact_continue_exactly_across_checkpoint_split() {
    let mut uninterrupted = with_test_missile();
    tick_by(&mut uninterrupted, missile_strikes(2)).unwrap();
    assert_eq!(
        uninterrupted.latest_snapshot().strategic_missile_snapshot,
        Some(KernelHandle { key: 9 })
    );
    let mut resumed = restore(&mut uninterrupted);

    let expected = tick_by(&mut uninterrupted, missile_strikes(2)).unwrap();
    let actual = tick_by(&mut resumed, missile_strikes(2)).unwrap();
    assert_eq!(expected.counters.missiles.impacts, 1);
    assert_eq!(format!("{:?}", actual.frame_snapshot), format!("{:?}", expected.frame_snapshot));
    assert_eq!(actual.strategic_missile_snapshot, expected.strategic_missile_snapshot);
    assert_eq!(actual.counters.missiles, expected.counters.missiles);
    assert_eq!(actual.casualty_totals, expected.casualty_totals);
    assert_eq!(actual.gameplay_rng_state, expected.gameplay_rng_state);
}

#[test]
fn invalid_staged_missile_tick_rolls_back_simulation_rng_and_publication() {
    let mut runtime = with_test_missile();
    let units = runtime.parts().simulation.units.clone();
    let rng = runtime.parts().gameplay_rng;
    let published = runtime.latest_snapshot();
    let failed = tick_seeing(&mut runtime, marching, |action| match action {
        TickAction::Missiles => Some(RuntimeError::StrategicMissile(KernelFault { code: 5 })),
        _ => None,
    });
    assert!(matches!(failed, Err(RuntimeError::StrategicMissile(_))));
    let parts = runtime.parts();
    assert_eq!(parts.simulation.units, units);
    assert_eq!(parts.gameplay_rng, rng);
    assert_eq!(parts.strategic_missiles, Some(KernelHandle { key: 9 }));
    assert!(Arc::ptr_eq(&runtime.latest_snapshot(), &published));
}

#[test]
fn recruited_units_publish_immutable_renderer_snapshots_and_checkpoint_cursor() {
    let mut runtime = start(
        |given, _| {
            given.operational_execution = Some(no_execution());
            given.air_power = Some(squadron());
            given.personnel_reserves = BTreeMap::from([(0, val(1_000.0)), (1, val(0.0))]);
            given.gameplay_rng = KernelHandle { key: 7 };
        },
        0,
    )
    .unwrap();
    let before = runtime.latest_snapshot();

    let recruited = tick_by(&mut runtime, |runtime, work, action| match action {
        TickAction::RecruitCommand(wanted) => {
            Some(TickAnswer::RecruitCommand(wanted.unit_id, Ok(obedience())))
        }
        TickAction::SpendRecruitment(costs) => {
            let mut after = strategic();
            for (country_id, cost) in costs {
                let economy = after.economies.get_mut(country_id).unwrap();
                economy.treasury = val(number(economy.treasury) - number(*cost));
            }
            assert_eq!(work.step.tick, 1);
            Some(TickAnswer::Treasury(TreasuryAnswer { strategic: after, published: None }))
        }
        _ => paying(runtime, action),
    })
    .unwrap();
    assert_eq!(recruited.counters.reinforcement.recruited_units, 1);
    assert_eq!(recruited.counters.reinforcement.recruited_personnel, 1_000);
    assert_eq!(before.frame_snapshot.units.len(), 2);
    assert_eq!(recruited.frame_snapshot.units.len(), 3);
    assert_eq!(recruited.frame_snapshot.units[2].id, 3);
    assert_eq!(recruited.personnel_reserves[&0], val(0.0));
    assert_eq!(recruited.reinforcement_snapshot.as_ref().unwrap().next_unit_id, 4);
    assert_eq!(runtime.parts().strategic.economies[&1].treasury, val(99.0));

    let saved = save(&mut runtime).unwrap();
    assert_eq!(saved.units.last().unwrap().combat.id, 3);
    assert_eq!(saved.reinforcement.unwrap().next_unit_id, 4);
    assert_eq!(before.frame_snapshot.units.len(), 2);
}

#[test]
fn damage_must_account_for_every_formation() {
    let fault = RuntimeError::InvalidCheckpoint("damage does not account for every formation");
    let mut runtime = with_test_missile();
    let failed = tick_by(&mut runtime, |runtime, work, action| {
        match missile_strikes(1)(runtime, work, action) {
            Some(TickAnswer::Damage(mut hurt)) => {
                hurt.units.pop();
                Some(TickAnswer::Damage(hurt))
            }
            told => told,
        }
    });
    assert_eq!(failed.err(), Some(fault));
    assert_eq!(runtime.tick(), 0);
    assert_eq!(runtime.parts().simulation.units.len(), 2);
}

#[test]
fn consequences_must_account_for_every_formation() {
    let fault =
        RuntimeError::InvalidCheckpoint("consequences do not account for every formation");
    let told = |removed_ids: Vec<u64>| {
        let mut runtime = fixture(PAY_CYCLE - 1);
        tick_with(&mut runtime, |work, action| match action {
            TickAction::Consequences => Some(TickAnswer::Consequences(UnitConsequences {
                units: work.units[..1].to_vec(),
                removed_ids: removed_ids.clone(),
            })),
            _ => last_side_kernels(work, action),
        })
        .map(|published| published.frame_snapshot.removed_ids.clone())
    };
    assert_eq!(told(vec![2]), Ok(vec![2]));
    assert_eq!(told(Vec::new()), Err(fault));
    assert_eq!(told(vec![1]), Err(fault));
}
