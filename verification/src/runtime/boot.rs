//! How a runtime is brought up: every part of a checkpoint is held against every other before
//! anything starts, in a fixed order, and missing parts are made up.

use std::collections::BTreeMap;
use vstd::prelude::*;
use crate::air::{AirModel, AirPowerState, AirWing};
use crate::casualties::ledger_view;
use crate::economy::EconomyState;
use crate::operations::{
    enemies_below, is_declared_hostile, operations_fault, OperationalRuntimeState,
    OperationsModel, OperationsScope, SideModel,
};
use crate::order::collected;
use crate::production::{ProductionCountry, ScenarioProduction};
use crate::reinforcement::{
    air_topology_valid, bootstrap_reinforcement_state, first_logistics, first_reinforcement,
    logistics_refused, reinforcement_refused, reserves_valid, validate_air_topology,
    MaterialLogisticsState, ReinforcementState,
};
use crate::runtime::battlefield::{BattlefieldUnitState, SideDynamics};
use crate::runtime::command::{
    command_unit_states, command_units, homes_missing, hydrate_missing_command_home_targets,
    hydrated, lacks_home,
};
use crate::runtime::dynamics::{dynamics_valid, validate_side_dynamics_state};
use crate::runtime::effects::{ConflictResolutionPlan, StrategicSnapshot};
use crate::runtime::enlistment::{find_largest_id, largest_id};
use crate::runtime::error::RuntimeError;
use crate::runtime::logistics::{armor_profiles, material_armor_profiles, profiles_supplied};
use crate::runtime::planning::{
    priors_view, FrontLayoutPrior, FrontObjective, ResolvedCommandPolicy,
};
use crate::runtime::policy::{
    collect_unit_policies, command_fault, policies_fault, policies_view, policy_table,
    validate_command_checkpoint, Policies, PolicyModel, RefusalShares, RuntimeUnitPolicy,
};
use crate::runtime::stages::{country_ids, list_countries};
use crate::runtime::validation::{
    assignments_valid, front_planner_fault, ledger_valid, runtime_config_valid, toll_valid,
    validate_casualties, validate_casualties_by_victim, validate_front_planner_state,
    validate_personnel_reserves, validate_prior_assignments, validate_runtime_config,
    RuntimeConfig,
};
use crate::runtime::world::{
    diplomacy_fault, validate_diplomacy, validate_scenario_grid, RuntimeDiplomacy, StrategicState,
    TerritoryControl,
};
use crate::scalar::Real;
use crate::tables::{ascending, formation_keys, lemma_only_ascending, same_countries};
use crate::units::{KernelFault, SimulationUnit};
use crate::views::views;
use crate::worksheet::{Operation, Reader};

verus! {

/// What is wrong with the world that a runtime is to run in.
pub open spec fn world_fault(
    config: RuntimeConfig,
    diplomacy: RuntimeDiplomacy,
    territory: TerritoryControl,
    scenario: ScenarioProduction,
    missiles: Option<Result<(), KernelFault>>,
) -> Option<RuntimeError> {
    if !runtime_config_valid(config) {
        Some(RuntimeError::InvalidConfig)
    } else if diplomacy_fault(diplomacy, territory) is Some {
        diplomacy_fault(diplomacy, territory)
    } else if !(scenario.grid.same(territory.grid) && territory.de_jure@.len()
        == territory.land@.len()) {
        Some(RuntimeError::InvalidCheckpoint("scenario production grid does not match territory"))
    } else {
        match missiles {
            Some(Err(fault)) => Some(RuntimeError::StrategicMissile(fault)),
            _ => None,
        }
    }
}

/// Holds the world of a checkpoint against its configuration. Missiles are the missile kernel's
/// to judge, where there are any.
pub fn check_world(
    config: RuntimeConfig,
    diplomacy: &RuntimeDiplomacy,
    territory: &TerritoryControl,
    scenario: &ScenarioProduction,
    missiles: Option<Result<(), KernelFault>>,
) -> (verdict: Result<(), RuntimeError>)
    ensures
        match verdict {
            Ok(_) => world_fault(config, *diplomacy, *territory, *scenario, missiles) is None,
            Err(error) => world_fault(config, *diplomacy, *territory, *scenario, missiles) == Some(
                error,
            ),
        },
{
    if let Err(error) = validate_runtime_config(config) {
        return Err(error);
    }
    if let Err(error) = validate_diplomacy(diplomacy, territory) {
        return Err(error);
    }
    if let Err(error) = validate_scenario_grid(scenario, territory) {
        return Err(error);
    }
    match missiles {
        Some(Err(fault)) => Err(RuntimeError::StrategicMissile(fault)),
        _ => Ok(()),
    }
}

/// Whether a formation's influence has no seed over time.
pub open spec fn lacks_seed(policies: Policies, unit_id: u64) -> bool {
    !(policies.contains_key(unit_id) && (policies[unit_id].influence matches Some(influence)
        && influence.browser_temporal_seed is Some))
}

/// Whether any formation's influence has no seed over time.
pub open spec fn seeds_missing(policies: Policies, units: Seq<SimulationUnit>) -> bool {
    exists|i: int| 0 <= i < units.len() && lacks_seed(policies, (#[trigger] units[i]).combat.id)
}

/// Whether some formation goes home without knowing where that is.
pub open spec fn some_home_missing(policies: Policies) -> bool {
    exists|unit_id: u64|
        policies.contains_key(unit_id) && lacks_home(#[trigger] policies[unit_id])
}

/// The policies with which formations start, or why they cannot.
pub open spec fn starting_policies(
    units: Seq<SimulationUnit>,
    policies: Seq<PolicyModel>,
    territory: TerritoryControl,
    shares: RefusalShares,
    strategic: StrategicState,
    commands: Result<Map<u64, ResolvedCommandPolicy>, KernelFault>,
) -> Result<Policies, RuntimeError> {
    let table = policy_table(policies, policies.len());
    let states = collected(command_units(units, table), units.len());
    if policies_fault(units, policies, territory, shares) is Some {
        Err(policies_fault(units, policies, territory, shares)->Some_0)
    } else if territory.influence_runtime && seeds_missing(table, units) {
        Err(
            RuntimeError::InvalidCheckpoint(
                "influence runtime requires a temporal seed for every live formation",
            ),
        )
    } else if some_home_missing(table) && states is Err {
        Err(states->Err_0)
    } else if some_home_missing(table) && commands is Err {
        Err(RuntimeError::Command(commands->Err_0))
    } else {
        let housed = if some_home_missing(table) {
            hydrated(table, commands->Ok_0)
        } else {
            table
        };
        match command_fault(units, housed, strategic, 0) {
            Some(error) => Err(error),
            None => Ok(housed),
        }
    }
}

fn find_seedless(
    policies: &BTreeMap<u64, RuntimeUnitPolicy>,
    units: &Vec<SimulationUnit>,
) -> (answer: bool)
    ensures
        answer == seeds_missing(policies_view(policies@), units@),
{
    broadcast use vstd::std_specs::btree::group_btree_axioms;

    let ghost known = policies_view(policies@);
    let mut at: usize = 0;
    while at < units.len()
        invariant
            at <= units@.len(),
            known == policies_view(policies@),
            forall|i: int|
                0 <= i < at ==> !lacks_seed(known, (#[trigger] units@[i]).combat.id),
        decreases units@.len() - at,
    {
        broadcast use vstd::std_specs::btree::group_btree_axioms;

        let id: u64 = units[at].combat.id;
        assert(known.contains_key(id) == policies@.contains_key(id));
        let seeded = match policies.get(&id) {
            None => false,
            Some(policy) => {
                assert(known[id] == policy@);
                match &policy.influence {
                    Some(influence) => influence.browser_temporal_seed.is_some(),
                    None => false,
                }
            },
        };
        if !seeded {
            assert(lacks_seed(known, units@[at as int].combat.id));
            return true;
        }
        at = at + 1;
    }
    false
}

/// What the command kernel resolved.
pub open spec fn commands_resolved(
    commands: Result<BTreeMap<u64, ResolvedCommandPolicy>, KernelFault>,
) -> Result<Map<u64, ResolvedCommandPolicy>, KernelFault> {
    match commands {
        Ok(table) => Ok(table@),
        Err(fault) => Err(fault),
    }
}

/// Collects the policies of a checkpoint, gives formations that go home a home, and holds
/// everything against the formations and the economies.
pub fn check_formations(
    units: &Vec<SimulationUnit>,
    policies: Vec<RuntimeUnitPolicy>,
    territory: &TerritoryControl,
    shares: RefusalShares,
    strategic: &StrategicState,
    commands: &Result<BTreeMap<u64, ResolvedCommandPolicy>, KernelFault>,
) -> (outcome: Result<BTreeMap<u64, RuntimeUnitPolicy>, RuntimeError>)
    requires
        territory.well_formed(),
    ensures
        ({
            let expected = starting_policies(
                units@,
                views(policies@),
                *territory,
                shares,
                *strategic,
                commands_resolved(*commands),
            );
            match outcome {
                Ok(table) => expected == Ok::<Policies, RuntimeError>(policies_view(table@)),
                Err(error) => expected == Err::<Policies, RuntimeError>(error),
            }
        }),
{
    let ghost listed = views(policies@);
    assert(listed.len() == policies@.len());
    let mut table = match collect_unit_policies(units, policies, territory, shares) {
        Ok(table) => table,
        Err(error) => {
            return Err(error);
        },
    };
    let ghost start = policies_view(table@);
    assert(start == policy_table(listed, listed.len()));
    if territory.influence_runtime && find_seedless(&table, units) {
        return Err(
            RuntimeError::InvalidCheckpoint(
                "influence runtime requires a temporal seed for every live formation",
            ),
        );
    }
    let missing = homes_missing(&table);
    proof {
        assert(missing == some_home_missing(start)) by {
            if missing {
                let id = choose|id: u64|
                    table@.contains_key(id) && lacks_home(#[trigger] table@[id]@);
                assert(start.contains_key(id) && start[id] == table@[id]@);
            }
            if some_home_missing(start) {
                let id = choose|id: u64| start.contains_key(id) && lacks_home(#[trigger] start[id]);
                assert(table@.contains_key(id) && start[id] == table@[id]@);
            }
        }
    }
    if missing {
        match command_unit_states(units, &table) {
            Err(error) => {
                return Err(error);
            },
            Ok(_) => {},
        }
        match commands {
            Err(fault) => {
                return Err(RuntimeError::Command(*fault));
            },
            Ok(resolved) => {
                hydrate_missing_command_home_targets(&mut table, resolved);
            },
        }
    }
    match validate_command_checkpoint(units, &table, strategic) {
        Err(error) => Err(error),
        Ok(_) => Ok(table),
    }
}

/// The first formation from a place on whose supply collapsed after a tick.
pub open spec fn collapsed_later(
    memories: Map<u64, BattlefieldUnitState>,
    keys: Seq<u64>,
    tick: u64,
    from: int,
) -> Option<u64>
    decreases keys.len() - from,
{
    if from < 0 || from >= keys.len() {
        None
    } else if memories[keys[from]].supply_collapsed_tick matches Some(collapse) && collapse
        > tick {
        Some(keys[from])
    } else {
        collapsed_later(memories, keys, tick, from + 1)
    }
}

fn find_collapsed_later(memories: &BTreeMap<u64, BattlefieldUnitState>, tick: u64) -> (found: Option<
    u64,
>)
    ensures
        found == collapsed_later(memories@, ascending(memories@.dom()), tick, 0),
{
    broadcast use vstd::std_specs::btree::group_btree_axioms;

    let keys = formation_keys(memories);
    proof {
        lemma_only_ascending(keys@);
    }
    let mut at: usize = 0;
    while at < keys.len()
        invariant
            at <= keys@.len(),
            keys@.to_set() == memories@.dom(),
            keys@ == ascending(memories@.dom()),
            collapsed_later(memories@, keys@, tick, 0) == collapsed_later(
                memories@,
                keys@,
                tick,
                at as int,
            ),
        decreases keys@.len() - at,
    {
        broadcast use vstd::std_specs::btree::group_btree_axioms;

        let id: u64 = keys[at];
        assert(keys@.to_set().contains(id));
        if let Some(collapse) = memories.get(&id).unwrap().supply_collapsed_tick {
            if collapse > tick {
                return Some(id);
            }
        }
        at = at + 1;
    }
    None
}

/// What a checkpoint remembers of earlier ticks.
pub ghost struct HistoryScope {
    pub tick: u64,
    pub units: Seq<SimulationUnit>,
    pub countries: Seq<ProductionCountry>,
    pub side_count: usize,
    pub memories: Option<Map<u64, BattlefieldUnitState>>,
    pub battlefield: Result<(), KernelFault>,
    pub objectives: Seq<FrontObjective>,
    pub priors: Map<u64, u64>,
    pub front_priors: Map<u64, crate::runtime::planning::PriorModel>,
    pub last_refresh: Option<u64>,
    pub casualties: Map<u16, Real>,
    pub ledger: crate::casualties::Ledger,
    pub reserves: Map<usize, Real>,
    pub dynamics: Option<Map<usize, SideDynamics>>,
    pub sound: Seq<bool>,
}

/// What is wrong with the memory of earlier ticks.
pub open spec fn history_fault(scope: HistoryScope) -> Option<RuntimeError> {
    let later = match scope.memories {
        Some(memories) => collapsed_later(memories, ascending(memories.dom()), scope.tick, 0),
        None => None,
    };
    let planner = front_planner_fault(
        scope.tick,
        scope.units,
        scope.objectives,
        scope.front_priors,
        scope.last_refresh,
    );
    if scope.memories is Some && scope.battlefield is Err {
        Some(RuntimeError::Battlefield(scope.battlefield->Err_0))
    } else if later is Some {
        Some(RuntimeError::InvalidBattlefieldUnitState(later->Some_0))
    } else if !assignments_valid(scope.units, scope.objectives, scope.priors) {
        Some(
            RuntimeError::InvalidCheckpoint(
                "prior front assignments reference missing units or objectives",
            ),
        )
    } else if planner is Some {
        planner
    } else if !toll_valid(scope.countries, scope.casualties, None) {
        Some(RuntimeError::InvalidCheckpoint("invalid casualty ledger"))
    } else if !ledger_valid(scope.countries, scope.ledger) {
        Some(RuntimeError::InvalidCheckpoint("invalid victim-to-attacker casualty ledger"))
    } else if !reserves_valid(scope.reserves, scope.side_count) {
        Some(
            RuntimeError::InvalidCheckpoint(
                "personnel reserves must exactly cover the stable side topology",
            ),
        )
    } else if scope.dynamics matches Some(table) && !dynamics_valid(
        table,
        scope.sound,
        scope.side_count,
    ) {
        Some(
            RuntimeError::InvalidCheckpoint(
                "side dynamics must exactly cover the stable side topology",
            ),
        )
    } else {
        None
    }
}

/// Holds the memory of earlier ticks against the formations, countries and sides. What the
/// battlefield remembers and how momentum stands is the kernels' to judge first.
pub fn check_history(
    tick: u64,
    units: &Vec<SimulationUnit>,
    countries: &Vec<ProductionCountry>,
    side_count: usize,
    memories: Option<&BTreeMap<u64, BattlefieldUnitState>>,
    battlefield: Result<(), KernelFault>,
    objectives: &Vec<FrontObjective>,
    priors: &BTreeMap<u64, u64>,
    front_priors: &BTreeMap<u64, FrontLayoutPrior>,
    last_refresh: Option<u64>,
    casualties: &BTreeMap<u16, Real>,
    ledger: &BTreeMap<u16, BTreeMap<u16, Real>>,
    reserves: &BTreeMap<usize, Real>,
    dynamics: Option<&BTreeMap<usize, SideDynamics>>,
    sound: &Vec<bool>,
) -> (verdict: Result<(), RuntimeError>)
    requires
        sound@.len() == side_count,
    ensures
        ({
            let fault = history_fault(
                HistoryScope {
                    tick,
                    units: units@,
                    countries: countries@,
                    side_count,
                    memories: crate::runtime::planning::optional_map(memories),
                    battlefield,
                    objectives: objectives@,
                    priors: priors@,
                    front_priors: priors_view(front_priors@),
                    last_refresh,
                    casualties: casualties@,
                    ledger: ledger_view(ledger@),
                    reserves: reserves@,
                    dynamics: crate::runtime::planning::optional_map(dynamics),
                    sound: sound@,
                },
            );
            match verdict {
                Ok(_) => fault is None,
                Err(error) => fault == Some(error),
            }
        }),
{
    if let Some(table) = memories {
        if let Err(fault) = battlefield {
            return Err(RuntimeError::Battlefield(fault));
        }
        if let Some(id) = find_collapsed_later(table, tick) {
            return Err(RuntimeError::InvalidBattlefieldUnitState(id));
        }
    }
    if let Err(error) = validate_prior_assignments(units, objectives, priors) {
        return Err(error);
    }
    if let Err(error) = validate_front_planner_state(
        tick,
        units,
        objectives,
        front_priors,
        last_refresh,
    ) {
        return Err(error);
    }
    if let Err(error) = validate_casualties(casualties, countries) {
        return Err(error);
    }
    if let Err(error) = validate_casualties_by_victim(ledger, countries) {
        return Err(error);
    }
    if let Err(error) = validate_personnel_reserves(reserves, side_count) {
        return Err(error);
    }
    validate_side_dynamics_state(dynamics, sound, side_count)
}

/// What is wrong with the air power of a checkpoint.
pub open spec fn air_fault(
    has_execution: bool,
    air: Option<AirModel>,
    verdict: Result<(), KernelFault>,
    country_to_side: Map<u16, usize>,
    economies: Map<u16, EconomyState>,
    side_count: usize,
) -> Option<RuntimeError> {
    if has_execution != (air is Some) {
        Some(
            RuntimeError::InvalidCheckpoint(
                "operational execution and air power must be restored together",
            ),
        )
    } else {
        match air {
            None => None,
            Some(state) => if verdict is Err {
                Some(RuntimeError::Air(verdict->Err_0))
            } else if !air_topology_valid(state, country_to_side, side_count)
                || country_to_side.dom() != economies.dom() {
                Some(
                    RuntimeError::InvalidCheckpoint(
                        "air power disagrees with the stable country and side topology",
                    ),
                )
            } else {
                None
            },
        }
    }
}

/// Holds air power against the countries, sides and economies.
pub fn check_air(
    has_execution: bool,
    air: Option<&AirPowerState>,
    verdict: Result<(), KernelFault>,
    country_to_side: &BTreeMap<u16, usize>,
    economies: &BTreeMap<u16, EconomyState>,
    side_count: usize,
) -> (outcome: Result<(), RuntimeError>)
    ensures
        ({
            let fault = air_fault(
                has_execution,
                match air {
                    Some(state) => Some(state@),
                    None => None,
                },
                verdict,
                country_to_side@,
                economies@,
                side_count,
            );
            match outcome {
                Ok(_) => fault is None,
                Err(error) => fault == Some(error),
            }
        }),
{
    if has_execution != air.is_some() {
        return Err(
            RuntimeError::InvalidCheckpoint(
                "operational execution and air power must be restored together",
            ),
        );
    }
    if let Some(state) = air {
        if let Err(fault) = verdict {
            return Err(RuntimeError::Air(fault));
        }
        if validate_air_topology(state, country_to_side, side_count).is_err() || !same_countries(
            country_to_side,
            economies,
        ) {
            return Err(
                RuntimeError::InvalidCheckpoint(
                    "air power disagrees with the stable country and side topology",
                ),
            );
        }
    }
    Ok(())
}

/// The largest id among the first wings, or zero.
pub open spec fn largest_wing(wings: Seq<AirWing>, count: nat) -> u64
    decreases count,
{
    if count == 0 {
        0
    } else {
        let rest = largest_wing(wings, (count - 1) as nat);
        if wings[count - 1].id > rest {
            wings[count - 1].id
        } else {
            rest
        }
    }
}

fn find_largest_wing(wings: &Vec<AirWing>) -> (largest: u64)
    ensures
        largest == largest_wing(wings@, wings@.len()),
{
    let mut largest: u64 = 0;
    let mut at: usize = 0;
    while at < wings.len()
        invariant
            at <= wings@.len(),
            largest == largest_wing(wings@, at as nat),
        decreases wings@.len() - at,
    {
        if wings[at].id > largest {
            largest = wings[at].id;
        }
        at = at + 1;
    }
    largest
}

/// What becomes of the reinforcement state of a checkpoint.
pub open spec fn reinforcement_outfitted(
    given: Option<ReinforcementState>,
    air: Option<AirPowerState>,
    verdict: Result<(), KernelFault>,
    units: Seq<SimulationUnit>,
    country_to_side: Map<u16, usize>,
    side_count: usize,
    outcome: Result<Option<ReinforcementState>, RuntimeError>,
) -> bool {
    let last_unit = largest_id(units, units.len());
    match (given, air) {
        (None, None) => outcome == Ok::<Option<ReinforcementState>, RuntimeError>(None),
        (Some(_), None) => outcome == Err::<Option<ReinforcementState>, RuntimeError>(
            RuntimeError::InvalidCheckpoint("reinforcement state requires air power"),
        ),
        (Some(state), Some(power)) => outcome == (match state.fault(
            power@,
            verdict,
            country_to_side,
            side_count,
        ) {
            Some(fault) => Err::<Option<ReinforcementState>, RuntimeError>(
                RuntimeError::Reinforcement(fault),
            ),
            None => if units.len() > 0 && last_unit >= state.next_unit_id {
                Err(
                    RuntimeError::InvalidCheckpoint(
                        "next formation ID must exceed every issued live ID",
                    ),
                )
            } else {
                Ok(Some(state))
            },
        }),
        (None, Some(power)) => {
            let last_wing = largest_wing(power.wings@, power.wings@.len());
            if last_unit == u64::MAX {
                outcome == Err::<Option<ReinforcementState>, RuntimeError>(
                    RuntimeError::InvalidCheckpoint("unit ID allocator overflowed"),
                )
            } else if last_wing == u64::MAX {
                outcome == Err::<Option<ReinforcementState>, RuntimeError>(
                    RuntimeError::InvalidCheckpoint("air-wing ID allocator overflowed"),
                )
            } else {
                let next_unit = (last_unit + 1) as u64;
                let next_wing = (last_wing + 1) as u64;
                match outcome {
                    Ok(made) => made matches Some(state) && first_reinforcement(
                        state,
                        power@,
                        next_unit,
                        next_wing,
                        country_to_side,
                    ) && state.fault(power@, verdict, country_to_side, side_count) is None,
                    Err(error) => error matches RuntimeError::Reinforcement(cause)
                        && reinforcement_refused(
                        power@,
                        verdict,
                        next_unit,
                        next_wing,
                        country_to_side,
                        side_count,
                        cause,
                    ),
                }
            }
        },
    }
}

/// Holds the reinforcement state against its world, or makes a first one where there is air power
/// but no state.
pub fn outfit_reinforcement(
    given: Option<ReinforcementState>,
    air: Option<&AirPowerState>,
    verdict: Result<(), KernelFault>,
    units: &Vec<SimulationUnit>,
    country_to_side: &BTreeMap<u16, usize>,
    side_count: usize,
) -> (outcome: Result<Option<ReinforcementState>, RuntimeError>)
    ensures
        reinforcement_outfitted(
            given,
            match air {
                Some(power) => Some(*power),
                None => None,
            },
            verdict,
            units@,
            country_to_side@,
            side_count,
            outcome,
        ),
{
    let last_unit: u64 = find_largest_id(units);
    match air {
        None => match given {
            None => Ok(None),
            Some(_) => Err(
                RuntimeError::InvalidCheckpoint("reinforcement state requires air power"),
            ),
        },
        Some(power) => match given {
            Some(state) => {
                match state.validate(power, verdict, country_to_side, side_count) {
                    Err(fault) => {
                        return Err(RuntimeError::Reinforcement(fault));
                    },
                    Ok(_) => {},
                }
                if units.len() > 0 && last_unit >= state.next_unit_id {
                    return Err(
                        RuntimeError::InvalidCheckpoint(
                            "next formation ID must exceed every issued live ID",
                        ),
                    );
                }
                Ok(Some(state))
            },
            None => {
                let last_wing: u64 = find_largest_wing(&power.wings);
                if last_unit == 0xffff_ffff_ffff_ffff {
                    return Err(RuntimeError::InvalidCheckpoint("unit ID allocator overflowed"));
                }
                if last_wing == 0xffff_ffff_ffff_ffff {
                    return Err(
                        RuntimeError::InvalidCheckpoint("air-wing ID allocator overflowed"),
                    );
                }
                match bootstrap_reinforcement_state(
                    power,
                    verdict,
                    last_unit + 1,
                    last_wing + 1,
                    country_to_side,
                    side_count,
                ) {
                    Err(error) => {
                        Err(RuntimeError::Reinforcement(error))
                    },
                    Ok(state) => Ok(Some(state)),
                }
            },
        },
    }
}

/// What becomes of the logistics state of a checkpoint.
pub open spec fn material_outfitted(
    results: Map<Operation, u64>,
    given: Option<MaterialLogisticsState>,
    has_reinforcement: bool,
    units: Seq<SimulationUnit>,
    countries: Seq<ProductionCountry>,
    economies: Map<u16, EconomyState>,
    country_to_side: Map<u16, usize>,
    side_count: usize,
    outcome: Result<Option<MaterialLogisticsState>, RuntimeError>,
) -> bool {
    match given {
        Some(state) => outcome == (if !has_reinforcement {
            Err::<Option<MaterialLogisticsState>, RuntimeError>(
                RuntimeError::InvalidCheckpoint(
                    "material logistics requires reinforcement state",
                ),
            )
        } else {
            match state.fault(units, country_to_side, side_count) {
                Some(fault) => Err(RuntimeError::Reinforcement(fault)),
                None => Ok(Some(state)),
            }
        }),
        None => if !has_reinforcement {
            outcome == Ok::<Option<MaterialLogisticsState>, RuntimeError>(None)
        } else {
            match armor_profiles(
                results,
                units,
                countries,
                economies,
                country_to_side,
            ) {
                Err(error) => outcome == Err::<Option<MaterialLogisticsState>, RuntimeError>(
                    error,
                ),
                Ok(profiles) => match outcome {
                    Ok(made) => made matches Some(state) && first_logistics(
                        state,
                        units,
                        profiles,
                        country_to_side,
                    ) && state.fault(units, country_to_side, side_count) is None,
                    Err(error) => error matches RuntimeError::Reinforcement(cause)
                        && logistics_refused(
                        units,
                        profiles,
                        country_to_side,
                        side_count,
                        cause,
                    ),
                },
            }
        },
    }
}

/// Holds the logistics state against its world, or makes a first one where there is reinforcement
/// but no logistics.
pub fn outfit_material(
    given: Option<MaterialLogisticsState>,
    has_reinforcement: bool,
    units: &Vec<SimulationUnit>,
    countries: &Vec<ProductionCountry>,
    economies: &BTreeMap<u16, EconomyState>,
    country_to_side: &BTreeMap<u16, usize>,
    side_count: usize,
    reader: &mut Reader<'_>,
) -> (outcome: Result<Option<MaterialLogisticsState>, RuntimeError>)
    requires
        old(reader).sound(),
    ensures
        final(reader)@ == old(reader)@,
        final(reader).sound(),
        final(reader).complete() ==> old(reader).complete() && material_outfitted(
            old(reader)@,
            given,
            has_reinforcement,
            units@,
            countries@,
            economies@,
            country_to_side@,
            side_count,
            outcome,
        ),
        old(reader).complete() && (given is None && has_reinforcement ==> profiles_supplied(
            old(reader)@,
            units@,
            countries@,
            economies@,
            ascending(country_to_side@.dom()),
        )) ==> final(reader).complete(),
{
    match given {
        Some(state) => {
            if !has_reinforcement {
                return Err(
                    RuntimeError::InvalidCheckpoint(
                        "material logistics requires reinforcement state",
                    ),
                );
            }
            match state.validate(units.as_slice(), country_to_side, side_count) {
                Err(fault) => Err(RuntimeError::Reinforcement(fault)),
                Ok(_) => Ok(Some(state)),
            }
        },
        None => {
            if !has_reinforcement {
                return Ok(None);
            }
            let profiles = match material_armor_profiles(
                units,
                countries,
                economies,
                country_to_side,
                reader,
            ) {
                Err(error) => {
                    return Err(error);
                },
                Ok(profiles) => profiles,
            };
            match MaterialLogisticsState::bootstrap(
                units.as_slice(),
                &profiles,
                country_to_side,
                side_count,
            ) {
                Err(error) => {
                    Err(RuntimeError::Reinforcement(error))
                },
                Ok(state) => Ok(Some(state)),
            }
        },
    }
}

/// The side of each of the first formations.
pub open spec fn formation_sides(units: Seq<SimulationUnit>, count: nat) -> Map<u64, usize>
    decreases count,
{
    if count == 0 {
        Map::empty()
    } else {
        formation_sides(units, (count - 1) as nat).insert(
            units[count - 1].combat.id,
            units[count - 1].combat.side as usize,
        )
    }
}

/// Whether a side knows exactly its declared enemies.
pub open spec fn enemies_agree(side: SideModel, hostility: Seq<u8>, side_count: usize) -> bool {
    side.hostile_side_indices == enemies_below(
        hostility,
        side_count,
        side.side_index as int,
        side_count as nat,
    )
}

/// What is wrong with the operations of a checkpoint.
pub open spec fn operations_boundary_fault(
    operations: Option<OperationsModel>,
    units: Seq<SimulationUnit>,
    countries: Seq<ProductionCountry>,
    hostility: Seq<u8>,
    side_count: usize,
    tick: u64,
) -> Option<RuntimeError> {
    match operations {
        None => None,
        Some(state) => match operations_fault(
            state,
            OperationsScope {
                side_count,
                live_units: formation_sides(units, units.len()),
                countries: country_ids(countries, countries.len()),
                tick,
                next_sequence: state.next_override_sequence,
            },
        ) {
            Some(fault) => Some(RuntimeError::Operational(fault)),
            None => if exists|i: int|
                0 <= i < state.sides.len() && !enemies_agree(
                    #[trigger] state.sides[i],
                    hostility,
                    side_count,
                ) {
                Some(
                    RuntimeError::InvalidCheckpoint(
                        "operational intel hostility disagrees with runtime diplomacy",
                    ),
                )
            } else {
                None
            },
        },
    }
}

fn index_formation_sides(units: &Vec<SimulationUnit>) -> (table: BTreeMap<u64, usize>)
    ensures
        table@ == formation_sides(units@, units@.len()),
{
    broadcast use vstd::std_specs::btree::group_btree_axioms;

    let mut table: BTreeMap<u64, usize> = BTreeMap::new();
    let mut at: usize = 0;
    while at < units.len()
        invariant
            at <= units@.len(),
            table@ == formation_sides(units@, at as nat),
        decreases units@.len() - at,
    {
        broadcast use vstd::std_specs::btree::group_btree_axioms;

        table.insert(units[at].combat.id, units[at].combat.side as usize);
        at = at + 1;
    }
    table
}

fn knows_enemies(known: &Vec<usize>, hostility: &Vec<u8>, side_count: usize, side: usize) -> (answer:
    bool)
    ensures
        answer == (known@ == enemies_below(
            hostility@,
            side_count,
            side as int,
            side_count as nat,
        )),
{
    let mut enemies: Vec<usize> = Vec::new();
    let mut other: usize = 0;
    while other < side_count
        invariant
            other <= side_count,
            enemies@ == enemies_below(hostility@, side_count, side as int, other as nat),
        decreases side_count - other,
    {
        if is_declared_hostile(hostility.as_slice(), side_count, side, other) {
            enemies.push(other);
        }
        other = other + 1;
    }
    if known.len() != enemies.len() {
        return false;
    }
    let mut at: usize = 0;
    while at < known.len()
        invariant
            at <= known@.len(),
            known@.len() == enemies@.len(),
            forall|i: int| 0 <= i < at ==> known@[i] == enemies@[i],
            enemies@ == enemies_below(
                hostility@,
                side_count,
                side as int,
                side_count as nat,
            ),
        decreases known@.len() - at,
    {
        if known[at] != enemies[at] {
            return false;
        }
        at = at + 1;
    }
    assert(known@ =~= enemies@);
    true
}

/// Holds operations against the formations, countries and declared enemies.
pub fn check_operations(
    operations: Option<&OperationalRuntimeState>,
    units: &Vec<SimulationUnit>,
    countries: &Vec<ProductionCountry>,
    hostility: &Vec<u8>,
    side_count: usize,
    tick: u64,
) -> (verdict: Result<(), RuntimeError>)
    ensures
        ({
            let fault = operations_boundary_fault(
                match operations {
                    Some(state) => Some(state@),
                    None => None,
                },
                units@,
                countries@,
                hostility@,
                side_count,
                tick,
            );
            match verdict {
                Ok(_) => fault is None,
                Err(error) => fault == Some(error),
            }
        }),
{
    let state: &OperationalRuntimeState = match operations {
        None => {
            return Ok(());
        },
        Some(state) => state,
    };
    let live = index_formation_sides(units);
    let ids = list_countries(countries);
    match state.validate(side_count, &live, &ids, tick) {
        Err(fault) => {
            return Err(RuntimeError::Operational(fault));
        },
        Ok(_) => {},
    }
    let mut at: usize = 0;
    while at < state.sides.len()
        invariant
            at <= state.sides@.len(),
            operations == Some(state),
            operations_fault(
                state@,
                OperationsScope {
                    side_count,
                    live_units: formation_sides(units@, units@.len()),
                    countries: country_ids(countries@, countries@.len()),
                    tick,
                    next_sequence: state@.next_override_sequence,
                },
            ) is None,
            forall|i: int|
                0 <= i < at ==> enemies_agree(
                    #[trigger] state@.sides[i],
                    hostility@,
                    side_count,
                ),
        decreases state.sides@.len() - at,
    {
        let side = &state.sides[at];
        assert(state@.sides[at as int] == side@);
        if !knows_enemies(&side.hostile_side_indices, hostility, side_count, side.side_index) {
            assert(!enemies_agree(state@.sides[at as int], hostility@, side_count));
            return Err(
                RuntimeError::InvalidCheckpoint(
                    "operational intel hostility disagrees with runtime diplomacy",
                ),
            );
        }
        at = at + 1;
    }
    Ok(())
}

/// Whether naval planning has everything that it needs.
pub fn check_naval(
    has_naval: bool,
    has_operations: bool,
    has_execution: bool,
    has_air: bool,
    verdict: Result<(), KernelFault>,
) -> (outcome: Result<(), RuntimeError>)
    ensures
        outcome == (if has_naval && !(has_operations && has_execution && has_air) {
            Err::<(), RuntimeError>(
                RuntimeError::InvalidCheckpoint(
                    "naval planning requires operational AI, execution, and air state",
                ),
            )
        } else {
            match verdict {
                Err(fault) if has_naval => Err(RuntimeError::NavalPlanning(fault)),
                _ => Ok(()),
            }
        }),
{
    if has_naval && !(has_operations && has_execution && has_air) {
        return Err(
            RuntimeError::InvalidCheckpoint(
                "naval planning requires operational AI, execution, and air state",
            ),
        );
    }
    match verdict {
        Err(fault) => if has_naval {
            Err(RuntimeError::NavalPlanning(fault))
        } else {
            Ok(())
        },
        Ok(_) => Ok(()),
    }
}

/// How a runtime stands.
#[derive(Clone, Copy, Debug, PartialEq, Eq, Structural)]
pub enum RuntimeState {
    Running,
    AwaitingStrategicEffects {
        cycle: u64,
        tick: u64,
        desertion_commands: usize,
        surrender_commands: usize,
        conflict_resolution: bool,
    },
    /// The war is over. What was published last stays, and no later tick is valid.
    ConflictResolved { cycle: u64, tick: u64, resolution: ConflictResolutionPlan },
    /// Something failed after the world had changed. Nothing new was published, and no later tick
    /// is valid.
    Poisoned,
}

/// How a runtime stands at first, by the last strategic cycle.
pub open spec fn first_state(snapshot: Option<StrategicSnapshot>, tick: u64) -> Result<
    RuntimeState,
    RuntimeError,
> {
    match snapshot {
        None => Ok(RuntimeState::Running),
        Some(last) => if last.tick > tick {
            Err(
                RuntimeError::InvalidCheckpoint(
                    "strategic snapshot is newer than the runtime clock",
                ),
            )
        } else {
            Ok(
                match last.conflict_resolution {
                    Some(resolution) => RuntimeState::ConflictResolved {
                        cycle: last.cycle,
                        tick: last.tick,
                        resolution,
                    },
                    None => if last.desertions@.len() == 0 && last.surrenders@.len() == 0 {
                        RuntimeState::Running
                    } else {
                        RuntimeState::AwaitingStrategicEffects {
                            cycle: last.cycle,
                            tick: last.tick,
                            desertion_commands: last.desertions@.len() as usize,
                            surrender_commands: last.surrenders@.len() as usize,
                            conflict_resolution: false,
                        }
                    },
                },
            )
        },
    }
}

/// How a runtime stands at first.
pub fn initial_state(snapshot: Option<&StrategicSnapshot>, tick: u64) -> (state: Result<
    RuntimeState,
    RuntimeError,
>)
    ensures
        state == first_state(
            match snapshot {
                Some(last) => Some(*last),
                None => None,
            },
            tick,
        ),
{
    match snapshot {
        None => Ok(RuntimeState::Running),
        Some(last) => {
            if last.tick > tick {
                return Err(
                    RuntimeError::InvalidCheckpoint(
                        "strategic snapshot is newer than the runtime clock",
                    ),
                );
            }
            match last.conflict_resolution {
                Some(resolution) => Ok(
                    RuntimeState::ConflictResolved {
                        cycle: last.cycle,
                        tick: last.tick,
                        resolution,
                    },
                ),
                None => if last.desertions.len() == 0 && last.surrenders.len() == 0 {
                    Ok(RuntimeState::Running)
                } else {
                    Ok(
                        RuntimeState::AwaitingStrategicEffects {
                            cycle: last.cycle,
                            tick: last.tick,
                            desertion_commands: last.desertions.len(),
                            surrender_commands: last.surrenders.len(),
                            conflict_resolution: false,
                        },
                    )
                },
            }
        },
    }
}

} // verus!
