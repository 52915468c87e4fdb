//! What a tick amounted to, in numbers.

use std::collections::BTreeMap;
use vstd::prelude::*;
use crate::casualties::{AirAdvanceOutcome, DamageOutcome, DamageResult, WingLoss};
use crate::paycycle::{
    AirPayCycleOutcome, CountryAirPayCycleOutcome, CountryMaterialPayCycleOutcome,
    MaterialPayCycleOutcome,
};
use crate::runtime::battlefield::BattlefieldUnitResult;
use crate::settlement::AirWingCreationOutcome;
use crate::simulation::{zero_tick_counters, TickCounters};
use crate::strategic::{StrategicDerivationCounters, TerritorySnapshot};

verus! {

/// How far the census came.
#[derive(Clone, Copy, Debug, PartialEq, Eq, Structural)]
pub struct RuntimeCensusCounters {
    pub processed_items: usize,
    pub committed: bool,
    pub flushed_for_strategic_cycle: bool,
    pub territory_generation: u64,
    pub territory_commit_sequence: u64,
}

/// Nothing counted.
pub open spec fn no_census() -> RuntimeCensusCounters {
    RuntimeCensusCounters {
        processed_items: 0,
        committed: false,
        flushed_for_strategic_cycle: false,
        territory_generation: 0,
        territory_commit_sequence: 0,
    }
}

impl Default for RuntimeCensusCounters {
    fn default() -> (counters: Self)
        ensures
            counters == no_census(),
    {
        RuntimeCensusCounters {
            processed_items: 0,
            committed: false,
            flushed_for_strategic_cycle: false,
            territory_generation: 0,
            territory_commit_sequence: 0,
        }
    }
}

/// How far influence spread.
#[derive(Clone, Copy, Debug, PartialEq, Eq, Structural)]
pub struct RuntimeInfluenceCounters {
    pub sources: usize,
    pub cohort: Option<u8>,
    pub application_budget: usize,
    pub diffusion_budget: usize,
    pub diffusion_processed_items: usize,
    pub diffusion_stale_entries: usize,
    pub processed_source_cells: usize,
    pub touched_influence_cells: usize,
    pub changed_controller_cells: usize,
    pub changed_credit_cells: usize,
}

/// Nothing counted.
pub open spec fn no_influence() -> RuntimeInfluenceCounters {
    RuntimeInfluenceCounters {
        sources: 0,
        cohort: None,
        application_budget: 0,
        diffusion_budget: 0,
        diffusion_processed_items: 0,
        diffusion_stale_entries: 0,
        processed_source_cells: 0,
        touched_influence_cells: 0,
        changed_controller_cells: 0,
        changed_credit_cells: 0,
    }
}

impl Default for RuntimeInfluenceCounters {
    fn default() -> (counters: Self)
        ensures
            counters == no_influence(),
    {
        RuntimeInfluenceCounters {
            sources: 0,
            cohort: None,
            application_budget: 0,
            diffusion_budget: 0,
            diffusion_processed_items: 0,
            diffusion_stale_entries: 0,
            processed_source_cells: 0,
            touched_influence_cells: 0,
            changed_controller_cells: 0,
            changed_credit_cells: 0,
        }
    }
}

/// What attrition took.
#[derive(Clone, Copy, Debug, PartialEq, Eq, Structural)]
pub struct RuntimeAttritionCounters {
    pub damaged_units: usize,
    pub removed_units: usize,
    pub personnel_loss: u64,
    pub equipment_loss: u64,
    pub supply_collapses: usize,
    pub exiled_units: usize,
    pub recovered_personnel: u64,
}

/// Nothing counted.
pub open spec fn no_attrition() -> RuntimeAttritionCounters {
    RuntimeAttritionCounters {
        damaged_units: 0,
        removed_units: 0,
        personnel_loss: 0,
        equipment_loss: 0,
        supply_collapses: 0,
        exiled_units: 0,
        recovered_personnel: 0,
    }
}

impl Default for RuntimeAttritionCounters {
    fn default() -> (counters: Self)
        ensures
            counters == no_attrition(),
    {
        RuntimeAttritionCounters {
            damaged_units: 0,
            removed_units: 0,
            personnel_loss: 0,
            equipment_loss: 0,
            supply_collapses: 0,
            exiled_units: 0,
            recovered_personnel: 0,
        }
    }
}

/// What the air war did.
#[derive(Clone, Copy, Debug, PartialEq, Eq, Structural)]
pub struct RuntimeAirCounters {
    pub updated: bool,
    pub missions_selected: u32,
    pub interceptions_completed: u32,
    pub strikes_completed: u32,
    pub wings_destroyed: u32,
    pub airfield_captures: usize,
    pub damaged_land_units: usize,
    pub aircraft_loss: u64,
    pub personnel_loss: u64,
    pub equipment_loss: u64,
}

/// Nothing counted.
pub open spec fn no_air_war() -> RuntimeAirCounters {
    RuntimeAirCounters {
        updated: false,
        missions_selected: 0,
        interceptions_completed: 0,
        strikes_completed: 0,
        wings_destroyed: 0,
        airfield_captures: 0,
        damaged_land_units: 0,
        aircraft_loss: 0,
        personnel_loss: 0,
        equipment_loss: 0,
    }
}

impl Default for RuntimeAirCounters {
    fn default() -> (counters: Self)
        ensures
            counters == no_air_war(),
    {
        RuntimeAirCounters {
            updated: false,
            missions_selected: 0,
            interceptions_completed: 0,
            strikes_completed: 0,
            wings_destroyed: 0,
            airfield_captures: 0,
            damaged_land_units: 0,
            aircraft_loss: 0,
            personnel_loss: 0,
            equipment_loss: 0,
        }
    }
}

/// What was raised and bought.
#[derive(Clone, Copy, Debug, PartialEq, Eq, Structural)]
pub struct RuntimeReinforcementCounters {
    pub recruited_units: usize,
    pub recruited_personnel: u64,
    pub aircraft_purchased: u64,
    pub aircraft_reinforced: u64,
    pub air_wings_created: u64,
    pub armor_purchased: u64,
    pub armor_reinforced: u64,
    pub armor_formations_created: u64,
    pub airfields_repaired: u64,
    pub aircraft_evacuated: u64,
    pub aircraft_lost_on_capitulation: u64,
}

/// Nothing counted.
pub open spec fn no_reinforcement() -> RuntimeReinforcementCounters {
    RuntimeReinforcementCounters {
        recruited_units: 0,
        recruited_personnel: 0,
        aircraft_purchased: 0,
        aircraft_reinforced: 0,
        air_wings_created: 0,
        armor_purchased: 0,
        armor_reinforced: 0,
        armor_formations_created: 0,
        airfields_repaired: 0,
        aircraft_evacuated: 0,
        aircraft_lost_on_capitulation: 0,
    }
}

impl Default for RuntimeReinforcementCounters {
    fn default() -> (counters: Self)
        ensures
            counters == no_reinforcement(),
    {
        RuntimeReinforcementCounters {
            recruited_units: 0,
            recruited_personnel: 0,
            aircraft_purchased: 0,
            aircraft_reinforced: 0,
            air_wings_created: 0,
            armor_purchased: 0,
            armor_reinforced: 0,
            armor_formations_created: 0,
            airfields_repaired: 0,
            aircraft_evacuated: 0,
            aircraft_lost_on_capitulation: 0,
        }
    }
}

/// What missiles did.
#[derive(Clone, Copy, Debug, PartialEq, Eq, Structural)]
pub struct RuntimeMissileCounters {
    pub launches: usize,
    pub impacts: usize,
    pub damaged_units: usize,
    pub removed_units: usize,
    pub personnel_loss: u64,
    pub equipment_loss: u64,
}

/// Nothing counted.
pub open spec fn no_missiles() -> RuntimeMissileCounters {
    RuntimeMissileCounters {
        launches: 0,
        impacts: 0,
        damaged_units: 0,
        removed_units: 0,
        personnel_loss: 0,
        equipment_loss: 0,
    }
}

impl Default for RuntimeMissileCounters {
    fn default() -> (counters: Self)
        ensures
            counters == no_missiles(),
    {
        RuntimeMissileCounters {
            launches: 0,
            impacts: 0,
            damaged_units: 0,
            removed_units: 0,
            personnel_loss: 0,
            equipment_loss: 0,
        }
    }
}

/// How formations were assigned.
#[derive(Clone, Copy, Debug, PartialEq, Eq, Structural)]
pub struct AiPlanningCounters {
    pub input_units: usize,
    pub front_assignments: usize,
    pub sticky_assignments: usize,
    pub reinforcement_assignments: usize,
    pub contact_orders: usize,
    pub retreat_orders: usize,
    pub field_orders: usize,
    pub hold_orders: usize,
}

/// Nothing counted.
pub open spec fn no_planning() -> AiPlanningCounters {
    AiPlanningCounters {
        input_units: 0,
        front_assignments: 0,
        sticky_assignments: 0,
        reinforcement_assignments: 0,
        contact_orders: 0,
        retreat_orders: 0,
        field_orders: 0,
        hold_orders: 0,
    }
}

impl Default for AiPlanningCounters {
    fn default() -> (counters: Self)
        ensures
            counters == no_planning(),
    {
        AiPlanningCounters {
            input_units: 0,
            front_assignments: 0,
            sticky_assignments: 0,
            reinforcement_assignments: 0,
            contact_orders: 0,
            retreat_orders: 0,
            field_orders: 0,
            hold_orders: 0,
        }
    }
}

/// What naval planning originated.
#[derive(Clone, Copy, Debug, PartialEq, Eq, Structural)]
pub struct NavalPlanningCounters {
    pub evaluated_plans: usize,
    pub created_operations: usize,
}

/// Nothing counted.
pub open spec fn no_naval_planning() -> NavalPlanningCounters {
    NavalPlanningCounters {
        evaluated_plans: 0,
        created_operations: 0,
    }
}

impl Default for NavalPlanningCounters {
    fn default() -> (counters: Self)
        ensures
            counters == no_naval_planning(),
    {
        NavalPlanningCounters {
            evaluated_plans: 0,
            created_operations: 0,
        }
    }
}

/// What operational execution carries out.
#[derive(Clone, Copy, Debug, PartialEq, Eq, Structural)]
pub struct OperationalExecutionCounters {
    pub transport_updates: usize,
    pub steering_orders: usize,
    pub defender_units_recruited: usize,
}

/// Nothing counted.
pub open spec fn no_execution() -> OperationalExecutionCounters {
    OperationalExecutionCounters {
        transport_updates: 0,
        steering_orders: 0,
        defender_units_recruited: 0,
    }
}

impl Default for OperationalExecutionCounters {
    fn default() -> (counters: Self)
        ensures
            counters == no_execution(),
    {
        OperationalExecutionCounters {
            transport_updates: 0,
            steering_orders: 0,
            defender_units_recruited: 0,
        }
    }
}

/// What a strategic cycle settled.
#[derive(Clone, Copy, Debug, PartialEq, Eq, Structural)]
pub struct StrategicCounters {
    pub countries: usize,
    pub desertions: usize,
    pub surrenders: usize,
    pub occupations: usize,
}

/// Nothing counted.
pub open spec fn no_strategy() -> StrategicCounters {
    StrategicCounters {
        countries: 0,
        desertions: 0,
        surrenders: 0,
        occupations: 0,
    }
}

impl Default for StrategicCounters {
    fn default() -> (counters: Self)
        ensures
            counters == no_strategy(),
    {
        StrategicCounters {
            countries: 0,
            desertions: 0,
            surrenders: 0,
            occupations: 0,
        }
    }
}

/// Everything that one step amounted to.
#[derive(Clone, Copy, Debug, PartialEq, Eq, Structural)]
pub struct RuntimeStepCounters {
    pub front_refreshed: bool,
    pub front_segments: usize,
    pub front_objectives: usize,
    pub ai: AiPlanningCounters,
    pub simulation: TickCounters,
    pub air: RuntimeAirCounters,
    pub missiles: RuntimeMissileCounters,
    pub reinforcement: RuntimeReinforcementCounters,
    pub naval_planning: NavalPlanningCounters,
    pub operational_execution: OperationalExecutionCounters,
    pub attrition: RuntimeAttritionCounters,
    pub influence: RuntimeInfluenceCounters,
    pub census: RuntimeCensusCounters,
    pub strategic: Option<StrategicCounters>,
    pub strategic_derivation: Option<StrategicDerivationCounters>,
    pub render_updates_enqueued: usize,
}

/// Nothing counted.
pub open spec fn no_step() -> RuntimeStepCounters {
    RuntimeStepCounters {
        front_refreshed: false,
        front_segments: 0,
        front_objectives: 0,
        ai: no_planning(),
        simulation: zero_tick_counters(),
        air: no_air_war(),
        missiles: no_missiles(),
        reinforcement: no_reinforcement(),
        naval_planning: no_naval_planning(),
        operational_execution: no_execution(),
        attrition: no_attrition(),
        influence: no_influence(),
        census: no_census(),
        strategic: None,
        strategic_derivation: None,
        render_updates_enqueued: 0,
    }
}

impl Default for RuntimeStepCounters {
    fn default() -> (counters: Self)
        ensures
            counters == no_step(),
    {
        RuntimeStepCounters {
            front_refreshed: false,
            front_segments: 0,
            front_objectives: 0,
            ai: AiPlanningCounters::default(),
            simulation: TickCounters::default(),
            air: RuntimeAirCounters::default(),
            missiles: RuntimeMissileCounters::default(),
            reinforcement: RuntimeReinforcementCounters::default(),
            naval_planning: NavalPlanningCounters::default(),
            operational_execution: OperationalExecutionCounters::default(),
            attrition: RuntimeAttritionCounters::default(),
            influence: RuntimeInfluenceCounters::default(),
            census: RuntimeCensusCounters::default(),
            strategic: None,
            strategic_derivation: None,
            render_updates_enqueued: 0,
        }
    }
}

/// What the territory kernel reports of applied influence.
#[derive(Debug)]
pub struct InfluenceApplyResult {
    pub processed_source_cells: usize,
    pub touched_influence_cells: Vec<usize>,
    pub changed_controller_cells: Vec<usize>,
    pub changed_credit_cells: Vec<usize>,
}

/// What the territory kernel reports of a census step.
#[derive(Clone, Copy, Debug, PartialEq, Eq, Structural)]
pub struct CensusStepResult {
    pub processed_items: usize,
    pub committed: bool,
}

pub open spec fn influence_count(
    sources: usize,
    result: InfluenceApplyResult,
) -> RuntimeInfluenceCounters {
    RuntimeInfluenceCounters {
        sources,
        application_budget: sources,
        processed_source_cells: result.processed_source_cells,
        touched_influence_cells: result.touched_influence_cells@.len() as usize,
        changed_controller_cells: result.changed_controller_cells@.len() as usize,
        changed_credit_cells: result.changed_credit_cells@.len() as usize,
        ..no_influence()
    }
}

pub fn influence_counters(sources: usize, result: &InfluenceApplyResult) -> (counters:
    RuntimeInfluenceCounters)
    ensures
        counters == influence_count(sources, *result),
{
    RuntimeInfluenceCounters {
        sources,
        cohort: None,
        application_budget: sources,
        diffusion_budget: 0,
        diffusion_processed_items: 0,
        diffusion_stale_entries: 0,
        processed_source_cells: result.processed_source_cells,
        touched_influence_cells: result.touched_influence_cells.len(),
        changed_controller_cells: result.changed_controller_cells.len(),
        changed_credit_cells: result.changed_credit_cells.len(),
    }
}

pub fn census_counters(
    result: &CensusStepResult,
    snapshot: &TerritorySnapshot,
    flushed_for_strategic_cycle: bool,
) -> (counters: RuntimeCensusCounters)
    ensures
        counters == (RuntimeCensusCounters {
            processed_items: result.processed_items,
            committed: result.committed,
            flushed_for_strategic_cycle,
            territory_generation: snapshot.generation,
            territory_commit_sequence: snapshot.commit_sequence,
        }),
{
    RuntimeCensusCounters {
        processed_items: result.processed_items,
        committed: result.committed,
        flushed_for_strategic_cycle,
        territory_generation: snapshot.generation,
        territory_commit_sequence: snapshot.commit_sequence,
    }
}

/// A count that stays at its limit.
pub open spec fn capped(count: int) -> u64 {
    if count > u64::MAX {
        u64::MAX
    } else {
        count as u64
    }
}

/// People lost over the first results.
pub open spec fn people_lost(results: Seq<DamageResult>, count: nat) -> int
    decreases count,
{
    if count == 0 {
        0
    } else {
        people_lost(results, (count - 1) as nat) + results[count - 1].personnel_loss
    }
}

/// Equipment lost over the first results.
pub open spec fn equipment_lost(results: Seq<DamageResult>, count: nat) -> int
    decreases count,
{
    if count == 0 {
        0
    } else {
        equipment_lost(results, (count - 1) as nat) + results[count - 1].equipment_loss
    }
}

proof fn lemma_losses_grow(results: Seq<DamageResult>, count: nat)
    requires
        count <= results.len(),
    ensures
        people_lost(results, count) >= 0,
        equipment_lost(results, count) >= 0,
    decreases count,
{
    if count > 0 {
        lemma_losses_grow(results, (count - 1) as nat);
    }
}

/// Losses on top of earlier ones, each kept at its limit.
fn add_losses(results: &Vec<DamageResult>, people: u64, equipment: u64) -> (totals: (u64, u64))
    ensures
        totals.0 == capped(people + people_lost(results@, results@.len())),
        totals.1 == capped(equipment + equipment_lost(results@, results@.len())),
{
    let mut lost_people: u64 = people;
    let mut lost_equipment: u64 = equipment;
    let mut at: usize = 0;
    while at < results.len()
        invariant
            at <= results@.len(),
            lost_people == capped(people + people_lost(results@, at as nat)),
            lost_equipment == capped(equipment + equipment_lost(results@, at as nat)),
        decreases results@.len() - at,
    {
        proof {
            lemma_losses_grow(results@, at as nat);
        }
        lost_people = lost_people.saturating_add(results[at].personnel_loss);
        lost_equipment = lost_equipment.saturating_add(results[at].equipment_loss);
        at = at + 1;
    }
    (lost_people, lost_equipment)
}

/// How many of the first damaged units lost their supply.
pub open spec fn collapses(
    results: Seq<DamageResult>,
    resolved: Map<u64, BattlefieldUnitResult>,
    count: nat,
) -> nat
    decreases count,
{
    if count == 0 {
        0
    } else {
        let rest = collapses(results, resolved, (count - 1) as nat);
        let id = results[count - 1].unit_id;
        if resolved.contains_key(id) && resolved[id].attrition.supply_collapsed {
            rest + 1
        } else {
            rest
        }
    }
}

pub open spec fn attrition_count(
    outcome: Option<&DamageOutcome>,
    resolved: Option<&BTreeMap<u64, BattlefieldUnitResult>>,
    exiled_units: usize,
    recovered_personnel: u64,
) -> RuntimeAttritionCounters {
    match outcome {
        None => RuntimeAttritionCounters { exiled_units, recovered_personnel, ..no_attrition() },
        Some(damage) => RuntimeAttritionCounters {
            damaged_units: damage.results@.len() as usize,
            removed_units: damage.removed_ids@.len() as usize,
            personnel_loss: capped(people_lost(damage.results@, damage.results@.len())),
            equipment_loss: capped(equipment_lost(damage.results@, damage.results@.len())),
            supply_collapses: match resolved {
                Some(table) => collapses(
                    damage.results@,
                    table@,
                    damage.results@.len(),
                ) as usize,
                None => 0,
            },
            exiled_units,
            recovered_personnel,
        },
    }
}

fn count_collapses(
    results: &Vec<DamageResult>,
    resolved: &BTreeMap<u64, BattlefieldUnitResult>,
) -> (count: usize)
    ensures
        count == collapses(results@, resolved@, results@.len()),
{
    broadcast use vstd::std_specs::btree::group_btree_axioms;

    let mut count: usize = 0;
    let mut at: usize = 0;
    while at < results.len()
        invariant
            at <= results@.len(),
            count <= at,
            count == collapses(results@, resolved@, at as nat),
        decreases results@.len() - at,
    {
        broadcast use vstd::std_specs::btree::group_btree_axioms;

        if let Some(unit) = resolved.get(&results[at].unit_id) {
            if unit.attrition.supply_collapsed {
                count = count + 1;
            }
        }
        at = at + 1;
    }
    count
}

pub fn attrition_counters(
    outcome: Option<&DamageOutcome>,
    resolved: Option<&BTreeMap<u64, BattlefieldUnitResult>>,
    exiled_units: usize,
    recovered_personnel: u64,
) -> (counters: RuntimeAttritionCounters)
    ensures
        counters == attrition_count(outcome, resolved, exiled_units, recovered_personnel),
{
    let mut counters = RuntimeAttritionCounters::default();
    counters.exiled_units = exiled_units;
    counters.recovered_personnel = recovered_personnel;
    if let Some(damage) = outcome {
        let losses = add_losses(&damage.results, 0, 0);
        counters.damaged_units = damage.results.len();
        counters.removed_units = damage.removed_ids.len();
        counters.personnel_loss = losses.0;
        counters.equipment_loss = losses.1;
        if let Some(table) = resolved {
            counters.supply_collapses = count_collapses(&damage.results, table);
        }
    }
    counters
}

/// Aircraft lost over the first losses.
pub open spec fn aircraft_lost(losses: Seq<WingLoss>, count: nat) -> int
    decreases count,
{
    if count == 0 {
        0
    } else {
        aircraft_lost(losses, (count - 1) as nat) + losses[count - 1].aircraft
    }
}

/// What the air war did; one person is lost with each aircraft.
pub open spec fn air_count(
    outcome: Option<&AirAdvanceOutcome>,
    damage: Option<&DamageOutcome>,
) -> RuntimeAirCounters {
    let flown = match outcome {
        None => no_air_war(),
        Some(air) => {
            let lost = capped(aircraft_lost(air.wing_losses@, air.wing_losses@.len()));
            RuntimeAirCounters {
                updated: air.updated,
                missions_selected: air.missions_selected,
                interceptions_completed: air.interceptions_completed,
                strikes_completed: air.strikes_completed,
                wings_destroyed: air.wings_destroyed,
                airfield_captures: air.airfield_captures@.len() as usize,
                aircraft_loss: lost,
                personnel_loss: lost,
                ..no_air_war()
            }
        },
    };
    match damage {
        None => flown,
        Some(dealt) => RuntimeAirCounters {
            damaged_land_units: dealt.results@.len() as usize,
            personnel_loss: capped(
                flown.personnel_loss + people_lost(dealt.results@, dealt.results@.len()),
            ),
            equipment_loss: capped(
                flown.equipment_loss + equipment_lost(dealt.results@, dealt.results@.len()),
            ),
            ..flown
        },
    }
}

fn count_aircraft(losses: &Vec<WingLoss>) -> (count: u64)
    ensures
        count == capped(aircraft_lost(losses@, losses@.len())),
{
    let mut count: u64 = 0;
    let mut at: usize = 0;
    while at < losses.len()
        invariant
            at <= losses@.len(),
            aircraft_lost(losses@, at as nat) >= 0,
            count == capped(aircraft_lost(losses@, at as nat)),
        decreases losses@.len() - at,
    {
        count = count.saturating_add(losses[at].aircraft as u64);
        at = at + 1;
    }
    count
}

pub fn air_counters(
    outcome: Option<&AirAdvanceOutcome>,
    damage: Option<&DamageOutcome>,
) -> (counters: RuntimeAirCounters)
    ensures
        counters == air_count(outcome, damage),
{
    let mut counters = RuntimeAirCounters::default();
    if let Some(air) = outcome {
        counters.updated = air.updated;
        counters.missions_selected = air.missions_selected;
        counters.interceptions_completed = air.interceptions_completed;
        counters.strikes_completed = air.strikes_completed;
        counters.wings_destroyed = air.wings_destroyed;
        counters.airfield_captures = air.airfield_captures.len();
        counters.aircraft_loss = count_aircraft(&air.wing_losses);
        counters.personnel_loss = counters.aircraft_loss;
    }
    if let Some(dealt) = damage {
        let losses = add_losses(
            &dealt.results,
            counters.personnel_loss,
            counters.equipment_loss,
        );
        counters.damaged_land_units = dealt.results.len();
        counters.personnel_loss = losses.0;
        counters.equipment_loss = losses.1;
    }
    counters
}

/// What the missile kernel reports of a tick.
#[derive(Clone, Copy, Debug, PartialEq, Eq, Structural)]
pub struct MissileReport {
    pub launches: usize,
    pub impacts: usize,
}

/// What the first outcomes of missile damage amount to.
pub ghost struct MissileTotals {
    pub damaged: int,
    pub removed: int,
    pub people: int,
    pub equipment: int,
}

pub open spec fn missile_totals(damages: Seq<DamageOutcome>, count: nat) -> MissileTotals
    decreases count,
{
    if count == 0 {
        MissileTotals { damaged: 0, removed: 0, people: 0, equipment: 0 }
    } else {
        let rest = missile_totals(damages, (count - 1) as nat);
        let results = damages[count - 1].results@;
        MissileTotals {
            damaged: rest.damaged + results.len(),
            removed: rest.removed + damages[count - 1].removed_ids@.len(),
            people: rest.people + people_lost(results, results.len()),
            equipment: rest.equipment + equipment_lost(results, results.len()),
        }
    }
}

pub open spec fn missile_count(
    outcome: Option<MissileReport>,
    damages: Seq<DamageOutcome>,
) -> RuntimeMissileCounters {
    let totals = missile_totals(damages, damages.len());
    RuntimeMissileCounters {
        launches: match outcome {
            Some(report) => report.launches,
            None => 0,
        },
        impacts: match outcome {
            Some(report) => report.impacts,
            None => 0,
        },
        damaged_units: totals.damaged as usize,
        removed_units: totals.removed as usize,
        personnel_loss: capped(totals.people),
        equipment_loss: capped(totals.equipment),
    }
}

proof fn lemma_missile_totals(damages: Seq<DamageOutcome>, count: nat, whole: nat)
    requires
        count <= whole <= damages.len(),
    ensures
        0 <= missile_totals(damages, count).damaged <= missile_totals(damages, whole).damaged,
        0 <= missile_totals(damages, count).removed <= missile_totals(damages, whole).removed,
        0 <= missile_totals(damages, count).people,
        0 <= missile_totals(damages, count).equipment,
    decreases whole,
{
    if count < whole {
        lemma_missile_totals(damages, count, (whole - 1) as nat);
    } else if whole > 0 {
        lemma_missile_totals(damages, (count - 1) as nat, (whole - 1) as nat);
        let results = damages[whole - 1].results@;
        lemma_losses_grow(results, results.len());
    }
}

pub fn missile_counters(outcome: Option<MissileReport>, damages: &Vec<DamageOutcome>) -> (counters:
    RuntimeMissileCounters)
    requires
        missile_totals(damages@, damages@.len()).damaged <= usize::MAX,
        missile_totals(damages@, damages@.len()).removed <= usize::MAX,
    ensures
        counters == missile_count(outcome, damages@),
{
    let mut counters = RuntimeMissileCounters::default();
    if let Some(report) = outcome {
        counters.launches = report.launches;
        counters.impacts = report.impacts;
    }
    let ghost start = counters;
    let mut at: usize = 0;
    while at < damages.len()
        invariant
            at <= damages@.len(),
            missile_totals(damages@, damages@.len()).damaged <= usize::MAX,
            missile_totals(damages@, damages@.len()).removed <= usize::MAX,
            counters.launches == start.launches,
            counters.impacts == start.impacts,
            counters.damaged_units == missile_totals(damages@, at as nat).damaged,
            counters.removed_units == missile_totals(damages@, at as nat).removed,
            counters.personnel_loss == capped(missile_totals(damages@, at as nat).people),
            counters.equipment_loss == capped(missile_totals(damages@, at as nat).equipment),
        decreases damages@.len() - at,
    {
        proof {
            lemma_missile_totals(damages@, at as nat, damages@.len());
            lemma_missile_totals(damages@, (at + 1) as nat, damages@.len());
            lemma_losses_grow(
                damages@[at as int].results@,
                damages@[at as int].results@.len(),
            );
        }
        let damage = &damages[at];
        let losses = add_losses(
            &damage.results,
            counters.personnel_loss,
            counters.equipment_loss,
        );
        counters.damaged_units = counters.damaged_units + damage.results.len();
        counters.removed_units = counters.removed_units + damage.removed_ids.len();
        counters.personnel_loss = losses.0;
        counters.equipment_loss = losses.1;
        at = at + 1;
    }
    counters
}

/// How many of the first outcomes made a wing.
pub open spec fn wings_made(outcomes: Seq<AirWingCreationOutcome>, count: nat) -> nat
    decreases count,
{
    if count == 0 {
        0
    } else if outcomes[count - 1].created_wing_id is Some {
        wings_made(outcomes, (count - 1) as nat) + 1
    } else {
        wings_made(outcomes, (count - 1) as nat)
    }
}

fn count_wings(outcomes: &Vec<AirWingCreationOutcome>) -> (count: u64)
    ensures
        count == wings_made(outcomes@, outcomes@.len()),
{
    let mut count: u64 = 0;
    let mut at: usize = 0;
    assert(outcomes@.len() == outcomes.len());
    while at < outcomes.len()
        invariant
            at <= outcomes@.len(),
            outcomes@.len() <= usize::MAX,
            count <= at,
            count == wings_made(outcomes@, at as nat),
        decreases outcomes@.len() - at,
    {
        if outcomes[at].created_wing_id.is_some() {
            count = count + 1;
        }
        at = at + 1;
    }
    count
}

pub open spec fn capped_pair(first: u32, second: u32) -> int {
    if first + second > u32::MAX {
        u32::MAX as int
    } else {
        first + second
    }
}

/// One country's purchases for its air force on top of earlier ones.
pub open spec fn with_air_report(
    counters: RuntimeReinforcementCounters,
    country: CountryAirPayCycleOutcome,
) -> RuntimeReinforcementCounters {
    RuntimeReinforcementCounters {
        aircraft_purchased: capped(
            counters.aircraft_purchased + capped_pair(
                country.fighters_purchased,
                country.strike_purchased,
            ),
        ),
        aircraft_reinforced: capped(
            counters.aircraft_reinforced + capped_pair(
                country.fighters_reinforced,
                country.strike_reinforced,
            ),
        ),
        air_wings_created: capped(
            counters.air_wings_created + wings_made(
                country.wing_creation@,
                country.wing_creation@.len(),
            ),
        ),
        ..counters
    }
}

fn count_air_report(
    counters: RuntimeReinforcementCounters,
    country: &CountryAirPayCycleOutcome,
) -> (next: RuntimeReinforcementCounters)
    ensures
        next == with_air_report(counters, *country),
{
    let bought: u32 = country.fighters_purchased.saturating_add(country.strike_purchased);
    let filled: u32 = country.fighters_reinforced.saturating_add(country.strike_reinforced);
    let made: u64 = count_wings(&country.wing_creation);
    let mut next = counters;
    next.aircraft_purchased = counters.aircraft_purchased.saturating_add(bought as u64);
    next.aircraft_reinforced = counters.aircraft_reinforced.saturating_add(filled as u64);
    next.air_wings_created = counters.air_wings_created.saturating_add(made);
    next
}

/// What the first countries bought for their air forces.
pub open spec fn air_cycle_count(
    countries: Seq<CountryAirPayCycleOutcome>,
    count: nat,
) -> RuntimeReinforcementCounters
    decreases count,
{
    if count == 0 {
        no_reinforcement()
    } else {
        with_air_report(air_cycle_count(countries, (count - 1) as nat), countries[count - 1])
    }
}

pub fn air_pay_cycle_counters(outcome: &AirPayCycleOutcome) -> (counters:
    RuntimeReinforcementCounters)
    ensures
        counters == air_cycle_count(outcome.countries@, outcome.countries@.len()),
{
    let mut counters = RuntimeReinforcementCounters::default();
    let mut at: usize = 0;
    while at < outcome.countries.len()
        invariant
            at <= outcome.countries@.len(),
            counters == air_cycle_count(outcome.countries@, at as nat),
        decreases outcome.countries@.len() - at,
    {
        counters = count_air_report(counters, &outcome.countries[at]);
        at = at + 1;
    }
    counters
}

/// What the first countries bought, repaired and lost.
pub open spec fn material_cycle_count(
    countries: Seq<CountryMaterialPayCycleOutcome>,
    count: nat,
) -> RuntimeReinforcementCounters
    decreases count,
{
    if count == 0 {
        no_reinforcement()
    } else {
        let country = countries[count - 1];
        let flown = with_air_report(
            material_cycle_count(countries, (count - 1) as nat),
            country.air,
        );
        RuntimeReinforcementCounters {
            armor_purchased: capped(flown.armor_purchased + country.armor_purchased),
            armor_reinforced: capped(flown.armor_reinforced + country.armor_reinforced),
            armor_formations_created: capped(
                flown.armor_formations_created + if country.armor_creation.created_unit_id is Some {
                    1int
                } else {
                    0
                },
            ),
            airfields_repaired: capped(flown.airfields_repaired + country.airfields_repaired),
            aircraft_evacuated: capped(flown.aircraft_evacuated + country.evacuated_aircraft),
            aircraft_lost_on_capitulation: capped(
                flown.aircraft_lost_on_capitulation + country.lost_aircraft,
            ),
            ..flown
        }
    }
}

pub fn material_pay_cycle_counters(outcome: &MaterialPayCycleOutcome) -> (counters:
    RuntimeReinforcementCounters)
    ensures
        counters == material_cycle_count(outcome.countries@, outcome.countries@.len()),
{
    let mut counters = RuntimeReinforcementCounters::default();
    let mut at: usize = 0;
    while at < outcome.countries.len()
        invariant
            at <= outcome.countries@.len(),
            counters == material_cycle_count(outcome.countries@, at as nat),
        decreases outcome.countries@.len() - at,
    {
        let country = &outcome.countries[at];
        let mut next = count_air_report(counters, &country.air);
        let formed: u64 = if country.armor_creation.created_unit_id.is_some() {
            1
        } else {
            0
        };
        next.armor_purchased = next.armor_purchased.saturating_add(country.armor_purchased);
        next.armor_reinforced = next.armor_reinforced.saturating_add(country.armor_reinforced);
        next.armor_formations_created = next.armor_formations_created.saturating_add(formed);
        next.airfields_repaired =
        next.airfields_repaired.saturating_add(country.airfields_repaired as u64);
        next.aircraft_evacuated =
        next.aircraft_evacuated.saturating_add(country.evacuated_aircraft);
        next.aircraft_lost_on_capitulation =
        next.aircraft_lost_on_capitulation.saturating_add(country.lost_aircraft);
        counters = next;
        at = at + 1;
    }
    counters
}

} // verus!
