//! What happens to formations before they are given orders: wings strike them, exile takes them,
//! and lack of supply wears them down.

use std::collections::BTreeMap;
use vstd::prelude::*;
use crate::casualties::{AirAdvanceOutcome, DamageCommand};
use crate::order::{rank_order, stable_sorted};
use crate::runtime::airstage::{
    air_country_policy, air_damage_commands, air_priority_areas, air_targets, air_unit_targets,
    airfield_controller_update_due, bands_of, damage_by_unit, damage_orders, damage_supplied,
    paid_coverage, priority_areas, targets_supplied, without_repeats, AirPriorityArea,
    AirUnitTarget, AIRFIELD_CONTROLLER_PHASE, AIR_MISSION_INTERVAL,
};
use crate::runtime::error::RuntimeError;
use crate::runtime::losses::{
    attrition_commands, attrition_of, exiled, exiles_supplied, stage_exile, Exile, ExileHalt,
    ExileModel, ExileScope,
};
use crate::runtime::native::{held, runtime_sound, KernelHandle, NativeRuntime, RuntimeModel};
use crate::runtime::policy::policies_view;
use crate::runtime::step::StageEvent;
use crate::runtime::tick::{
    completed, ground, ground_of, lacking, policies_in_force, policies_of, replaces, AirAnswer,
    DamageAnswer, Draw, TickAction, TickWork,
};
use crate::runtime::validation::{accounted, accounts_for_all};
use crate::runtime::world::{airfield_controllers, captures, fields_supplied, AirfieldController};
use crate::scalar::Real;
use crate::tables::ascending;
use crate::units::SimulationUnit;
use crate::worksheet::{Operation, Stop, Worksheet};

verus! {

// ---------------------------------------------------------------------------------------------
// Damage
// ---------------------------------------------------------------------------------------------

/// Whether damage accounts for every formation that was there.
pub open spec fn accounts(units: Seq<SimulationUnit>, hurt: DamageAnswer) -> bool {
    accounted(units, hurt.units@, hurt.outcome.removed_ids@)
}

/// Why damage cannot be taken in.
pub open spec fn damage_fault(work: TickWork, error: RuntimeError) -> bool {
    &&& work.inbox.damage matches Some(hurt) && !accounts(work.units@, hurt)
    &&& error == RuntimeError::InvalidCheckpoint("damage does not account for every formation")
}

pub(crate) fn unaccounted() -> (error: RuntimeError)
    ensures
        error == RuntimeError::InvalidCheckpoint("damage does not account for every formation"),
{
    RuntimeError::InvalidCheckpoint("damage does not account for every formation")
}

/// Whether the damage that a tick was told of, if any, accounts for every formation.
pub(crate) fn is_accounted(work: &TickWork) -> (answer: bool)
    ensures
        answer == (work.inbox.damage matches Some(hurt) ==> accounts(work.units@, hurt)),
{
    match &work.inbox.damage {
        None => true,
        Some(hurt) => accounts_for_all(&work.units, &hurt.units, &hurt.outcome.removed_ids),
    }
}

// ---------------------------------------------------------------------------------------------
// Air
// ---------------------------------------------------------------------------------------------

/// Whether airfields learn in a tick who controls their ground.
pub open spec fn controllers_due(tick: u64) -> bool {
    tick % AIR_MISSION_INTERVAL == AIRFIELD_CONTROLLER_PHASE
}

/// What the wings did to formations on land.
pub open spec fn air_commands(results: Map<Operation, u64>, outcome: AirAdvanceOutcome) -> Seq<
    DamageCommand,
> {
    let damage = damage_by_unit(results, outcome.land_damage@, outcome.land_damage@.len());
    let keys = ascending(damage.dom());
    damage_orders(damage, keys, keys.len())
}

/// Whether a worksheet holds all that letting wings fly takes.
pub open spec fn flight_supplied(
    model: RuntimeModel,
    work: TickWork,
    results: Map<Operation, u64>,
) -> bool {
    match work.inbox.air {
        Some(answer) => damage_supplied(results, answer.outcome.land_damage@),
        None => targets_supplied(results, work.units@) && (controllers_due(work.step.tick)
            && model.air is Some ==> fields_supplied(
            results,
            model.air->Some_0.airfields@,
            ground(model, work).grid,
        )),
    }
}

/// Wings fly, and what they hit is hurt.
pub open spec fn air_stage(
    model: RuntimeModel,
    before: TickWork,
    after: TickWork,
    results: Map<Operation, u64>,
    outcome: Result<TickAction, Stop<RuntimeError>>,
) -> bool {
    let commands = air_commands(results, before.inbox.air->Some_0.outcome);
    match outcome {
        Ok(TickAction::Air { targets, areas, controllers, bands, coverage }) => {
            &&& before.inbox.air is None
            &&& after == before
            &&& model.air matches Some(air) && {
                &&& air_targets(results, before.units@, before.units@.len()) == Ok::<
                    Seq<AirUnitTarget>,
                    RuntimeError,
                >(targets@)
                &&& areas@ == (match before.operations {
                    Some(state) => without_repeats(
                        stable_sorted(
                            priority_areas(
                                state@.task_forces,
                                before.rules.air_priority_radius_km,
                                state@.task_forces.len(),
                            ),
                            rank_order::<AirPriorityArea>(),
                        ),
                    ),
                    None => Seq::empty(),
                })
                &&& controllers@ == (if controllers_due(before.step.tick) {
                    captures(results, air, ground(model, before), air.airfields@.len())
                } else {
                    Map::empty()
                })
                &&& bands@ == bands_of(model.strategic.economies)
                &&& coverage@ == paid_coverage(model.strategic.economies, air, air.country_coverage@.len())
            }
        },
        Ok(TickAction::Damage(asked)) => {
            &&& before.inbox.air is Some
            &&& before.inbox.damage is None
            &&& after == before
            &&& commands.len() > 0
            &&& asked@ == commands
        },
        Ok(TickAction::Moved) => {
            let hit = commands.len() > 0;
            &&& before.inbox.air is Some
            &&& hit ==> (before.inbox.damage matches Some(hurt) && accounts(before.units@, hurt))
            &&& completed(before, StageEvent::Done, after)
            &&& after == (TickWork {
                step: after.step,
                inbox: after.inbox,
                air: Some(before.inbox.air->Some_0.air),
                air_outcome: Some(before.inbox.air->Some_0.outcome),
                air_damage: if hit {
                    Some(before.inbox.damage->Some_0.outcome)
                } else {
                    before.air_damage
                },
                units: if hit {
                    before.inbox.damage->Some_0.units
                } else {
                    before.units
                },
                strengths: if hit {
                    None
                } else {
                    before.strengths
                },
                ..before
            })
        },
        Ok(_) => false,
        Err(Stop::Failed(error)) => after == before && if before.inbox.air is None {
            match model.air {
                None => error == RuntimeError::InvalidCheckpoint("tick has no wings to fly"),
                Some(_) => air_targets(results, before.units@, before.units@.len()) == Err::<
                    Seq<AirUnitTarget>,
                    RuntimeError,
                >(error),
            }
        } else {
            commands.len() > 0 && damage_fault(before, error)
        },
        Err(Stop::Missing(missing)) => lacking(before, after, missing, results)
            && !flight_supplied(model, before, results),
    }
}

fn list_controllers(
    runtime: &NativeRuntime,
    work: &TickWork,
    reader: &mut crate::worksheet::Reader<'_>,
) -> (controllers: BTreeMap<u64, AirfieldController>)
    requires
        old(reader).sound(),
        ground(held(runtime@), *work).well_formed(),
    ensures
        final(reader)@ == old(reader)@,
        final(reader).sound(),
        final(reader).complete() ==> old(reader).complete(),
        final(reader).complete() && held(runtime@).air is Some ==> controllers@ == (if controllers_due(
            work.step.tick,
        ) {
            captures(
                old(reader)@,
                held(runtime@).air->Some_0,
                ground(held(runtime@), *work),
                held(runtime@).air->Some_0.airfields@.len(),
            )
        } else {
            Map::empty()
        }),
        old(reader).complete() && (controllers_due(work.step.tick) && held(runtime@).air is Some
            ==> fields_supplied(
            old(reader)@,
            held(runtime@).air->Some_0.airfields@,
            ground(held(runtime@), *work).grid,
        )) ==> final(reader).complete(),
{
    broadcast use vstd::std_specs::btree::group_btree_axioms;

    let parts = runtime.parts();
    if airfield_controller_update_due(work.step.tick) {
        if let Some(air) = parts.air_power {
            return airfield_controllers(air, ground_of(&parts, work), reader);
        }
    }
    let none: BTreeMap<u64, AirfieldController> = BTreeMap::new();
    assert(none@ =~= Map::<u64, AirfieldController>::empty());
    none
}

pub(crate) fn fly_wings(runtime: &NativeRuntime, work: &mut TickWork, sheet: &Worksheet) -> (outcome:
    Result<TickAction, Stop<RuntimeError>>)
    requires
        runtime_sound(held(runtime@)),
        replaces(ground(held(runtime@), *old(work)), held(runtime@).territory),
    ensures
        air_stage(held(runtime@), *old(work), *final(work), sheet@, outcome),
{
    let mut reader = sheet.reader();
    let hit = match &work.inbox.air {
        None => {
            let parts = runtime.parts();
            let air = match parts.air_power {
                None => {
                    return Err(
                        Stop::Failed(RuntimeError::InvalidCheckpoint("tick has no wings to fly")),
                    );
                },
                Some(air) => air,
            };
            let found = air_unit_targets(&work.units, &mut reader);
            let controllers = list_controllers(runtime, work, &mut reader);
            if !reader.is_complete() {
                return Err(Stop::Missing(reader.into_missing()));
            }
            let targets = match found {
                Err(error) => {
                    return Err(Stop::Failed(error));
                },
                Ok(targets) => targets,
            };
            let areas = air_priority_areas(
                work.operations.as_ref(),
                work.rules.air_priority_radius_km,
            );
            let (bands, coverage) = air_country_policy(parts.strategic, air);
            return Ok(TickAction::Air { targets, areas, controllers, bands, coverage });
        },
        Some(answer) => {
            let commands = air_damage_commands(&answer.outcome, &mut reader);
            if !reader.is_complete() {
                return Err(Stop::Missing(reader.into_missing()));
            }
            if commands.len() > 0 && work.inbox.damage.is_none() {
                return Ok(TickAction::Damage(commands));
            }
            if commands.len() > 0 && !is_accounted(work) {
                return Err(Stop::Failed(unaccounted()));
            }
            commands.len() > 0
        },
    };
    let mut flown: Option<AirAnswer> = None;
    core::mem::swap(&mut flown, &mut work.inbox.air);
    if let Some(AirAnswer { air, outcome }) = flown {
        work.air = Some(air);
        work.air_outcome = Some(outcome);
    }
    let mut hurt: Option<DamageAnswer> = None;
    core::mem::swap(&mut hurt, &mut work.inbox.damage);
    if hit {
        if let Some(DamageAnswer { units, outcome }) = hurt {
            work.units = units;
            work.air_damage = Some(outcome);
            work.strengths = None;
        }
    }
    work.close_stage(StageEvent::Done);
    Ok(TickAction::Moved)
}

// ---------------------------------------------------------------------------------------------
// Exile
// ---------------------------------------------------------------------------------------------

/// The random numbers of draws.
pub open spec fn values_of(draws: Seq<Draw>) -> Seq<Real> {
    Seq::new(draws.len(), |i: int| draws[i].value)
}

/// The generator after so many of the draws were used.
pub open spec fn generator_after(rng: KernelHandle, draws: Seq<Draw>, used: nat) -> KernelHandle {
    if used == 0 {
        rng
    } else {
        draws[used - 1].after
    }
}

pub(crate) fn list_values(draws: &Vec<Draw>) -> (values: Vec<Real>)
    ensures
        values@ == values_of(draws@),
{
    let mut values: Vec<Real> = Vec::new();
    let mut at: usize = 0;
    while at < draws.len()
        invariant
            at <= draws@.len(),
            values@ =~= values_of(draws@).take(at as int),
        decreases draws@.len() - at,
    {
        values.push(draws[at].value);
        at = at + 1;
    }
    assert(values@ =~= values_of(draws@));
    values
}

/// Whether a formation is not among those that go.
pub open spec fn stays(gone: Seq<u64>) -> spec_fn(SimulationUnit) -> bool {
    |unit: SimulationUnit| !gone.contains(unit.combat.id)
}

fn remove_units(units: &Vec<SimulationUnit>, gone: &Vec<u64>) -> (left: Vec<SimulationUnit>)
    ensures
        left@ == units@.filter(stays(gone@)),
{
    let ghost wanted = stays(gone@);
    let mut left: Vec<SimulationUnit> = Vec::new();
    let mut at: usize = 0;
    proof {
        reveal(Seq::filter);
        assert(units@.take(0) =~= Seq::<SimulationUnit>::empty());
    }
    while at < units.len()
        invariant
            at <= units@.len(),
            wanted == stays(gone@),
            left@ == units@.take(at as int).filter(wanted),
        decreases units@.len() - at,
    {
        let unit = units[at];
        if !crate::order::contains_id(gone.as_slice(), unit.combat.id) {
            left.push(unit);
        }
        proof {
            reveal(Seq::filter);
            assert(units@.take(at + 1).drop_last() =~= units@.take(at as int));
            assert(units@.take(at + 1).last() == unit);
        }
        at = at + 1;
    }
    assert(units@.take(at as int) =~= units@);
    left
}

/// What exile goes by.
pub open spec fn exile_scope(
    model: RuntimeModel,
    work: TickWork,
    results: Map<Operation, u64>,
) -> ExileScope {
    ExileScope {
        results,
        units: work.units@,
        policies: policies_in_force(model, work),
        resolved: match work.field {
            Some(field) => Some(field.resolved_by_id@),
            None => None,
        },
        aggregates: model.census.countries@,
        crew_per_vehicle: model.simulation_config.combat.armor_crew_per_vehicle,
        tick: work.step.tick,
        draws: values_of(work.draws@),
    }
}

/// Formations at sea without a country may leave for good. Each of them costs a random number, and
/// the people of those that leave join the reserve of their side.
pub open spec fn exile_stage(
    model: RuntimeModel,
    before: TickWork,
    after: TickWork,
    results: Map<Operation, u64>,
    outcome: Result<TickAction, Stop<RuntimeError>>,
) -> bool {
    let expected = exiled(exile_scope(model, before, results), model.reserves);
    match outcome {
        Ok(TickAction::Draw) => after == before && expected == Err::<ExileModel, ExileHalt>(
            ExileHalt::Draws,
        ),
        Ok(TickAction::Moved) => expected matches Ok(exile) && {
            &&& completed(before, StageEvent::Done, after)
            &&& after == (TickWork {
                step: after.step,
                inbox: after.inbox,
                units: after.units,
                strengths: None,
                draws: after.draws,
                rng: generator_after(before.rng, before.draws@, exile.draws_used),
                reserves: after.reserves,
                exiled: after.exiled,
                recovered_personnel: exile.recovered_personnel,
                ..before
            })
            &&& after.units@ == before.units@.filter(stays(exile.unit_ids))
            &&& after.draws@.len() == 0
            &&& after.reserves matches Some(reserves) && reserves@ == exile.reserves
            &&& after.exiled@ == exile.unit_ids
        },
        Ok(_) => false,
        Err(Stop::Failed(error)) => after == before && (expected == Err::<ExileModel, ExileHalt>(
            ExileHalt::Failed(error),
        ) || (expected matches Ok(exile) && exile.draws_used > before.draws@.len() && error
            == RuntimeError::InvalidCheckpoint("exile used more draws than there are"))),
        Err(Stop::Missing(missing)) => lacking(before, after, missing, results)
            && !exiles_supplied(exile_scope(model, before, results), model.reserves),
    }
}

pub(crate) fn settle_exile(runtime: &NativeRuntime, work: &mut TickWork, sheet: &Worksheet) -> (
    outcome: Result<TickAction, Stop<RuntimeError>>)
    ensures
        exile_stage(held(runtime@), *old(work), *final(work), sheet@, outcome),
{
    let parts = runtime.parts();
    let values = list_values(&work.draws);
    let resolved = match &work.field {
        Some(field) => Some(&field.resolved_by_id),
        None => None,
    };
    let mut reader = sheet.reader();
    let staged = stage_exile(
        &work.units,
        policies_of(&parts, work),
        resolved,
        &parts.latest.territory_snapshot.countries,
        parts.simulation.config.combat.armor_crew_per_vehicle,
        parts.personnel_reserves,
        work.step.tick,
        &values,
        &mut reader,
    );
    if !reader.is_complete() {
        return Err(Stop::Missing(reader.into_missing()));
    }
    let exile: Exile = match staged {
        Err(ExileHalt::Draws) => {
            return Ok(TickAction::Draw);
        },
        Err(ExileHalt::Failed(error)) => {
            return Err(Stop::Failed(error));
        },
        Ok(exile) => exile,
    };
    if exile.draws_used > work.draws.len() {
        return Err(
            Stop::Failed(RuntimeError::InvalidCheckpoint("exile used more draws than there are")),
        );
    }
    if exile.draws_used > 0 {
        work.rng = work.draws[exile.draws_used - 1].after;
    }
    work.units = remove_units(&work.units, &exile.unit_ids);
    work.strengths = None;
    work.draws = Vec::new();
    work.reserves = Some(exile.reserves);
    work.exiled = exile.unit_ids;
    work.recovered_personnel = exile.recovered_personnel;
    work.close_stage(StageEvent::Done);
    Ok(TickAction::Moved)
}

// ---------------------------------------------------------------------------------------------
// Attrition
// ---------------------------------------------------------------------------------------------

/// What lack of supply does to formations.
pub open spec fn wear(work: TickWork) -> Seq<DamageCommand> {
    match work.field {
        Some(field) => attrition_of(
            work.units@,
            policies_view(field.policies@),
            field.resolved_by_id@,
            work.step.tick,
            work.units@.len(),
        ),
        None => Seq::empty(),
    }
}

/// Supply wears formations down.
pub open spec fn attrition_stage(
    before: TickWork,
    after: TickWork,
    outcome: Result<TickAction, Stop<RuntimeError>>,
) -> bool {
    let commands = wear(before);
    match outcome {
        Ok(TickAction::Damage(asked)) => {
            &&& before.inbox.damage is None
            &&& after == before
            &&& commands.len() > 0
            &&& asked@ == commands
        },
        Ok(TickAction::Moved) => {
            let worn = commands.len() > 0;
            &&& worn ==> (before.inbox.damage matches Some(hurt) && accounts(before.units@, hurt))
            &&& completed(before, StageEvent::Done, after)
            &&& after == (TickWork {
                step: after.step,
                inbox: after.inbox,
                attrition: if worn {
                    Some(before.inbox.damage->Some_0.outcome)
                } else {
                    before.attrition
                },
                units: if worn {
                    before.inbox.damage->Some_0.units
                } else {
                    before.units
                },
                strengths: if worn {
                    None
                } else {
                    before.strengths
                },
                ..before
            })
        },
        Ok(_) => false,
        Err(Stop::Failed(error)) => after == before && commands.len() > 0 && damage_fault(
            before,
            error,
        ),
        Err(Stop::Missing(_)) => false,
    }
}

pub(crate) fn wear_down(work: &mut TickWork) -> (outcome: Result<TickAction, Stop<RuntimeError>>)
    ensures
        attrition_stage(*old(work), *final(work), outcome),
{
    let commands: Vec<DamageCommand> = match &work.field {
        Some(field) => attrition_commands(
            &work.units,
            &field.policies,
            &field.resolved_by_id,
            work.step.tick,
        ),
        None => Vec::new(),
    };
    assert(commands@ =~= wear(*work));
    if commands.len() > 0 && work.inbox.damage.is_none() {
        return Ok(TickAction::Damage(commands));
    }
    if commands.len() > 0 && !is_accounted(work) {
        return Err(Stop::Failed(unaccounted()));
    }
    let mut hurt: Option<DamageAnswer> = None;
    core::mem::swap(&mut hurt, &mut work.inbox.damage);
    if commands.len() > 0 {
        if let Some(DamageAnswer { units, outcome }) = hurt {
            work.units = units;
            work.attrition = Some(outcome);
            work.strengths = None;
        }
    }
    work.close_stage(StageEvent::Done);
    Ok(TickAction::Moved)
}

} // verus!
