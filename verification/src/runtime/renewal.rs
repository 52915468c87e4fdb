//! How a tick closes: operations and execution are settled, new armor is mobilized, countries recruit,
//! and everything is counted and shown.

use std::collections::{BTreeMap, BTreeSet};
use vstd::prelude::*;
use crate::operations::{operations_fault, CountryOperationalInput, OperationalRuntimeState};
use crate::order::{collected, copy_all};
use crate::reinforcement::ReinforcementState;
use crate::runtime::campaign::{are_indexed, resolved_now, resolved_of, sides_indexed};
use crate::runtime::dispatch::forces_now;
use crate::runtime::enlistment::{
    recruited, recruitment_supplied, stage_recruitment, RecruitmentHalt, RecruitmentInput,
    RecruitmentModel,
};
use crate::runtime::error::RuntimeError;
use crate::runtime::execution::{
    execution_inputs, execution_unit_inputs, inputs_supplied, operational_inputs,
    operational_unit_inputs, ExecutionUnitInput, OperationalExecutionState,
};
use crate::runtime::mobilization::{
    commands_view, mobilization_supplied, mobilize_armor, mobilized, MobilizationModel,
    MobilizationScope,
};
use crate::runtime::native::{economies_keyed, held, runtime_sound, NativeRuntime, RuntimeModel};
use crate::runtime::orders::{country_inputs_of, operational_country_inputs, people_supplied};
use crate::runtime::skirmish::{generator_after, list_values, values_of};
use crate::runtime::stages::{
    operations_settled, settle_operations, settling_supplied, tick_scope,
};
use crate::runtime::step::StageEvent;
use crate::runtime::tick::{
    completed, ground, ground_of, lacking, misfiled, policies_in_force, policies_of, replaces,
    strengths_known, TickAction, TickWork, TreasuryAnswer,
};
use crate::runtime::upkeep::{copy_reinforcement, purse, reserves_now};
use crate::runtime::world::StrategicState;
use crate::scalar::Real;
use crate::taskforce::OperationalUnitInput;
use crate::units::SimulationUnit;
use crate::worksheet::{Operation, Stop, Worksheet};

verus! {

// ---------------------------------------------------------------------------------------------
// Operations after movement
// ---------------------------------------------------------------------------------------------

/// What operations read of formations after movement.
pub open spec fn moved_inputs(work: TickWork, results: Map<Operation, u64>) -> Result<
    Seq<OperationalUnitInput>,
    RuntimeError,
> {
    if !sides_indexed(work.units@) {
        Err(RuntimeError::InvalidCheckpoint("unit side exceeds platform"))
    } else {
        collected(
            operational_inputs(results, work.units@, work.strengths->Some_0@, None, None),
            work.units@.len(),
        )
    }
}

/// What operations judge countries by, in a tick in which they do.
pub open spec fn judged_inputs(
    model: RuntimeModel,
    work: TickWork,
    results: Map<Operation, u64>,
) -> Result<Option<Seq<CountryOperationalInput>>, RuntimeError> {
    if !work.rules.sample_due {
        Ok(None)
    } else {
        match country_inputs_of(
            results,
            work.units@,
            model.simulation_config.combat.armor_crew_per_vehicle,
            model.scenario.countries@,
            work.snapshot->Some_0.countries@,
        ) {
            Ok(inputs) => Ok(Some(inputs)),
            Err(error) => Err(error),
        }
    }
}

/// Operations are settled after movement.
pub open spec fn settlement_stage(
    model: RuntimeModel,
    before: TickWork,
    after: TickWork,
    results: Map<Operation, u64>,
    outcome: Result<TickAction, Stop<RuntimeError>>,
) -> bool {
    let ready = before.operations is Some && before.snapshot is Some;
    let inputs = moved_inputs(before, results);
    let judged = judged_inputs(model, before, results);
    let tick = before.step.tick;
    let settled = operations_settled(
        results,
        before.operations->Some_0@,
        inputs->Ok_0,
        judged->Ok_0,
        before.rules.sample_interval,
        ground(model, before).country_to_side@,
        tick,
    );
    let fault = operations_fault(
        settled,
        tick_scope(
            settled,
            inputs->Ok_0,
            model.scenario.countries@,
            model.territory.max_sides,
            tick,
        ),
    );
    match outcome {
        Ok(TickAction::Strengths) => !strengths_known(before) && after == before,
        Ok(TickAction::Moved) => {
            &&& ready && inputs is Ok && judged is Ok
            &&& completed(before, StageEvent::Done, after)
            &&& after == (TickWork {
                step: after.step,
                inbox: after.inbox,
                operations: after.operations,
                ..before
            })
            &&& after.operations matches Some(operations) && operations@ == settled && fault is None
        },
        Ok(_) => false,
        Err(Stop::Failed(error)) => after == before && {
            ||| !ready && error == RuntimeError::InvalidCheckpoint("tick has nothing to settle")
            ||| inputs == Err::<Seq<OperationalUnitInput>, RuntimeError>(error)
            ||| judged == Err::<Option<Seq<CountryOperationalInput>>, RuntimeError>(error)
            ||| inputs is Ok && judged is Ok && (fault matches Some(cause) && error
                == RuntimeError::Operational(cause))
        },
        Err(Stop::Missing(missing)) => lacking(before, after, missing, results) && {
            ||| !inputs_supplied(results, before.units@)
            ||| before.rules.sample_due && !people_supplied(
                results,
                before.units@,
                model.simulation_config.combat.armor_crew_per_vehicle,
            )
            ||| inputs is Ok && judged is Ok && !settling_supplied(
                results,
                before.operations->Some_0@,
                inputs->Ok_0,
                judged->Ok_0,
            )
        },
    }
}

#[verifier::rlimit(40)]
pub(crate) fn settle_moves(runtime: &NativeRuntime, work: &mut TickWork, sheet: &Worksheet) -> (
    outcome: Result<TickAction, Stop<RuntimeError>>)
    ensures
        settlement_stage(held(runtime@), *old(work), *final(work), sheet@, outcome),
{
    let parts = runtime.parts();
    let strengths = match &work.strengths {
        None => {
            return Ok(TickAction::Strengths);
        },
        Some(strengths) => strengths,
    };
    if strengths.len() != work.units.len() {
        return Ok(TickAction::Strengths);
    }
    if work.operations.is_none() || work.snapshot.is_none() {
        return Err(Stop::Failed(RuntimeError::InvalidCheckpoint("tick has nothing to settle")));
    }
    if !are_indexed(&work.units) {
        return Err(
            Stop::Failed(RuntimeError::InvalidCheckpoint("unit side exceeds platform")),
        );
    }
    let mut reader = sheet.reader();
    let read = operational_unit_inputs(&work.units, strengths, None, None, &mut reader);
    if !reader.is_complete() {
        return Err(Stop::Missing(reader.into_missing()));
    }
    let inputs = match read {
        Err(error) => {
            return Err(Stop::Failed(error));
        },
        Ok(inputs) => inputs,
    };
    let mut judged: Option<Vec<CountryOperationalInput>> = None;
    if work.rules.sample_due {
        let snapshot = work.snapshot.as_ref().unwrap();
        let told = operational_country_inputs(
            &work.units,
            parts.simulation.config.combat.armor_crew_per_vehicle,
            &parts.scenario.countries,
            &snapshot.countries,
            &mut reader,
        );
        if !reader.is_complete() {
            return Err(Stop::Missing(reader.into_missing()));
        }
        match told {
            Err(error) => {
                return Err(Stop::Failed(error));
            },
            Ok(list) => {
                judged = Some(list);
            },
        }
    }
    let mut slot: Option<OperationalRuntimeState> = None;
    core::mem::swap(&mut slot, &mut work.operations);
    if let Some(mut operations) = slot {
        let settled = {
            let territory = ground_of(&parts, work);
            settle_operations(
                &mut operations,
                work.step.tick,
                &inputs,
                judged.as_ref(),
                work.rules.sample_interval,
                &territory.country_to_side,
                &parts.scenario.countries,
                parts.territory.max_sides,
                sheet,
            )
        };
        work.operations = Some(operations);
        if let Err(stop) = settled {
            assert(*work == *old(work));
            return Err(stop);
        }
    }
    work.close_stage(StageEvent::Done);
    Ok(TickAction::Moved)
}

// ---------------------------------------------------------------------------------------------
// Execution after movement
// ---------------------------------------------------------------------------------------------

/// What execution reads of formations after movement.
pub open spec fn moved_execution(model: RuntimeModel, work: TickWork) -> Result<
    Seq<ExecutionUnitInput>,
    RuntimeError,
> {
    match work.issued {
        None => Err(RuntimeError::InvalidCheckpoint("tick has no plan")),
        Some(issued) => collected(
            execution_inputs(
                work.units@,
                policies_in_force(model, work),
                work.step.tick,
                resolved_now(work),
                issued.planning.assignments@,
                forces_now(work),
            ),
            work.units@.len(),
        ),
    }
}

/// Execution lets go of formations that are gone.
pub open spec fn reactions_stage(
    model: RuntimeModel,
    before: TickWork,
    after: TickWork,
    outcome: Result<TickAction, Stop<RuntimeError>>,
) -> bool {
    match outcome {
        Ok(TickAction::Reactions(asked)) => {
            &&& before.inbox.reactions is None
            &&& after == before
            &&& moved_execution(model, before) == Ok::<Seq<ExecutionUnitInput>, RuntimeError>(
                asked@,
            )
        },
        Ok(TickAction::Moved) => {
            &&& before.inbox.reactions is Some
            &&& completed(before, StageEvent::Done, after)
            &&& after == (TickWork {
                step: after.step,
                inbox: after.inbox,
                execution: before.inbox.reactions,
                ..before
            })
        },
        Ok(_) => false,
        Err(Stop::Failed(error)) => after == before && before.inbox.reactions is None
            && moved_execution(model, before) == Err::<Seq<ExecutionUnitInput>, RuntimeError>(
            error,
        ),
        Err(Stop::Missing(_)) => false,
    }
}

pub(crate) fn let_go(runtime: &NativeRuntime, work: &mut TickWork) -> (outcome: Result<
    TickAction,
    Stop<RuntimeError>,
>)
    ensures
        reactions_stage(held(runtime@), *old(work), *final(work), outcome),
{
    if work.inbox.reactions.is_none() {
        let parts = runtime.parts();
        let issued = match &work.issued {
            None => {
                return Err(Stop::Failed(RuntimeError::InvalidCheckpoint("tick has no plan")));
            },
            Some(issued) => issued,
        };
        return match execution_unit_inputs(
            &work.units,
            policies_of(&parts, work),
            work.step.tick,
            resolved_of(work),
            &issued.planning.assignments,
            work.operations.as_ref(),
        ) {
            Ok(units) => Ok(TickAction::Reactions(units)),
            Err(error) => Err(Stop::Failed(error)),
        };
    }
    let mut kept: Option<OperationalExecutionState> = None;
    core::mem::swap(&mut kept, &mut work.inbox.reactions);
    work.execution = kept;
    work.close_stage(StageEvent::Done);
    Ok(TickAction::Moved)
}

// ---------------------------------------------------------------------------------------------
// Mobilization
// ---------------------------------------------------------------------------------------------

/// What new armor is mobilized by.
pub open spec fn mobilization_scope(
    model: RuntimeModel,
    work: TickWork,
    results: Map<Operation, u64>,
) -> MobilizationScope {
    MobilizationScope {
        results,
        tick: work.step.tick,
        created: work.created@,
        previous: work.units@,
        policies: model.policies,
        country_to_side: ground(model, work).country_to_side@,
        disciplines: work.inbox.disciplines->Some_0@,
        commands: commands_view(
            match work.commands {
                Some(staged) => Some(&staged),
                None => None,
            },
        ),
    }
}

/// Whether every new formation has a discipline.
pub open spec fn disciplined(work: TickWork) -> bool {
    forall|id: u64| #[trigger]
        work.created@.contains(id) ==> work.inbox.disciplines->Some_0@.contains_key(id)
}

/// New armor is told what it needs, and joins.
pub open spec fn mobilization_stage(
    model: RuntimeModel,
    before: TickWork,
    after: TickWork,
    results: Map<Operation, u64>,
    outcome: Result<TickAction, Stop<RuntimeError>>,
) -> bool {
    let joined = mobilized(
        mobilization_scope(model, before, results),
        before.material_units->Some_0@,
        before.material_units->Some_0@.len(),
    );
    match outcome {
        Ok(TickAction::Disciplines(asked)) => {
            &&& before.material_units is Some && before.inbox.disciplines is None
            &&& after == before
            &&& asked@ == before.created@
        },
        Ok(TickAction::Moved) => {
            &&& completed(before, StageEvent::Done, after)
            &&& match before.material_units {
                None => after == (TickWork { step: after.step, inbox: after.inbox, ..before }),
                Some(units) => {
                    &&& before.inbox.disciplines is Some
                    &&& after == (TickWork {
                        step: after.step,
                        inbox: after.inbox,
                        mobilization: after.mobilization,
                        units,
                        strengths: None,
                        material_units: None,
                        reshow: true,
                        ..before
                    })
                    &&& after.mobilization matches Some(told) && joined == Ok::<
                        MobilizationModel,
                        RuntimeError,
                    >(told@)
                },
            }
        },
        Ok(_) => false,
        Err(Stop::Failed(error)) => after == before && before.material_units is Some
            && before.inbox.disciplines is Some && (if disciplined(before) {
            joined == Err::<MobilizationModel, RuntimeError>(error)
        } else {
            error == RuntimeError::InvalidCheckpoint("a new formation has no discipline")
        }),
        Err(Stop::Missing(missing)) => lacking(before, after, missing, results) && (
        before.material_units matches Some(units) && !mobilization_supplied(
            results,
            units@,
            before.created@,
        )),
    }
}

fn are_disciplined(created: &BTreeSet<u64>, disciplines: &BTreeMap<u64, Real>) -> (answer: bool)
    ensures
        answer == (forall|id: u64| #[trigger]
            created@.contains(id) ==> disciplines@.contains_key(id)),
{
    broadcast use vstd::std_specs::btree::group_btree_axioms;

    let ids = crate::tables::ordered_units(created);
    let mut at: usize = 0;
    while at < ids.len()
        invariant
            at <= ids@.len(),
            forall|member: u64| #[trigger] ids@.contains(member) == created@.contains(member),
            forall|i: int| 0 <= i < at ==> disciplines@.contains_key(#[trigger] ids@[i]),
        decreases ids@.len() - at,
    {
        broadcast use vstd::std_specs::btree::group_btree_axioms;

        if !disciplines.contains_key(&ids[at]) {
            assert(ids@.contains(ids@[at as int]));
            assert(created@.contains(ids@[at as int]));
            return false;
        }
        at = at + 1;
    }
    proof {
        assert forall|id: u64| #[trigger] created@.contains(id) implies disciplines@.contains_key(
            id,
        ) by {
            assert(ids@.contains(id));
        }
    }
    true
}

pub(crate) fn mobilize(runtime: &NativeRuntime, work: &mut TickWork, sheet: &Worksheet) -> (outcome:
    Result<TickAction, Stop<RuntimeError>>)
    ensures
        mobilization_stage(held(runtime@), *old(work), *final(work), sheet@, outcome),
{
    let parts = runtime.parts();
    let told = match &work.material_units {
        None => None,
        Some(units) => {
            let disciplines = match &work.inbox.disciplines {
                None => {
                    return Ok(TickAction::Disciplines(work.created.clone()));
                },
                Some(disciplines) => disciplines,
            };
            if !are_disciplined(&work.created, disciplines) {
                return Err(
                    Stop::Failed(
                        RuntimeError::InvalidCheckpoint("a new formation has no discipline"),
                    ),
                );
            }
            let mut reader = sheet.reader();
            let joined = mobilize_armor(
                units,
                &work.created,
                &work.units,
                parts.unit_policies,
                &ground_of(&parts, work).country_to_side,
                disciplines,
                work.commands.as_ref(),
                work.step.tick,
                &mut reader,
            );
            if !reader.is_complete() {
                return Err(Stop::Missing(reader.into_missing()));
            }
            match joined {
                Err(error) => {
                    return Err(Stop::Failed(error));
                },
                Ok(mobilization) => Some(mobilization),
            }
        },
    };
    let mut units: Option<Vec<SimulationUnit>> = None;
    core::mem::swap(&mut units, &mut work.material_units);
    if let Some(list) = units {
        work.units = list;
        work.strengths = None;
        work.mobilization = told;
        work.reshow = true;
    }
    work.close_stage(StageEvent::Done);
    Ok(TickAction::Moved)
}

// ---------------------------------------------------------------------------------------------
// Recruitment
// ---------------------------------------------------------------------------------------------

/// Whether a source is what a tick recruits by.
pub open spec fn recruits_by(
    model: RuntimeModel,
    work: TickWork,
    source: RecruitmentInput<'_>,
) -> bool {
    &&& source.tick == work.step.tick
    &&& source.frame == work.step.frame
    &&& *source.units == work.units
    &&& work.strengths matches Some(strengths) && *source.strengths == strengths
    &&& *source.countries == model.scenario.countries
    &&& *source.cities == model.scenario.cities
    &&& *source.territory == ground(model, work)
    &&& work.snapshot matches Some(snapshot) && *source.aggregates == snapshot.countries
    &&& source.strategic@ == purse(model, work)
    &&& match work.dynamics {
        Some(table) => source.dynamics matches Some(told) && *told == table,
        None => source.dynamics is None,
    }
    &&& match model.battlefield {
        Some(field) => if field.mountains_enabled {
            source.mountains matches Some(told) && told@ == field.terrain_intensity
        } else {
            source.mountains is None
        },
        None => source.mountains is None,
    }
    &&& source.config == model.config.production
    &&& source.rules == work.rules.recruitment
    &&& source.draws@ == values_of(work.draws@)
    &&& *source.commands == work.recruit_commands
}

/// The first id that a recruit gets.
pub open spec fn next_recruit(model: RuntimeModel, work: TickWork) -> u64 {
    match work.reinforcement {
        Some(state) => state.next_unit_id,
        None => model.reinforcement->Some_0.next_unit_id,
    }
}

/// What recruitment comes to.
pub open spec fn recruitment_comes_to(
    model: RuntimeModel,
    work: TickWork,
    results: Map<Operation, u64>,
    outcome: Result<RecruitmentModel, RecruitmentHalt>,
) -> bool {
    exists|source: RecruitmentInput<'_>| #[trigger]
        recruits_by(model, work, source) && recruited(
            results,
            source,
            next_recruit(model, work),
            reserves_now(model, work),
        ) == outcome
}

/// Countries recruit, recruits join, and the treasuries pay for them.
pub open spec fn recruitment_stage(
    model: RuntimeModel,
    before: TickWork,
    after: TickWork,
    results: Map<Operation, u64>,
    outcome: Result<TickAction, Stop<RuntimeError>>,
) -> bool {
    match outcome {
        Ok(TickAction::Strengths) => before.recruitment is None && !strengths_known(before) && after
            == before,
        Ok(TickAction::Draw) => before.recruitment is None && after == before
            && recruitment_comes_to(model, before, results, Err(RecruitmentHalt::Draws)),
        Ok(TickAction::RecruitCommand(wanted)) => before.recruitment is None && after == before
            && recruitment_comes_to(
            model,
            before,
            results,
            Err(RecruitmentHalt::Command(wanted)),
        ),
        Ok(TickAction::SpendRecruitment(costs)) => {
            &&& before.inbox.treasury is None
            &&& after == before
            &&& before.recruitment matches Some(staged) && costs@ == staged.treasury_costs@
                && costs@.dom().len() > 0
        },
        Ok(TickAction::Moved) => match before.recruitment {
            None => after.recruitment matches Some(staged) && {
                &&& recruitment_comes_to(model, before, results, Ok(staged@))
                &&& staged.draws_used <= before.draws@.len()
                &&& after == (TickWork { recruitment: after.recruitment, ..before })
            },
            Some(staged) => {
                let spent = staged.treasury_costs@.dom().len() > 0;
                &&& spent ==> before.inbox.treasury is Some
                &&& staged.draws_used <= before.draws@.len()
                &&& completed(before, StageEvent::Done, after)
                &&& after == (TickWork {
                    step: after.step,
                    inbox: after.inbox,
                    units: after.units,
                    strengths: None,
                    draws: after.draws,
                    rng: generator_after(before.rng, before.draws@, staged.draws_used as nat),
                    reserves: after.reserves,
                    reinforcement: after.reinforcement,
                    reshow: before.reshow || staged.units@.len() > 0,
                    strategic: if spent {
                        Some(before.inbox.treasury->Some_0.strategic)
                    } else {
                        before.strategic
                    },
                    strategic_snapshot: if spent {
                        before.inbox.treasury->Some_0.published
                    } else {
                        before.strategic_snapshot
                    },
                    ..before
                })
                &&& after.units@ == before.units@ + staged.units@
                &&& after.draws@.len() == 0
                &&& after.reserves matches Some(reserves) && reserves@ == staged.reserves@
                &&& model.reinforcement is Some
                &&& spent ==> economies_keyed(
                    before.inbox.treasury->Some_0.strategic.economies@,
                )
                &&& after.reinforcement matches Some(state) && {
                    let earlier = match before.reinforcement {
                        Some(earlier) => earlier,
                        None => model.reinforcement->Some_0,
                    };
                    &&& state.next_unit_id == staged.next_unit_id
                    &&& state.schema@ == earlier.schema@
                    &&& state.countries@ == earlier.countries@
                    &&& state.next_air_wing_id == earlier.next_air_wing_id
                }
            },
        },
        Ok(_) => false,
        Err(Stop::Failed(error)) => after == before && {
            ||| (before.snapshot is None || model.reinforcement is None) && error
                == RuntimeError::InvalidCheckpoint("tick has nobody to recruit")
            ||| before.recruitment is Some && misfiled(before) && error
                == RuntimeError::InvalidCheckpoint("an economy stands under another country")
            ||| before.recruitment is None && recruitment_comes_to(
                model,
                before,
                results,
                Err(RecruitmentHalt::Failed(error)),
            )
            ||| error == RuntimeError::InvalidCheckpoint(
                "recruitment used more draws than there are",
            ) && match before.recruitment {
                Some(staged) => staged.draws_used > before.draws@.len(),
                None => exists|staged: RecruitmentModel| #[trigger]
                    overdrawn(model, before, results, staged),
            }
        },
        Err(Stop::Missing(missing)) => before.recruitment is None && lacking(
            before,
            after,
            missing,
            results,
        ) && exists|source: RecruitmentInput<'_>| #[trigger]
            recruits_by(model, before, source) && !recruitment_supplied(
                results,
                source,
                next_recruit(model, before),
                reserves_now(model, before),
            ),
    }
}

/// Whether recruitment used more random numbers than were drawn.
pub open spec fn overdrawn(
    model: RuntimeModel,
    work: TickWork,
    results: Map<Operation, u64>,
    staged: RecruitmentModel,
) -> bool {
    recruitment_comes_to(model, work, results, Ok(staged)) && staged.draws_used
        > work.draws@.len()
}

#[verifier::rlimit(40)]
fn stage_recruits(runtime: &NativeRuntime, work: &mut TickWork, sheet: &Worksheet) -> (outcome:
    Result<TickAction, Stop<RuntimeError>>)
    requires
        runtime_sound(held(runtime@)),
        replaces(ground(held(runtime@), *old(work)), held(runtime@).territory),
        old(work).recruitment is None,
    ensures
        recruitment_stage(held(runtime@), *old(work), *final(work), sheet@, outcome),
{
    broadcast use vstd::std_specs::btree::group_btree_axioms;

    let parts = runtime.parts();
    if work.snapshot.is_none() || parts.reinforcement.is_none() {
        return Err(Stop::Failed(RuntimeError::InvalidCheckpoint("tick has nobody to recruit")));
    }
    let strengths = match &work.strengths {
        None => {
            return Ok(TickAction::Strengths);
        },
        Some(strengths) => strengths,
    };
    if strengths.len() != work.units.len() {
        return Ok(TickAction::Strengths);
    }
    let values = list_values(&work.draws);
    let mountains: Option<&Vec<Real>> = match parts.battlefield {
        Some(field) => if field.mountains_enabled {
            Some(&field.terrain_intensity)
        } else {
            None
        },
        None => None,
    };
    let strategic: &StrategicState = match &work.strategic {
        Some(strategic) => strategic,
        None => parts.strategic,
    };
    let next: u64 = match &work.reinforcement {
        Some(state) => state.next_unit_id,
        None => parts.reinforcement.unwrap().next_unit_id,
    };
    let reserves: &BTreeMap<usize, Real> = match &work.reserves {
        Some(reserves) => reserves,
        None => parts.personnel_reserves,
    };
    let source = RecruitmentInput {
        tick: work.step.tick,
        frame: work.step.frame,
        units: &work.units,
        strengths,
        countries: &parts.scenario.countries,
        cities: &parts.scenario.cities,
        territory: ground_of(&parts, work),
        aggregates: &work.snapshot.as_ref().unwrap().countries,
        strategic,
        dynamics: work.dynamics.as_ref(),
        mountains,
        config: parts.config.production,
        rules: work.rules.recruitment,
        draws: &values,
        commands: &work.recruit_commands,
    };
    assert(recruits_by(held(runtime@), *work, source));
    let staged = stage_recruitment(&source, next, reserves, sheet);
    match staged {
        Err(Stop::Missing(missing)) => Err(Stop::Missing(missing)),
        Err(Stop::Failed(RecruitmentHalt::Failed(error))) => Err(Stop::Failed(error)),
        Err(Stop::Failed(RecruitmentHalt::Draws)) => Ok(TickAction::Draw),
        Err(Stop::Failed(RecruitmentHalt::Command(wanted))) => Ok(
            TickAction::RecruitCommand(wanted),
        ),
        Ok(staging) => {
            if staging.draws_used > work.draws.len() {
                assert(overdrawn(held(runtime@), *work, sheet@, staging@));
                return Err(
                    Stop::Failed(
                        RuntimeError::InvalidCheckpoint(
                            "recruitment used more draws than there are",
                        ),
                    ),
                );
            }
            work.recruitment = Some(staging);
            Ok(TickAction::Moved)
        },
    }
}

pub(crate) fn join_units(first: &Vec<SimulationUnit>, second: &Vec<SimulationUnit>) -> (joined: Vec<
    SimulationUnit,
>)
    ensures
        joined@ == first@ + second@,
{
    let mut joined = copy_all(first.as_slice());
    let mut at: usize = 0;
    while at < second.len()
        invariant
            at <= second@.len(),
            joined@ =~= first@ + second@.take(at as int),
        decreases second@.len() - at,
    {
        joined.push(second[at]);
        at = at + 1;
    }
    assert(joined@ =~= first@ + second@);
    joined
}

#[verifier::rlimit(40)]
pub(crate) fn recruit(runtime: &NativeRuntime, work: &mut TickWork, sheet: &Worksheet) -> (outcome:
    Result<TickAction, Stop<RuntimeError>>)
    requires
        runtime_sound(held(runtime@)),
        replaces(ground(held(runtime@), *old(work)), held(runtime@).territory),
    ensures
        recruitment_stage(held(runtime@), *old(work), *final(work), sheet@, outcome),
{
    broadcast use vstd::std_specs::btree::group_btree_axioms;

    if work.recruitment.is_none() {
        return stage_recruits(runtime, work, sheet);
    }
    let parts = runtime.parts();
    if work.snapshot.is_none() || parts.reinforcement.is_none() {
        return Err(Stop::Failed(RuntimeError::InvalidCheckpoint("tick has nobody to recruit")));
    }
    let staged = work.recruitment.as_ref().unwrap();
    if staged.draws_used > work.draws.len() {
        return Err(
            Stop::Failed(
                RuntimeError::InvalidCheckpoint("recruitment used more draws than there are"),
            ),
        );
    }
    let spent = staged.treasury_costs.len() > 0;
    if spent && work.inbox.treasury.is_none() {
        return Ok(TickAction::SpendRecruitment(staged.treasury_costs.clone()));
    }
    if spent && !work.is_treasury_filed() {
        return Err(
            Stop::Failed(
                RuntimeError::InvalidCheckpoint("an economy stands under another country"),
            ),
        );
    }
    let used: usize = staged.draws_used;
    let next: u64 = staged.next_unit_id;
    let raised: bool = staged.units.len() > 0;
    let units = join_units(&work.units, &staged.units);
    let reserves = staged.reserves.clone();
    let mut state: ReinforcementState = match &work.reinforcement {
        Some(state) => copy_reinforcement(state),
        None => copy_reinforcement(parts.reinforcement.unwrap()),
    };
    state.next_unit_id = next;
    if used > 0 {
        work.rng = work.draws[used - 1].after;
    }
    work.draws = Vec::new();
    work.units = units;
    work.strengths = None;
    work.reserves = Some(reserves);
    work.reinforcement = Some(state);
    if raised {
        work.reshow = true;
    }
    if spent {
        let mut paid: Option<TreasuryAnswer> = None;
        core::mem::swap(&mut paid, &mut work.inbox.treasury);
        if let Some(TreasuryAnswer { strategic, published }) = paid {
            work.strategic = Some(strategic);
            work.strategic_snapshot = published;
        }
    }
    work.close_stage(StageEvent::Done);
    Ok(TickAction::Moved)
}

} // verus!
