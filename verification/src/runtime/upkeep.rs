//! The pay cycle within a tick: forces are paid, repaired and replaced, and the treasuries pay for
//! it.

use std::collections::BTreeMap;
use vstd::prelude::*;
use crate::air::AirPowerState;
use crate::economy::EconomyState;
use crate::order::copy_all;
use crate::paycycle::{
    air_countries_supplied, air_cycle, air_cycle_start, air_cycles_keep_the_economies, air_of,
    air_reports, awaits_verdict, material_countries_supplied, material_cycle,
    material_cycle_start, material_cycles_keep_the_economies, material_reports,
    settle_air_countries, AirPayCycleOutcome, AirReport, CycleModel, MaterialPayCycleOutcome,
    MaterialReport,
};
use crate::reinforcement::{MaterialLogisticsState, ReinforcementError, ReinforcementState};
use crate::runtime::counters::{
    air_cycle_count, air_pay_cycle_counters, material_cycle_count, material_pay_cycle_counters,
};
use crate::runtime::error::RuntimeError;
use crate::runtime::logistics::{homes_of, homes_supplied, material_home_positions};
use crate::runtime::mobilization::{
    created_formations, maintenance_costs, maintenance_of, maintenance_supplied, raised,
};
use crate::runtime::native::{held, runtime_sound, NativeRuntime, RuntimeModel};
use crate::runtime::step::StageEvent;
use crate::runtime::tick::{
    completed, ground, ground_of, lacking, misfiled, replaces, TickAction, TickWork,
    TreasuryAnswer,
};
use crate::runtime::world::StrategicModel;
use crate::scalar::Real;
use crate::settlement::Halt;
use crate::tables::{ascending, ordered_countries};
use crate::worksheet::{all_missing, Operation, Stop, Worksheet};

verus! {

/// Economies as a tick has them now.
pub open spec fn purse(model: RuntimeModel, work: TickWork) -> StrategicModel {
    match work.strategic {
        Some(strategic) => strategic@,
        None => model.strategic,
    }
}

/// Wings as a tick has them now.
pub open spec fn hangars(model: RuntimeModel, work: TickWork) -> Option<AirPowerState> {
    match work.air {
        Some(air) => Some(air),
        None => model.air,
    }
}

/// Reserves as a tick has them now.
pub open spec fn reserves_now(model: RuntimeModel, work: TickWork) -> Map<usize, Real> {
    match work.reserves {
        Some(reserves) => reserves@,
        None => model.reserves,
    }
}

/// Whether a tick has forces to pay.
pub open spec fn pays(model: RuntimeModel, work: TickWork) -> bool {
    model.reinforcement is Some && hangars(model, work) is Some
}

/// Where new armor gathers.
pub open spec fn homes_now(model: RuntimeModel, work: TickWork, results: Map<Operation, u64>) -> Map<
    u16,
    (Real, Real),
> {
    let territory = ground(model, work);
    let countries = ascending(territory.country_to_side@.dom());
    homes_of(
        results,
        work.units@,
        model.scenario.cities@,
        territory,
        countries,
        countries.len(),
    )
}

/// The treasuries of economies.
pub open spec fn treasuries(economies: Map<u16, EconomyState>) -> Map<u16, Real> {
    Map::new(
        |country: u16| economies.contains_key(country),
        |country: u16| economies[country].treasury,
    )
}

/// What a material pay cycle starts from.
pub open spec fn material_start(model: RuntimeModel, work: TickWork) -> CycleModel {
    material_cycle_start(
        model.reinforcement->Some_0,
        model.material->Some_0,
        work.units@,
        hangars(model, work)->Some_0@,
        purse(model, work).economies,
        reserves_now(model, work),
    )
}

/// What an air pay cycle starts from.
pub open spec fn air_start(model: RuntimeModel, work: TickWork) -> CycleModel {
    air_cycle_start(
        model.reinforcement->Some_0,
        hangars(model, work)->Some_0@,
        purse(model, work).economies,
        reserves_now(model, work),
    )
}

/// How a material pay cycle ends.
pub open spec fn material_end(model: RuntimeModel, work: TickWork, results: Map<Operation, u64>) ->
    Result<(CycleModel, Seq<MaterialReport>), ReinforcementError> {
    material_cycle(
        results,
        work.verdicts@,
        model.reinforcement->Some_0.schema@,
        model.material->Some_0.schema@,
        material_start(model, work),
        ground(model, work).country_to_side@,
        model.territory.max_sides,
        homes_now(model, work, results),
        model.config.production.max_units_per_side,
    )
}

/// How an air pay cycle ends.
pub open spec fn air_end(model: RuntimeModel, work: TickWork, results: Map<Operation, u64>) -> Result<
    (CycleModel, Seq<AirReport>),
    ReinforcementError,
> {
    air_cycle(
        results,
        work.verdicts@,
        model.reinforcement->Some_0.schema@,
        air_start(model, work),
        ground(model, work).country_to_side@,
        model.territory.max_sides,
    )
}

/// A material pay cycle is settled.
pub open spec fn material_paid(
    model: RuntimeModel,
    before: TickWork,
    after: TickWork,
    results: Map<Operation, u64>,
    economies: Map<u16, EconomyState>,
    done: MaterialPayCycleOutcome,
) -> bool {
    &&& after.material is Some && after.material_units is Some
    &&& material_end(model, before, results) == Ok::<
        (CycleModel, Seq<MaterialReport>),
        ReinforcementError,
    >(
        (
            material_cycle_start(
                after.reinforcement->Some_0,
                after.material->Some_0,
                after.material_units->Some_0@,
                after.air->Some_0@,
                economies,
                after.reserves->Some_0@,
            ),
            material_reports(done.countries@),
        ),
    )
    &&& after.reinforcement_counters == material_cycle_count(
        done.countries@,
        done.countries@.len(),
    )
    &&& forall|id: u64| #[trigger] after.created@.contains(id) <==> raised(done, id)
}

/// An air pay cycle is settled.
pub open spec fn air_paid(
    model: RuntimeModel,
    before: TickWork,
    after: TickWork,
    results: Map<Operation, u64>,
    economies: Map<u16, EconomyState>,
    done: AirPayCycleOutcome,
) -> bool {
    &&& after.material == before.material && after.material_units == before.material_units
    &&& after.created == before.created
    &&& air_end(model, before, results) == Ok::<(CycleModel, Seq<AirReport>), ReinforcementError>(
        (
            air_cycle_start(
                after.reinforcement->Some_0,
                after.air->Some_0@,
                economies,
                after.reserves->Some_0@,
            ),
            air_reports(done.countries@),
        ),
    )
    &&& after.reinforcement_counters == air_cycle_count(done.countries@, done.countries@.len())
}

/// What the forces cost.
pub open spec fn bill(
    model: RuntimeModel,
    work: TickWork,
    results: Map<Operation, u64>,
    economies: Map<u16, EconomyState>,
) -> Seq<(u16, Real)> {
    let keys = ascending(economies.dom());
    maintenance_of(
        results,
        treasuries(purse(model, work).economies),
        economies,
        keys,
        keys.len(),
    )
}

/// A pay cycle is settled on copies, and its costs are drawn up.
pub open spec fn forces_paid(
    model: RuntimeModel,
    before: TickWork,
    after: TickWork,
    results: Map<Operation, u64>,
) -> bool {
    &&& after == (TickWork {
        reinforcement: after.reinforcement,
        material: after.material,
        material_units: after.material_units,
        air: after.air,
        reserves: after.reserves,
        reinforcement_counters: after.reinforcement_counters,
        created: after.created,
        costs: after.costs,
        ..before
    })
    &&& after.reinforcement is Some && after.air is Some && after.reserves is Some
    &&& if model.material is Some {
        exists|economies: Map<u16, EconomyState>, done: MaterialPayCycleOutcome| #[trigger]
            material_paid(model, before, after, results, economies, done) && after.costs@ == bill(
                model,
                before,
                results,
                economies,
            )
    } else {
        exists|economies: Map<u16, EconomyState>, done: AirPayCycleOutcome| #[trigger]
            air_paid(model, before, after, results, economies, done) && after.costs@ == bill(
                model,
                before,
                results,
                economies,
            )
    }
}

/// Why a pay cycle fails.
pub open spec fn pay_fault(
    model: RuntimeModel,
    work: TickWork,
    results: Map<Operation, u64>,
    error: RuntimeError,
) -> bool {
    ||| hangars(model, work)->Some_0.wings@.len() + 2
        * model.reinforcement->Some_0.countries@.len() > u32::MAX && error
        == RuntimeError::InvalidCheckpoint("too many wings for a pay cycle")
    ||| (error matches RuntimeError::Reinforcement(cause) && if model.material is Some {
        material_end(model, work, results) == Err::<
            (CycleModel, Seq<MaterialReport>),
            ReinforcementError,
        >(cause)
    } else {
        air_end(model, work, results) == Err::<(CycleModel, Seq<AirReport>), ReinforcementError>(
            cause,
        )
    })
}

/// Forces are paid, repaired and replaced, and the treasuries pay for it.
pub open spec fn logistics_stage(
    model: RuntimeModel,
    before: TickWork,
    after: TickWork,
    results: Map<Operation, u64>,
    outcome: Result<TickAction, Stop<RuntimeError>>,
) -> bool {
    let paid = before.reinforcement is Some;
    match outcome {
        Ok(TickAction::CheckAir(shown)) => {
            &&& pays(model, before) && !paid
            &&& after == before
            &&& if model.material is Some {
                awaits_verdict(
                    results,
                    before.verdicts@,
                    material_start(model, before),
                    ground(model, before).country_to_side@,
                    homes_now(model, before, results),
                    model.config.production.max_units_per_side,
                    shown@,
                )
            } else if before.verdicts@.len() == 0 {
                shown@ == hangars(model, before)->Some_0@
            } else {
                before.verdicts@.len() == 1 && (settle_air_countries(
                    results,
                    air_start(model, before),
                    ground(model, before).country_to_side@,
                    air_start(model, before).records.len() as int,
                ) matches Ok((left, _)) && shown@ == air_of(left))
            }
        },
        Ok(TickAction::Spend(costs)) => {
            &&& pays(model, before) && paid && before.inbox.treasury is None
            &&& after == before
            &&& costs@ == before.costs@
            &&& costs@.len() > 0
        },
        Ok(TickAction::Moved) => if !pays(model, before) || paid {
            let spent = pays(model, before) && before.costs@.len() > 0;
            &&& spent ==> before.inbox.treasury is Some && !misfiled(before)
            &&& completed(before, StageEvent::Done, after)
            &&& after == (TickWork {
                step: after.step,
                inbox: after.inbox,
                strategic: if spent {
                    Some(before.inbox.treasury->Some_0.strategic)
                } else {
                    before.strategic
                },
                strategic_snapshot: if spent {
                    before.inbox.treasury->Some_0.published
                } else {
                    before.strategic_snapshot
                },
                ..before
            })
        } else {
            forces_paid(model, before, after, results)
        },
        Ok(_) => false,
        Err(Stop::Failed(error)) => after == before && pays(model, before) && (if paid {
            misfiled(before) && error == RuntimeError::InvalidCheckpoint(
                "an economy stands under another country",
            )
        } else {
            pay_fault(model, before, results, error)
        }),
        Err(Stop::Missing(missing)) => lacking(before, after, missing, results) && pays(
            model,
            before,
        ) && !paid && {
            ||| model.material is Some && !homes_supplied(
                results,
                before.units@,
                model.scenario.cities@,
                ground(model, before),
                ascending(ground(model, before).country_to_side@.dom()),
            )
            ||| model.material is Some && !material_countries_supplied(
                results,
                before.verdicts@,
                material_start(model, before),
                ground(model, before).country_to_side@,
                homes_now(model, before, results),
                model.config.production.max_units_per_side,
            )
            ||| model.material is None && !air_countries_supplied(
                results,
                air_start(model, before),
                ground(model, before).country_to_side@,
            )
            ||| model.material is Some && (material_end(model, before, results) matches Ok((left, _))
                && bill_lacking(model, before, results, left.economies))
            ||| model.material is None && (air_end(model, before, results) matches Ok((left, _))
                && bill_lacking(model, before, results, left.economies))
        },
    }
}

/// Whether a worksheet lacks what drawing up the costs takes.
pub open spec fn bill_lacking(
    model: RuntimeModel,
    work: TickWork,
    results: Map<Operation, u64>,
    economies: Map<u16, EconomyState>,
) -> bool {
    !maintenance_supplied(
        results,
        treasuries(purse(model, work).economies),
        economies,
        ascending(economies.dom()),
    )
}

pub(crate) fn copy_reinforcement(state: &ReinforcementState) -> (copy: ReinforcementState)
    ensures
        copy.schema@ == state.schema@,
        copy.countries@ == state.countries@,
        copy.next_unit_id == state.next_unit_id,
        copy.next_air_wing_id == state.next_air_wing_id,
{
    ReinforcementState {
        schema: state.schema.clone(),
        next_unit_id: state.next_unit_id,
        next_air_wing_id: state.next_air_wing_id,
        countries: copy_all(state.countries.as_slice()),
    }
}

pub(crate) fn copy_material(state: &MaterialLogisticsState) -> (copy: MaterialLogisticsState)
    ensures
        copy.schema@ == state.schema@,
        copy.countries@ == state.countries@,
{
    MaterialLogisticsState {
        schema: state.schema.clone(),
        countries: copy_all(state.countries.as_slice()),
    }
}

fn list_treasuries(economies: &BTreeMap<u16, EconomyState>) -> (table: BTreeMap<u16, Real>)
    ensures
        table@ == treasuries(economies@),
{
    broadcast use vstd::std_specs::btree::group_btree_axioms;

    let keys = ordered_countries(economies);
    let mut table: BTreeMap<u16, Real> = BTreeMap::new();
    let mut at: usize = 0;
    while at < keys.len()
        invariant
            at <= keys@.len(),
            forall|i: int| 0 <= i < keys@.len() ==> economies@.contains_key(#[trigger] keys@[i]),
            forall|country: u16| #[trigger] table@.contains_key(country) <==> exists|i: int|
                0 <= i < at && #[trigger] keys@[i] == country,
            forall|country: u16| #[trigger]
                table@.contains_key(country) ==> table@[country] == economies@[country].treasury,
        decreases keys@.len() - at,
    {
        broadcast use vstd::std_specs::btree::group_btree_axioms;

        let ghost earlier = table@;
        let key: u16 = keys[at];
        table.insert(key, economies.get(&key).unwrap().treasury);
        proof {
            assert forall|country: u16| #[trigger] table@.contains_key(country) <==> exists|i: int|
                0 <= i < at + 1 && #[trigger] keys@[i] == country by {
                if country == key {
                    assert(keys@[at as int] == country);
                } else if earlier.contains_key(country) {
                    let i = choose|i: int| 0 <= i < at && #[trigger] keys@[i] == country;
                    assert(keys@[i] == country);
                }
            }
        }
        at = at + 1;
    }
    proof {
        assert forall|country: u16| economies@.contains_key(country) implies table@.contains_key(
            country,
        ) by {
            assert(keys@.contains(country));
        }
    }
    assert(table@ =~= treasuries(economies@));
    table
}

fn draw_up_bill(
    runtime: &NativeRuntime,
    work: &TickWork,
    economies: &BTreeMap<u16, EconomyState>,
    sheet: &Worksheet,
) -> (outcome: Result<Vec<(u16, Real)>, Vec<Operation>>)
    requires
        economies@.dom() == purse(held(runtime@), *work).economies.dom(),
    ensures
        match outcome {
            Ok(costs) => costs@ == bill(held(runtime@), *work, sheet@, economies@),
            Err(missing) => missing@.len() > 0 && all_missing(missing@, sheet@) && bill_lacking(
                held(runtime@),
                *work,
                sheet@,
                economies@,
            ),
        },
{
    let parts = runtime.parts();
    let before = match &work.strategic {
        Some(strategic) => list_treasuries(&strategic.economies),
        None => list_treasuries(&parts.strategic.economies),
    };
    proof {
        assert forall|country: u16| #[trigger]
            economies@.contains_key(country) implies before@.contains_key(country) by {
            assert(economies@.dom().contains(country));
        }
    }
    let mut reader = sheet.reader();
    let costs = maintenance_costs(&before, economies, &mut reader);
    if !reader.is_complete() {
        return Err(reader.into_missing());
    }
    Ok(costs)
}

fn copy_economies(runtime: &NativeRuntime, work: &TickWork) -> (copy: BTreeMap<u16, EconomyState>)
    ensures
        copy@ == purse(held(runtime@), *work).economies,
{
    match &work.strategic {
        Some(strategic) => strategic.economies.clone(),
        None => runtime.parts().strategic.economies.clone(),
    }
}

fn copy_reserves(runtime: &NativeRuntime, work: &TickWork) -> (copy: BTreeMap<usize, Real>)
    ensures
        copy@ == reserves_now(held(runtime@), *work),
{
    match &work.reserves {
        Some(reserves) => reserves.clone(),
        None => runtime.parts().personnel_reserves.clone(),
    }
}

#[verifier::rlimit(60)]
fn pay_material(
    runtime: &NativeRuntime,
    work: &mut TickWork,
    air: AirPowerState,
    sheet: &Worksheet,
) -> (outcome: Result<TickAction, Stop<RuntimeError>>)
    requires
        runtime_sound(held(runtime@)),
        replaces(ground(held(runtime@), *old(work)), held(runtime@).territory),
        pays(held(runtime@), *old(work)),
        old(work).reinforcement is None,
        held(runtime@).material is Some,
        air@ == hangars(held(runtime@), *old(work))->Some_0@,
        air.wings@.len() + 2 * held(runtime@).reinforcement->Some_0.countries@.len() <= u32::MAX,
    ensures
        logistics_stage(held(runtime@), *old(work), *final(work), sheet@, outcome),
{
    let parts = runtime.parts();
    let mut state = copy_reinforcement(parts.reinforcement.unwrap());
    let mut material = copy_material(parts.material_logistics.unwrap());
    let territory = ground_of(&parts, work);
    let mut reader = sheet.reader();
    let homes = material_home_positions(
        &work.units,
        &parts.scenario.cities,
        territory,
        &mut reader,
    );
    if !reader.is_complete() {
        return Err(Stop::Missing(reader.into_missing()));
    }
    let mut air = air;
    let mut units = copy_all(work.units.as_slice());
    let mut economies = copy_economies(runtime, work);
    let mut reserves = copy_reserves(runtime, work);
    let settled = state.settle_material_pay_cycle(
        &mut material,
        &mut units,
        &mut air,
        &mut economies,
        &mut reserves,
        &territory.country_to_side,
        parts.territory.max_sides,
        &homes,
        parts.config.production.max_units_per_side,
        work.verdicts.as_slice(),
        sheet,
    );
    let done = match settled {
        Err(Halt::Failed(cause)) => {
            return Err(Stop::Failed(RuntimeError::Reinforcement(cause)));
        },
        Err(Halt::CheckAir(shown)) => {
            return Ok(TickAction::CheckAir(shown));
        },
        Err(Halt::Missing(operation)) => {
            let mut missing: Vec<Operation> = Vec::new();
            missing.push(operation);
            assert(all_missing(missing@, sheet@));
            return Err(Stop::Missing(missing));
        },
        Ok(done) => done,
    };
    proof {
        material_cycles_keep_the_economies(
            sheet@,
            work.verdicts@,
            held(runtime@).reinforcement->Some_0.schema@,
            held(runtime@).material->Some_0.schema@,
            material_start(held(runtime@), *work),
            ground(held(runtime@), *work).country_to_side@,
            held(runtime@).territory.max_sides,
            homes@,
            held(runtime@).config.production.max_units_per_side,
        );
    }
    let costs = match draw_up_bill(runtime, work, &economies, sheet) {
        Err(missing) => {
            return Err(Stop::Missing(missing));
        },
        Ok(costs) => costs,
    };
    work.reinforcement_counters = material_pay_cycle_counters(&done);
    work.created = created_formations(&done);
    work.reinforcement = Some(state);
    work.material = Some(material);
    work.material_units = Some(units);
    work.air = Some(air);
    work.reserves = Some(reserves);
    work.costs = costs;
    assert(material_paid(held(runtime@), *old(work), *work, sheet@, economies@, done));
    Ok(TickAction::Moved)
}

#[verifier::rlimit(60)]
fn pay_wings(
    runtime: &NativeRuntime,
    work: &mut TickWork,
    air: AirPowerState,
    sheet: &Worksheet,
) -> (outcome: Result<TickAction, Stop<RuntimeError>>)
    requires
        runtime_sound(held(runtime@)),
        replaces(ground(held(runtime@), *old(work)), held(runtime@).territory),
        pays(held(runtime@), *old(work)),
        old(work).reinforcement is None,
        held(runtime@).material is None,
        air@ == hangars(held(runtime@), *old(work))->Some_0@,
        air.wings@.len() + 2 * held(runtime@).reinforcement->Some_0.countries@.len() <= u32::MAX,
    ensures
        logistics_stage(held(runtime@), *old(work), *final(work), sheet@, outcome),
{
    let parts = runtime.parts();
    let mut state = copy_reinforcement(parts.reinforcement.unwrap());
    let territory = ground_of(&parts, work);
    let mut air = air;
    let mut economies = copy_economies(runtime, work);
    let mut reserves = copy_reserves(runtime, work);
    let settled = state.settle_air_pay_cycle(
        &mut air,
        &mut economies,
        &mut reserves,
        &territory.country_to_side,
        parts.territory.max_sides,
        work.verdicts.as_slice(),
        sheet,
    );
    let done = match settled {
        Err(Halt::Failed(cause)) => {
            return Err(Stop::Failed(RuntimeError::Reinforcement(cause)));
        },
        Err(Halt::CheckAir(shown)) => {
            return Ok(TickAction::CheckAir(shown));
        },
        Err(Halt::Missing(operation)) => {
            let mut missing: Vec<Operation> = Vec::new();
            missing.push(operation);
            assert(all_missing(missing@, sheet@));
            return Err(Stop::Missing(missing));
        },
        Ok(done) => done,
    };
    proof {
        air_cycles_keep_the_economies(
            sheet@,
            work.verdicts@,
            held(runtime@).reinforcement->Some_0.schema@,
            air_start(held(runtime@), *work),
            ground(held(runtime@), *work).country_to_side@,
            held(runtime@).territory.max_sides,
        );
    }
    let costs = match draw_up_bill(runtime, work, &economies, sheet) {
        Err(missing) => {
            return Err(Stop::Missing(missing));
        },
        Ok(costs) => costs,
    };
    work.reinforcement_counters = air_pay_cycle_counters(&done);
    work.reinforcement = Some(state);
    work.air = Some(air);
    work.reserves = Some(reserves);
    work.costs = costs;
    assert(air_paid(held(runtime@), *old(work), *work, sheet@, economies@, done));
    Ok(TickAction::Moved)
}

pub(crate) fn pay_forces(runtime: &NativeRuntime, work: &mut TickWork, sheet: &Worksheet) -> (
    outcome: Result<TickAction, Stop<RuntimeError>>)
    requires
        runtime_sound(held(runtime@)),
        replaces(ground(held(runtime@), *old(work)), held(runtime@).territory),
    ensures
        logistics_stage(held(runtime@), *old(work), *final(work), sheet@, outcome),
{
    let parts = runtime.parts();
    let stationed: Option<&AirPowerState> = match &work.air {
        Some(air) => Some(air),
        None => parts.air_power,
    };
    if parts.reinforcement.is_some() && work.reinforcement.is_none() {
        if let Some(air) = stationed {
            let countries: usize = parts.reinforcement.unwrap().countries.len();
            if countries > 0x7fff_ffff || air.wings.len() > 0xffff_ffff - 2 * countries {
                return Err(
                    Stop::Failed(RuntimeError::InvalidCheckpoint("too many wings for a pay cycle")),
                );
            }
            let copy = air.clone();
            return if parts.material_logistics.is_some() {
                pay_material(runtime, work, copy, sheet)
            } else {
                pay_wings(runtime, work, copy, sheet)
            };
        }
    }
    if parts.reinforcement.is_some() && stationed.is_some() && work.costs.len() > 0 {
        if work.inbox.treasury.is_none() {
            return Ok(TickAction::Spend(copy_all(work.costs.as_slice())));
        }
        if !work.is_treasury_filed() {
            return Err(
                Stop::Failed(
                    RuntimeError::InvalidCheckpoint("an economy stands under another country"),
                ),
            );
        }
        let mut spent: Option<TreasuryAnswer> = None;
        core::mem::swap(&mut spent, &mut work.inbox.treasury);
        if let Some(TreasuryAnswer { strategic, published }) = spent {
            work.strategic = Some(strategic);
            work.strategic_snapshot = published;
        }
    }
    work.close_stage(StageEvent::Done);
    Ok(TickAction::Moved)
}

} // verus!
