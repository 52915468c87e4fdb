//! One complete pay cycle over all countries.
//!
//! Countries are settled in ascending id order. Each pays its operations first, then repairs, then
//! replaces, then fills existing formations and finally raises at most one formation of each
//! category. Nothing is installed unless the whole result is valid.

use std::collections::BTreeMap;
use vstd::prelude::*;
use crate::air::{AirCountryCoverage, AirModel, AirPowerState, AirRole, AirWing, Airfield};
use crate::economy::EconomyState;
use crate::order::copy_all;
use crate::reinforcement::{
    aircraft_in_wings, armor_in_formations, economies_valid, flying_aircraft, lists_countries,
    material_state_fault, operational_aircraft, record_ids, reserve_state_fault, reserves_valid,
    stock_ids, total_aircraft, total_armor, validate_economies, validate_personnel_reserves,
    MaterialLogisticsCountry, MaterialLogisticsState, ReinforcementCountry, ReinforcementError,
    ReinforcementState,
};
use crate::scalar::{real_of, Real};
use crate::settlement::{
    armor_formation_count, armor_replacement_purchase, armor_supplied, armored_formations,
    create_one_missing_armor_formation, create_one_missing_wing, desired_armor_formations,
    evacuate_defeated_wings, evacuate_wings, evacuation_supplied, fill_formations, fill_wings,
    formations_supplied, fund_operations, funding_of, funding_supplied, payment, purchase_of,
    purchase_supplied, raise_armor, raise_wing, reinforce_existing_armor,
    reinforce_existing_wings, repair_airfields, repairs, repairs_supplied, replacement_purchase,
    set_air_coverage, stand_down, wanted_formations, wing_supplied, wings_supplied, with_coverage,
    AirWingCreationOutcome, ArmorFill, ArmorFormationCreationOutcome, Halt, WingFill,
    ARMOR_REPLACEMENT_COST_BITS, FIGHTER_REPLACEMENT_COST_BITS, STRIKE_REPLACEMENT_COST_BITS,
};
use crate::units::{KernelFault, SimulationUnit};
use crate::worksheet::{sum, Operation, Reader, Worksheet};

verus! {

#[derive(Debug)]
pub struct CountryAirPayCycleOutcome {
    pub country_id: u16,
    pub operations_spent: Real,
    pub fighters_purchased: u32,
    pub strike_purchased: u32,
    pub fighters_reinforced: u32,
    pub strike_reinforced: u32,
    pub wing_creation: Vec<AirWingCreationOutcome>,
}

/// What a [`CountryAirPayCycleOutcome`] reports.
pub struct AirReport {
    pub country_id: u16,
    pub operations_spent: Real,
    pub fighters_purchased: u32,
    pub strike_purchased: u32,
    pub fighters_reinforced: u32,
    pub strike_reinforced: u32,
    pub wing_creation: Seq<AirWingCreationOutcome>,
}

impl View for CountryAirPayCycleOutcome {
    type V = AirReport;

    open spec fn view(&self) -> AirReport {
        AirReport {
            country_id: self.country_id,
            operations_spent: self.operations_spent,
            fighters_purchased: self.fighters_purchased,
            strike_purchased: self.strike_purchased,
            fighters_reinforced: self.fighters_reinforced,
            strike_reinforced: self.strike_reinforced,
            wing_creation: self.wing_creation@,
        }
    }
}

#[derive(Debug)]
pub struct AirPayCycleOutcome {
    /// Country outcomes are strictly ordered by country id.
    pub countries: Vec<CountryAirPayCycleOutcome>,
}

#[derive(Debug)]
pub struct CountryMaterialPayCycleOutcome {
    pub country_id: u16,
    pub airfields_repaired: u32,
    pub airfield_repair_spent: Real,
    pub armor_purchased: u64,
    pub armor_reinforced: u64,
    pub armor_creation: ArmorFormationCreationOutcome,
    pub air: CountryAirPayCycleOutcome,
    pub evacuated_aircraft: u64,
    pub lost_aircraft: u64,
}

/// What a [`CountryMaterialPayCycleOutcome`] reports.
pub struct MaterialReport {
    pub country_id: u16,
    pub airfields_repaired: u32,
    pub airfield_repair_spent: Real,
    pub armor_purchased: u64,
    pub armor_reinforced: u64,
    pub armor_creation: ArmorFormationCreationOutcome,
    pub air: AirReport,
    pub evacuated_aircraft: int,
    pub lost_aircraft: int,
}

impl View for CountryMaterialPayCycleOutcome {
    type V = MaterialReport;

    open spec fn view(&self) -> MaterialReport {
        MaterialReport {
            country_id: self.country_id,
            airfields_repaired: self.airfields_repaired,
            airfield_repair_spent: self.airfield_repair_spent,
            armor_purchased: self.armor_purchased,
            armor_reinforced: self.armor_reinforced,
            armor_creation: self.armor_creation,
            air: self.air@,
            evacuated_aircraft: self.evacuated_aircraft as int,
            lost_aircraft: self.lost_aircraft as int,
        }
    }
}

#[derive(Debug)]
pub struct MaterialPayCycleOutcome {
    /// Country outcomes are strictly ordered by country id.
    pub countries: Vec<CountryMaterialPayCycleOutcome>,
}

/// Everything that a cycle may change.
pub struct CycleModel {
    pub records: Seq<ReinforcementCountry>,
    pub stocks: Seq<MaterialLogisticsCountry>,
    pub units: Seq<SimulationUnit>,
    pub fields: Seq<Airfield>,
    pub wings: Seq<AirWing>,
    pub coverage: Seq<AirCountryCoverage>,
    pub economies: Map<u16, EconomyState>,
    pub reserves: Map<usize, Real>,
    pub next_unit_id: u64,
    pub next_wing_id: u64,
}

/// A cycle being staged.
pub struct Cycle {
    pub records: Vec<ReinforcementCountry>,
    pub stocks: Vec<MaterialLogisticsCountry>,
    pub units: Vec<SimulationUnit>,
    pub fields: Vec<Airfield>,
    pub wings: Vec<AirWing>,
    pub coverage: Vec<AirCountryCoverage>,
    pub economies: BTreeMap<u16, EconomyState>,
    pub reserves: BTreeMap<usize, Real>,
    pub next_unit_id: u64,
    pub next_wing_id: u64,
}

impl View for Cycle {
    type V = CycleModel;

    open spec fn view(&self) -> CycleModel {
        CycleModel {
            records: self.records@,
            stocks: self.stocks@,
            units: self.units@,
            fields: self.fields@,
            wings: self.wings@,
            coverage: self.coverage@,
            economies: self.economies@,
            reserves: self.reserves@,
            next_unit_id: self.next_unit_id,
            next_wing_id: self.next_wing_id,
        }
    }
}

/// The air record of a country that no longer operates.
pub open spec fn grounded_record(record: ReinforcementCountry) -> ReinforcementCountry {
    ReinforcementCountry {
        air_operations_due: real_of(0),
        operations_coverage: real_of(0),
        replacement_spent: real_of(0),
        ..record
    }
}

/// A country that did nothing in the air.
pub open spec fn idle_report(country: u16) -> AirReport {
    AirReport {
        country_id: country,
        operations_spent: real_of(0),
        fighters_purchased: 0,
        strike_purchased: 0,
        fighters_reinforced: 0,
        strike_reinforced: 0,
        wing_creation: Seq::empty(),
    }
}

/// Aircraft bought for reserve.
pub struct AircraftPurchase {
    pub record: ReinforcementCountry,
    pub treasury: Real,
    pub fighters: u32,
    pub strike: u32,
    pub fighter_spent: Real,
    pub strike_spent: Real,
}

/// Fighters are bought before strike aircraft, out of one treasury.
pub open spec fn buy_aircraft(
    results: Map<Operation, u64>,
    wings: Seq<AirWing>,
    record: ReinforcementCountry,
    treasury: Real,
) -> Result<AircraftPurchase, ReinforcementError> {
    let fighters_owned = record.reserve_fighters + aircraft_in_wings(
        wings,
        record.country_id,
        AirRole::Fighter,
    );
    let strike_owned = record.reserve_strike + aircraft_in_wings(
        wings,
        record.country_id,
        AirRole::Strike,
    );
    if fighters_owned > u32::MAX || strike_owned > u32::MAX {
        Err(ReinforcementError::Overflow("aircraft inventory"))
    } else {
        let fighters = purchase_of(
            results,
            record.fighter_capacity as int,
            fighters_owned,
            real_of(FIGHTER_REPLACEMENT_COST_BITS),
            treasury,
        );
        let (after_fighters, fighter_spent) = payment(
            results,
            treasury,
            fighters,
            real_of(FIGHTER_REPLACEMENT_COST_BITS),
        );
        let strike = purchase_of(
            results,
            record.strike_capacity as int,
            strike_owned,
            real_of(STRIKE_REPLACEMENT_COST_BITS),
            after_fighters,
        );
        let (after_strike, strike_spent) = payment(
            results,
            after_fighters,
            strike,
            real_of(STRIKE_REPLACEMENT_COST_BITS),
        );
        Ok(
            AircraftPurchase {
                record: ReinforcementCountry {
                    reserve_fighters: (record.reserve_fighters + fighters) as u32,
                    reserve_strike: (record.reserve_strike + strike) as u32,
                    ..record
                },
                treasury: after_strike,
                fighters: fighters as u32,
                strike: strike as u32,
                fighter_spent,
                strike_spent,
            },
        )
    }
}

/// Nothing was bought.
pub open spec fn no_purchase(record: ReinforcementCountry, treasury: Real) -> AircraftPurchase {
    AircraftPurchase {
        record,
        treasury,
        fighters: 0,
        strike: 0,
        fighter_spent: real_of(0),
        strike_spent: real_of(0),
    }
}

/// Wings after both roles had their turn.
pub struct Expansion {
    pub wings: Seq<AirWing>,
    pub record: ReinforcementCountry,
    pub reserve: Real,
    pub next_wing_id: u64,
    pub creation: Seq<AirWingCreationOutcome>,
}

/// Fighters are raised before strike wings.
pub open spec fn expand_wings(
    results: Map<Operation, u64>,
    wings: Seq<AirWing>,
    fields: Seq<Airfield>,
    record: ReinforcementCountry,
    reserve: Real,
    next_wing_id: u64,
    side: usize,
) -> Result<Expansion, ReinforcementError> {
    match raise_wing(
        results,
        wings,
        fields,
        record,
        reserve,
        next_wing_id,
        record.country_id,
        side,
        AirRole::Fighter,
    ) {
        Err(error) => Err(error),
        Ok(first) => match raise_wing(
            results,
            first.wings,
            fields,
            first.record,
            first.reserve,
            first.next_wing_id,
            record.country_id,
            side,
            AirRole::Strike,
        ) {
            Err(error) => Err(error),
            Ok(second) => Ok(
                Expansion {
                    wings: second.wings,
                    record: second.record,
                    reserve: second.reserve,
                    next_wing_id: second.next_wing_id,
                    creation: seq![first.outcome, second.outcome],
                },
            ),
        },
    }
}

/// Settle the air side of one country that still fights.
pub open spec fn operate_air(
    results: Map<Operation, u64>,
    model: CycleModel,
    index: int,
    side: usize,
) -> Result<(CycleModel, AirReport), ReinforcementError> {
    let record = model.records[index];
    let country = record.country_id;
    let economy = model.economies[country];
    let fighters = flying_aircraft(model.wings, country, AirRole::Fighter);
    let strike = flying_aircraft(model.wings, country, AirRole::Strike);
    let funding = funding_of(results, economy, fighters as u64, strike as u64);
    let funded = ReinforcementCountry {
        air_operations_due: funding.due,
        operations_coverage: funding.coverage,
        replacement_spent: real_of(0),
        ..record
    };
    let bought = if funding.fully_funded {
        buy_aircraft(results, model.wings, funded, funding.treasury)
    } else {
        Ok(no_purchase(funded, funding.treasury))
    };
    if fighters > u32::MAX || strike > u32::MAX {
        Err(ReinforcementError::Overflow("operational aircraft"))
    } else {
        match with_coverage(model.coverage, country, funding.coverage) {
            None => Err(ReinforcementError::InvalidWorld("air coverage country")),
            Some(coverage) => match bought {
                Err(error) => Err(error),
                Ok(purchase) => {
                    let paid = if funding.fully_funded {
                        ReinforcementCountry {
                            replacement_spent: sum(
                                results,
                                purchase.fighter_spent,
                                purchase.strike_spent,
                            ),
                            ..purchase.record
                        }
                    } else {
                        purchase.record
                    };
                    let filled = fill_wings(
                        results,
                        WingFill {
                            wings: model.wings,
                            record: paid,
                            reserve: model.reserves[side],
                            fighters: 0,
                            strike: 0,
                        },
                        country,
                        model.wings.len() as int,
                    );
                    match expand_wings(
                        results,
                        filled.wings,
                        model.fields,
                        filled.record,
                        filled.reserve,
                        model.next_wing_id,
                        side,
                    ) {
                        Err(error) => Err(error),
                        Ok(expansion) => Ok(
                            (
                                CycleModel {
                                    records: model.records.update(index, expansion.record),
                                    wings: expansion.wings,
                                    coverage,
                                    economies: model.economies.insert(
                                        country,
                                        EconomyState { treasury: purchase.treasury, ..economy },
                                    ),
                                    reserves: model.reserves.insert(side, expansion.reserve),
                                    next_wing_id: expansion.next_wing_id,
                                    ..model
                                },
                                AirReport {
                                    country_id: country,
                                    operations_spent: funding.spent,
                                    fighters_purchased: purchase.fighters,
                                    strike_purchased: purchase.strike,
                                    fighters_reinforced: filled.fighters,
                                    strike_reinforced: filled.strike,
                                    wing_creation: expansion.creation,
                                },
                            ),
                        ),
                    }
                },
            },
        }
    }
}

/// Settle the air side of one country. A capitulated one publishes a grounded policy and keeps
/// its wings, reserves, treasury and men.
pub open spec fn settle_air_country(
    results: Map<Operation, u64>,
    model: CycleModel,
    index: int,
    side: usize,
) -> Result<(CycleModel, AirReport), ReinforcementError> {
    let record = model.records[index];
    let country = record.country_id;
    if model.economies[country].capitulated {
        match with_coverage(model.coverage, country, real_of(0)) {
            None => Err(ReinforcementError::InvalidWorld("air coverage country")),
            Some(coverage) => Ok(
                (
                    CycleModel {
                        records: model.records.update(index, grounded_record(record)),
                        coverage,
                        ..model
                    },
                    idle_report(country),
                ),
            ),
        }
    } else {
        operate_air(results, model, index, side)
    }
}

/// The first `count` countries have been settled.
pub open spec fn settle_air_countries(
    results: Map<Operation, u64>,
    start: CycleModel,
    country_to_side: Map<u16, usize>,
    count: int,
) -> Result<(CycleModel, Seq<AirReport>), ReinforcementError>
    decreases count,
{
    if count <= 0 {
        Ok((start, Seq::empty()))
    } else {
        match settle_air_countries(results, start, country_to_side, count - 1) {
            Err(error) => Err(error),
            Ok((model, reports)) => match settle_air_country(
                results,
                model,
                count - 1,
                country_to_side[start.records[count - 1].country_id],
            ) {
                Err(error) => Err(error),
                Ok((next, report)) => Ok((next, reports.push(report))),
            },
        }
    }
}

/// Whether a worksheet holds all that buying aircraft takes.
pub open spec fn aircraft_supplied(
    results: Map<Operation, u64>,
    wings: Seq<AirWing>,
    record: ReinforcementCountry,
    treasury: Real,
) -> bool {
    let country = record.country_id;
    let fighters_owned = record.reserve_fighters + aircraft_in_wings(
        wings,
        country,
        AirRole::Fighter,
    );
    let strike_owned = record.reserve_strike + aircraft_in_wings(wings, country, AirRole::Strike);
    let fighter_cost = real_of(FIGHTER_REPLACEMENT_COST_BITS);
    let fighters = purchase_of(
        results,
        record.fighter_capacity as int,
        fighters_owned,
        fighter_cost,
        treasury,
    );
    fighters_owned <= u32::MAX && strike_owned <= u32::MAX ==> {
        &&& purchase_supplied(
            results,
            record.fighter_capacity as int,
            fighters_owned,
            fighter_cost,
            treasury,
        )
        &&& purchase_supplied(
            results,
            record.strike_capacity as int,
            strike_owned,
            real_of(STRIKE_REPLACEMENT_COST_BITS),
            payment(results, treasury, fighters, fighter_cost).0,
        )
    }
}

/// Whether a worksheet holds all that raising wings of both roles takes.
pub open spec fn expansion_supplied(
    results: Map<Operation, u64>,
    wings: Seq<AirWing>,
    fields: Seq<Airfield>,
    record: ReinforcementCountry,
    reserve: Real,
    next_wing_id: u64,
    side: usize,
) -> bool {
    let country = record.country_id;
    &&& wing_supplied(results, wings, fields, record, reserve, country, side, AirRole::Fighter)
    &&& raise_wing(
        results,
        wings,
        fields,
        record,
        reserve,
        next_wing_id,
        country,
        side,
        AirRole::Fighter,
    ) matches Ok(first) ==> wing_supplied(
        results,
        first.wings,
        fields,
        first.record,
        first.reserve,
        country,
        side,
        AirRole::Strike,
    )
}

/// Whether a worksheet holds all that settling the air side of a country that still fights takes.
pub open spec fn air_operation_supplied(
    results: Map<Operation, u64>,
    model: CycleModel,
    index: int,
    side: usize,
) -> bool {
    let record = model.records[index];
    let country = record.country_id;
    let economy = model.economies[country];
    let fighters = flying_aircraft(model.wings, country, AirRole::Fighter);
    let strike = flying_aircraft(model.wings, country, AirRole::Strike);
    let funding = funding_of(results, economy, fighters as u64, strike as u64);
    let funded = ReinforcementCountry {
        air_operations_due: funding.due,
        operations_coverage: funding.coverage,
        replacement_spent: real_of(0),
        ..record
    };
    let bought = if funding.fully_funded {
        buy_aircraft(results, model.wings, funded, funding.treasury)
    } else {
        Ok(no_purchase(funded, funding.treasury))
    };
    fighters <= u32::MAX && strike <= u32::MAX ==> {
        &&& funding_supplied(results, economy, fighters as u64, strike as u64)
        &&& with_coverage(model.coverage, country, funding.coverage) is Some ==> {
            &&& funding.fully_funded ==> aircraft_supplied(
                results,
                model.wings,
                funded,
                funding.treasury,
            )
            &&& bought matches Ok(purchase) ==> {
                let paid = if funding.fully_funded {
                    ReinforcementCountry {
                        replacement_spent: sum(
                            results,
                            purchase.fighter_spent,
                            purchase.strike_spent,
                        ),
                        ..purchase.record
                    }
                } else {
                    purchase.record
                };
                let start = WingFill {
                    wings: model.wings,
                    record: paid,
                    reserve: model.reserves[side],
                    fighters: 0,
                    strike: 0,
                };
                let filled = fill_wings(results, start, country, model.wings.len() as int);
                &&& funding.fully_funded ==> results.contains_key(
                    Operation::Sum(purchase.fighter_spent, purchase.strike_spent),
                )
                &&& wings_supplied(results, start, country)
                &&& expansion_supplied(
                    results,
                    filled.wings,
                    model.fields,
                    filled.record,
                    filled.reserve,
                    model.next_wing_id,
                    side,
                )
            }
        }
    }
}

/// Whether a worksheet holds all that settling the air side of all countries takes.
pub open spec fn air_countries_supplied(
    results: Map<Operation, u64>,
    start: CycleModel,
    country_to_side: Map<u16, usize>,
) -> bool {
    forall|k: int|
        0 <= k < start.records.len() ==> (#[trigger] settle_air_countries(
            results,
            start,
            country_to_side,
            k,
        ) matches Ok((model, _)) ==> (!model.economies[model.records[k].country_id].capitulated
            ==> air_operation_supplied(
                results,
                model,
                k,
                country_to_side[start.records[k].country_id],
            )))
}

fn halt_missing<T>(outcome: Result<T, Operation>) -> (lifted: Result<T, Halt>)
    ensures
        outcome matches Ok(value) ==> lifted == Ok::<T, Halt>(value),
        outcome matches Err(missing) ==> lifted == Err::<T, Halt>(Halt::Missing(missing)),
{
    match outcome {
        Ok(value) => Ok(value),
        Err(missing) => Err(Halt::Missing(missing)),
    }
}

fn halt_failed<T>(outcome: Result<T, ReinforcementError>) -> (lifted: Result<T, Halt>)
    ensures
        outcome matches Ok(value) ==> lifted == Ok::<T, Halt>(value),
        outcome matches Err(error) ==> lifted == Err::<T, Halt>(Halt::Failed(error)),
{
    match outcome {
        Ok(value) => Ok(value),
        Err(error) => Err(Halt::Failed(error)),
    }
}

proof fn lemma_aircraft_nonnegative(wings: Seq<AirWing>, country: u16, role: AirRole)
    ensures
        aircraft_in_wings(wings, country, role) >= 0,
{
    crate::order::lemma_total_prefix(
        wings,
        |wing: AirWing| wing.sovereign_country_id == country && wing.role == role,
        |wing: AirWing| wing.count as int,
        0,
    );
}

fn purchase_aircraft(
    wings: &Vec<AirWing>,
    record: &mut ReinforcementCountry,
    treasury: &mut Real,
    reader: &mut Reader<'_>,
) -> (outcome: Result<(u32, u32, Real, Real), Halt>)
    ensures
        final(reader)@ == old(reader)@,
        ({
            let expected = buy_aircraft(old(reader)@, wings@, *old(record), *old(treasury));
            &&& (outcome matches Ok(bought) ==> expected == Ok::<
                AircraftPurchase,
                ReinforcementError,
            >(
                AircraftPurchase {
                    record: *final(record),
                    treasury: *final(treasury),
                    fighters: bought.0,
                    strike: bought.1,
                    fighter_spent: bought.2,
                    strike_spent: bought.3,
                },
            ))
            &&& (outcome matches Err(Halt::Failed(error)) ==> expected == Err::<
                AircraftPurchase,
                ReinforcementError,
            >(error))
        }),
        outcome matches Err(Halt::Missing(missing)) ==> !old(reader)@.contains_key(missing)
            && !aircraft_supplied(old(reader)@, wings@, *old(record), *old(treasury)),
        !(outcome matches Err(Halt::CheckAir(_))),
        final(record).country_id == old(record).country_id,
{
    let (fighters_owned, strike_owned) = halt_failed(total_aircraft(wings, record))?;
    let (fighters, fighter_spent) = halt_missing(
        replacement_purchase(
            record.fighter_capacity,
            fighters_owned,
            Real::from_bits(FIGHTER_REPLACEMENT_COST_BITS),
            treasury,
            reader,
        ),
    )?;
    let (strike, strike_spent) = halt_missing(
        replacement_purchase(
            record.strike_capacity,
            strike_owned,
            Real::from_bits(STRIKE_REPLACEMENT_COST_BITS),
            treasury,
            reader,
        ),
    )?;
    proof {
        lemma_aircraft_nonnegative(wings@, record.country_id, AirRole::Fighter);
        lemma_aircraft_nonnegative(wings@, record.country_id, AirRole::Strike);
    }
    record.reserve_fighters = record.reserve_fighters + fighters;
    record.reserve_strike = record.reserve_strike + strike;
    Ok((fighters, strike, fighter_spent, strike_spent))
}

fn raise_wings(
    wings: &mut Vec<AirWing>,
    fields: &Vec<Airfield>,
    record: &mut ReinforcementCountry,
    side: usize,
    next_wing_id: &mut u64,
    reserve: &mut Real,
    reader: &mut Reader<'_>,
) -> (outcome: Result<Vec<AirWingCreationOutcome>, Halt>)
    requires
        old(wings)@.len() + 2 <= u32::MAX,
    ensures
        final(reader)@ == old(reader)@,
        ({
            let expected = expand_wings(
                old(reader)@,
                old(wings)@,
                fields@,
                *old(record),
                *old(reserve),
                *old(next_wing_id),
                side,
            );
            &&& (outcome matches Ok(creation) ==> {
                &&& expected == Ok::<Expansion, ReinforcementError>(
                    Expansion {
                        wings: final(wings)@,
                        record: *final(record),
                        reserve: *final(reserve),
                        next_wing_id: *final(next_wing_id),
                        creation: creation@,
                    },
                )
                &&& final(wings)@.len() <= old(wings)@.len() + 2
            })
            &&& (outcome matches Err(Halt::Failed(error)) ==> expected == Err::<
                Expansion,
                ReinforcementError,
            >(error))
        }),
        outcome matches Err(Halt::Missing(missing)) ==> !old(reader)@.contains_key(missing)
            && !expansion_supplied(
                old(reader)@,
                old(wings)@,
                fields@,
                *old(record),
                *old(reserve),
                *old(next_wing_id),
                side,
            ),
        !(outcome matches Err(Halt::CheckAir(_))),
{
    let country: u16 = record.country_id;
    let fighter = create_one_missing_wing(
        wings,
        fields,
        record,
        AirRole::Fighter,
        country,
        side,
        next_wing_id,
        reserve,
        reader,
    )?;
    let strike = create_one_missing_wing(
        wings,
        fields,
        record,
        AirRole::Strike,
        country,
        side,
        next_wing_id,
        reserve,
        reader,
    )?;
    let mut creation: Vec<AirWingCreationOutcome> = Vec::new();
    creation.push(fighter);
    creation.push(strike);
    assert(creation@ =~= seq![fighter, strike]);
    Ok(creation)
}

/// The air part of a cycle.
pub open spec fn air_of(model: CycleModel) -> AirModel {
    AirModel { airfields: model.fields, wings: model.wings, country_coverage: model.coverage }
}

/// What the state around an air cycle fails with.
pub open spec fn air_world_fault(
    schema: Seq<char>,
    model: CycleModel,
    air_accepted: bool,
    country_to_side: Map<u16, usize>,
    side_count: usize,
) -> Option<ReinforcementError> {
    match reserve_state_fault(
        schema,
        model.next_unit_id,
        model.next_wing_id,
        model.records,
        air_of(model),
        air_accepted,
        country_to_side,
        side_count,
    ) {
        Some(error) => Some(error),
        None => if !economies_valid(model.economies, country_to_side) {
            Some(ReinforcementError::InvalidWorld("economy funding"))
        } else if !reserves_valid(model.reserves, side_count) {
            Some(ReinforcementError::InvalidWorld("personnel reserves"))
        } else {
            None
        },
    }
}

/// A complete air cycle: valid inputs, all countries settled in order, a valid result. The air
/// kernel judges the state before and after.
pub open spec fn air_cycle(
    results: Map<Operation, u64>,
    verdicts: Seq<bool>,
    schema: Seq<char>,
    start: CycleModel,
    country_to_side: Map<u16, usize>,
    side_count: usize,
) -> Result<(CycleModel, Seq<AirReport>), ReinforcementError> {
    match air_world_fault(schema, start, verdicts[0], country_to_side, side_count) {
        Some(error) => Err(error),
        None => match settle_air_countries(
            results,
            start,
            country_to_side,
            start.records.len() as int,
        ) {
            Err(error) => Err(error),
            Ok((model, reports)) => match air_world_fault(
                schema,
                model,
                verdicts[1],
                country_to_side,
                side_count,
            ) {
                Some(error) => Err(error),
                None => Ok((model, reports)),
            },
        },
    }
}

/// The reports of a list of country outcomes.
pub open spec fn air_reports(outcomes: Seq<CountryAirPayCycleOutcome>) -> Seq<AirReport> {
    outcomes.map_values(|outcome: CountryAirPayCycleOutcome| outcome@)
}

fn verdict_of(accepted: bool) -> (verdict: Result<(), KernelFault>)
    ensures
        verdict is Ok <==> accepted,
{
    if accepted {
        Ok(())
    } else {
        Err(KernelFault { code: 0 })
    }
}

impl Cycle {
    /// What a settlement step may rely on: the current country has an economy and a reserve.
    pub open spec fn ready(self, index: int, side: usize) -> bool {
        &&& 0 <= index < self.records@.len()
        &&& self.economies@.contains_key(self.records@[index].country_id)
        &&& self.reserves@.contains_key(side)
        &&& self.wings@.len() + 2 <= u32::MAX
    }

    /// A step leaves every other record and the set of economies and reserves alone.
    pub open spec fn advanced_from(self, before: Cycle, index: int) -> bool {
        &&& self.records@.len() == before.records@.len()
        &&& self.records@[index].country_id == before.records@[index].country_id
        &&& forall|i: int|
            #![trigger self.records@[i]]
            0 <= i < self.records@.len() && i != index ==> self.records@[i] == before.records@[i]
        &&& self.economies@.dom() == before.economies@.dom()
        &&& self.reserves@.dom() == before.reserves@.dom()
        &&& self.wings@.len() <= before.wings@.len() + 2
    }

    fn economy_of(&self, country: u16) -> (economy: EconomyState)
        requires
            self.economies@.contains_key(country),
        ensures
            economy == self.economies@[country],
    {
        broadcast use vstd::std_specs::btree::group_btree_axioms;

        match self.economies.get(&country) {
            Some(economy) => *economy,
            None => vstd::pervasive::unreached(),
        }
    }

    fn reserve_of(&self, side: usize) -> (reserve: Real)
        requires
            self.reserves@.contains_key(side),
        ensures
            reserve == self.reserves@[side],
    {
        broadcast use vstd::std_specs::btree::group_btree_axioms;

        match self.reserves.get(&side) {
            Some(reserve) => *reserve,
            None => vstd::pervasive::unreached(),
        }
    }

    fn air_state(&self) -> (air: AirPowerState)
        ensures
            air@ == air_of(self@),
    {
        AirPowerState {
            airfields: copy_all(&self.fields),
            wings: copy_all(&self.wings),
            country_coverage: copy_all(&self.coverage),
        }
    }

    fn settle_air_country(&mut self, index: usize, side: usize, reader: &mut Reader<'_>) -> (outcome:
        Result<CountryAirPayCycleOutcome, Halt>)
        requires
            old(self).ready(index as int, side),
        ensures
            final(reader)@ == old(reader)@,
            ({
                let expected = settle_air_country(old(reader)@, old(self)@, index as int, side);
                &&& (outcome matches Ok(done) ==> expected == Ok::<
                    (CycleModel, AirReport),
                    ReinforcementError,
                >((final(self)@, done@)) && final(self).advanced_from(*old(self), index as int))
                &&& (outcome matches Err(Halt::Failed(error)) ==> expected == Err::<
                    (CycleModel, AirReport),
                    ReinforcementError,
                >(error))
            }),
            outcome matches Err(Halt::Missing(missing)) ==> !old(reader)@.contains_key(missing)
                && !old(self)@.economies[old(self)@.records[index as int].country_id].capitulated
                && !air_operation_supplied(old(reader)@, old(self)@, index as int, side),
            !(outcome matches Err(Halt::CheckAir(_))),
    {
        broadcast use vstd::std_specs::btree::group_btree_axioms;

        let mut record = self.records[index];
        let country: u16 = record.country_id;
        let mut economy = self.economy_of(country);
        if economy.capitulated {
            record.air_operations_due = Real::zero();
            record.operations_coverage = Real::zero();
            record.replacement_spent = Real::zero();
            halt_failed(set_air_coverage(&mut self.coverage, country, Real::zero()))?;
            self.records.set(index, record);
            let done = CountryAirPayCycleOutcome {
                country_id: country,
                operations_spent: Real::zero(),
                fighters_purchased: 0,
                strike_purchased: 0,
                fighters_reinforced: 0,
                strike_reinforced: 0,
                wing_creation: Vec::new(),
            };
            assert(done@.wing_creation =~= Seq::<AirWingCreationOutcome>::empty());
            return Ok(done);
        }
        let (fighters, strike) = halt_failed(operational_aircraft(&self.wings, country))?;
        let funding = halt_missing(fund_operations(&economy, fighters, strike, reader))?;
        record.air_operations_due = funding.due;
        record.operations_coverage = funding.coverage;
        record.replacement_spent = Real::zero();
        halt_failed(set_air_coverage(&mut self.coverage, country, funding.coverage))?;
        let mut treasury = funding.treasury;
        let mut fighters_purchased: u32 = 0;
        let mut strike_purchased: u32 = 0;
        if funding.fully_funded {
            let (bought_fighters, bought_strike, fighter_spent, strike_spent) = purchase_aircraft(
                &self.wings,
                &mut record,
                &mut treasury,
                reader,
            )?;
            fighters_purchased = bought_fighters;
            strike_purchased = bought_strike;
            record.replacement_spent = halt_missing(
                reader.number(Operation::Sum(fighter_spent, strike_spent)),
            )?;
        }
        let mut reserve = self.reserve_of(side);
        let (fighters_reinforced, strike_reinforced) = halt_missing(
            reinforce_existing_wings(&mut self.wings, &mut record, country, &mut reserve, reader),
        )?;
        let mut next_wing_id: u64 = self.next_wing_id;
        let wing_creation = raise_wings(
            &mut self.wings,
            &self.fields,
            &mut record,
            side,
            &mut next_wing_id,
            &mut reserve,
            reader,
        )?;
        self.next_wing_id = next_wing_id;
        economy.treasury = treasury;
        self.economies.insert(country, economy);
        self.reserves.insert(side, reserve);
        self.records.set(index, record);
        proof {
            assert(self.economies@.dom() =~= old(self).economies@.dom());
            assert(self.reserves@.dom() =~= old(self).reserves@.dom());
        }
        Ok(
            CountryAirPayCycleOutcome {
                country_id: country,
                operations_spent: funding.spent,
                fighters_purchased,
                strike_purchased,
                fighters_reinforced,
                strike_reinforced,
                wing_creation,
            },
        )
    }
}

/// The state before an air cycle.
pub open spec fn air_cycle_start(
    state: ReinforcementState,
    air: AirModel,
    economies: Map<u16, EconomyState>,
    reserves: Map<usize, Real>,
) -> CycleModel {
    CycleModel {
        records: state.countries@,
        stocks: Seq::empty(),
        units: Seq::empty(),
        fields: air.airfields,
        wings: air.wings,
        coverage: air.country_coverage,
        economies,
        reserves,
        next_unit_id: state.next_unit_id,
        next_wing_id: state.next_air_wing_id,
    }
}

/// Every country has an economy and its side a reserve.
pub open spec fn cycle_world(
    records: Seq<ReinforcementCountry>,
    economies: Map<u16, EconomyState>,
    reserves: Map<usize, Real>,
    country_to_side: Map<u16, usize>,
) -> bool {
    forall|i: int|
        #![trigger records[i]]
        0 <= i < records.len() ==> country_to_side.contains_key(records[i].country_id)
            && economies.contains_key(records[i].country_id) && reserves.contains_key(
            country_to_side[records[i].country_id],
        )
}

proof fn lemma_cycle_world(
    schema: Seq<char>,
    model: CycleModel,
    air_accepted: bool,
    country_to_side: Map<u16, usize>,
    side_count: usize,
)
    requires
        air_world_fault(schema, model, air_accepted, country_to_side, side_count) is None,
    ensures
        cycle_world(model.records, model.economies, model.reserves, country_to_side),
{
    let ids = record_ids(model.records);
    assert forall|i: int| #![trigger model.records[i]] 0 <= i < model.records.len() implies
        country_to_side.contains_key(model.records[i].country_id) && model.economies.contains_key(
        model.records[i].country_id,
    ) && model.reserves.contains_key(country_to_side[model.records[i].country_id]) by {
        let country = model.records[i].country_id;
        assert(ids[i] == country);
        assert(ids.to_set().contains(country));
        assert(country_to_side.dom().contains(country));
        assert(model.economies.dom().contains(country));
        assert(country_to_side.contains_key(country));
    }
}

fn side_of(country_to_side: &BTreeMap<u16, usize>, country: u16) -> (side: usize)
    requires
        country_to_side@.contains_key(country),
    ensures
        side == country_to_side@[country],
{
    broadcast use vstd::std_specs::btree::group_btree_axioms;

    match country_to_side.get(&country) {
        Some(side) => *side,
        None => vstd::pervasive::unreached(),
    }
}

impl Cycle {
    /// Settle the air side of all countries in order.
    fn settle_air_countries(
        &mut self,
        country_to_side: &BTreeMap<u16, usize>,
        reader: &mut Reader<'_>,
    ) -> (outcome: Result<Vec<CountryAirPayCycleOutcome>, Halt>)
        requires
            cycle_world(
                old(self).records@,
                old(self).economies@,
                old(self).reserves@,
                country_to_side@,
            ),
            old(self).wings@.len() + 2 * old(self).records@.len() <= u32::MAX,
        ensures
            final(reader)@ == old(reader)@,
            ({
                let expected = settle_air_countries(
                    old(reader)@,
                    old(self)@,
                    country_to_side@,
                    old(self).records@.len() as int,
                );
                &&& (outcome matches Ok(done) ==> expected == Ok::<
                    (CycleModel, Seq<AirReport>),
                    ReinforcementError,
                >((final(self)@, air_reports(done@))))
                &&& (outcome matches Err(Halt::Failed(error)) ==> expected == Err::<
                    (CycleModel, Seq<AirReport>),
                    ReinforcementError,
                >(error))
            }),
            outcome matches Err(Halt::Missing(missing)) ==> !old(reader)@.contains_key(missing)
                && !air_countries_supplied(old(reader)@, old(self)@, country_to_side@),
            !(outcome matches Err(Halt::CheckAir(_))),
    {
        let ghost start = self@;
        let mut countries: Vec<CountryAirPayCycleOutcome> = Vec::new();
        let count: usize = self.records.len();
        let mut index: usize = 0;
        assert(air_reports(countries@) =~= Seq::<AirReport>::empty());
        while index < count
            invariant
                index <= count,
                count == start.records.len(),
                self.records@.len() == count,
                reader@ == old(reader)@,
                start == old(self)@,
                start.wings.len() + 2 * count <= u32::MAX,
                cycle_world(start.records, start.economies, start.reserves, country_to_side@),
                self.wings@.len() <= start.wings.len() + 2 * index,
                self.economies@.dom() == start.economies.dom(),
                self.reserves@.dom() == start.reserves.dom(),
                forall|i: int|
                    #![trigger self.records@[i]]
                    0 <= i < count ==> self.records@[i].country_id == start.records[i].country_id,
                settle_air_countries(reader@, start, country_to_side@, index as int) == Ok::<
                    (CycleModel, Seq<AirReport>),
                    ReinforcementError,
                >((self@, air_reports(countries@))),
            decreases count - index,
        {
            let country: u16 = self.records[index].country_id;
            proof {
                assert(start.records[index as int].country_id == country);
                assert(self.economies@.dom().contains(country));
                assert(self.reserves@.dom().contains(country_to_side@[country]));
            }
            let side: usize = side_of(country_to_side, country);
            let ghost before = *self;
            match self.settle_air_country(index, side, reader) {
                Ok(done) => {
                    let ghost reports = air_reports(countries@);
                    countries.push(done);
                    proof {
                        assert(air_reports(countries@) =~= reports.push(done@));
                        assert forall|i: int| #![trigger self.records@[i]] 0 <= i
                            < count implies self.records@[i].country_id
                            == start.records[i].country_id by {
                            assert(before.records@[i].country_id == start.records[i].country_id);
                        }
                    }
                },
                Err(halt) => {
                    proof {
                        if halt is Failed {
                            lemma_air_failure_is_final(
                                reader@,
                                start,
                                country_to_side@,
                                index + 1,
                                count as int,
                                halt->Failed_0,
                            );
                        }
                    }
                    return Err(halt);
                },
            }
            index = index + 1;
        }
        Ok(countries)
    }
}

impl ReinforcementState {
    /// Settle one complete air operations and replacement cycle atomically.
    ///
    /// Whatever stops the cycle, this state, air power, economies and personnel reserves stay as
    /// they were. `verdicts` holds what the air kernel said about the states it was shown so far:
    /// the one that came in and the one that would go out.
    pub fn settle_air_pay_cycle(
        &mut self,
        air: &mut AirPowerState,
        economies: &mut BTreeMap<u16, EconomyState>,
        personnel_reserves: &mut BTreeMap<usize, Real>,
        country_to_side: &BTreeMap<u16, usize>,
        side_count: usize,
        verdicts: &[bool],
        sheet: &Worksheet,
    ) -> (outcome: Result<AirPayCycleOutcome, Halt>)
        requires
            old(air).wings@.len() + 2 * old(self).countries@.len() <= u32::MAX,
        ensures
            outcome is Err ==> *final(self) == *old(self) && *final(air) == *old(air)
                && *final(economies) == *old(economies) && *final(personnel_reserves) == *old(
                personnel_reserves,
            ),
            ({
                let start = air_cycle_start(
                    *old(self),
                    old(air)@,
                    old(economies)@,
                    old(personnel_reserves)@,
                );
                let expected = air_cycle(
                    sheet@,
                    verdicts@,
                    old(self).schema@,
                    start,
                    country_to_side@,
                    side_count,
                );
                &&& (outcome matches Ok(done) ==> {
                    &&& verdicts@.len() >= 2
                    &&& expected == Ok::<(CycleModel, Seq<AirReport>), ReinforcementError>(
                        (
                            air_cycle_start(
                                *final(self),
                                final(air)@,
                                final(economies)@,
                                final(personnel_reserves)@,
                            ),
                            air_reports(done.countries@),
                        ),
                    )
                    &&& final(self).schema@ == old(self).schema@
                })
                &&& (outcome matches Err(Halt::Failed(error)) ==> verdicts@.len() >= 1 && expected
                    == Err::<(CycleModel, Seq<AirReport>), ReinforcementError>(error))
                &&& (outcome matches Err(Halt::CheckAir(shown)) ==> if verdicts@.len() == 0 {
                    shown@ == old(air)@
                } else {
                    &&& verdicts@.len() == 1
                    &&& settle_air_countries(
                        sheet@,
                        start,
                        country_to_side@,
                        start.records.len() as int,
                    ) matches Ok((model, _)) && shown@ == air_of(model)
                })
            }),
            outcome matches Err(Halt::Missing(missing)) ==> !sheet@.contains_key(missing)
                && verdicts@.len() >= 1 && ({
                let start = air_cycle_start(
                    *old(self),
                    old(air)@,
                    old(economies)@,
                    old(personnel_reserves)@,
                );
                &&& air_world_fault(
                    old(self).schema@,
                    start,
                    verdicts@[0],
                    country_to_side@,
                    side_count,
                ) is None
                &&& !air_countries_supplied(sheet@, start, country_to_side@)
            }),
    {
        broadcast use vstd::std_specs::btree::group_btree_axioms;

        if verdicts.len() == 0 {
            return Err(Halt::CheckAir(air.clone()));
        }
        halt_failed(self.validate(air, verdict_of(verdicts[0]), country_to_side, side_count))?;
        halt_failed(validate_economies(economies, country_to_side))?;
        halt_failed(validate_personnel_reserves(personnel_reserves, side_count))?;
        let ghost start = air_cycle_start(*self, air@, economies@, personnel_reserves@);
        let mut cycle = Cycle {
            records: copy_all(&self.countries),
            stocks: Vec::new(),
            units: Vec::new(),
            fields: copy_all(&air.airfields),
            wings: copy_all(&air.wings),
            coverage: copy_all(&air.country_coverage),
            economies: economies.clone(),
            reserves: personnel_reserves.clone(),
            next_unit_id: self.next_unit_id,
            next_wing_id: self.next_air_wing_id,
        };
        proof {
            assert(cycle@.stocks =~= start.stocks);
            assert(cycle@.units =~= start.units);
            lemma_cycle_world(
                self.schema@,
                start,
                verdicts@[0],
                country_to_side@,
                side_count,
            );
        }
        proof {
            assert(cycle@ == start);
        }
        let mut reader = sheet.reader();
        let countries = cycle.settle_air_countries(country_to_side, &mut reader)?;
        let next_air = cycle.air_state();
        if verdicts.len() == 1 {
            return Err(Halt::CheckAir(next_air));
        }
        let next_state = ReinforcementState {
            schema: self.schema.clone(),
            next_unit_id: cycle.next_unit_id,
            next_air_wing_id: cycle.next_wing_id,
            countries: cycle.records,
        };
        halt_failed(
            next_state.validate(&next_air, verdict_of(verdicts[1]), country_to_side, side_count),
        )?;
        halt_failed(validate_economies(&cycle.economies, country_to_side))?;
        halt_failed(validate_personnel_reserves(&cycle.reserves, side_count))?;
        proof {
            lemma_air_keeps_land(
                sheet@,
                start,
                country_to_side@,
                start.records.len() as int,
            );
        }
        *self = next_state;
        *air = next_air;
        *economies = cycle.economies;
        *personnel_reserves = cycle.reserves;
        Ok(AirPayCycleOutcome { countries })
    }
}

/// Air settlement has nothing to do with land formations or material stocks.
proof fn lemma_air_keeps_land(
    results: Map<Operation, u64>,
    start: CycleModel,
    country_to_side: Map<u16, usize>,
    count: int,
)
    ensures
        settle_air_countries(results, start, country_to_side, count) matches Ok((model, _))
            ==> model.stocks == start.stocks && model.units == start.units && model.next_unit_id
            == start.next_unit_id && model.fields == start.fields,
    decreases count,
{
    if count > 0 {
        lemma_air_keeps_land(results, start, country_to_side, count - 1);
    }
}

/// Once a country fails, the cycle fails the same way.
proof fn lemma_air_failure_is_final(
    results: Map<Operation, u64>,
    start: CycleModel,
    country_to_side: Map<u16, usize>,
    count: int,
    total: int,
    error: ReinforcementError,
)
    requires
        1 <= count <= total,
        settle_air_countries(results, start, country_to_side, count) == Err::<
            (CycleModel, Seq<AirReport>),
            ReinforcementError,
        >(error),
    ensures
        settle_air_countries(results, start, country_to_side, total) == Err::<
            (CycleModel, Seq<AirReport>),
            ReinforcementError,
        >(error),
    decreases total - count,
{
    if count < total {
        lemma_air_failure_is_final(results, start, country_to_side, count, total - 1, error);
    }
}

// ---------------------------------------------------------------------------------------------
// The material cycle
// ---------------------------------------------------------------------------------------------

/// How many of the first `count` countries have capitulated.
pub open spec fn defeated_before(
    economies: Map<u16, EconomyState>,
    records: Seq<ReinforcementCountry>,
    count: int,
) -> int
    decreases count,
{
    if count <= 0 {
        0
    } else {
        defeated_before(economies, records, count - 1) + if economies[records[count
            - 1].country_id].capitulated {
            1int
        } else {
            0
        }
    }
}

/// The material record of a country that no longer fights.
pub open spec fn dissolved_stock(stock: MaterialLogisticsCountry) -> MaterialLogisticsCountry {
    MaterialLogisticsCountry {
        reserve_armor: 0,
        armor_replacement_spent: real_of(0),
        airfield_repair_spent: real_of(0),
        ..stock
    }
}

/// Wings after a country's defeat.
pub open spec fn wings_after_defeat(
    results: Map<Operation, u64>,
    model: CycleModel,
    country: u16,
    side: usize,
) -> Seq<AirWing> {
    let evacuation = evacuate_wings(
        results,
        model.wings,
        model.fields,
        country,
        side,
        model.wings.len() as int,
    );
    stand_down(evacuation.wings, evacuation.removed)
}

/// The cycle after a country's defeat was worked in: reserves dissolved, operations grounded,
/// wings evacuated.
pub open spec fn model_after_defeat(
    results: Map<Operation, u64>,
    model: CycleModel,
    coverage: Seq<AirCountryCoverage>,
    index: int,
    side: usize,
) -> CycleModel {
    let record = model.records[index];
    CycleModel {
        records: model.records.update(
            index,
            ReinforcementCountry {
                reserve_fighters: 0,
                reserve_strike: 0,
                ..grounded_record(record)
            },
        ),
        stocks: model.stocks.update(index, dissolved_stock(model.stocks[index])),
        coverage,
        wings: wings_after_defeat(results, model, record.country_id, side),
        ..model
    }
}

/// Work a country's defeat into the cycle. The air kernel must accept the evacuated state.
pub open spec fn dissolve_country(
    results: Map<Operation, u64>,
    air_accepted: bool,
    model: CycleModel,
    index: int,
    side: usize,
) -> Result<(CycleModel, MaterialReport), ReinforcementError> {
    let country = model.records[index].country_id;
    let evacuation = evacuate_wings(
        results,
        model.wings,
        model.fields,
        country,
        side,
        model.wings.len() as int,
    );
    let formations = armored_formations(model.units, country).len() as u64;
    match with_coverage(model.coverage, country, real_of(0)) {
        None => Err(ReinforcementError::InvalidWorld("air coverage country")),
        Some(coverage) => if !air_accepted {
            Err(ReinforcementError::Air("capitulation evacuation"))
        } else {
            Ok(
                (
                    model_after_defeat(results, model, coverage, index, side),
                    MaterialReport {
                        country_id: country,
                        airfields_repaired: 0,
                        airfield_repair_spent: real_of(0),
                        armor_purchased: 0,
                        armor_reinforced: 0,
                        armor_creation: ArmorFormationCreationOutcome {
                            desired_formations: wanted_formations(
                                model.stocks[index].armor_capacity,
                            ),
                            formations_before: formations,
                            formations_after: formations,
                            created_unit_id: None,
                            created_equipment: 0,
                        },
                        air: idle_report(country),
                        evacuated_aircraft: evacuation.evacuated,
                        lost_aircraft: evacuation.lost,
                    },
                ),
            )
        },
    }
}

/// Repairs and replacements of one country.
pub struct Upkeep {
    pub fields: Seq<Airfield>,
    pub record: ReinforcementCountry,
    pub stock: MaterialLogisticsCountry,
    pub treasury: Real,
    pub repaired: u32,
    pub armor: u64,
    pub fighters: u32,
    pub strike: u32,
}

/// A fully funded country repairs its fields, then buys armor, fighters and strike aircraft.
pub open spec fn upkeep_of(
    results: Map<Operation, u64>,
    units: Seq<SimulationUnit>,
    wings: Seq<AirWing>,
    fields: Seq<Airfield>,
    record: ReinforcementCountry,
    stock: MaterialLogisticsCountry,
    treasury: Real,
) -> Result<Upkeep, ReinforcementError> {
    let repair = repairs(results, fields, record.country_id, treasury, fields.len() as int);
    let owned = stock.reserve_armor + armor_in_formations(units, stock.country_id as u64);
    let armor = purchase_of(
        results,
        stock.armor_capacity as int,
        owned,
        real_of(ARMOR_REPLACEMENT_COST_BITS),
        repair.treasury,
    );
    let (after_armor, armor_spent) = payment(
        results,
        repair.treasury,
        armor,
        real_of(ARMOR_REPLACEMENT_COST_BITS),
    );
    if owned > u64::MAX {
        Err(ReinforcementError::Overflow("armor inventory"))
    } else {
        match buy_aircraft(results, wings, record, after_armor) {
            Err(error) => Err(error),
            Ok(purchase) => Ok(
                Upkeep {
                    fields: repair.fields,
                    record: ReinforcementCountry {
                        replacement_spent: sum(
                            results,
                            sum(results, armor_spent, purchase.fighter_spent),
                            purchase.strike_spent,
                        ),
                        ..purchase.record
                    },
                    stock: MaterialLogisticsCountry {
                        reserve_armor: (stock.reserve_armor + armor) as u64,
                        armor_replacement_spent: armor_spent,
                        airfield_repair_spent: repair.spent,
                        ..stock
                    },
                    treasury: purchase.treasury,
                    repaired: repair.repaired,
                    armor: armor as u64,
                    fighters: purchase.fighters,
                    strike: purchase.strike,
                },
            ),
        }
    }
}

/// Settle one country that still fights: operations, upkeep, filling of formations, at most one
/// new formation of each category.
pub open spec fn operate_country(
    results: Map<Operation, u64>,
    model: CycleModel,
    index: int,
    side: usize,
    home: Option<(Real, Real)>,
    max_units_per_side: u32,
) -> Result<(CycleModel, MaterialReport), ReinforcementError> {
    let record = model.records[index];
    let country = record.country_id;
    let economy = model.economies[country];
    let fighters = flying_aircraft(model.wings, country, AirRole::Fighter);
    let strike = flying_aircraft(model.wings, country, AirRole::Strike);
    let funding = funding_of(results, economy, fighters as u64, strike as u64);
    let funded = ReinforcementCountry {
        air_operations_due: funding.due,
        operations_coverage: funding.coverage,
        replacement_spent: real_of(0),
        ..record
    };
    let fresh = MaterialLogisticsCountry {
        armor_replacement_spent: real_of(0),
        airfield_repair_spent: real_of(0),
        ..model.stocks[index]
    };
    let kept = if funding.fully_funded {
        upkeep_of(
            results,
            model.units,
            model.wings,
            model.fields,
            funded,
            fresh,
            funding.treasury,
        )
    } else {
        Ok(
            Upkeep {
                fields: model.fields,
                record: funded,
                stock: fresh,
                treasury: funding.treasury,
                repaired: 0,
                armor: 0,
                fighters: 0,
                strike: 0,
            },
        )
    };
    if fighters > u32::MAX || strike > u32::MAX {
        Err(ReinforcementError::Overflow("operational aircraft"))
    } else {
        match with_coverage(model.coverage, country, funding.coverage) {
            None => Err(ReinforcementError::InvalidWorld("air coverage country")),
            Some(coverage) => match kept {
                Err(error) => Err(error),
                Ok(upkeep) => {
                    let armored = fill_formations(
                        results,
                        ArmorFill {
                            units: model.units,
                            stock: upkeep.stock,
                            reserve: model.reserves[side],
                            reinforced: 0,
                        },
                        country,
                        model.units.len() as int,
                    );
                    let winged = fill_wings(
                        results,
                        WingFill {
                            wings: model.wings,
                            record: upkeep.record,
                            reserve: armored.reserve,
                            fighters: 0,
                            strike: 0,
                        },
                        country,
                        model.wings.len() as int,
                    );
                    match raise_armor(
                        results,
                        armored.units,
                        armored.stock,
                        winged.reserve,
                        model.next_unit_id,
                        country,
                        side,
                        home,
                        max_units_per_side,
                    ) {
                        Err(error) => Err(error),
                        Ok(raised) => match expand_wings(
                            results,
                            winged.wings,
                            upkeep.fields,
                            winged.record,
                            raised.reserve,
                            model.next_wing_id,
                            side,
                        ) {
                            Err(error) => Err(error),
                            Ok(expansion) => Ok(
                                (
                                    CycleModel {
                                        records: model.records.update(index, expansion.record),
                                        stocks: model.stocks.update(index, raised.stock),
                                        units: raised.units,
                                        fields: upkeep.fields,
                                        wings: expansion.wings,
                                        coverage,
                                        economies: model.economies.insert(
                                            country,
                                            EconomyState { treasury: upkeep.treasury, ..economy },
                                        ),
                                        reserves: model.reserves.insert(side, expansion.reserve),
                                        next_unit_id: raised.next_unit_id,
                                        next_wing_id: expansion.next_wing_id,
                                    },
                                    MaterialReport {
                                        country_id: country,
                                        airfields_repaired: upkeep.repaired,
                                        airfield_repair_spent: upkeep.stock.airfield_repair_spent,
                                        armor_purchased: upkeep.armor,
                                        armor_reinforced: armored.reinforced,
                                        armor_creation: raised.outcome,
                                        air: AirReport {
                                            country_id: country,
                                            operations_spent: funding.spent,
                                            fighters_purchased: upkeep.fighters,
                                            strike_purchased: upkeep.strike,
                                            fighters_reinforced: winged.fighters,
                                            strike_reinforced: winged.strike,
                                            wing_creation: expansion.creation,
                                        },
                                        evacuated_aircraft: 0,
                                        lost_aircraft: 0,
                                    },
                                ),
                            ),
                        },
                    }
                },
            },
        }
    }
}

pub open spec fn settle_material_country(
    results: Map<Operation, u64>,
    air_accepted: bool,
    model: CycleModel,
    index: int,
    side: usize,
    home: Option<(Real, Real)>,
    max_units_per_side: u32,
) -> Result<(CycleModel, MaterialReport), ReinforcementError> {
    if model.economies[model.records[index].country_id].capitulated {
        dissolve_country(results, air_accepted, model, index, side)
    } else {
        operate_country(results, model, index, side, home, max_units_per_side)
    }
}

/// Where a country raises new formations, if anywhere.
pub open spec fn home_of(homes: Map<u16, (Real, Real)>, country: u16) -> Option<(Real, Real)> {
    if homes.contains_key(country) {
        Some(homes[country])
    } else {
        None
    }
}

/// The first `count` countries have been settled. The air kernel's verdict on the state that came
/// in is followed by one on each evacuation.
pub open spec fn settle_material_countries(
    results: Map<Operation, u64>,
    verdicts: Seq<bool>,
    start: CycleModel,
    country_to_side: Map<u16, usize>,
    homes: Map<u16, (Real, Real)>,
    max_units_per_side: u32,
    count: int,
) -> Result<(CycleModel, Seq<MaterialReport>), ReinforcementError>
    decreases count,
{
    if count <= 0 {
        Ok((start, Seq::empty()))
    } else {
        let country = start.records[count - 1].country_id;
        match settle_material_countries(
            results,
            verdicts,
            start,
            country_to_side,
            homes,
            max_units_per_side,
            count - 1,
        ) {
            Err(error) => Err(error),
            Ok((model, reports)) => match settle_material_country(
                results,
                verdicts[1 + defeated_before(start.economies, start.records, count - 1)],
                model,
                count - 1,
                country_to_side[country],
                home_of(homes, country),
                max_units_per_side,
            ) {
                Err(error) => Err(error),
                Ok((next, report)) => Ok((next, reports.push(report))),
            },
        }
    }
}

/// Whether a worksheet holds all that the upkeep of a country takes.
pub open spec fn upkeep_supplied(
    results: Map<Operation, u64>,
    units: Seq<SimulationUnit>,
    wings: Seq<AirWing>,
    fields: Seq<Airfield>,
    record: ReinforcementCountry,
    stock: MaterialLogisticsCountry,
    treasury: Real,
) -> bool {
    let repair = repairs(results, fields, record.country_id, treasury, fields.len() as int);
    let owned = stock.reserve_armor + armor_in_formations(units, stock.country_id as u64);
    let cost = real_of(ARMOR_REPLACEMENT_COST_BITS);
    let armor = purchase_of(results, stock.armor_capacity as int, owned, cost, repair.treasury);
    let (after_armor, armor_spent) = payment(results, repair.treasury, armor, cost);
    &&& repairs_supplied(results, fields, record.country_id, treasury)
    &&& owned <= u64::MAX ==> {
        &&& purchase_supplied(results, stock.armor_capacity as int, owned, cost, repair.treasury)
        &&& aircraft_supplied(results, wings, record, after_armor)
        &&& buy_aircraft(results, wings, record, after_armor) matches Ok(purchase)
            ==> results.contains_key(Operation::Sum(armor_spent, purchase.fighter_spent))
            && results.contains_key(
            Operation::Sum(
                sum(results, armor_spent, purchase.fighter_spent),
                purchase.strike_spent,
            ),
        )
    }
}

/// Whether a worksheet holds all that settling a country that still fights takes.
pub open spec fn operation_supplied(
    results: Map<Operation, u64>,
    model: CycleModel,
    index: int,
    side: usize,
    home: Option<(Real, Real)>,
    max_units_per_side: u32,
) -> bool {
    let record = model.records[index];
    let country = record.country_id;
    let economy = model.economies[country];
    let fighters = flying_aircraft(model.wings, country, AirRole::Fighter);
    let strike = flying_aircraft(model.wings, country, AirRole::Strike);
    let funding = funding_of(results, economy, fighters as u64, strike as u64);
    let funded = ReinforcementCountry {
        air_operations_due: funding.due,
        operations_coverage: funding.coverage,
        replacement_spent: real_of(0),
        ..record
    };
    let fresh = MaterialLogisticsCountry {
        armor_replacement_spent: real_of(0),
        airfield_repair_spent: real_of(0),
        ..model.stocks[index]
    };
    let kept = if funding.fully_funded {
        upkeep_of(
            results,
            model.units,
            model.wings,
            model.fields,
            funded,
            fresh,
            funding.treasury,
        )
    } else {
        Ok(
            Upkeep {
                fields: model.fields,
                record: funded,
                stock: fresh,
                treasury: funding.treasury,
                repaired: 0,
                armor: 0,
                fighters: 0,
                strike: 0,
            },
        )
    };
    fighters <= u32::MAX && strike <= u32::MAX ==> {
        &&& funding_supplied(results, economy, fighters as u64, strike as u64)
        &&& with_coverage(model.coverage, country, funding.coverage) is Some ==> {
            &&& funding.fully_funded ==> upkeep_supplied(
                results,
                model.units,
                model.wings,
                model.fields,
                funded,
                fresh,
                funding.treasury,
            )
            &&& kept matches Ok(upkeep) ==> {
                let land = ArmorFill {
                    units: model.units,
                    stock: upkeep.stock,
                    reserve: model.reserves[side],
                    reinforced: 0,
                };
                let armored = fill_formations(results, land, country, model.units.len() as int);
                let air = WingFill {
                    wings: model.wings,
                    record: upkeep.record,
                    reserve: armored.reserve,
                    fighters: 0,
                    strike: 0,
                };
                let winged = fill_wings(results, air, country, model.wings.len() as int);
                &&& formations_supplied(results, land, country)
                &&& wings_supplied(results, air, country)
                &&& armor_supplied(
                    results,
                    armored.units,
                    armored.stock,
                    winged.reserve,
                    country,
                    side,
                    home,
                    max_units_per_side,
                )
                &&& raise_armor(
                    results,
                    armored.units,
                    armored.stock,
                    winged.reserve,
                    model.next_unit_id,
                    country,
                    side,
                    home,
                    max_units_per_side,
                ) matches Ok(raised) ==> expansion_supplied(
                    results,
                    winged.wings,
                    upkeep.fields,
                    winged.record,
                    raised.reserve,
                    model.next_wing_id,
                    side,
                )
            }
        }
    }
}

/// Whether a worksheet holds all that working a country's defeat in takes.
pub open spec fn defeat_supplied(
    results: Map<Operation, u64>,
    model: CycleModel,
    index: int,
    side: usize,
) -> bool {
    let country = model.records[index].country_id;
    with_coverage(model.coverage, country, real_of(0)) is Some ==> evacuation_supplied(
        results,
        model.wings,
        model.fields,
        country,
        side,
    )
}

/// Whether a worksheet holds all that settling all countries takes.
pub open spec fn material_countries_supplied(
    results: Map<Operation, u64>,
    verdicts: Seq<bool>,
    start: CycleModel,
    country_to_side: Map<u16, usize>,
    homes: Map<u16, (Real, Real)>,
    max_units_per_side: u32,
) -> bool {
    forall|k: int|
        0 <= k < start.records.len() ==> (#[trigger] settle_material_countries(
            results,
            verdicts,
            start,
            country_to_side,
            homes,
            max_units_per_side,
            k,
        ) matches Ok((model, _)) ==> ({
            let country = start.records[k].country_id;
            if model.economies[model.records[k].country_id].capitulated {
                defeat_supplied(results, model, k, country_to_side[country])
            } else {
                operation_supplied(
                    results,
                    model,
                    k,
                    country_to_side[country],
                    home_of(homes, country),
                    max_units_per_side,
                )
            }
        }))
}

pub open spec fn material_reports(outcomes: Seq<CountryMaterialPayCycleOutcome>) -> Seq<
    MaterialReport,
> {
    outcomes.map_values(|outcome: CountryMaterialPayCycleOutcome| outcome@)
}

proof fn lemma_armor_nonnegative(units: Seq<SimulationUnit>, country: u64)
    ensures
        armor_in_formations(units, country) >= 0,
{
    crate::order::lemma_total_prefix(
        units,
        |unit: SimulationUnit|
            unit.combat.kind == crate::units::UnitKind::Armor && unit.combat.sovereign == country,
        |unit: SimulationUnit| unit.combat.equipment as int,
        0,
    );
}

fn maintain(
    units: &Vec<SimulationUnit>,
    wings: &Vec<AirWing>,
    fields: &mut Vec<Airfield>,
    record: &mut ReinforcementCountry,
    stock: &mut MaterialLogisticsCountry,
    treasury: &mut Real,
    reader: &mut Reader<'_>,
) -> (outcome: Result<(u32, u64, u32, u32), Halt>)
    ensures
        final(reader)@ == old(reader)@,
        ({
            let expected = upkeep_of(
                old(reader)@,
                units@,
                wings@,
                old(fields)@,
                *old(record),
                *old(stock),
                *old(treasury),
            );
            &&& (outcome matches Ok(done) ==> expected == Ok::<Upkeep, ReinforcementError>(
                Upkeep {
                    fields: final(fields)@,
                    record: *final(record),
                    stock: *final(stock),
                    treasury: *final(treasury),
                    repaired: done.0,
                    armor: done.1,
                    fighters: done.2,
                    strike: done.3,
                },
            ))
            &&& (outcome matches Err(Halt::Failed(error)) ==> expected == Err::<
                Upkeep,
                ReinforcementError,
            >(error))
        }),
        outcome matches Err(Halt::Missing(missing)) ==> !old(reader)@.contains_key(missing)
            && !upkeep_supplied(
                old(reader)@,
                units@,
                wings@,
                old(fields)@,
                *old(record),
                *old(stock),
                *old(treasury),
            ),
        !(outcome matches Err(Halt::CheckAir(_))),
        outcome is Ok ==> final(record).country_id == old(record).country_id
            && final(stock).country_id == old(stock).country_id,
{
    let (repair_spent, repaired) = halt_missing(
        repair_airfields(fields, record.country_id, treasury, reader),
    )?;
    stock.airfield_repair_spent = repair_spent;
    let owned: u64 = halt_failed(total_armor(units, stock))?;
    let (armor, armor_spent) = halt_missing(
        armor_replacement_purchase(
            stock.armor_capacity,
            owned,
            Real::from_bits(ARMOR_REPLACEMENT_COST_BITS),
            treasury,
            reader,
        ),
    )?;
    proof {
        lemma_armor_nonnegative(units@, stock.country_id as u64);
    }
    stock.reserve_armor = stock.reserve_armor + armor;
    stock.armor_replacement_spent = armor_spent;
    let (fighters, strike, fighter_spent, strike_spent) = purchase_aircraft(
        wings,
        record,
        treasury,
        reader,
    )?;
    let partial = halt_missing(reader.number(Operation::Sum(armor_spent, fighter_spent)))?;
    record.replacement_spent = halt_missing(reader.number(Operation::Sum(partial, strike_spent)))?;
    Ok((repaired, armor, fighters, strike))
}

impl Cycle {
    /// A step leaves every other record and stock alone.
    pub open spec fn material_advanced_from(self, before: Cycle, index: int) -> bool {
        &&& self.advanced_from(before, index)
        &&& self.stocks@.len() == before.stocks@.len()
        &&& forall|country: u16| #[trigger]
            before.economies@.contains_key(country) ==> self.economies@[country].capitulated
                == before.economies@[country].capitulated
    }

    fn dissolve_country(
        &mut self,
        index: usize,
        side: usize,
        verdict: Option<bool>,
        reader: &mut Reader<'_>,
    ) -> (outcome: Result<CountryMaterialPayCycleOutcome, Halt>)
        requires
            old(self).ready(index as int, side),
            index < old(self).stocks@.len(),
        ensures
            final(reader)@ == old(reader)@,
            outcome matches Ok(done) ==> verdict is Some && dissolve_country(
                old(reader)@,
                verdict->0,
                old(self)@,
                index as int,
                side,
            ) == Ok::<(CycleModel, MaterialReport), ReinforcementError>((final(self)@, done@))
                && final(self).material_advanced_from(*old(self), index as int),
            outcome matches Err(Halt::Failed(error)) ==> forall|accepted: bool|
                (verdict matches Some(given) ==> accepted == given) ==> #[trigger] dissolve_country(
                    old(reader)@,
                    accepted,
                    old(self)@,
                    index as int,
                    side,
                ) == Err::<(CycleModel, MaterialReport), ReinforcementError>(error),
            outcome matches Err(Halt::Missing(missing)) ==> !old(reader)@.contains_key(missing)
                && !defeat_supplied(old(reader)@, old(self)@, index as int, side),
            outcome matches Err(Halt::CheckAir(shown)) ==> {
                &&& verdict is None
                &&& with_coverage(
                    old(self).coverage@,
                    old(self).records@[index as int].country_id,
                    real_of(0),
                ) matches Some(coverage)
                &&& shown@ == air_of(
                    model_after_defeat(old(reader)@, old(self)@, coverage, index as int, side),
                )
            },
    {
        let mut record = self.records[index];
        let country: u16 = record.country_id;
        let mut stock = self.stocks[index];
        record.reserve_fighters = 0;
        record.reserve_strike = 0;
        record.air_operations_due = Real::zero();
        record.operations_coverage = Real::zero();
        record.replacement_spent = Real::zero();
        stock.reserve_armor = 0;
        stock.armor_replacement_spent = Real::zero();
        stock.airfield_repair_spent = Real::zero();
        halt_failed(set_air_coverage(&mut self.coverage, country, Real::zero()))?;
        let (evacuated_aircraft, lost_aircraft) = halt_missing(
            evacuate_defeated_wings(&mut self.wings, &self.fields, country, side, reader),
        )?;
        self.records.set(index, record);
        self.stocks.set(index, stock);
        match verdict {
            None => {
                return Err(Halt::CheckAir(self.air_state()));
            },
            Some(accepted) => {
                if !accepted {
                    return Err(
                        Halt::Failed(ReinforcementError::Air("capitulation evacuation")),
                    );
                }
            },
        }
        let formations: u64 = armor_formation_count(&self.units, country);
        let air = CountryAirPayCycleOutcome {
            country_id: country,
            operations_spent: Real::zero(),
            fighters_purchased: 0,
            strike_purchased: 0,
            fighters_reinforced: 0,
            strike_reinforced: 0,
            wing_creation: Vec::new(),
        };
        assert(air@.wing_creation =~= Seq::<AirWingCreationOutcome>::empty());
        Ok(
            CountryMaterialPayCycleOutcome {
                country_id: country,
                airfields_repaired: 0,
                airfield_repair_spent: Real::zero(),
                armor_purchased: 0,
                armor_reinforced: 0,
                armor_creation: ArmorFormationCreationOutcome {
                    desired_formations: desired_armor_formations(stock.armor_capacity),
                    formations_before: formations,
                    formations_after: formations,
                    created_unit_id: None,
                    created_equipment: 0,
                },
                air,
                evacuated_aircraft,
                lost_aircraft,
            },
        )
    }

    fn operate_country(
        &mut self,
        index: usize,
        side: usize,
        home: Option<(Real, Real)>,
        max_units_per_side: u32,
        reader: &mut Reader<'_>,
    ) -> (outcome: Result<CountryMaterialPayCycleOutcome, Halt>)
        requires
            old(self).ready(index as int, side),
            index < old(self).stocks@.len(),
        ensures
            final(reader)@ == old(reader)@,
            ({
                let expected = operate_country(
                    old(reader)@,
                    old(self)@,
                    index as int,
                    side,
                    home,
                    max_units_per_side,
                );
                &&& (outcome matches Ok(done) ==> expected == Ok::<
                    (CycleModel, MaterialReport),
                    ReinforcementError,
                >((final(self)@, done@)) && final(self).material_advanced_from(
                    *old(self),
                    index as int,
                ))
                &&& (outcome matches Err(Halt::Failed(error)) ==> expected == Err::<
                    (CycleModel, MaterialReport),
                    ReinforcementError,
                >(error))
            }),
            outcome matches Err(Halt::Missing(missing)) ==> !old(reader)@.contains_key(missing)
                && !operation_supplied(
                    old(reader)@,
                    old(self)@,
                    index as int,
                    side,
                    home,
                    max_units_per_side,
                ),
            !(outcome matches Err(Halt::CheckAir(_))),
    {
        broadcast use vstd::std_specs::btree::group_btree_axioms;

        let mut record = self.records[index];
        let country: u16 = record.country_id;
        let mut stock = self.stocks[index];
        let mut economy = self.economy_of(country);
        let (fighters, strike) = halt_failed(operational_aircraft(&self.wings, country))?;
        let funding = halt_missing(fund_operations(&economy, fighters, strike, reader))?;
        record.air_operations_due = funding.due;
        record.operations_coverage = funding.coverage;
        record.replacement_spent = Real::zero();
        halt_failed(set_air_coverage(&mut self.coverage, country, funding.coverage))?;
        stock.armor_replacement_spent = Real::zero();
        stock.airfield_repair_spent = Real::zero();
        let mut treasury = funding.treasury;
        let mut airfields_repaired: u32 = 0;
        let mut armor_purchased: u64 = 0;
        let mut fighters_purchased: u32 = 0;
        let mut strike_purchased: u32 = 0;
        if funding.fully_funded {
            let (mended, bought_armor, bought_fighters, bought_strike) = maintain(
                &self.units,
                &self.wings,
                &mut self.fields,
                &mut record,
                &mut stock,
                &mut treasury,
                reader,
            )?;
            airfields_repaired = mended;
            armor_purchased = bought_armor;
            fighters_purchased = bought_fighters;
            strike_purchased = bought_strike;
        }
        let repair_spent = stock.airfield_repair_spent;
        let mut reserve = self.reserve_of(side);
        let armor_reinforced: u64 = halt_missing(
            reinforce_existing_armor(&mut self.units, &mut stock, country, &mut reserve, reader),
        )?;
        let (fighters_reinforced, strike_reinforced) = halt_missing(
            reinforce_existing_wings(&mut self.wings, &mut record, country, &mut reserve, reader),
        )?;
        let mut next_unit_id: u64 = self.next_unit_id;
        let armor_creation = create_one_missing_armor_formation(
            &mut self.units,
            &mut stock,
            country,
            side,
            &mut next_unit_id,
            &mut reserve,
            home,
            max_units_per_side,
            reader,
        )?;
        let mut next_wing_id: u64 = self.next_wing_id;
        let wing_creation = raise_wings(
            &mut self.wings,
            &self.fields,
            &mut record,
            side,
            &mut next_wing_id,
            &mut reserve,
            reader,
        )?;
        self.next_unit_id = next_unit_id;
        self.next_wing_id = next_wing_id;
        economy.treasury = treasury;
        self.economies.insert(country, economy);
        self.reserves.insert(side, reserve);
        self.records.set(index, record);
        self.stocks.set(index, stock);
        proof {
            assert(self.economies@.dom() =~= old(self).economies@.dom());
            assert(self.reserves@.dom() =~= old(self).reserves@.dom());
        }
        Ok(
            CountryMaterialPayCycleOutcome {
                country_id: country,
                airfields_repaired,
                airfield_repair_spent: repair_spent,
                armor_purchased,
                armor_reinforced,
                armor_creation,
                air: CountryAirPayCycleOutcome {
                    country_id: country,
                    operations_spent: funding.spent,
                    fighters_purchased,
                    strike_purchased,
                    fighters_reinforced,
                    strike_reinforced,
                    wing_creation,
                },
                evacuated_aircraft: 0,
                lost_aircraft: 0,
            },
        )
    }
}

/// The state before a material cycle.
pub open spec fn material_cycle_start(
    state: ReinforcementState,
    material: MaterialLogisticsState,
    units: Seq<SimulationUnit>,
    air: AirModel,
    economies: Map<u16, EconomyState>,
    reserves: Map<usize, Real>,
) -> CycleModel {
    CycleModel {
        records: state.countries@,
        stocks: material.countries@,
        units,
        fields: air.airfields,
        wings: air.wings,
        coverage: air.country_coverage,
        economies,
        reserves,
        next_unit_id: state.next_unit_id,
        next_wing_id: state.next_air_wing_id,
    }
}

/// What the state around a material cycle fails with.
pub open spec fn material_world_fault(
    schema: Seq<char>,
    material_schema: Seq<char>,
    model: CycleModel,
    air_accepted: bool,
    country_to_side: Map<u16, usize>,
    side_count: usize,
) -> Option<ReinforcementError> {
    match reserve_state_fault(
        schema,
        model.next_unit_id,
        model.next_wing_id,
        model.records,
        air_of(model),
        air_accepted,
        country_to_side,
        side_count,
    ) {
        Some(error) => Some(error),
        None => match material_state_fault(
            material_schema,
            model.stocks,
            model.units,
            country_to_side,
            side_count,
        ) {
            Some(error) => Some(error),
            None => if !economies_valid(model.economies, country_to_side) {
                Some(ReinforcementError::InvalidWorld("economy funding"))
            } else if !reserves_valid(model.reserves, side_count) {
                Some(ReinforcementError::InvalidWorld("personnel reserves"))
            } else {
                None
            },
        },
    }
}

/// A complete material cycle: valid inputs, all countries settled in order, a valid result.
pub open spec fn material_cycle(
    results: Map<Operation, u64>,
    verdicts: Seq<bool>,
    schema: Seq<char>,
    material_schema: Seq<char>,
    start: CycleModel,
    country_to_side: Map<u16, usize>,
    side_count: usize,
    homes: Map<u16, (Real, Real)>,
    max_units_per_side: u32,
) -> Result<(CycleModel, Seq<MaterialReport>), ReinforcementError> {
    let count = start.records.len() as int;
    match material_world_fault(
        schema,
        material_schema,
        start,
        verdicts[0],
        country_to_side,
        side_count,
    ) {
        Some(error) => Err(error),
        None => if max_units_per_side == 0 {
            Err(ReinforcementError::InvalidWorld("land marker cap"))
        } else {
            match settle_material_countries(
                results,
                verdicts,
                start,
                country_to_side,
                homes,
                max_units_per_side,
                count,
            ) {
                Err(error) => Err(error),
                Ok((model, reports)) => match material_world_fault(
                    schema,
                    material_schema,
                    model,
                    verdicts[1 + defeated_before(start.economies, start.records, count)],
                    country_to_side,
                    side_count,
                ) {
                    Some(error) => Err(error),
                    None => Ok((model, reports)),
                },
            }
        },
    }
}

/// The air state that the kernel has to judge next: the first one without a verdict.
pub open spec fn awaits_verdict(
    results: Map<Operation, u64>,
    verdicts: Seq<bool>,
    start: CycleModel,
    country_to_side: Map<u16, usize>,
    homes: Map<u16, (Real, Real)>,
    max_units_per_side: u32,
    shown: AirModel,
) -> bool {
    let count = start.records.len() as int;
    ||| verdicts.len() == 0 && shown == air_of(start)
    ||| (settle_material_countries(
        results,
        verdicts,
        start,
        country_to_side,
        homes,
        max_units_per_side,
        count,
    ) matches Ok((model, _)) && verdicts.len() == 1 + defeated_before(
        start.economies,
        start.records,
        count,
    ) && shown == air_of(model))
    ||| exists|index: int|
        #![trigger start.records[index]]
        0 <= index < count && verdicts.len() == 1 + defeated_before(
            start.economies,
            start.records,
            index,
        ) && shown_on_defeat(
            results,
            verdicts,
            start,
            country_to_side,
            homes,
            max_units_per_side,
            index,
            shown,
        )
}

/// The air state after evacuating the country at `index`.
pub open spec fn shown_on_defeat(
    results: Map<Operation, u64>,
    verdicts: Seq<bool>,
    start: CycleModel,
    country_to_side: Map<u16, usize>,
    homes: Map<u16, (Real, Real)>,
    max_units_per_side: u32,
    index: int,
    shown: AirModel,
) -> bool {
    let country = start.records[index].country_id;
    &&& settle_material_countries(
        results,
        verdicts,
        start,
        country_to_side,
        homes,
        max_units_per_side,
        index,
    ) matches Ok((model, _))
    &&& with_coverage(model.coverage, country, real_of(0)) matches Some(coverage)
    &&& shown == air_of(
        model_after_defeat(results, model, coverage, index, country_to_side[country]),
    )
}

proof fn lemma_material_failure_is_final(
    results: Map<Operation, u64>,
    verdicts: Seq<bool>,
    start: CycleModel,
    country_to_side: Map<u16, usize>,
    homes: Map<u16, (Real, Real)>,
    max_units_per_side: u32,
    count: int,
    total: int,
    error: ReinforcementError,
)
    requires
        1 <= count <= total,
        settle_material_countries(
            results,
            verdicts,
            start,
            country_to_side,
            homes,
            max_units_per_side,
            count,
        ) == Err::<(CycleModel, Seq<MaterialReport>), ReinforcementError>(error),
    ensures
        settle_material_countries(
            results,
            verdicts,
            start,
            country_to_side,
            homes,
            max_units_per_side,
            total,
        ) == Err::<(CycleModel, Seq<MaterialReport>), ReinforcementError>(error),
    decreases total - count,
{
    if count < total {
        lemma_material_failure_is_final(
            results,
            verdicts,
            start,
            country_to_side,
            homes,
            max_units_per_side,
            count,
            total - 1,
            error,
        );
    }
}

proof fn lemma_same_countries_listed(
    records: Seq<ReinforcementCountry>,
    stocks: Seq<MaterialLogisticsCountry>,
    country_to_side: Map<u16, usize>,
)
    requires
        lists_countries(record_ids(records), country_to_side),
        lists_countries(stock_ids(stocks), country_to_side),
    ensures
        records.len() == stocks.len(),
        forall|i: int|
            #![trigger stocks[i]]
            0 <= i < records.len() ==> stocks[i].country_id == records[i].country_id,
{
    let left = record_ids(records);
    let right = stock_ids(stocks);
    assert forall|id: u16| left.contains(id) <==> right.contains(id) by {
        assert(left.to_set().contains(id) <==> right.to_set().contains(id));
    }
    crate::order::lemma_strictly_sorted_unique(left, right);
    assert forall|i: int| #![trigger stocks[i]] 0 <= i < records.len() implies stocks[i].country_id
        == records[i].country_id by {
        assert(left[i] == right[i]);
    }
}

fn find_home(homes: &BTreeMap<u16, (Real, Real)>, country: u16) -> (home: Option<(Real, Real)>)
    ensures
        home == home_of(homes@, country),
{
    broadcast use vstd::std_specs::btree::group_btree_axioms;

    match homes.get(&country) {
        Some(home) => Some(*home),
        None => None,
    }
}

impl Cycle {
    /// Settle all countries in order.
    fn settle_material_countries(
        &mut self,
        country_to_side: &BTreeMap<u16, usize>,
        homes: &BTreeMap<u16, (Real, Real)>,
        max_units_per_side: u32,
        verdicts: &[bool],
        reader: &mut Reader<'_>,
    ) -> (outcome: Result<(Vec<CountryMaterialPayCycleOutcome>, usize), Halt>)
        requires
            cycle_world(
                old(self).records@,
                old(self).economies@,
                old(self).reserves@,
                country_to_side@,
            ),
            old(self).stocks@.len() == old(self).records@.len(),
            old(self).wings@.len() + 2 * old(self).records@.len() <= u32::MAX,
            verdicts@.len() >= 1,
        ensures
            final(reader)@ == old(reader)@,
            ({
                let expected = settle_material_countries(
                    old(reader)@,
                    verdicts@,
                    old(self)@,
                    country_to_side@,
                    homes@,
                    max_units_per_side,
                    old(self).records@.len() as int,
                );
                &&& (outcome matches Ok((done, checked)) ==> {
                    &&& expected == Ok::<(CycleModel, Seq<MaterialReport>), ReinforcementError>(
                        (final(self)@, material_reports(done@)),
                    )
                    &&& checked == 1 + defeated_before(
                        old(self).economies@,
                        old(self).records@,
                        old(self).records@.len() as int,
                    )
                    &&& checked <= verdicts@.len()
                })
                &&& (outcome matches Err(Halt::Failed(error)) ==> expected == Err::<
                    (CycleModel, Seq<MaterialReport>),
                    ReinforcementError,
                >(error))
            }),
            outcome matches Err(Halt::Missing(missing)) ==> !old(reader)@.contains_key(missing)
                && !material_countries_supplied(
                    old(reader)@,
                    verdicts@,
                    old(self)@,
                    country_to_side@,
                    homes@,
                    max_units_per_side,
                ),
            outcome matches Err(Halt::CheckAir(shown)) ==> awaits_verdict(
                old(reader)@,
                verdicts@,
                old(self)@,
                country_to_side@,
                homes@,
                max_units_per_side,
                shown@,
            ),
    {
        let ghost start = self@;
        let mut countries: Vec<CountryMaterialPayCycleOutcome> = Vec::new();
        let count: usize = self.records.len();
        let mut checked: usize = 1;
        let mut index: usize = 0;
        assert(material_reports(countries@) =~= Seq::<MaterialReport>::empty());
        while index < count
            invariant
                index <= count,
                count == start.records.len(),
                self.records@.len() == count,
                self.stocks@.len() == count,
                reader@ == old(reader)@,
                start == old(self)@,
                1 <= checked <= verdicts@.len(),
                checked == 1 + defeated_before(start.economies, start.records, index as int),
                start.wings.len() + 2 * count <= u32::MAX,
                cycle_world(start.records, start.economies, start.reserves, country_to_side@),
                self.wings@.len() <= start.wings.len() + 2 * index,
                self.economies@.dom() == start.economies.dom(),
                self.reserves@.dom() == start.reserves.dom(),
                forall|i: int|
                    #![trigger self.records@[i]]
                    0 <= i < count ==> self.records@[i].country_id == start.records[i].country_id,
                forall|country: u16| #[trigger]
                    start.economies.contains_key(country) ==> self.economies@[country].capitulated
                        == start.economies[country].capitulated,
                settle_material_countries(
                    reader@,
                    verdicts@,
                    start,
                    country_to_side@,
                    homes@,
                    max_units_per_side,
                    index as int,
                ) == Ok::<(CycleModel, Seq<MaterialReport>), ReinforcementError>(
                    (self@, material_reports(countries@)),
                ),
            decreases count - index,
        {
            let country: u16 = self.records[index].country_id;
            proof {
                assert(start.records[index as int].country_id == country);
                assert(start.economies.contains_key(country));
                assert(self.economies@.dom().contains(country));
                assert(self.reserves@.dom().contains(country_to_side@[country]));
            }
            let side: usize = side_of(country_to_side, country);
            let home = find_home(homes, country);
            let ghost before = *self;
            let capitulated = self.economy_of(country).capitulated;
            let settled = if capitulated {
                let verdict: Option<bool> = if checked < verdicts.len() {
                    Some(verdicts[checked])
                } else {
                    None
                };
                self.dissolve_country(index, side, verdict, reader)
            } else {
                self.operate_country(index, side, home, max_units_per_side, reader)
            };
            match settled {
                Ok(done) => {
                    let ghost reports = material_reports(countries@);
                    countries.push(done);
                    if capitulated {
                        checked = checked + 1;
                    }
                    proof {
                        assert(material_reports(countries@) =~= reports.push(done@));
                        assert forall|i: int| #![trigger self.records@[i]] 0 <= i
                            < count implies self.records@[i].country_id
                            == start.records[i].country_id by {
                            assert(before.records@[i].country_id == start.records[i].country_id);
                        }
                        assert forall|other: u16| #[trigger]
                            start.economies.contains_key(other) implies
                            self.economies@[other].capitulated
                            == start.economies[other].capitulated by {
                            assert(before.economies@.dom().contains(other));
                            assert(before.economies@.contains_key(other));
                        }
                    }
                },
                Err(halt) => {
                    proof {
                        if halt is Failed {
                            let error = halt->Failed_0;
                            if capitulated {
                                assert(dissolve_country(
                                    reader@,
                                    verdicts@[checked as int],
                                    before@,
                                    index as int,
                                    side,
                                ) == Err::<(CycleModel, MaterialReport), ReinforcementError>(
                                    error,
                                ));
                            }
                            lemma_material_failure_is_final(
                                reader@,
                                verdicts@,
                                start,
                                country_to_side@,
                                homes@,
                                max_units_per_side,
                                index + 1,
                                count as int,
                                error,
                            );
                        }
                        if halt is CheckAir {
                            assert(start.records[index as int].country_id == country);
                            assert(shown_on_defeat(
                                reader@,
                                verdicts@,
                                start,
                                country_to_side@,
                                homes@,
                                max_units_per_side,
                                index as int,
                                halt->CheckAir_0@,
                            ));
                        }
                    }
                    return Err(halt);
                },
            }
            index = index + 1;
        }
        Ok((countries, checked))
    }
}

impl ReinforcementState {
    /// Settle the material cycle atomically: air operations, airfield repair, armor, fighter and
    /// strike purchases, existing formation reinforcement, then at most one new armor and air
    /// marker per bounded category.
    ///
    /// Whatever stops the cycle, all six mutable inputs stay as they were. `verdicts` holds what
    /// the air kernel said about the states it was shown so far: the one that came in, one per
    /// evacuated country, and the one that would go out.
    pub fn settle_material_pay_cycle(
        &mut self,
        material: &mut MaterialLogisticsState,
        units: &mut Vec<SimulationUnit>,
        air: &mut AirPowerState,
        economies: &mut BTreeMap<u16, EconomyState>,
        personnel_reserves: &mut BTreeMap<usize, Real>,
        country_to_side: &BTreeMap<u16, usize>,
        side_count: usize,
        home_positions: &BTreeMap<u16, (Real, Real)>,
        max_units_per_side: u32,
        verdicts: &[bool],
        sheet: &Worksheet,
    ) -> (outcome: Result<MaterialPayCycleOutcome, Halt>)
        requires
            old(air).wings@.len() + 2 * old(self).countries@.len() <= u32::MAX,
        ensures
            outcome is Err ==> *final(self) == *old(self) && *final(material) == *old(material)
                && *final(units) == *old(units) && *final(air) == *old(air) && *final(economies)
                == *old(economies) && *final(personnel_reserves) == *old(personnel_reserves),
            ({
                let start = material_cycle_start(
                    *old(self),
                    *old(material),
                    old(units)@,
                    old(air)@,
                    old(economies)@,
                    old(personnel_reserves)@,
                );
                let expected = material_cycle(
                    sheet@,
                    verdicts@,
                    old(self).schema@,
                    old(material).schema@,
                    start,
                    country_to_side@,
                    side_count,
                    home_positions@,
                    max_units_per_side,
                );
                &&& (outcome matches Ok(done) ==> {
                    &&& verdicts@.len() > 1 + defeated_before(
                        start.economies,
                        start.records,
                        start.records.len() as int,
                    )
                    &&& expected == Ok::<(CycleModel, Seq<MaterialReport>), ReinforcementError>(
                        (
                            material_cycle_start(
                                *final(self),
                                *final(material),
                                final(units)@,
                                final(air)@,
                                final(economies)@,
                                final(personnel_reserves)@,
                            ),
                            material_reports(done.countries@),
                        ),
                    )
                    &&& final(self).schema@ == old(self).schema@
                    &&& final(material).schema@ == old(material).schema@
                })
                &&& (outcome matches Err(Halt::Failed(error)) ==> verdicts@.len() >= 1 && expected
                    == Err::<(CycleModel, Seq<MaterialReport>), ReinforcementError>(error))
                &&& (outcome matches Err(Halt::CheckAir(shown)) ==> awaits_verdict(
                    sheet@,
                    verdicts@,
                    start,
                    country_to_side@,
                    home_positions@,
                    max_units_per_side,
                    shown@,
                ))
            }),
            outcome matches Err(Halt::Missing(missing)) ==> !sheet@.contains_key(missing)
                && verdicts@.len() >= 1 && ({
                let start = material_cycle_start(
                    *old(self),
                    *old(material),
                    old(units)@,
                    old(air)@,
                    old(economies)@,
                    old(personnel_reserves)@,
                );
                &&& material_world_fault(
                    old(self).schema@,
                    old(material).schema@,
                    start,
                    verdicts@[0],
                    country_to_side@,
                    side_count,
                ) is None
                &&& max_units_per_side > 0
                &&& !material_countries_supplied(
                    sheet@,
                    verdicts@,
                    start,
                    country_to_side@,
                    home_positions@,
                    max_units_per_side,
                )
            }),
    {
        broadcast use vstd::std_specs::btree::group_btree_axioms;

        let ghost start = material_cycle_start(
            *self,
            *material,
            units@,
            air@,
            economies@,
            personnel_reserves@,
        );
        if verdicts.len() == 0 {
            return Err(Halt::CheckAir(air.clone()));
        }
        halt_failed(self.validate(air, verdict_of(verdicts[0]), country_to_side, side_count))?;
        halt_failed(material.validate(units, country_to_side, side_count))?;
        halt_failed(validate_economies(economies, country_to_side))?;
        halt_failed(validate_personnel_reserves(personnel_reserves, side_count))?;
        if max_units_per_side == 0 {
            return Err(Halt::Failed(ReinforcementError::InvalidWorld("land marker cap")));
        }
        let mut cycle = Cycle {
            records: copy_all(&self.countries),
            stocks: copy_all(&material.countries),
            units: copy_all(units),
            fields: copy_all(&air.airfields),
            wings: copy_all(&air.wings),
            coverage: copy_all(&air.country_coverage),
            economies: economies.clone(),
            reserves: personnel_reserves.clone(),
            next_unit_id: self.next_unit_id,
            next_wing_id: self.next_air_wing_id,
        };
        proof {
            assert(cycle@ == start);
            lemma_cycle_world(self.schema@, start, verdicts@[0], country_to_side@, side_count);
            lemma_same_countries_listed(start.records, start.stocks, country_to_side@);
        }
        let mut reader = sheet.reader();
        let (countries, checked) = cycle.settle_material_countries(
            country_to_side,
            home_positions,
            max_units_per_side,
            verdicts,
            &mut reader,
        )?;
        let next_air = cycle.air_state();
        if checked >= verdicts.len() {
            return Err(Halt::CheckAir(next_air));
        }
        let next_state = ReinforcementState {
            schema: self.schema.clone(),
            next_unit_id: cycle.next_unit_id,
            next_air_wing_id: cycle.next_wing_id,
            countries: cycle.records,
        };
        let next_material = MaterialLogisticsState {
            schema: material.schema.clone(),
            countries: cycle.stocks,
        };
        halt_failed(
            next_state.validate(
                &next_air,
                verdict_of(verdicts[checked]),
                country_to_side,
                side_count,
            ),
        )?;
        halt_failed(next_material.validate(&cycle.units, country_to_side, side_count))?;
        halt_failed(validate_economies(&cycle.economies, country_to_side))?;
        halt_failed(validate_personnel_reserves(&cycle.reserves, side_count))?;
        *self = next_state;
        *material = next_material;
        *units = cycle.units;
        *air = next_air;
        *economies = cycle.economies;
        *personnel_reserves = cycle.reserves;
        Ok(MaterialPayCycleOutcome { countries })
    }
}

// ---------------------------------------------------------------------------------------------
// Laws
// ---------------------------------------------------------------------------------------------

/// An air cycle leaves a capitulated country's wings, reserves, treasury, men and ids alone; only
/// its published policy changes.
pub proof fn air_cycle_spares_the_capitulated(
    results: Map<Operation, u64>,
    model: CycleModel,
    index: int,
    side: usize,
)
    requires
        0 <= index < model.records.len(),
        model.economies[model.records[index].country_id].capitulated,
    ensures
        settle_air_country(results, model, index, side) matches Ok((next, report)) ==> {
            &&& next.wings == model.wings
            &&& next.fields == model.fields
            &&& next.economies == model.economies
            &&& next.reserves == model.reserves
            &&& next.next_wing_id == model.next_wing_id
            &&& next.records[index].reserve_fighters == model.records[index].reserve_fighters
            &&& next.records[index].reserve_strike == model.records[index].reserve_strike
            &&& next.records[index].operations_coverage == real_of(0)
            &&& report == idle_report(model.records[index].country_id)
        },
{
}

/// A material cycle leaves a capitulated country without any reserve.
pub proof fn material_cycle_dissolves_the_capitulated(
    results: Map<Operation, u64>,
    air_accepted: bool,
    model: CycleModel,
    index: int,
    side: usize,
    home: Option<(Real, Real)>,
    max_units_per_side: u32,
)
    requires
        0 <= index < model.records.len(),
        model.stocks.len() == model.records.len(),
        model.economies[model.records[index].country_id].capitulated,
    ensures
        settle_material_country(
            results,
            air_accepted,
            model,
            index,
            side,
            home,
            max_units_per_side,
        ) matches Ok((next, report)) ==> {
            &&& next.records[index].reserve_fighters == 0
            &&& next.records[index].reserve_strike == 0
            &&& next.stocks[index].reserve_armor == 0
            &&& next.records[index].operations_coverage == real_of(0)
            &&& next.units == model.units
            &&& next.economies == model.economies
            &&& next.reserves == model.reserves
            &&& next.next_unit_id == model.next_unit_id
            &&& next.next_wing_id == model.next_wing_id
        },
{
}

proof fn lemma_raise_wing_ids(
    results: Map<Operation, u64>,
    wings: Seq<AirWing>,
    fields: Seq<Airfield>,
    record: ReinforcementCountry,
    reserve: Real,
    next_wing_id: u64,
    country: u16,
    side: usize,
    role: AirRole,
)
    ensures
        raise_wing(
            results,
            wings,
            fields,
            record,
            reserve,
            next_wing_id,
            country,
            side,
            role,
        ) matches Ok(raised) ==> {
            &&& raised.outcome.role == role
            &&& match raised.outcome.created_wing_id {
                Some(id) => id == next_wing_id && raised.next_wing_id == next_wing_id + 1
                    && raised.wings.len() == wings.len() + 1 && raised.wings.last().id == id,
                None => raised.next_wing_id == next_wing_id && raised.wings == wings,
            }
        },
{
}

/// Each role raises at most one wing, fighters first; ids are handed out in ascending order and
/// never twice.
pub proof fn wing_ids_are_monotonic(
    results: Map<Operation, u64>,
    wings: Seq<AirWing>,
    fields: Seq<Airfield>,
    record: ReinforcementCountry,
    reserve: Real,
    next_wing_id: u64,
    side: usize,
)
    ensures
        expand_wings(results, wings, fields, record, reserve, next_wing_id, side) matches Ok(
            expansion,
        ) ==> {
            let created = |position: int| expansion.creation[position].created_wing_id;
            &&& expansion.creation.len() == 2
            &&& expansion.creation[0].role == AirRole::Fighter
            &&& expansion.creation[1].role == AirRole::Strike
            &&& next_wing_id <= expansion.next_wing_id <= next_wing_id + 2
            &&& (created(0) matches Some(id) ==> id == next_wing_id)
            &&& (created(1) matches Some(id) ==> next_wing_id <= id < expansion.next_wing_id)
            &&& (created(0) is Some && created(1) is Some ==> created(0)->0 < created(1)->0)
        },
{
    lemma_raise_wing_ids(
        results,
        wings,
        fields,
        record,
        reserve,
        next_wing_id,
        record.country_id,
        side,
        AirRole::Fighter,
    );
    if let Ok(first) = raise_wing(
        results,
        wings,
        fields,
        record,
        reserve,
        next_wing_id,
        record.country_id,
        side,
        AirRole::Fighter,
    ) {
        lemma_raise_wing_ids(
            results,
            first.wings,
            fields,
            first.record,
            first.reserve,
            first.next_wing_id,
            record.country_id,
            side,
            AirRole::Strike,
        );
    }
}

/// Settled countries are reported one by one in the order of their records, which is ascending id
/// order.
pub proof fn air_reports_follow_country_order(
    results: Map<Operation, u64>,
    start: CycleModel,
    country_to_side: Map<u16, usize>,
    count: int,
)
    requires
        0 <= count <= start.records.len(),
    ensures
        settle_air_countries(results, start, country_to_side, count) matches Ok((model, reports))
            ==> {
            &&& reports.len() == count
            &&& model.records.len() == start.records.len()
            &&& forall|i: int|
                #![trigger reports[i]]
                0 <= i < count ==> reports[i].country_id == start.records[i].country_id
            &&& forall|i: int|
                #![trigger model.records[i]]
                count <= i < start.records.len() ==> model.records[i] == start.records[i]
        },
    decreases count,
{
    if count > 0 {
        air_reports_follow_country_order(results, start, country_to_side, count - 1);
    }
}

/// Settled countries are reported one by one in the order of their records.
pub proof fn material_reports_follow_country_order(
    results: Map<Operation, u64>,
    verdicts: Seq<bool>,
    start: CycleModel,
    country_to_side: Map<u16, usize>,
    homes: Map<u16, (Real, Real)>,
    max_units_per_side: u32,
    count: int,
)
    requires
        0 <= count <= start.records.len(),
    ensures
        settle_material_countries(
            results,
            verdicts,
            start,
            country_to_side,
            homes,
            max_units_per_side,
            count,
        ) matches Ok((model, reports)) ==> {
            &&& reports.len() == count
            &&& model.records.len() == start.records.len()
            &&& forall|i: int|
                #![trigger reports[i]]
                0 <= i < count ==> reports[i].country_id == start.records[i].country_id
            &&& forall|i: int|
                #![trigger model.records[i]]
                count <= i < start.records.len() ==> model.records[i] == start.records[i]
        },
    decreases count,
{
    if count > 0 {
        material_reports_follow_country_order(
            results,
            verdicts,
            start,
            country_to_side,
            homes,
            max_units_per_side,
            count - 1,
        );
    }
}

pub(crate) proof fn lemma_records_fit(records: Seq<ReinforcementCountry>, wings: Seq<AirWing>, from: int, at: int)
    requires
        0 <= from <= at < records.len(),
        crate::reinforcement::records_fault(records, wings, from) is None,
    ensures
        crate::reinforcement::record_fault(records[at], wings) is None,
    decreases at - from,
{
    if from < at {
        lemma_records_fit(records, wings, from + 1, at);
    }
}

/// After a completed air cycle no country owns more aircraft than it may.
pub proof fn settled_aircraft_fit_capacity(
    results: Map<Operation, u64>,
    verdicts: Seq<bool>,
    schema: Seq<char>,
    start: CycleModel,
    country_to_side: Map<u16, usize>,
    side_count: usize,
    at: int,
)
    ensures
        air_cycle(results, verdicts, schema, start, country_to_side, side_count) matches Ok(
            (model, _),
        ) ==> (0 <= at < model.records.len() ==> {
            let record = model.records[at];
            &&& aircraft_in_wings(model.wings, record.country_id, AirRole::Fighter)
                + record.reserve_fighters <= record.fighter_capacity
            &&& aircraft_in_wings(model.wings, record.country_id, AirRole::Strike)
                + record.reserve_strike <= record.strike_capacity
        }),
{
    if let Ok((model, _)) = air_cycle(
        results,
        verdicts,
        schema,
        start,
        country_to_side,
        side_count,
    ) {
        if 0 <= at < model.records.len() {
            lemma_records_fit(model.records, model.wings, 0, at);
        }
    }
}

/// Filling wings moves aircraft from reserve into wings: for each role the sum of both stays, and
/// no wing grows beyond its maximum.
pub proof fn filling_wings_conserves_aircraft(
    results: Map<Operation, u64>,
    start: WingFill,
    country: u16,
    count: int,
    role: AirRole,
)
    requires
        0 <= count <= start.wings.len(),
        start.record.country_id == country,
        start.fighters == 0,
        start.strike == 0,
    ensures
        ({
            let after = fill_wings(results, start, country, count);
            &&& after.wings.len() == start.wings.len()
            &&& aircraft_in_wings(after.wings, country, role) + crate::settlement::reserve_of(
                after.record,
                role,
            ) == aircraft_in_wings(start.wings, country, role) + crate::settlement::reserve_of(
                start.record,
                role,
            )
            &&& after.fighters + after.record.reserve_fighters == start.record.reserve_fighters
            &&& after.strike + after.record.reserve_strike == start.record.reserve_strike
            &&& forall|i: int|
                #![trigger after.wings[i]]
                0 <= i < start.wings.len() ==> after.wings[i].max_count == start.wings[i].max_count
                    && (start.wings[i].count <= start.wings[i].max_count ==> after.wings[i].count
                    <= after.wings[i].max_count)
            &&& forall|i: int|
                #![trigger after.wings[i]]
                count <= i < start.wings.len() ==> after.wings[i] == start.wings[i]
        }),
    decreases count,
{
    if count > 0 {
        filling_wings_conserves_aircraft(results, start, country, count - 1, role);
        let before = fill_wings(results, start, country, count - 1);
        let wing = before.wings[count - 1];
        if wing.sovereign_country_id == country {
            let request = crate::settlement::wing_request(wing, before.record);
            let claimed = crate::settlement::claim(
                results,
                request as u64,
                real_of(crate::settlement::AIRCREW_PER_AIRCRAFT_BITS),
                before.reserve,
            ).0;
            assert(claimed <= request);
            crate::order::lemma_total_update(
                before.wings,
                count - 1,
                AirWing { count: (wing.count + claimed) as u32, ..wing },
                |wing: AirWing| wing.sovereign_country_id == country && wing.role == role,
                |wing: AirWing| wing.count as int,
            );
        }
    }
}

/// How many wings the first reports say were raised.
pub open spec fn wings_raised(reports: Seq<AirReport>, count: nat) -> nat
    decreases count,
{
    if count == 0 {
        0
    } else {
        wings_raised(reports, (count - 1) as nat) + raised_in(reports[count - 1].wing_creation)
    }
}

/// How many wings one country raised.
pub open spec fn raised_in(creation: Seq<AirWingCreationOutcome>) -> nat {
    creation.filter(|outcome: AirWingCreationOutcome| outcome.created_wing_id is Some).len()
}

proof fn lemma_raised_pair(first: AirWingCreationOutcome, second: AirWingCreationOutcome)
    ensures
        raised_in(seq![first, second]) == (if first.created_wing_id is Some {
            1nat
        } else {
            0nat
        }) + (if second.created_wing_id is Some {
            1nat
        } else {
            0nat
        }),
{
    let created = |outcome: AirWingCreationOutcome| outcome.created_wing_id is Some;
    let pair = seq![first, second];
    reveal_with_fuel(Seq::filter, 3);
    assert(pair.drop_last() =~= seq![first]);
    assert(seq![first].drop_last() =~= Seq::empty());
    assert(pair.filter(created).len() == raised_in(pair));
}

proof fn lemma_raised_prefix(reports: Seq<AirReport>, report: AirReport, count: nat)
    requires
        count <= reports.len(),
    ensures
        wings_raised(reports.push(report), count) == wings_raised(reports, count),
    decreases count,
{
    if count > 0 {
        lemma_raised_prefix(reports, report, (count - 1) as nat);
        assert(reports.push(report)[count - 1] == reports[count - 1]);
    }
}

proof fn lemma_air_country_counts(
    results: Map<Operation, u64>,
    model: CycleModel,
    index: int,
    side: usize,
)
    requires
        0 <= index < model.records.len(),
    ensures
        settle_air_country(results, model, index, side) matches Ok((after, report)) ==> {
            &&& after.units == model.units
            &&& after.stocks == model.stocks
            &&& after.fields == model.fields
            &&& after.next_unit_id == model.next_unit_id
            &&& after.records.len() == model.records.len()
            &&& after.next_wing_id == model.next_wing_id + raised_in(report.wing_creation)
            &&& after.wings.len() == model.wings.len() + raised_in(report.wing_creation)
        },
{
    if let Ok((after, report)) = settle_air_country(results, model, index, side) {
        let record = model.records[index];
        let country = record.country_id;
        if model.economies[country].capitulated {
            assert(raised_in(report.wing_creation) == 0) by {
                reveal_with_fuel(Seq::filter, 1);
                assert(report.wing_creation.len() == 0);
            }
        } else {
            let economy = model.economies[country];
            let fighters = flying_aircraft(model.wings, country, AirRole::Fighter);
            let strike = flying_aircraft(model.wings, country, AirRole::Strike);
            let funding = funding_of(results, economy, fighters as u64, strike as u64);
            let funded = ReinforcementCountry {
                air_operations_due: funding.due,
                operations_coverage: funding.coverage,
                replacement_spent: real_of(0),
                ..record
            };
            let bought = if funding.fully_funded {
                buy_aircraft(results, model.wings, funded, funding.treasury)
            } else {
                Ok(no_purchase(funded, funding.treasury))
            };
            let purchase = bought->Ok_0;
            let paid = if funding.fully_funded {
                ReinforcementCountry {
                    replacement_spent: sum(
                        results,
                        purchase.fighter_spent,
                        purchase.strike_spent,
                    ),
                    ..purchase.record
                }
            } else {
                purchase.record
            };
            let start = WingFill {
                wings: model.wings,
                record: paid,
                reserve: model.reserves[side],
                fighters: 0,
                strike: 0,
            };
            let filled = fill_wings(results, start, country, model.wings.len() as int);
            filling_wings_conserves_aircraft(
                results,
                start,
                country,
                model.wings.len() as int,
                AirRole::Fighter,
            );
            lemma_raise_wing_ids(
                results,
                filled.wings,
                model.fields,
                filled.record,
                filled.reserve,
                model.next_wing_id,
                filled.record.country_id,
                side,
                AirRole::Fighter,
            );
            if let Ok(first) = raise_wing(
                results,
                filled.wings,
                model.fields,
                filled.record,
                filled.reserve,
                model.next_wing_id,
                filled.record.country_id,
                side,
                AirRole::Fighter,
            ) {
                lemma_raise_wing_ids(
                    results,
                    first.wings,
                    model.fields,
                    first.record,
                    first.reserve,
                    first.next_wing_id,
                    filled.record.country_id,
                    side,
                    AirRole::Strike,
                );
                if let Ok(second) = raise_wing(
                    results,
                    first.wings,
                    model.fields,
                    first.record,
                    first.reserve,
                    first.next_wing_id,
                    filled.record.country_id,
                    side,
                    AirRole::Strike,
                ) {
                    lemma_raised_pair(first.outcome, second.outcome);
                }
            }
        }
    }
}

/// An air cycle leaves formations, material stocks, airfields and the ids of formations alone; wings
/// are only added, and the ids of wings advance by as many as the reports say were raised.
pub proof fn an_air_cycle_only_adds_reported_wings(
    results: Map<Operation, u64>,
    start: CycleModel,
    country_to_side: Map<u16, usize>,
    count: int,
)
    requires
        0 <= count <= start.records.len(),
    ensures
        settle_air_countries(results, start, country_to_side, count) matches Ok((model, reports))
            ==> {
            &&& model.units == start.units
            &&& model.stocks == start.stocks
            &&& model.fields == start.fields
            &&& model.next_unit_id == start.next_unit_id
            &&& model.records.len() == start.records.len()
            &&& reports.len() == count
            &&& model.next_wing_id == start.next_wing_id + wings_raised(reports, reports.len())
            &&& model.wings.len() == start.wings.len() + wings_raised(reports, reports.len())
        },
    decreases count,
{
    if count > 0 {
        an_air_cycle_only_adds_reported_wings(results, start, country_to_side, count - 1);
        if let Ok((model, reports)) = settle_air_countries(
            results,
            start,
            country_to_side,
            count - 1,
        ) {
            let side = country_to_side[start.records[count - 1].country_id];
            lemma_air_country_counts(results, model, count - 1, side);
            if let Ok((next, report)) = settle_air_country(results, model, count - 1, side) {
                lemma_raised_prefix(reports, report, reports.len());
                assert(reports.push(report)[reports.len() as int] == report);
            }
        }
    }
}

pub(crate) proof fn lemma_raising_conserves(
    results: Map<Operation, u64>,
    wings: Seq<AirWing>,
    fields: Seq<Airfield>,
    record: ReinforcementCountry,
    reserve: Real,
    next_wing_id: u64,
    country: u16,
    side: usize,
    raised_role: AirRole,
    role: AirRole,
)
    ensures
        raise_wing(
            results,
            wings,
            fields,
            record,
            reserve,
            next_wing_id,
            country,
            side,
            raised_role,
        ) matches Ok(raised) ==> {
            &&& raised.record.country_id == record.country_id
            &&& aircraft_in_wings(raised.wings, country, role) + crate::settlement::reserve_of(
                raised.record,
                role,
            ) == aircraft_in_wings(wings, country, role) + crate::settlement::reserve_of(
                record,
                role,
            )
        },
{
    if let Ok(raised) = raise_wing(
        results,
        wings,
        fields,
        record,
        reserve,
        next_wing_id,
        country,
        side,
        raised_role,
    ) {
        if raised.outcome.created_wing_id is Some {
            crate::order::lemma_total_push(
                wings,
                raised.wings.last(),
                |wing: AirWing| wing.sovereign_country_id == country && wing.role == role,
                |wing: AirWing| wing.count as int,
            );
            assert(raised.wings =~= wings.push(raised.wings.last()));
        }
    }
}

/// How many aircraft of a role a country bought.
pub open spec fn bought_of(report: AirReport, role: AirRole) -> u32 {
    match role {
        AirRole::Fighter => report.fighters_purchased,
        AirRole::Strike => report.strike_purchased,
    }
}

/// A country that settles its air side neither loses nor finds aircraft: for each role its wings and
/// its reserve together grow by what it bought.
pub proof fn a_settled_country_keeps_its_aircraft(
    results: Map<Operation, u64>,
    model: CycleModel,
    index: int,
    side: usize,
    role: AirRole,
)
    requires
        0 <= index < model.records.len(),
    ensures
        operate_air(results, model, index, side) matches Ok((after, report)) ==> {
            let country = model.records[index].country_id;
            aircraft_in_wings(after.wings, country, role) + crate::settlement::reserve_of(
                after.records[index],
                role,
            ) == aircraft_in_wings(model.wings, country, role) + crate::settlement::reserve_of(
                model.records[index],
                role,
            ) + bought_of(report, role)
        },
{
    if let Ok((after, report)) = operate_air(results, model, index, side) {
        let record = model.records[index];
        let country = record.country_id;
        let economy = model.economies[country];
        let fighters = flying_aircraft(model.wings, country, AirRole::Fighter);
        let strike = flying_aircraft(model.wings, country, AirRole::Strike);
        let funding = funding_of(results, economy, fighters as u64, strike as u64);
        let funded = ReinforcementCountry {
            air_operations_due: funding.due,
            operations_coverage: funding.coverage,
            replacement_spent: real_of(0),
            ..record
        };
        let bought = if funding.fully_funded {
            buy_aircraft(results, model.wings, funded, funding.treasury)
        } else {
            Ok(no_purchase(funded, funding.treasury))
        };
        let purchase = bought->Ok_0;
        lemma_purchase_fits(results, model.wings, funded, funding.treasury);
        let paid = if funding.fully_funded {
            ReinforcementCountry {
                replacement_spent: sum(results, purchase.fighter_spent, purchase.strike_spent),
                ..purchase.record
            }
        } else {
            purchase.record
        };
        let start = WingFill {
            wings: model.wings,
            record: paid,
            reserve: model.reserves[side],
            fighters: 0,
            strike: 0,
        };
        let count = model.wings.len() as int;
        let filled = fill_wings(results, start, country, count);
        filling_wings_conserves_aircraft(results, start, country, count, role);
        lemma_filling_keeps_country(results, start, country, count);
        lemma_raising_conserves(
            results,
            filled.wings,
            model.fields,
            filled.record,
            filled.reserve,
            model.next_wing_id,
            country,
            side,
            AirRole::Fighter,
            role,
        );
        if let Ok(first) = raise_wing(
            results,
            filled.wings,
            model.fields,
            filled.record,
            filled.reserve,
            model.next_wing_id,
            country,
            side,
            AirRole::Fighter,
        ) {
            lemma_raising_conserves(
                results,
                first.wings,
                model.fields,
                first.record,
                first.reserve,
                first.next_wing_id,
                country,
                side,
                AirRole::Strike,
                role,
            );
        }
    }
}

pub(crate) proof fn lemma_filling_keeps_country(
    results: Map<Operation, u64>,
    start: WingFill,
    country: u16,
    count: int,
)
    ensures
        fill_wings(results, start, country, count).record.country_id == start.record.country_id,
    decreases count,
{
    if count > 0 {
        lemma_filling_keeps_country(results, start, country, count - 1);
    }
}

pub(crate) proof fn lemma_purchase_fits(
    results: Map<Operation, u64>,
    wings: Seq<AirWing>,
    record: ReinforcementCountry,
    treasury: Real,
)
    ensures
        buy_aircraft(results, wings, record, treasury) matches Ok(purchase) ==> {
            &&& purchase.record.country_id == record.country_id
            &&& purchase.record.reserve_fighters == record.reserve_fighters + purchase.fighters
            &&& purchase.record.reserve_strike == record.reserve_strike + purchase.strike
        },
{
    let count = |wing: AirWing| wing.count as int;
    assert(wings.take(0) =~= Seq::empty());
    crate::order::lemma_total_prefix(
        wings,
        |wing: AirWing|
            wing.sovereign_country_id == record.country_id && wing.role == AirRole::Fighter,
        count,
        0,
    );
    crate::order::lemma_total_prefix(
        wings,
        |wing: AirWing|
            wing.sovereign_country_id == record.country_id && wing.role == AirRole::Strike,
        count,
        0,
    );
    assert(aircraft_in_wings(wings, record.country_id, AirRole::Fighter) >= 0);
    assert(aircraft_in_wings(wings, record.country_id, AirRole::Strike) >= 0);
}

/// A material cycle leaves every country its economy and makes up none.
pub proof fn material_cycles_keep_the_economies(
    results: Map<Operation, u64>,
    verdicts: Seq<bool>,
    schema: Seq<char>,
    material_schema: Seq<char>,
    start: CycleModel,
    country_to_side: Map<u16, usize>,
    side_count: usize,
    homes: Map<u16, (Real, Real)>,
    max_units_per_side: u32,
)
    ensures
        material_cycle(
            results,
            verdicts,
            schema,
            material_schema,
            start,
            country_to_side,
            side_count,
            homes,
            max_units_per_side,
        ) matches Ok((model, _)) ==> model.economies.dom() == start.economies.dom(),
{
}

/// An air cycle leaves every country its economy and makes up none.
pub proof fn air_cycles_keep_the_economies(
    results: Map<Operation, u64>,
    verdicts: Seq<bool>,
    schema: Seq<char>,
    start: CycleModel,
    country_to_side: Map<u16, usize>,
    side_count: usize,
)
    ensures
        air_cycle(results, verdicts, schema, start, country_to_side, side_count) matches Ok(
            (model, _),
        ) ==> model.economies.dom() == start.economies.dom(),
{
}

} // verus!
