//! Pay-cycle settlement of air operations, repairs, replacements and new formations.
//!
//! A pay cycle is staged against copies of every mutable input, validated, and installed only
//! after the complete result is valid. Expected resource bounds (personnel, marker and airfield
//! capacity) are reported in the outcome rather than treated as corrupt state.

use vstd::prelude::*;
use crate::air::{
    allied_wings, effective_capacity, field_occupancy, live_air_wing_markers, live_markers,
    national_wings, usable_capacity, AirCountryCoverage, AirPowerState, AirRole, AirWing,
    AirWingState, Airfield, FIFTY_BITS, HUNDRED_BITS,
};
use crate::economy::EconomyState;
use crate::reinforcement::{MaterialLogisticsCountry, ReinforcementCountry, ReinforcementError};
use crate::scalar::{real_of, Real, ONE_BITS};
use crate::units::{CombatUnit, SimulationUnit, UnitKind};
use crate::worksheet::{difference, integer, product, quotient, sum, Operation, Reader};

verus! {

pub const AIR_WING_TARGET_SIZE: u32 = 24;

pub const MAX_WINGS_PER_ROLE_PER_COUNTRY: u32 = 8;

pub const MAX_LIVE_AIR_WING_MARKERS: usize = 256;

pub const ARMOR_GROUP_TARGET_SIZE: u64 = 100;

pub const MAX_ARMOR_GROUPS_PER_COUNTRY: u64 = 12;

pub const AIRFIELD_CAPTURE_REPAIR_CYCLES: u64 = 2;

/// Bit pattern of `1.0`, due per hundred fighters.
pub const FIGHTER_OPERATIONS_PER_100_BITS: u64 = 0x3ff0_0000_0000_0000;

/// Bit pattern of `1.5`, due per hundred strike aircraft.
pub const STRIKE_OPERATIONS_PER_100_BITS: u64 = 0x3ff8_0000_0000_0000;

/// Bit pattern of `0.15`.
pub const FIGHTER_REPLACEMENT_COST_BITS: u64 = 0x3fc3_3333_3333_3333;

/// Bit pattern of `0.2`.
pub const STRIKE_REPLACEMENT_COST_BITS: u64 = 0x3fc9_9999_9999_999a;

/// Bit pattern of `0.05`.
pub const ARMOR_REPLACEMENT_COST_BITS: u64 = 0x3fa9_9999_9999_999a;

/// Bit pattern of `1.0`.
pub const AIRCREW_PER_AIRCRAFT_BITS: u64 = 0x3ff0_0000_0000_0000;

/// Bit pattern of `2.0`.
pub const ARMOR_CREW_PER_VEHICLE_BITS: u64 = 0x4000_0000_0000_0000;

/// Bit pattern of `2.0`.
pub const AIRFIELD_REPAIR_COST_BITS: u64 = 0x4000_0000_0000_0000;

/// Bit pattern of `25.0`.
pub const AIRFIELD_REPAIR_PER_CYCLE_BITS: u64 = 0x4039_0000_0000_0000;

/// Bit pattern of `0.999`, the share from which an obligation counts as met.
pub const FUNDED_SHARE_BITS: u64 = 0x3fef_f7ce_d916_872b;

/// Bit pattern of `2400.0`.
pub const FERRY_RANGE_KM_BITS: u64 = 0x40a2_c000_0000_0000;

/// Bit pattern of `100.0`, the health of an intact formation.
pub const UNIT_HEALTH_BITS: u64 = 0x4059_0000_0000_0000;

/// Why a settlement did not complete.
#[derive(Debug)]
pub enum Halt {
    /// The inputs or the result are not acceptable.
    Failed(ReinforcementError),
    /// An arithmetic result is missing.
    Missing(Operation),
    /// The air kernel has to say whether this state is one of its own.
    CheckAir(AirPowerState),
}

#[derive(Clone, Copy, Debug, PartialEq, Eq, Structural)]
pub struct ArmorFormationCreationOutcome {
    pub desired_formations: u64,
    pub formations_before: u64,
    pub formations_after: u64,
    pub created_unit_id: Option<u64>,
    pub created_equipment: u64,
}

#[derive(Clone, Copy, Debug, PartialEq, Eq, Structural)]
pub enum AirWingCreationStatus {
    AtDesiredCount,
    Created,
    NoReserve,
    NoPersonnel,
    GlobalMarkerCap,
    NoEligibleAirfield,
}

#[derive(Clone, Copy, Debug, PartialEq, Eq, Structural)]
pub struct AirWingCreationOutcome {
    pub role: AirRole,
    pub desired_wings: u32,
    pub wings_before: u32,
    pub wings_after: u32,
    /// Creation is bounded to one marker per role and country per cycle. This remains non-zero
    /// when another cycle is needed.
    pub remaining_missing_wings: u32,
    pub created_wing_id: Option<u64>,
    pub created_aircraft: u32,
    pub status: AirWingCreationStatus,
}

// ---------------------------------------------------------------------------------------------
// Crews
// ---------------------------------------------------------------------------------------------

/// How many of the requested vehicles the reserve can crew, and what is left of it.
pub open spec fn claim(
    results: Map<Operation, u64>,
    requested: u64,
    crew: Real,
    reserve: Real,
) -> (u64, Real) {
    let available = results[Operation::Whole(quotient(results, reserve, crew))];
    let claimed = if requested <= available {
        requested
    } else {
        available
    };
    (claimed, difference(results, reserve, product(results, integer(results, claimed), crew)))
}

/// Whether a worksheet holds all that crewing vehicles takes.
pub open spec fn claim_supplied(
    results: Map<Operation, u64>,
    requested: u64,
    crew: Real,
    reserve: Real,
) -> bool {
    let share = quotient(results, reserve, crew);
    let amount = integer(results, claim(results, requested, crew, reserve).0);
    let men = product(results, amount, crew);
    &&& results.contains_key(Operation::Quotient(reserve, crew))
    &&& results.contains_key(Operation::Whole(share))
    &&& results.contains_key(Operation::Integer(claim(results, requested, crew, reserve).0))
    &&& results.contains_key(Operation::Product(amount, crew))
    &&& results.contains_key(Operation::Difference(reserve, men))
}

/// Take crews for `requested` vehicles out of a reserve, as far as it goes.
pub fn claim_crewed_equipment(
    requested: u64,
    crew: Real,
    reserve: &mut Real,
    reader: &mut Reader<'_>,
) -> (outcome: Result<u64, Operation>)
    ensures
        final(reader)@ == old(reader)@,
        outcome matches Ok(claimed) ==> (claimed, *final(reserve)) == claim(
            old(reader)@,
            requested,
            crew,
            *old(reserve),
        ) && claimed <= requested,
        outcome matches Err(missing) ==> !old(reader)@.contains_key(missing) && !claim_supplied(
            old(reader)@,
            requested,
            crew,
            *old(reserve),
        ),
{
    let share = reader.number(Operation::Quotient(*reserve, crew))?;
    let available: u64 = reader.look_up(Operation::Whole(share))?;
    let claimed: u64 = if requested <= available {
        requested
    } else {
        available
    };
    let amount = reader.number(Operation::Integer(claimed))?;
    let men = reader.number(Operation::Product(amount, crew))?;
    *reserve = reader.number(Operation::Difference(*reserve, men))?;
    Ok(claimed)
}

// ---------------------------------------------------------------------------------------------
// Operations
// ---------------------------------------------------------------------------------------------

/// What a cycle of air operations costs.
pub open spec fn operations_due(results: Map<Operation, u64>, fighters: u64, strike: u64) -> Real {
    sum(
        results,
        product(
            results,
            quotient(results, integer(results, fighters), real_of(HUNDRED_BITS)),
            real_of(FIGHTER_OPERATIONS_PER_100_BITS),
        ),
        product(
            results,
            quotient(results, integer(results, strike), real_of(HUNDRED_BITS)),
            real_of(STRIKE_OPERATIONS_PER_100_BITS),
        ),
    )
}

/// Payroll and occupation are paid and there is no full cycle of arrears.
pub open spec fn can_operate(economy: EconomyState) -> bool {
    &&& real_of(FUNDED_SHARE_BITS).le(economy.payroll_coverage)
    &&& real_of(FUNDED_SHARE_BITS).le(economy.occupation_coverage)
    &&& economy.arrears_cycles.lt(real_of(ONE_BITS))
}

/// How one country's operations were paid for.
#[derive(Clone, Copy, Debug, PartialEq, Eq, Structural)]
pub struct Funding {
    pub due: Real,
    pub spent: Real,
    pub coverage: Real,
    pub treasury: Real,
    pub fully_funded: bool,
}

/// Operations are paid out of the treasury as far as it goes, before anything is replaced.
pub open spec fn funding_of(
    results: Map<Operation, u64>,
    economy: EconomyState,
    fighters: u64,
    strike: u64,
) -> Funding {
    let due = operations_due(results, fighters, strike);
    let spent = if can_operate(economy) {
        economy.treasury.min_of(due)
    } else {
        real_of(0)
    };
    let coverage = if real_of(0).lt(due) {
        quotient(results, spent, due)
    } else {
        real_of(ONE_BITS)
    };
    Funding {
        due,
        spent,
        coverage,
        treasury: difference(results, economy.treasury, spent).max_of(real_of(0)),
        fully_funded: can_operate(economy) && real_of(FUNDED_SHARE_BITS).le(coverage),
    }
}

/// Whether a worksheet holds all that funding operations takes.
pub open spec fn funding_supplied(
    results: Map<Operation, u64>,
    economy: EconomyState,
    fighters: u64,
    strike: u64,
) -> bool {
    let hundred = real_of(HUNDRED_BITS);
    let fighter_share = quotient(results, integer(results, fighters), hundred);
    let strike_share = quotient(results, integer(results, strike), hundred);
    let fighter_cost = real_of(FIGHTER_OPERATIONS_PER_100_BITS);
    let strike_cost = real_of(STRIKE_OPERATIONS_PER_100_BITS);
    let funding = funding_of(results, economy, fighters, strike);
    &&& results.contains_key(Operation::Integer(fighters))
    &&& results.contains_key(Operation::Quotient(integer(results, fighters), hundred))
    &&& results.contains_key(Operation::Product(fighter_share, fighter_cost))
    &&& results.contains_key(Operation::Integer(strike))
    &&& results.contains_key(Operation::Quotient(integer(results, strike), hundred))
    &&& results.contains_key(Operation::Product(strike_share, strike_cost))
    &&& results.contains_key(
        Operation::Sum(
            product(results, fighter_share, fighter_cost),
            product(results, strike_share, strike_cost),
        ),
    )
    &&& results.contains_key(Operation::Difference(economy.treasury, funding.spent))
    &&& real_of(0).lt(funding.due) ==> results.contains_key(
        Operation::Quotient(funding.spent, funding.due),
    )
}

pub fn fund_operations(economy: &EconomyState, fighters: u32, strike: u32, reader: &mut Reader<'_>) -> (
outcome: Result<Funding, Operation>)
    ensures
        final(reader)@ == old(reader)@,
        outcome matches Ok(funding) ==> funding == funding_of(
            old(reader)@,
            *economy,
            fighters as u64,
            strike as u64,
        ),
        outcome matches Err(missing) ==> !old(reader)@.contains_key(missing) && !funding_supplied(
            old(reader)@,
            *economy,
            fighters as u64,
            strike as u64,
        ),
{
    let hundred = Real::from_bits(HUNDRED_BITS);
    let fighter_count = reader.number(Operation::Integer(fighters as u64))?;
    let fighter_share = reader.number(Operation::Quotient(fighter_count, hundred))?;
    let fighter_due = reader.number(
        Operation::Product(fighter_share, Real::from_bits(FIGHTER_OPERATIONS_PER_100_BITS)),
    )?;
    let strike_count = reader.number(Operation::Integer(strike as u64))?;
    let strike_share = reader.number(Operation::Quotient(strike_count, hundred))?;
    let strike_due = reader.number(
        Operation::Product(strike_share, Real::from_bits(STRIKE_OPERATIONS_PER_100_BITS)),
    )?;
    let due = reader.number(Operation::Sum(fighter_due, strike_due))?;
    let funded = Real::from_bits(FUNDED_SHARE_BITS);
    let able = funded.at_most(economy.payroll_coverage) && funded.at_most(
        economy.occupation_coverage,
    ) && economy.arrears_cycles.less(Real::one());
    let spent = if able {
        economy.treasury.smaller(due)
    } else {
        Real::zero()
    };
    let left = reader.number(Operation::Difference(economy.treasury, spent))?;
    let coverage = if Real::zero().less(due) {
        reader.number(Operation::Quotient(spent, due))?
    } else {
        Real::one()
    };
    Ok(
        Funding {
            due,
            spent,
            coverage,
            treasury: left.larger(Real::zero()),
            fully_funded: able && funded.at_most(coverage),
        },
    )
}

/// Where a country's coverage entry stands.
pub open spec fn coverage_index(
    coverage: Seq<AirCountryCoverage>,
    country: u16,
    from: int,
) -> Option<int>
    decreases coverage.len() - from,
{
    if from < 0 || from >= coverage.len() {
        None
    } else if coverage[from].country_id == country {
        Some(from)
    } else {
        coverage_index(coverage, country, from + 1)
    }
}

/// Coverage with one country's share replaced.
pub open spec fn with_coverage(
    coverage: Seq<AirCountryCoverage>,
    country: u16,
    share: Real,
) -> Option<Seq<AirCountryCoverage>> {
    match coverage_index(coverage, country, 0) {
        Some(at) => Some(
            coverage.update(at, AirCountryCoverage { country_id: country, operations_coverage: share }),
        ),
        None => None,
    }
}

/// Publish the share of a country's operations that was paid.
pub fn set_air_coverage(coverage: &mut Vec<AirCountryCoverage>, country: u16, share: Real) -> (
outcome: Result<(), ReinforcementError>)
    ensures
        outcome is Ok ==> with_coverage(old(coverage)@, country, share) == Some(final(coverage)@),
        outcome matches Err(error) ==> with_coverage(old(coverage)@, country, share) is None
            && error == ReinforcementError::InvalidWorld("air coverage country")
            && final(coverage)@ == old(coverage)@,
{
    let mut index: usize = 0;
    while index < coverage.len()
        invariant
            index <= coverage@.len(),
            coverage@ == old(coverage)@,
            coverage_index(coverage@, country, 0) == coverage_index(
                coverage@,
                country,
                index as int,
            ),
        decreases coverage@.len() - index,
    {
        if coverage[index].country_id == country {
            coverage.set(
                index,
                AirCountryCoverage { country_id: country, operations_coverage: share },
            );
            return Ok(());
        }
        index = index + 1;
    }
    Err(ReinforcementError::InvalidWorld("air coverage country"))
}

// ---------------------------------------------------------------------------------------------
// Repairs
// ---------------------------------------------------------------------------------------------

/// One cycle of repair. A captured ruin needs two cycles before it opens at half health; any other
/// field gains a fixed amount up to full health. The flag tells whether work was done.
pub open spec fn repaired(results: Map<Operation, u64>, field: Airfield) -> (Airfield, bool) {
    if field.health.le(real_of(0)) && field.capture_repair_cycles < AIRFIELD_CAPTURE_REPAIR_CYCLES {
        let cycles = (field.capture_repair_cycles + 1) as u64;
        if cycles >= AIRFIELD_CAPTURE_REPAIR_CYCLES {
            (
                Airfield {
                    capture_repair_cycles: cycles,
                    health: real_of(FIFTY_BITS),
                    disabled: false,
                    ..field
                },
                true,
            )
        } else {
            (Airfield { capture_repair_cycles: cycles, ..field }, true)
        }
    } else if real_of(HUNDRED_BITS).le(field.health) {
        (field, false)
    } else {
        (
            Airfield {
                capture_repair_cycles: if field.capture_repair_cycles
                    >= AIRFIELD_CAPTURE_REPAIR_CYCLES {
                    field.capture_repair_cycles
                } else {
                    AIRFIELD_CAPTURE_REPAIR_CYCLES
                },
                health: sum(results, field.health, real_of(AIRFIELD_REPAIR_PER_CYCLE_BITS)).min_of(
                    real_of(HUNDRED_BITS),
                ),
                disabled: false,
                ..field
            },
            true,
        )
    }
}

/// Whether a worksheet holds all that one cycle of repair takes.
pub open spec fn mending_supplied(results: Map<Operation, u64>, field: Airfield) -> bool {
    !(field.health.le(real_of(0)) && field.capture_repair_cycles < AIRFIELD_CAPTURE_REPAIR_CYCLES)
        && !real_of(HUNDRED_BITS).le(field.health) ==> results.contains_key(
        Operation::Sum(field.health, real_of(AIRFIELD_REPAIR_PER_CYCLE_BITS)),
    )
}

pub fn repair_airfield(field: &mut Airfield, reader: &mut Reader<'_>) -> (outcome: Result<
    bool,
    Operation,
>)
    ensures
        final(reader)@ == old(reader)@,
        outcome matches Ok(worked) ==> (*final(field), worked) == repaired(
            old(reader)@,
            *old(field),
        ),
        outcome matches Err(missing) ==> !old(reader)@.contains_key(missing) && !mending_supplied(
            old(reader)@,
            *old(field),
        ),
        outcome is Err ==> *final(field) == *old(field),
{
    if field.health.at_most(Real::zero()) && field.capture_repair_cycles
        < AIRFIELD_CAPTURE_REPAIR_CYCLES {
        field.capture_repair_cycles = field.capture_repair_cycles + 1;
        if field.capture_repair_cycles >= AIRFIELD_CAPTURE_REPAIR_CYCLES {
            field.health = Real::from_bits(FIFTY_BITS);
            field.disabled = false;
        }
        return Ok(true);
    }
    if Real::from_bits(HUNDRED_BITS).at_most(field.health) {
        return Ok(false);
    }
    let mended = reader.number(
        Operation::Sum(field.health, Real::from_bits(AIRFIELD_REPAIR_PER_CYCLE_BITS)),
    )?;
    if field.capture_repair_cycles < AIRFIELD_CAPTURE_REPAIR_CYCLES {
        field.capture_repair_cycles = AIRFIELD_CAPTURE_REPAIR_CYCLES;
    }
    field.health = mended.smaller(Real::from_bits(HUNDRED_BITS));
    field.disabled = false;
    Ok(true)
}

/// Fields in repair, what they cost so far, and whether the treasury has run dry.
pub struct RepairModel {
    pub fields: Seq<Airfield>,
    pub treasury: Real,
    pub spent: Real,
    pub repaired: u32,
    pub stopped: bool,
}

/// Repair the field at `position` if it is the country's, damaged and affordable.
pub open spec fn repair_next(
    results: Map<Operation, u64>,
    model: RepairModel,
    country: u16,
    position: int,
) -> RepairModel {
    let field = model.fields[position];
    if model.stopped || field.controller_country_id != country || !field.health.lt(
        real_of(HUNDRED_BITS),
    ) {
        model
    } else if model.treasury.lt(real_of(AIRFIELD_REPAIR_COST_BITS)) {
        RepairModel { stopped: true, ..model }
    } else {
        let (mended, worked) = repaired(results, field);
        if worked {
            RepairModel {
                fields: model.fields.update(position, mended),
                treasury: difference(results, model.treasury, real_of(AIRFIELD_REPAIR_COST_BITS)),
                spent: sum(results, model.spent, real_of(AIRFIELD_REPAIR_COST_BITS)),
                repaired: if model.repaired < u32::MAX {
                    (model.repaired + 1) as u32
                } else {
                    u32::MAX
                },
                stopped: false,
            }
        } else {
            model
        }
    }
}

/// Repairs of the first `count` fields in id order.
pub open spec fn repairs(
    results: Map<Operation, u64>,
    fields: Seq<Airfield>,
    country: u16,
    treasury: Real,
    count: int,
) -> RepairModel
    decreases count,
{
    if count <= 0 {
        RepairModel { fields, treasury, spent: real_of(0), repaired: 0, stopped: false }
    } else {
        repair_next(
            results,
            repairs(results, fields, country, treasury, count - 1),
            country,
            count - 1,
        )
    }
}

proof fn lemma_repairs_length(
    results: Map<Operation, u64>,
    fields: Seq<Airfield>,
    country: u16,
    treasury: Real,
    count: int,
)
    requires
        count <= fields.len(),
    ensures
        repairs(results, fields, country, treasury, count).fields.len() == fields.len(),
    decreases count,
{
    if count > 0 {
        lemma_repairs_length(results, fields, country, treasury, count - 1);
    }
}

/// Whether a worksheet holds all that the repair of the field at `position` takes.
pub open spec fn repair_supplied(
    results: Map<Operation, u64>,
    model: RepairModel,
    country: u16,
    position: int,
) -> bool {
    let field = model.fields[position];
    let cost = real_of(AIRFIELD_REPAIR_COST_BITS);
    !model.stopped && field.controller_country_id == country && field.health.lt(
        real_of(HUNDRED_BITS),
    ) && !model.treasury.lt(cost) ==> {
        &&& mending_supplied(results, field)
        &&& repaired(results, field).1 ==> results.contains_key(
            Operation::Difference(model.treasury, cost),
        ) && results.contains_key(Operation::Sum(model.spent, cost))
    }
}

/// Whether a worksheet holds all that the repairs of all fields takes.
pub open spec fn repairs_supplied(
    results: Map<Operation, u64>,
    fields: Seq<Airfield>,
    country: u16,
    treasury: Real,
) -> bool {
    forall|k: int|
        0 <= k < fields.len() ==> repair_supplied(
            results,
            #[trigger] repairs(results, fields, country, treasury, k),
            country,
            k,
        )
}

/// Repair a country's fields in order until its treasury no longer covers one. Returns what was
/// spent and how many fields were worked on.
pub fn repair_airfields(
    fields: &mut Vec<Airfield>,
    country: u16,
    treasury: &mut Real,
    reader: &mut Reader<'_>,
) -> (outcome: Result<(Real, u32), Operation>)
    ensures
        final(reader)@ == old(reader)@,
        outcome matches Ok(done) ==> {
            let model = repairs(
                old(reader)@,
                old(fields)@,
                country,
                *old(treasury),
                old(fields)@.len() as int,
            );
            &&& final(fields)@ == model.fields
            &&& *final(treasury) == model.treasury
            &&& done.0 == model.spent
            &&& done.1 == model.repaired
        },
        outcome matches Err(missing) ==> !old(reader)@.contains_key(missing) && !repairs_supplied(
            old(reader)@,
            old(fields)@,
            country,
            *old(treasury),
        ),
{
    let mut spent = Real::zero();
    let mut count: u32 = 0;
    let mut stopped: bool = false;
    let mut index: usize = 0;
    let total: usize = fields.len();
    let cost = Real::from_bits(AIRFIELD_REPAIR_COST_BITS);
    while index < total
        invariant
            index <= total,
            total == old(fields)@.len(),
            fields@.len() == total,
            reader@ == old(reader)@,
            cost == real_of(AIRFIELD_REPAIR_COST_BITS),
            repairs(reader@, old(fields)@, country, *old(treasury), index as int) == (RepairModel {
                fields: fields@,
                treasury: *treasury,
                spent,
                repaired: count,
                stopped,
            }),
        decreases total - index,
    {
        proof {
            lemma_repairs_length(
                reader@,
                old(fields)@,
                country,
                *old(treasury),
                index as int,
            );
        }
        let mut field = fields[index];
        if !stopped && field.controller_country_id == country && field.health.less(
            Real::from_bits(HUNDRED_BITS),
        ) {
            if treasury.less(cost) {
                stopped = true;
            } else {
                let worked = repair_airfield(&mut field, reader)?;
                if worked {
                    fields.set(index, field);
                    *treasury = reader.number(Operation::Difference(*treasury, cost))?;
                    spent = reader.number(Operation::Sum(spent, cost))?;
                    if count < u32::MAX {
                        count = count + 1;
                    }
                }
            }
        }
        index = index + 1;
    }
    Ok((spent, count))
}

// ---------------------------------------------------------------------------------------------
// Purchases
// ---------------------------------------------------------------------------------------------

/// How many vehicles a budget buys at a price.
pub open spec fn affordable(results: Map<Operation, u64>, budget: Real, cost: Real) -> u64 {
    results[Operation::Whole(quotient(results, budget.max_of(real_of(0)), cost))]
}

pub open spec fn smallest(a: int, b: int, c: int) -> int {
    let ab = if a <= b {
        a
    } else {
        b
    };
    if ab <= c {
        ab
    } else {
        c
    }
}

/// A cycle replaces what is missing, at most one percent of capacity and what the budget buys.
pub open spec fn purchase_of(
    results: Map<Operation, u64>,
    capacity: int,
    current: int,
    cost: Real,
    budget: Real,
) -> int {
    smallest(
        if capacity >= current {
            capacity - current
        } else {
            0
        },
        capacity / 100,
        affordable(results, budget, cost) as int,
    )
}

/// What remains of a treasury after a purchase, never below zero, and what the purchase cost.
pub open spec fn payment(
    results: Map<Operation, u64>,
    treasury: Real,
    count: int,
    cost: Real,
) -> (Real, Real) {
    let spent = product(results, integer(results, count as u64), cost);
    (difference(results, treasury, spent).max_of(real_of(0)), spent)
}

/// Whether a worksheet holds all that a purchase takes.
pub open spec fn purchase_supplied(
    results: Map<Operation, u64>,
    capacity: int,
    current: int,
    cost: Real,
    treasury: Real,
) -> bool {
    let budget = treasury.max_of(real_of(0));
    let count = purchase_of(results, capacity, current, cost, treasury) as u64;
    let spent = product(results, integer(results, count), cost);
    &&& results.contains_key(Operation::Quotient(budget, cost))
    &&& results.contains_key(Operation::Whole(quotient(results, budget, cost)))
    &&& results.contains_key(Operation::Integer(count))
    &&& results.contains_key(Operation::Product(integer(results, count), cost))
    &&& results.contains_key(Operation::Difference(treasury, spent))
}

/// Buy replacements out of a treasury. Returns how many were bought and what they cost.
pub fn armor_replacement_purchase(
    capacity: u64,
    current: u64,
    cost: Real,
    treasury: &mut Real,
    reader: &mut Reader<'_>,
) -> (outcome: Result<(u64, Real), Operation>)
    ensures
        final(reader)@ == old(reader)@,
        outcome matches Ok(bought) ==> bought.0 == purchase_of(
            old(reader)@,
            capacity as int,
            current as int,
            cost,
            *old(treasury),
        ) && (*final(treasury), bought.1) == payment(
            old(reader)@,
            *old(treasury),
            bought.0 as int,
            cost,
        ),
        outcome matches Err(missing) ==> !old(reader)@.contains_key(missing) && !purchase_supplied(
            old(reader)@,
            capacity as int,
            current as int,
            cost,
            *old(treasury),
        ),
{
    let missing: u64 = if capacity >= current {
        capacity - current
    } else {
        0
    };
    let limit: u64 = capacity / 100;
    let share = reader.number(Operation::Quotient(treasury.larger(Real::zero()), cost))?;
    let means: u64 = reader.look_up(Operation::Whole(share))?;
    let wanted: u64 = if missing <= limit {
        missing
    } else {
        limit
    };
    let count: u64 = if wanted <= means {
        wanted
    } else {
        means
    };
    let amount = reader.number(Operation::Integer(count))?;
    let spent = reader.number(Operation::Product(amount, cost))?;
    let left = reader.number(Operation::Difference(*treasury, spent))?;
    *treasury = left.larger(Real::zero());
    Ok((count, spent))
}

/// Buy aircraft replacements out of a treasury.
pub fn replacement_purchase(
    capacity: u32,
    current: u32,
    cost: Real,
    treasury: &mut Real,
    reader: &mut Reader<'_>,
) -> (outcome: Result<(u32, Real), Operation>)
    ensures
        final(reader)@ == old(reader)@,
        outcome matches Ok(bought) ==> bought.0 == purchase_of(
            old(reader)@,
            capacity as int,
            current as int,
            cost,
            *old(treasury),
        ) && (*final(treasury), bought.1) == payment(
            old(reader)@,
            *old(treasury),
            bought.0 as int,
            cost,
        ),
        outcome matches Err(missing) ==> !old(reader)@.contains_key(missing) && !purchase_supplied(
            old(reader)@,
            capacity as int,
            current as int,
            cost,
            *old(treasury),
        ),
{
    let (count, spent) = armor_replacement_purchase(
        capacity as u64,
        current as u64,
        cost,
        treasury,
        reader,
    )?;
    Ok((count as u32, spent))
}

// ---------------------------------------------------------------------------------------------
// Filling existing formations
// ---------------------------------------------------------------------------------------------

/// Wings being filled from reserve.
pub struct WingFill {
    pub wings: Seq<AirWing>,
    pub record: ReinforcementCountry,
    pub reserve: Real,
    pub fighters: u32,
    pub strike: u32,
}

pub open spec fn reserve_of(record: ReinforcementCountry, role: AirRole) -> u32 {
    match role {
        AirRole::Fighter => record.reserve_fighters,
        AirRole::Strike => record.reserve_strike,
    }
}

pub open spec fn capacity_of(record: ReinforcementCountry, role: AirRole) -> u32 {
    match role {
        AirRole::Fighter => record.fighter_capacity,
        AirRole::Strike => record.strike_capacity,
    }
}

pub open spec fn with_reserve(
    record: ReinforcementCountry,
    role: AirRole,
    reserve: u32,
) -> ReinforcementCountry {
    match role {
        AirRole::Fighter => ReinforcementCountry { reserve_fighters: reserve, ..record },
        AirRole::Strike => ReinforcementCountry { reserve_strike: reserve, ..record },
    }
}

/// Aircraft that a wing lacks and its country's reserve can supply.
pub open spec fn wing_request(wing: AirWing, record: ReinforcementCountry) -> u32 {
    let missing = if wing.max_count >= wing.count {
        (wing.max_count - wing.count) as u32
    } else {
        0
    };
    let reserve = reserve_of(record, wing.role);
    if missing <= reserve {
        missing
    } else {
        reserve
    }
}

/// Fill the wing at `position`, as far as aircraft and crews go.
pub open spec fn fill_wing(
    results: Map<Operation, u64>,
    model: WingFill,
    country: u16,
    position: int,
) -> WingFill {
    let wing = model.wings[position];
    if wing.sovereign_country_id != country {
        model
    } else {
        let (claimed, reserve) = claim(
            results,
            wing_request(wing, model.record) as u64,
            real_of(AIRCREW_PER_AIRCRAFT_BITS),
            model.reserve,
        );
        WingFill {
            wings: model.wings.update(
                position,
                AirWing { count: (wing.count + claimed) as u32, ..wing },
            ),
            record: with_reserve(
                model.record,
                wing.role,
                (reserve_of(model.record, wing.role) - claimed) as u32,
            ),
            reserve,
            fighters: if wing.role == AirRole::Fighter {
                (model.fighters + claimed) as u32
            } else {
                model.fighters
            },
            strike: if wing.role == AirRole::Strike {
                (model.strike + claimed) as u32
            } else {
                model.strike
            },
        }
    }
}

/// Fill the first `count` wings in id order.
pub open spec fn fill_wings(
    results: Map<Operation, u64>,
    start: WingFill,
    country: u16,
    count: int,
) -> WingFill
    decreases count,
{
    if count <= 0 {
        start
    } else {
        fill_wing(results, fill_wings(results, start, country, count - 1), country, count - 1)
    }
}

/// Whether a worksheet holds all that filling wings takes.
pub open spec fn wings_supplied(
    results: Map<Operation, u64>,
    start: WingFill,
    country: u16,
) -> bool {
    forall|k: int|
        0 <= k < start.wings.len() ==> ({
            let model = #[trigger] fill_wings(results, start, country, k);
            let wing = model.wings[k];
            wing.sovereign_country_id == country ==> claim_supplied(
                results,
                wing_request(wing, model.record) as u64,
                real_of(AIRCREW_PER_AIRCRAFT_BITS),
                model.reserve,
            )
        })
}

/// Fill a country's wings in id order. Returns the fighters and strike aircraft that moved.
pub fn reinforce_existing_wings(
    wings: &mut Vec<AirWing>,
    record: &mut ReinforcementCountry,
    country: u16,
    reserve: &mut Real,
    reader: &mut Reader<'_>,
) -> (outcome: Result<(u32, u32), Operation>)
    ensures
        final(reader)@ == old(reader)@,
        outcome matches Ok(moved) ==> {
            &&& fill_wings(
                old(reader)@,
                WingFill {
                    wings: old(wings)@,
                    record: *old(record),
                    reserve: *old(reserve),
                    fighters: 0,
                    strike: 0,
                },
                country,
                old(wings)@.len() as int,
            ) == (WingFill {
                wings: final(wings)@,
                record: *final(record),
                reserve: *final(reserve),
                fighters: moved.0,
                strike: moved.1,
            })
            &&& final(wings)@.len() == old(wings)@.len()
            &&& final(record).country_id == old(record).country_id
            &&& moved.0 + final(record).reserve_fighters == old(record).reserve_fighters
            &&& moved.1 + final(record).reserve_strike == old(record).reserve_strike
        },
        outcome matches Err(missing) ==> !old(reader)@.contains_key(missing) && !wings_supplied(
            old(reader)@,
            WingFill {
                wings: old(wings)@,
                record: *old(record),
                reserve: *old(reserve),
                fighters: 0,
                strike: 0,
            },
            country,
        ),
{
    let mut fighters: u32 = 0;
    let mut strike: u32 = 0;
    let mut index: usize = 0;
    let total: usize = wings.len();
    let ghost start = WingFill {
        wings: wings@,
        record: *record,
        reserve: *reserve,
        fighters: 0,
        strike: 0,
    };
    while index < total
        invariant
            index <= total,
            total == old(wings)@.len(),
            wings@.len() == total,
            reader@ == old(reader)@,
            start == (WingFill {
                wings: old(wings)@,
                record: *old(record),
                reserve: *old(reserve),
                fighters: 0,
                strike: 0,
            }),
            record.country_id == old(record).country_id,
            fighters + record.reserve_fighters == old(record).reserve_fighters,
            strike + record.reserve_strike == old(record).reserve_strike,
            fill_wings(reader@, start, country, index as int) == (WingFill {
                wings: wings@,
                record: *record,
                reserve: *reserve,
                fighters,
                strike,
            }),
        decreases total - index,
    {
        let mut wing = wings[index];
        if wing.sovereign_country_id == country {
            let missing: u32 = if wing.max_count >= wing.count {
                wing.max_count - wing.count
            } else {
                0
            };
            let stock: u32 = match wing.role {
                AirRole::Fighter => record.reserve_fighters,
                AirRole::Strike => record.reserve_strike,
            };
            let request: u32 = if missing <= stock {
                missing
            } else {
                stock
            };
            let claimed: u64 = claim_crewed_equipment(
                request as u64,
                Real::from_bits(AIRCREW_PER_AIRCRAFT_BITS),
                reserve,
                reader,
            )?;
            let moved: u32 = claimed as u32;
            wing.count = wing.count + moved;
            wings.set(index, wing);
            match wing.role {
                AirRole::Fighter => {
                    record.reserve_fighters = record.reserve_fighters - moved;
                    fighters = fighters + moved;
                },
                AirRole::Strike => {
                    record.reserve_strike = record.reserve_strike - moved;
                    strike = strike + moved;
                },
            }
        }
        index = index + 1;
    }
    Ok((fighters, strike))
}

/// Armored formations being filled from reserve.
pub struct ArmorFill {
    pub units: Seq<SimulationUnit>,
    pub stock: MaterialLogisticsCountry,
    pub reserve: Real,
    pub reinforced: u64,
}

/// Health that a formation has at a level of equipment.
pub open spec fn restored_health(
    results: Map<Operation, u64>,
    equipment: u64,
    max_equipment: u64,
) -> Real {
    quotient(
        results,
        product(results, real_of(UNIT_HEALTH_BITS), integer(results, equipment)),
        integer(
            results,
            if max_equipment >= 1 {
                max_equipment
            } else {
                1
            },
        ),
    )
}

/// Fill the formation at `position`, as far as vehicles and crews go. A filled formation is at
/// least as healthy as its equipment says.
pub open spec fn fill_formation(
    results: Map<Operation, u64>,
    model: ArmorFill,
    country: u16,
    position: int,
) -> ArmorFill {
    let unit = model.units[position];
    if unit.combat.kind != UnitKind::Armor || unit.combat.sovereign != country || !real_of(0).lt(
        unit.combat.health,
    ) || model.stock.reserve_armor == 0 {
        model
    } else {
        let missing = if unit.combat.max_equipment >= unit.combat.equipment {
            (unit.combat.max_equipment - unit.combat.equipment) as u64
        } else {
            0
        };
        let request = if missing <= model.stock.reserve_armor {
            missing
        } else {
            model.stock.reserve_armor
        };
        let (claimed, reserve) = claim(
            results,
            request,
            real_of(ARMOR_CREW_PER_VEHICLE_BITS),
            model.reserve,
        );
        if claimed == 0 {
            ArmorFill { reserve, ..model }
        } else {
            let equipment = (unit.combat.equipment + claimed) as u64;
            let restored = restored_health(results, equipment, unit.combat.max_equipment);
            ArmorFill {
                units: model.units.update(
                    position,
                    SimulationUnit {
                        combat: CombatUnit {
                            equipment,
                            health: unit.combat.health.max_of(
                                restored.min_of(real_of(UNIT_HEALTH_BITS)),
                            ),
                            ..unit.combat
                        },
                        ..unit
                    },
                ),
                stock: MaterialLogisticsCountry {
                    reserve_armor: (model.stock.reserve_armor - claimed) as u64,
                    ..model.stock
                },
                reserve,
                reinforced: (model.reinforced + claimed) as u64,
            }
        }
    }
}

pub open spec fn fill_formations(
    results: Map<Operation, u64>,
    start: ArmorFill,
    country: u16,
    count: int,
) -> ArmorFill
    decreases count,
{
    if count <= 0 {
        start
    } else {
        fill_formation(
            results,
            fill_formations(results, start, country, count - 1),
            country,
            count - 1,
        )
    }
}

/// Whether a worksheet holds all that filling the formation at `position` takes.
pub open spec fn formation_supplied(
    results: Map<Operation, u64>,
    model: ArmorFill,
    country: u16,
    position: int,
) -> bool {
    let unit = model.units[position];
    let lacking = if unit.combat.max_equipment >= unit.combat.equipment {
        (unit.combat.max_equipment - unit.combat.equipment) as u64
    } else {
        0
    };
    let request = if lacking <= model.stock.reserve_armor {
        lacking
    } else {
        model.stock.reserve_armor
    };
    let crew = real_of(ARMOR_CREW_PER_VEHICLE_BITS);
    let claimed = claim(results, request, crew, model.reserve).0;
    let equipment = (unit.combat.equipment + claimed) as u64;
    let room = if unit.combat.max_equipment >= 1 {
        unit.combat.max_equipment
    } else {
        1
    };
    let strength = integer(results, equipment);
    let full = real_of(UNIT_HEALTH_BITS);
    unit.combat.kind == UnitKind::Armor && unit.combat.sovereign == country && real_of(0).lt(
        unit.combat.health,
    ) && model.stock.reserve_armor != 0 ==> {
        &&& claim_supplied(results, request, crew, model.reserve)
        &&& claimed != 0 ==> {
            &&& results.contains_key(Operation::Integer(equipment))
            &&& results.contains_key(Operation::Product(full, strength))
            &&& results.contains_key(Operation::Integer(room))
            &&& results.contains_key(
                Operation::Quotient(product(results, full, strength), integer(results, room)),
            )
        }
    }
}

/// Whether a worksheet holds all that filling formations takes.
pub open spec fn formations_supplied(
    results: Map<Operation, u64>,
    start: ArmorFill,
    country: u16,
) -> bool {
    forall|k: int|
        0 <= k < start.units.len() ==> formation_supplied(
            results,
            #[trigger] fill_formations(results, start, country, k),
            country,
            k,
        )
}

/// Fill a country's armored formations in storage order. Returns the vehicles that moved.
pub fn reinforce_existing_armor(
    units: &mut Vec<SimulationUnit>,
    stock: &mut MaterialLogisticsCountry,
    country: u16,
    reserve: &mut Real,
    reader: &mut Reader<'_>,
) -> (outcome: Result<u64, Operation>)
    ensures
        final(reader)@ == old(reader)@,
        outcome matches Ok(moved) ==> {
            &&& fill_formations(
                old(reader)@,
                ArmorFill {
                    units: old(units)@,
                    stock: *old(stock),
                    reserve: *old(reserve),
                    reinforced: 0,
                },
                country,
                old(units)@.len() as int,
            ) == (ArmorFill {
                units: final(units)@,
                stock: *final(stock),
                reserve: *final(reserve),
                reinforced: moved,
            })
            &&& final(units)@.len() == old(units)@.len()
            &&& final(stock).country_id == old(stock).country_id
            &&& final(stock).armor_capacity == old(stock).armor_capacity
            &&& moved + final(stock).reserve_armor == old(stock).reserve_armor
        },
        outcome matches Err(missing) ==> !old(reader)@.contains_key(missing) && !formations_supplied(
            old(reader)@,
            ArmorFill {
                units: old(units)@,
                stock: *old(stock),
                reserve: *old(reserve),
                reinforced: 0,
            },
            country,
        ),
{
    let mut reinforced: u64 = 0;
    let mut index: usize = 0;
    let total: usize = units.len();
    let ghost start = ArmorFill {
        units: units@,
        stock: *stock,
        reserve: *reserve,
        reinforced: 0,
    };
    while index < total
        invariant
            index <= total,
            total == old(units)@.len(),
            units@.len() == total,
            reader@ == old(reader)@,
            start == (ArmorFill {
                units: old(units)@,
                stock: *old(stock),
                reserve: *old(reserve),
                reinforced: 0,
            }),
            stock.country_id == old(stock).country_id,
            stock.armor_capacity == old(stock).armor_capacity,
            reinforced + stock.reserve_armor == old(stock).reserve_armor,
            fill_formations(reader@, start, country, index as int) == (ArmorFill {
                units: units@,
                stock: *stock,
                reserve: *reserve,
                reinforced,
            }),
        decreases total - index,
    {
        let mut unit = units[index];
        if unit.combat.kind == UnitKind::Armor && unit.combat.sovereign == country as u64
            && Real::zero().less(unit.combat.health) && stock.reserve_armor != 0 {
            let missing: u64 = if unit.combat.max_equipment >= unit.combat.equipment {
                unit.combat.max_equipment - unit.combat.equipment
            } else {
                0
            };
            let request: u64 = if missing <= stock.reserve_armor {
                missing
            } else {
                stock.reserve_armor
            };
            let claimed: u64 = claim_crewed_equipment(
                request,
                Real::from_bits(ARMOR_CREW_PER_VEHICLE_BITS),
                reserve,
                reader,
            )?;
            if claimed != 0 {
                unit.combat.equipment = unit.combat.equipment + claimed;
                stock.reserve_armor = stock.reserve_armor - claimed;
                let full = Real::from_bits(UNIT_HEALTH_BITS);
                let strength = reader.number(Operation::Integer(unit.combat.equipment))?;
                let scaled = reader.number(Operation::Product(full, strength))?;
                let room: u64 = if unit.combat.max_equipment >= 1 {
                    unit.combat.max_equipment
                } else {
                    1
                };
                let room_number = reader.number(Operation::Integer(room))?;
                let restored = reader.number(Operation::Quotient(scaled, room_number))?;
                unit.combat.health = unit.combat.health.larger(restored.smaller(full));
                units.set(index, unit);
                reinforced = reinforced + claimed;
            }
        }
        index = index + 1;
    }
    Ok(reinforced)
}

// ---------------------------------------------------------------------------------------------
// New formations
// ---------------------------------------------------------------------------------------------

pub open spec fn div_up(value: int, by: int) -> int {
    (value + by - 1) / by
}

/// One formation per hundred vehicles of capacity, up to a cap.
pub open spec fn wanted_formations(capacity: u64) -> u64 {
    let groups = div_up(capacity as int, ARMOR_GROUP_TARGET_SIZE as int);
    if groups <= MAX_ARMOR_GROUPS_PER_COUNTRY {
        groups as u64
    } else {
        MAX_ARMOR_GROUPS_PER_COUNTRY
    }
}

fn divide_up(value: u64, by: u64) -> (quotient: u64)
    requires
        by > 0,
    ensures
        quotient == div_up(value as int, by as int),
{
    if value == 0 {
        proof {
            assert((0 + by - 1) / (by as int) == 0) by (nonlinear_arith)
                requires
                    by > 0,
            ;
        }
        0
    } else {
        proof {
            assert((value + by - 1) / (by as int) == (value - 1) / (by as int) + 1)
                by (nonlinear_arith)
                requires
                    by > 0,
                    value > 0,
            ;
            assert((value - 1) / (by as int) <= value - 1) by (nonlinear_arith)
                requires
                    by > 0,
                    value > 0,
            ;
        }
        (value - 1) / by + 1
    }
}

pub fn desired_armor_formations(capacity: u64) -> (desired: u64)
    ensures
        desired == wanted_formations(capacity),
{
    let groups: u64 = divide_up(capacity, ARMOR_GROUP_TARGET_SIZE);
    if groups <= MAX_ARMOR_GROUPS_PER_COUNTRY {
        groups
    } else {
        MAX_ARMOR_GROUPS_PER_COUNTRY
    }
}

/// A country's armored formations.
pub open spec fn armored_formations(units: Seq<SimulationUnit>, country: u16) -> Seq<
    SimulationUnit,
> {
    units.filter(
        |unit: SimulationUnit|
            unit.combat.kind == UnitKind::Armor && unit.combat.sovereign == country,
    )
}

/// Formations of one side.
pub open spec fn formations_of_side(units: Seq<SimulationUnit>, side: usize) -> Seq<
    SimulationUnit,
> {
    units.filter(|unit: SimulationUnit| unit.combat.side as usize == side)
}

pub fn armor_formation_count(units: &[SimulationUnit], country: u16) -> (count: u64)
    ensures
        count == armored_formations(units@, country).len(),
{
    let ghost armored = |unit: SimulationUnit|
        unit.combat.kind == UnitKind::Armor && unit.combat.sovereign == country;
    let mut count: usize = 0;
    let mut index: usize = 0;
    proof {
        units@.take(0).lemma_filter_len(armored);
    }
    while index < units.len()
        invariant
            index <= units@.len(),
            armored == (|unit: SimulationUnit|
                unit.combat.kind == UnitKind::Armor && unit.combat.sovereign == country),
            count == units@.take(index as int).filter(armored).len(),
            count <= index,
        decreases units@.len() - index,
    {
        let unit = units[index];
        proof {
            assert(units@.take(index + 1) =~= units@.take(index as int).push(unit));
            units@.take(index as int).lemma_filter_push(unit, armored);
        }
        if unit.combat.kind == UnitKind::Armor && unit.combat.sovereign == country as u64 {
            count = count + 1;
        }
        index = index + 1;
    }
    assert(units@.take(units@.len() as int) =~= units@);
    count as u64
}

fn side_formation_count(units: &[SimulationUnit], side: usize) -> (count: usize)
    ensures
        count == formations_of_side(units@, side).len(),
{
    let ghost ours = |unit: SimulationUnit| unit.combat.side as usize == side;
    let mut count: usize = 0;
    let mut index: usize = 0;
    proof {
        units@.take(0).lemma_filter_len(ours);
    }
    while index < units.len()
        invariant
            index <= units@.len(),
            ours == (|unit: SimulationUnit| unit.combat.side as usize == side),
            count == units@.take(index as int).filter(ours).len(),
            count <= index,
        decreases units@.len() - index,
    {
        let unit = units[index];
        proof {
            assert(units@.take(index + 1) =~= units@.take(index as int).push(unit));
            units@.take(index as int).lemma_filter_push(unit, ours);
        }
        if unit.combat.side as usize == side {
            count = count + 1;
        }
        index = index + 1;
    }
    assert(units@.take(units@.len() as int) =~= units@);
    count
}

/// A newly raised armored formation.
pub open spec fn new_armor(
    id: u64,
    country: u16,
    side: usize,
    home: (Real, Real),
    equipment: u64,
    max_equipment: u64,
    quality: Real,
) -> SimulationUnit {
    SimulationUnit {
        combat: CombatUnit {
            id,
            side: side as u64,
            sovereign: country as u64,
            kind: UnitKind::Armor,
            lat: home.0,
            lng: home.1,
            health: real_of(UNIT_HEALTH_BITS),
            max_health: real_of(UNIT_HEALTH_BITS),
            personnel: 0,
            personnel_capacity: 0,
            equipment,
            max_equipment,
            quality,
            transport: false,
            armor_supported: false,
            landing_penalty_active: false,
            at_sea: false,
            last_combat_tick: 0,
            victory_boost_ticks: 0,
        },
        dir_lat: real_of(0),
        dir_lng: real_of(0),
        coast_stuck_ticks: 0,
        armor_landing_penalty_until_tick: 0,
        is_support: false,
        ally_weight: real_of(ONE_BITS),
    }
}

/// Everything that raising an armored formation touches.
pub struct ArmorRaise {
    pub units: Seq<SimulationUnit>,
    pub stock: MaterialLogisticsCountry,
    pub reserve: Real,
    pub next_unit_id: u64,
    pub outcome: ArmorFormationCreationOutcome,
}

/// Raise one armored formation if the country wants one more, has vehicles, crews and a home, and
/// its side has room. Fails when ids run out.
pub open spec fn raise_armor(
    results: Map<Operation, u64>,
    units: Seq<SimulationUnit>,
    stock: MaterialLogisticsCountry,
    reserve: Real,
    next_unit_id: u64,
    country: u16,
    side: usize,
    home: Option<(Real, Real)>,
    max_units_per_side: u32,
) -> Result<ArmorRaise, ReinforcementError> {
    let desired = wanted_formations(stock.armor_capacity);
    let before = armored_formations(units, country).len() as u64;
    let quiet = ArmorFormationCreationOutcome {
        desired_formations: desired,
        formations_before: before,
        formations_after: before,
        created_unit_id: None,
        created_equipment: 0,
    };
    if before >= desired || stock.reserve_armor == 0 || formations_of_side(units, side).len()
        >= max_units_per_side || home is None {
        Ok(ArmorRaise { units, stock, reserve, next_unit_id, outcome: quiet })
    } else {
        let size = div_up(stock.armor_capacity as int, desired as int) as u64;
        let request = if size <= stock.reserve_armor {
            size
        } else {
            stock.reserve_armor
        };
        let (claimed, left) = claim(
            results,
            request,
            real_of(ARMOR_CREW_PER_VEHICLE_BITS),
            reserve,
        );
        if claimed == 0 {
            Ok(ArmorRaise { units, stock, reserve: left, next_unit_id, outcome: quiet })
        } else if next_unit_id == u64::MAX {
            Err(ReinforcementError::Overflow("land unit ID"))
        } else {
            Ok(
                ArmorRaise {
                    units: units.push(
                        new_armor(
                            next_unit_id,
                            country,
                            side,
                            home->0,
                            claimed,
                            size,
                            stock.armor_quality,
                        ),
                    ),
                    stock: MaterialLogisticsCountry {
                        reserve_armor: (stock.reserve_armor - claimed) as u64,
                        ..stock
                    },
                    reserve: left,
                    next_unit_id: (next_unit_id + 1) as u64,
                    outcome: ArmorFormationCreationOutcome {
                        formations_after: (before + 1) as u64,
                        created_unit_id: Some(next_unit_id),
                        created_equipment: claimed,
                        ..quiet
                    },
                },
            )
        }
    }
}

/// Whether a worksheet holds all that raising an armored formation takes.
pub open spec fn armor_supplied(
    results: Map<Operation, u64>,
    units: Seq<SimulationUnit>,
    stock: MaterialLogisticsCountry,
    reserve: Real,
    country: u16,
    side: usize,
    home: Option<(Real, Real)>,
    max_units_per_side: u32,
) -> bool {
    let desired = wanted_formations(stock.armor_capacity);
    let before = armored_formations(units, country).len() as u64;
    let size = div_up(stock.armor_capacity as int, desired as int) as u64;
    let request = if size <= stock.reserve_armor {
        size
    } else {
        stock.reserve_armor
    };
    before < desired && stock.reserve_armor != 0 && formations_of_side(units, side).len()
        < max_units_per_side && home is Some ==> claim_supplied(
            results,
            request,
            real_of(ARMOR_CREW_PER_VEHICLE_BITS),
            reserve,
        )
}

/// Raise at most one armored formation.
pub fn create_one_missing_armor_formation(
    units: &mut Vec<SimulationUnit>,
    stock: &mut MaterialLogisticsCountry,
    country: u16,
    side: usize,
    next_unit_id: &mut u64,
    reserve: &mut Real,
    home: Option<(Real, Real)>,
    max_units_per_side: u32,
    reader: &mut Reader<'_>,
) -> (outcome: Result<ArmorFormationCreationOutcome, Halt>)
    ensures
        final(reader)@ == old(reader)@,
        ({
            let expected = raise_armor(
                old(reader)@,
                old(units)@,
                *old(stock),
                *old(reserve),
                *old(next_unit_id),
                country,
                side,
                home,
                max_units_per_side,
            );
            &&& (outcome matches Ok(raised) ==> expected == Ok::<ArmorRaise, ReinforcementError>(
                ArmorRaise {
                    units: final(units)@,
                    stock: *final(stock),
                    reserve: *final(reserve),
                    next_unit_id: *final(next_unit_id),
                    outcome: raised,
                },
            ))
            &&& (outcome matches Err(Halt::Failed(error)) ==> expected == Err::<
                ArmorRaise,
                ReinforcementError,
            >(error))
        }),
        outcome matches Err(Halt::Missing(missing)) ==> !old(reader)@.contains_key(missing)
            && !armor_supplied(
                old(reader)@,
                old(units)@,
                *old(stock),
                *old(reserve),
                country,
                side,
                home,
                max_units_per_side,
            ),
        !(outcome matches Err(Halt::CheckAir(_))),
{
    let desired: u64 = desired_armor_formations(stock.armor_capacity);
    let before: u64 = armor_formation_count(units, country);
    let mut result = ArmorFormationCreationOutcome {
        desired_formations: desired,
        formations_before: before,
        formations_after: before,
        created_unit_id: None,
        created_equipment: 0,
    };
    let fielded: usize = side_formation_count(units, side);
    if before >= desired || stock.reserve_armor == 0 || fielded >= max_units_per_side as usize {
        return Ok(result);
    }
    let position: (Real, Real) = match home {
        Some(position) => position,
        None => {
            return Ok(result);
        },
    };
    let size: u64 = divide_up(stock.armor_capacity, desired);
    let request: u64 = if size <= stock.reserve_armor {
        size
    } else {
        stock.reserve_armor
    };
    let claimed: u64 = match claim_crewed_equipment(
        request,
        Real::from_bits(ARMOR_CREW_PER_VEHICLE_BITS),
        reserve,
        reader,
    ) {
        Ok(claimed) => claimed,
        Err(missing) => {
            return Err(Halt::Missing(missing));
        },
    };
    if claimed == 0 {
        return Ok(result);
    }
    let id: u64 = *next_unit_id;
    if id == u64::MAX {
        return Err(Halt::Failed(ReinforcementError::Overflow("land unit ID")));
    }
    *next_unit_id = id + 1;
    stock.reserve_armor = stock.reserve_armor - claimed;
    units.push(
        SimulationUnit {
            combat: CombatUnit {
                id,
                side: side as u64,
                sovereign: country as u64,
                kind: UnitKind::Armor,
                lat: position.0,
                lng: position.1,
                health: Real::from_bits(UNIT_HEALTH_BITS),
                max_health: Real::from_bits(UNIT_HEALTH_BITS),
                personnel: 0,
                personnel_capacity: 0,
                equipment: claimed,
                max_equipment: size,
                quality: stock.armor_quality,
                transport: false,
                armor_supported: false,
                landing_penalty_active: false,
                at_sea: false,
                last_combat_tick: 0,
                victory_boost_ticks: 0,
            },
            dir_lat: Real::zero(),
            dir_lng: Real::zero(),
            coast_stuck_ticks: 0,
            armor_landing_penalty_until_tick: 0,
            is_support: false,
            ally_weight: Real::one(),
        },
    );
    result.formations_after = before + 1;
    result.created_unit_id = Some(id);
    result.created_equipment = claimed;
    Ok(result)
}

/// One wing per two dozen aircraft of capacity, up to a cap.
pub open spec fn wanted_wings(capacity: u32) -> u32 {
    let wings = div_up(capacity as int, AIR_WING_TARGET_SIZE as int);
    if wings <= MAX_WINGS_PER_ROLE_PER_COUNTRY {
        wings as u32
    } else {
        MAX_WINGS_PER_ROLE_PER_COUNTRY
    }
}

/// A country's wings of one role.
pub open spec fn role_wings(wings: Seq<AirWing>, country: u16, role: AirRole) -> Seq<AirWing> {
    wings.filter(|wing: AirWing| wing.sovereign_country_id == country && wing.role == role)
}

/// The first wing of a country, of one role or of any.
pub open spec fn first_wing(
    wings: Seq<AirWing>,
    country: u16,
    role: Option<AirRole>,
    from: int,
) -> Option<AirWing>
    decreases wings.len() - from,
{
    if from < 0 || from >= wings.len() {
        None
    } else if wings[from].sovereign_country_id == country && (role matches Some(wanted)
        ==> wings[from].role == wanted) {
        Some(wings[from])
    } else {
        first_wing(wings, country, role, from + 1)
    }
}

/// Where a new wing is looked for and how good it is: like the country's first wing of the role,
/// or else like its first wing, or else average at the origin.
pub open spec fn probe_of(wings: Seq<AirWing>, country: u16, role: AirRole) -> (Real, Real, Real) {
    match first_wing(wings, country, Some(role), 0) {
        Some(wing) => (wing.lat, wing.lng, wing.quality),
        None => match first_wing(wings, country, None, 0) {
            Some(wing) => (wing.lat, wing.lng, wing.quality),
            None => (real_of(0), real_of(0), real_of(FIFTY_BITS)),
        },
    }
}

fn find_wing(wings: &[AirWing], country: u16, role: Option<AirRole>) -> (found: Option<AirWing>)
    ensures
        found == first_wing(wings@, country, role, 0),
{
    let mut index: usize = 0;
    while index < wings.len()
        invariant
            index <= wings@.len(),
            first_wing(wings@, country, role, 0) == first_wing(
                wings@,
                country,
                role,
                index as int,
            ),
        decreases wings@.len() - index,
    {
        let wing = wings[index];
        let fits = match role {
            Some(wanted) => wing.role == wanted,
            None => true,
        };
        if wing.sovereign_country_id == country && fits {
            return Some(wing);
        }
        index = index + 1;
    }
    None
}

/// A field under consideration: national ones come first, then nearer ones, then lower ids.
#[derive(Clone, Copy, Debug, PartialEq, Eq, Structural)]
pub struct FieldChoice {
    pub national: bool,
    pub distance: Real,
    pub id: u64,
}

/// Whether a field on `side` can take one more wing of `country`. Guests may fill half of it.
pub open spec fn has_room(
    wings: Seq<AirWing>,
    field: Airfield,
    country: u16,
    side: usize,
) -> bool {
    let capacity = usable_capacity(field);
    &&& field.side == side
    &&& capacity != 0
    &&& if field.controller_country_id == country {
        national_wings(wings, field).len() + allied_wings(wings, field).len() < capacity
    } else {
        allied_wings(wings, field).len() < capacity / 2
    }
}

pub open spec fn better_choice(candidate: FieldChoice, best: Option<FieldChoice>) -> bool {
    match best {
        None => true,
        Some(best) => {
            ||| candidate.national && !best.national
            ||| candidate.national == best.national && (candidate.distance.lt(best.distance) || (
            candidate.distance.same(best.distance) && candidate.id < best.id))
        },
    }
}

/// The best of the first `count` fields.
pub open spec fn best_field(
    results: Map<Operation, u64>,
    wings: Seq<AirWing>,
    fields: Seq<Airfield>,
    country: u16,
    side: usize,
    lat: Real,
    lng: Real,
    count: int,
) -> Option<FieldChoice>
    decreases count,
{
    if count <= 0 {
        None
    } else {
        let best = best_field(results, wings, fields, country, side, lat, lng, count - 1);
        let field = fields[count - 1];
        let candidate = FieldChoice {
            national: field.controller_country_id == country,
            distance: real_of(results[Operation::Distance(lat, lng, field.lat, field.lng)]),
            id: field.id,
        };
        if has_room(wings, field, country, side) && better_choice(candidate, best) {
            Some(candidate)
        } else {
            best
        }
    }
}

/// Whether a worksheet holds all that choosing a field takes.
pub open spec fn choice_supplied(
    results: Map<Operation, u64>,
    wings: Seq<AirWing>,
    fields: Seq<Airfield>,
    country: u16,
    side: usize,
    lat: Real,
    lng: Real,
) -> bool {
    forall|k: int|
        0 <= k < fields.len() && has_room(wings, #[trigger] fields[k], country, side)
            ==> results.contains_key(Operation::Distance(lat, lng, fields[k].lat, fields[k].lng))
}

/// The field for a new wing of `country`.
pub fn eligible_airfield(
    wings: &[AirWing],
    fields: &[Airfield],
    country: u16,
    side: usize,
    lat: Real,
    lng: Real,
    reader: &mut Reader<'_>,
) -> (outcome: Result<Option<FieldChoice>, Operation>)
    requires
        wings@.len() <= u32::MAX,
    ensures
        final(reader)@ == old(reader)@,
        outcome matches Ok(choice) ==> choice == best_field(
            old(reader)@,
            wings@,
            fields@,
            country,
            side,
            lat,
            lng,
            fields@.len() as int,
        ),
        outcome matches Err(missing) ==> !old(reader)@.contains_key(missing) && !choice_supplied(
            old(reader)@,
            wings@,
            fields@,
            country,
            side,
            lat,
            lng,
        ),
{
    let mut best: Option<FieldChoice> = None;
    let mut index: usize = 0;
    while index < fields.len()
        invariant
            index <= fields@.len(),
            wings@.len() <= u32::MAX,
            reader@ == old(reader)@,
            best == best_field(
                reader@,
                wings@,
                fields@,
                country,
                side,
                lat,
                lng,
                index as int,
            ),
        decreases fields@.len() - index,
    {
        let field = fields[index];
        let capacity: u32 = effective_capacity(&field);
        if field.side == side && capacity != 0 {
            let national = field.controller_country_id == country;
            let (national_count, allied_count) = field_occupancy(wings, &field);
            let room = if national {
                national_count + allied_count < capacity
            } else {
                allied_count < capacity / 2
            };
            if room {
                let distance = reader.number(Operation::Distance(lat, lng, field.lat, field.lng))?;
                let replace = match best {
                    None => true,
                    Some(current) => (national && !current.national) || (national
                        == current.national && (distance.less(current.distance) || (
                    distance.equals(current.distance) && field.id < current.id))),
                };
                if replace {
                    best = Some(FieldChoice { national, distance, id: field.id });
                }
            }
        }
        index = index + 1;
    }
    Ok(best)
}

/// With distances that are numbers the chosen field is at least as good as every other field
/// that has room.
pub proof fn chosen_field_is_best(
    results: Map<Operation, u64>,
    wings: Seq<AirWing>,
    fields: Seq<Airfield>,
    country: u16,
    side: usize,
    lat: Real,
    lng: Real,
    position: int,
)
    requires
        0 <= position < fields.len(),
        has_room(wings, fields[position], country, side),
        forall|i: int|
            #![trigger fields[i]]
            0 <= i < fields.len() ==> !real_of(
                results[Operation::Distance(lat, lng, fields[i].lat, fields[i].lng)],
            ).nan(),
    ensures
        best_field(
            results,
            wings,
            fields,
            country,
            side,
            lat,
            lng,
            fields.len() as int,
        ) matches Some(best) && !better_choice(
            FieldChoice {
                national: fields[position].controller_country_id == country,
                distance: real_of(
                    results[Operation::Distance(
                        lat,
                        lng,
                        fields[position].lat,
                        fields[position].lng,
                    )],
                ),
                id: fields[position].id,
            },
            Some(best),
        ),
{
    lemma_best_field(
        results,
        wings,
        fields,
        country,
        side,
        lat,
        lng,
        position,
        fields.len() as int,
    );
}

proof fn lemma_best_field(
    results: Map<Operation, u64>,
    wings: Seq<AirWing>,
    fields: Seq<Airfield>,
    country: u16,
    side: usize,
    lat: Real,
    lng: Real,
    position: int,
    count: int,
)
    requires
        0 <= position < count <= fields.len(),
        has_room(wings, fields[position], country, side),
        forall|i: int|
            #![trigger fields[i]]
            0 <= i < fields.len() ==> !real_of(
                results[Operation::Distance(lat, lng, fields[i].lat, fields[i].lng)],
            ).nan(),
    ensures
        best_field(results, wings, fields, country, side, lat, lng, count) matches Some(best)
            && !best.distance.nan() && !better_choice(
            FieldChoice {
                national: fields[position].controller_country_id == country,
                distance: real_of(
                    results[Operation::Distance(
                        lat,
                        lng,
                        fields[position].lat,
                        fields[position].lng,
                    )],
                ),
                id: fields[position].id,
            },
            Some(best),
        ),
    decreases count,
{
    lemma_best_distance_is_number(results, wings, fields, country, side, lat, lng, count - 1);
    if position < count - 1 {
        lemma_best_field(
            results,
            wings,
            fields,
            country,
            side,
            lat,
            lng,
            position,
            count - 1,
        );
    }
    let last = fields[count - 1];
    assert(!real_of(results[Operation::Distance(lat, lng, last.lat, last.lng)]).nan());
}

proof fn lemma_best_distance_is_number(
    results: Map<Operation, u64>,
    wings: Seq<AirWing>,
    fields: Seq<Airfield>,
    country: u16,
    side: usize,
    lat: Real,
    lng: Real,
    count: int,
)
    requires
        count <= fields.len(),
        forall|i: int|
            #![trigger fields[i]]
            0 <= i < fields.len() ==> !real_of(
                results[Operation::Distance(lat, lng, fields[i].lat, fields[i].lng)],
            ).nan(),
    ensures
        best_field(results, wings, fields, country, side, lat, lng, count) matches Some(best)
            ==> !best.distance.nan(),
    decreases count,
{
    if count > 0 {
        lemma_best_distance_is_number(results, wings, fields, country, side, lat, lng, count - 1);
        let last = fields[count - 1];
        assert(!real_of(results[Operation::Distance(lat, lng, last.lat, last.lng)]).nan());
    }
}

/// The first field with an id.
pub open spec fn first_field(fields: Seq<Airfield>, id: u64, from: int) -> Option<Airfield>
    decreases fields.len() - from,
{
    if from < 0 || from >= fields.len() {
        None
    } else if fields[from].id == id {
        Some(fields[from])
    } else {
        first_field(fields, id, from + 1)
    }
}

fn find_field(fields: &[Airfield], id: u64) -> (found: Option<Airfield>)
    ensures
        found == first_field(fields@, id, 0),
{
    let mut index: usize = 0;
    while index < fields.len()
        invariant
            index <= fields@.len(),
            first_field(fields@, id, 0) == first_field(fields@, id, index as int),
        decreases fields@.len() - index,
    {
        if fields[index].id == id {
            return Some(fields[index]);
        }
        index = index + 1;
    }
    None
}

/// A newly raised wing at its field. Fighters start on patrol, strike aircraft on the ground.
pub open spec fn new_wing(
    id: u64,
    country: u16,
    side: usize,
    field: Airfield,
    role: AirRole,
    quality: Real,
    count: u32,
    max_count: u32,
) -> AirWing {
    AirWing {
        id,
        side,
        sovereign_country_id: country,
        airfield_id: field.id,
        return_airfield_id: None,
        role,
        quality,
        max_count,
        count,
        lat: field.lat,
        lng: field.lng,
        state: match role {
            AirRole::Fighter => AirWingState::Patrol,
            AirRole::Strike => AirWingState::Grounded,
        },
        target_kind: None,
        target_id: None,
        rearm_ticks: 0,
        cooldown_ticks: 0,
        endurance_ticks: 0,
        next_mission_tick: None,
        force_mission: false,
    }
}

/// Everything that raising a wing touches.
pub struct WingRaise {
    pub wings: Seq<AirWing>,
    pub record: ReinforcementCountry,
    pub reserve: Real,
    pub next_wing_id: u64,
    pub outcome: AirWingCreationOutcome,
}

/// The report on a role for which nothing was raised.
pub open spec fn quiet_wing_outcome(
    record: ReinforcementCountry,
    wings: Seq<AirWing>,
    country: u16,
    role: AirRole,
    status: AirWingCreationStatus,
) -> AirWingCreationOutcome {
    let desired = wanted_wings(capacity_of(record, role));
    let before = role_wings(wings, country, role).len() as u32;
    AirWingCreationOutcome {
        role,
        desired_wings: desired,
        wings_before: before,
        wings_after: before,
        remaining_missing_wings: if desired >= before {
            (desired - before) as u32
        } else {
            0
        },
        created_wing_id: None,
        created_aircraft: 0,
        status,
    }
}

/// Raise one wing of a role if the country wants one more, has aircraft, a marker, a field and
/// crews. The first bound that holds is reported. Fails when ids run out.
pub open spec fn raise_wing(
    results: Map<Operation, u64>,
    wings: Seq<AirWing>,
    fields: Seq<Airfield>,
    record: ReinforcementCountry,
    reserve: Real,
    next_wing_id: u64,
    country: u16,
    side: usize,
    role: AirRole,
) -> Result<WingRaise, ReinforcementError> {
    let capacity = capacity_of(record, role);
    let stock = reserve_of(record, role);
    let desired = wanted_wings(capacity);
    let before = role_wings(wings, country, role).len();
    let probe = probe_of(wings, country, role);
    let choice = best_field(
        results,
        wings,
        fields,
        country,
        side,
        probe.0,
        probe.1,
        fields.len() as int,
    );
    let unchanged = |status: AirWingCreationStatus, left: Real|
        Ok::<WingRaise, ReinforcementError>(
            WingRaise {
                wings,
                record,
                reserve: left,
                next_wing_id,
                outcome: quiet_wing_outcome(record, wings, country, role, status),
            },
        );
    if before >= desired {
        unchanged(AirWingCreationStatus::AtDesiredCount, reserve)
    } else if stock == 0 {
        unchanged(AirWingCreationStatus::NoReserve, reserve)
    } else if live_markers(wings).len() >= MAX_LIVE_AIR_WING_MARKERS {
        unchanged(AirWingCreationStatus::GlobalMarkerCap, reserve)
    } else if choice is None {
        unchanged(AirWingCreationStatus::NoEligibleAirfield, reserve)
    } else {
        let size = div_up(capacity as int, desired as int) as u32;
        let request = if size <= stock {
            size
        } else {
            stock
        };
        let (claimed, left) = claim(
            results,
            request as u64,
            real_of(AIRCREW_PER_AIRCRAFT_BITS),
            reserve,
        );
        if claimed == 0 {
            unchanged(AirWingCreationStatus::NoPersonnel, left)
        } else if next_wing_id == u64::MAX {
            Err(ReinforcementError::Overflow("next air-wing ID"))
        } else {
            let field = first_field(fields, (choice->0).id, 0)->0;
            let quiet = quiet_wing_outcome(
                record,
                wings,
                country,
                role,
                AirWingCreationStatus::Created,
            );
            Ok(
                WingRaise {
                    wings: wings.push(
                        new_wing(
                            next_wing_id,
                            country,
                            side,
                            field,
                            role,
                            probe.2,
                            claimed as u32,
                            size,
                        ),
                    ),
                    record: with_reserve(record, role, (stock - claimed) as u32),
                    reserve: left,
                    next_wing_id: (next_wing_id + 1) as u64,
                    outcome: AirWingCreationOutcome {
                        wings_after: (before + 1) as u32,
                        remaining_missing_wings: (desired - before - 1) as u32,
                        created_wing_id: Some(next_wing_id),
                        created_aircraft: claimed as u32,
                        ..quiet
                    },
                },
            )
        }
    }
}

fn role_wing_count(wings: &[AirWing], country: u16, role: AirRole) -> (count: u32)
    requires
        wings@.len() <= u32::MAX,
    ensures
        count == role_wings(wings@, country, role).len(),
        count <= wings@.len(),
{
    let ghost ours = |wing: AirWing| wing.sovereign_country_id == country && wing.role == role;
    let mut count: u32 = 0;
    let mut index: usize = 0;
    proof {
        wings@.take(0).lemma_filter_len(ours);
    }
    while index < wings.len()
        invariant
            index <= wings@.len() <= u32::MAX,
            ours == (|wing: AirWing| wing.sovereign_country_id == country && wing.role == role),
            count == wings@.take(index as int).filter(ours).len(),
            count <= index,
        decreases wings@.len() - index,
    {
        let wing = wings[index];
        proof {
            assert(wings@.take(index + 1) =~= wings@.take(index as int).push(wing));
            wings@.take(index as int).lemma_filter_push(wing, ours);
        }
        if wing.sovereign_country_id == country && wing.role == role {
            count = count + 1;
        }
        index = index + 1;
    }
    assert(wings@.take(wings@.len() as int) =~= wings@);
    count
}

proof fn lemma_choice_exists(
    results: Map<Operation, u64>,
    wings: Seq<AirWing>,
    fields: Seq<Airfield>,
    country: u16,
    side: usize,
    lat: Real,
    lng: Real,
    count: int,
)
    requires
        count <= fields.len(),
    ensures
        best_field(results, wings, fields, country, side, lat, lng, count) matches Some(best)
            ==> exists|i: int| 0 <= i < fields.len() && (#[trigger] fields[i]).id == best.id,
    decreases count,
{
    if count > 0 {
        lemma_choice_exists(results, wings, fields, country, side, lat, lng, count - 1);
        assert(fields[count - 1].id == fields[count - 1].id);
    }
}

proof fn lemma_first_field(fields: Seq<Airfield>, id: u64, from: int)
    requires
        0 <= from,
        exists|i: int| from <= i < fields.len() && (#[trigger] fields[i]).id == id,
    ensures
        first_field(fields, id, from) matches Some(field) && field.id == id,
    decreases fields.len() - from,
{
    if fields[from].id != id {
        lemma_first_field(fields, id, from + 1);
    }
}

/// Whether a worksheet holds all that raising a wing takes.
pub open spec fn wing_supplied(
    results: Map<Operation, u64>,
    wings: Seq<AirWing>,
    fields: Seq<Airfield>,
    record: ReinforcementCountry,
    reserve: Real,
    country: u16,
    side: usize,
    role: AirRole,
) -> bool {
    let capacity = capacity_of(record, role);
    let stock = reserve_of(record, role);
    let desired = wanted_wings(capacity);
    let probe = probe_of(wings, country, role);
    let size = div_up(capacity as int, desired as int) as u32;
    let request = if size <= stock {
        size
    } else {
        stock
    };
    role_wings(wings, country, role).len() < desired && stock != 0 && live_markers(wings).len()
        < MAX_LIVE_AIR_WING_MARKERS ==> {
        &&& choice_supplied(results, wings, fields, country, side, probe.0, probe.1)
        &&& best_field(
            results,
            wings,
            fields,
            country,
            side,
            probe.0,
            probe.1,
            fields.len() as int,
        ) is Some ==> claim_supplied(
            results,
            request as u64,
            real_of(AIRCREW_PER_AIRCRAFT_BITS),
            reserve,
        )
    }
}

/// Raise at most one wing of a role.
pub fn create_one_missing_wing(
    wings: &mut Vec<AirWing>,
    fields: &[Airfield],
    record: &mut ReinforcementCountry,
    role: AirRole,
    country: u16,
    side: usize,
    next_wing_id: &mut u64,
    reserve: &mut Real,
    reader: &mut Reader<'_>,
) -> (outcome: Result<AirWingCreationOutcome, Halt>)
    requires
        old(wings)@.len() < u32::MAX,
    ensures
        final(reader)@ == old(reader)@,
        ({
            let expected = raise_wing(
                old(reader)@,
                old(wings)@,
                fields@,
                *old(record),
                *old(reserve),
                *old(next_wing_id),
                country,
                side,
                role,
            );
            &&& (outcome matches Ok(raised) ==> {
                &&& expected == Ok::<WingRaise, ReinforcementError>(
                    WingRaise {
                        wings: final(wings)@,
                        record: *final(record),
                        reserve: *final(reserve),
                        next_wing_id: *final(next_wing_id),
                        outcome: raised,
                    },
                )
                &&& final(wings)@.len() <= old(wings)@.len() + 1
            })
            &&& (outcome matches Err(Halt::Failed(error)) ==> expected == Err::<
                WingRaise,
                ReinforcementError,
            >(error))
        }),
        outcome matches Err(Halt::Missing(missing)) ==> !old(reader)@.contains_key(missing)
            && !wing_supplied(
                old(reader)@,
                old(wings)@,
                fields@,
                *old(record),
                *old(reserve),
                country,
                side,
                role,
            ),
        !(outcome matches Err(Halt::CheckAir(_))),
{
    let capacity: u32 = match role {
        AirRole::Fighter => record.fighter_capacity,
        AirRole::Strike => record.strike_capacity,
    };
    let stock: u32 = match role {
        AirRole::Fighter => record.reserve_fighters,
        AirRole::Strike => record.reserve_strike,
    };
    let groups: u64 = divide_up(capacity as u64, AIR_WING_TARGET_SIZE as u64);
    let desired: u32 = if groups <= MAX_WINGS_PER_ROLE_PER_COUNTRY as u64 {
        groups as u32
    } else {
        MAX_WINGS_PER_ROLE_PER_COUNTRY
    };
    let before: u32 = role_wing_count(wings, country, role);
    let mut result = AirWingCreationOutcome {
        role,
        desired_wings: desired,
        wings_before: before,
        wings_after: before,
        remaining_missing_wings: if desired >= before {
            desired - before
        } else {
            0
        },
        created_wing_id: None,
        created_aircraft: 0,
        status: AirWingCreationStatus::AtDesiredCount,
    };
    if before >= desired {
        return Ok(result);
    }
    if stock == 0 {
        result.status = AirWingCreationStatus::NoReserve;
        return Ok(result);
    }
    if live_air_wing_markers(wings) >= MAX_LIVE_AIR_WING_MARKERS {
        result.status = AirWingCreationStatus::GlobalMarkerCap;
        return Ok(result);
    }
    let probe: (Real, Real, Real) = match find_wing(wings, country, Some(role)) {
        Some(wing) => (wing.lat, wing.lng, wing.quality),
        None => match find_wing(wings, country, None) {
            Some(wing) => (wing.lat, wing.lng, wing.quality),
            None => (Real::zero(), Real::zero(), Real::from_bits(FIFTY_BITS)),
        },
    };
    let choice = match eligible_airfield(wings, fields, country, side, probe.0, probe.1, reader) {
        Ok(choice) => choice,
        Err(missing) => {
            return Err(Halt::Missing(missing));
        },
    };
    let chosen: FieldChoice = match choice {
        Some(chosen) => chosen,
        None => {
            result.status = AirWingCreationStatus::NoEligibleAirfield;
            return Ok(result);
        },
    };
    let size: u32 = divide_up(capacity as u64, desired as u64) as u32;
    proof {
        assert(div_up(capacity as int, desired as int) <= capacity) by (nonlinear_arith)
            requires
                desired >= 1,
                capacity >= 1,
                div_up(capacity as int, desired as int) == (capacity + desired - 1) / (
                desired as int),
        ;
    }
    let request: u32 = if size <= stock {
        size
    } else {
        stock
    };
    let claimed: u64 = match claim_crewed_equipment(
        request as u64,
        Real::from_bits(AIRCREW_PER_AIRCRAFT_BITS),
        reserve,
        reader,
    ) {
        Ok(claimed) => claimed,
        Err(missing) => {
            return Err(Halt::Missing(missing));
        },
    };
    if claimed == 0 {
        result.status = AirWingCreationStatus::NoPersonnel;
        return Ok(result);
    }
    proof {
        lemma_choice_exists(
            reader@,
            wings@,
            fields@,
            country,
            side,
            probe.0,
            probe.1,
            fields@.len() as int,
        );
        lemma_first_field(fields@, chosen.id, 0);
    }
    let field: Airfield = match find_field(fields, chosen.id) {
        Some(field) => field,
        None => {
            assert(false);
            return Ok(result);
        },
    };
    let id: u64 = *next_wing_id;
    if id == u64::MAX {
        return Err(Halt::Failed(ReinforcementError::Overflow("next air-wing ID")));
    }
    *next_wing_id = id + 1;
    let aircraft: u32 = claimed as u32;
    match role {
        AirRole::Fighter => {
            record.reserve_fighters = stock - aircraft;
        },
        AirRole::Strike => {
            record.reserve_strike = stock - aircraft;
        },
    }
    wings.push(
        AirWing {
            id,
            side,
            sovereign_country_id: country,
            airfield_id: chosen.id,
            return_airfield_id: None,
            role,
            quality: probe.2,
            max_count: size,
            count: aircraft,
            lat: field.lat,
            lng: field.lng,
            state: match role {
                AirRole::Fighter => AirWingState::Patrol,
                AirRole::Strike => AirWingState::Grounded,
            },
            target_kind: None,
            target_id: None,
            rearm_ticks: 0,
            cooldown_ticks: 0,
            endurance_ticks: 0,
            next_mission_tick: None,
            force_mission: false,
        },
    );
    result.wings_after = before + 1;
    result.remaining_missing_wings = desired - (before + 1);
    result.created_wing_id = Some(id);
    result.created_aircraft = aircraft;
    result.status = AirWingCreationStatus::Created;
    Ok(result)
}

// ---------------------------------------------------------------------------------------------
// Evacuation
// ---------------------------------------------------------------------------------------------

/// A field that a wing can be ferried to.
#[derive(Clone, Copy, Debug, PartialEq, Eq, Structural)]
pub struct FerryChoice {
    pub distance: Real,
    pub id: u64,
}

/// Whether a field takes in a wing of a defeated country: on its side, held and owned by another
/// country, with room for a guest.
pub open spec fn takes_in(wings: Seq<AirWing>, field: Airfield, country: u16, side: usize) -> bool {
    &&& field.side == side
    &&& field.controller_country_id != country
    &&& field.owner_country_id != country
    &&& usable_capacity(field) > 0
    &&& allied_wings(wings, field).len() < usable_capacity(field) / 2
}

pub open spec fn nearer(candidate: FerryChoice, best: Option<FerryChoice>) -> bool {
    match best {
        None => true,
        Some(best) => {
            ||| candidate.distance.total_rank() < best.distance.total_rank()
            ||| candidate.distance.total_rank() == best.distance.total_rank() && candidate.id
                < best.id
        },
    }
}

/// The nearest of the first `count` fields that takes a wing in and lies within ferry range.
pub open spec fn ferry_field(
    results: Map<Operation, u64>,
    wings: Seq<AirWing>,
    fields: Seq<Airfield>,
    wing: AirWing,
    country: u16,
    side: usize,
    count: int,
) -> Option<FerryChoice>
    decreases count,
{
    if count <= 0 {
        None
    } else {
        let best = ferry_field(results, wings, fields, wing, country, side, count - 1);
        let field = fields[count - 1];
        let candidate = FerryChoice {
            distance: real_of(
                results[Operation::Distance(wing.lat, wing.lng, field.lat, field.lng)],
            ),
            id: field.id,
        };
        if takes_in(wings, field, country, side) && candidate.distance.le(
            real_of(FERRY_RANGE_KM_BITS),
        ) && nearer(candidate, best) {
            Some(candidate)
        } else {
            best
        }
    }
}

/// Whether a worksheet holds all that finding a refuge takes.
pub open spec fn ferry_supplied(
    results: Map<Operation, u64>,
    wings: Seq<AirWing>,
    fields: Seq<Airfield>,
    wing: AirWing,
    country: u16,
    side: usize,
) -> bool {
    forall|k: int|
        0 <= k < fields.len() && takes_in(wings, #[trigger] fields[k], country, side)
            ==> results.contains_key(
            Operation::Distance(wing.lat, wing.lng, fields[k].lat, fields[k].lng),
        )
}

/// The allied field that a wing of a defeated country escapes to.
pub fn eligible_allied_airfield(
    wings: &[AirWing],
    fields: &[Airfield],
    wing_index: usize,
    country: u16,
    side: usize,
    reader: &mut Reader<'_>,
) -> (outcome: Result<Option<FerryChoice>, Operation>)
    requires
        wings@.len() <= u32::MAX,
        wing_index < wings@.len(),
    ensures
        final(reader)@ == old(reader)@,
        outcome matches Ok(choice) ==> choice == ferry_field(
            old(reader)@,
            wings@,
            fields@,
            wings@[wing_index as int],
            country,
            side,
            fields@.len() as int,
        ),
        outcome matches Err(missing) ==> !old(reader)@.contains_key(missing) && !ferry_supplied(
            old(reader)@,
            wings@,
            fields@,
            wings@[wing_index as int],
            country,
            side,
        ),
{
    let wing = wings[wing_index];
    let mut best: Option<FerryChoice> = None;
    let mut index: usize = 0;
    while index < fields.len()
        invariant
            index <= fields@.len(),
            wings@.len() <= u32::MAX,
            reader@ == old(reader)@,
            best == ferry_field(
                reader@,
                wings@,
                fields@,
                wing,
                country,
                side,
                index as int,
            ),
            wing == wings@[wing_index as int],
        decreases fields@.len() - index,
    {
        let field = fields[index];
        let capacity: u32 = effective_capacity(&field);
        if field.side == side && field.controller_country_id != country && field.owner_country_id
            != country && capacity > 0 {
            let (_, allied) = field_occupancy(wings, &field);
            if allied < capacity / 2 {
                let distance = reader.number(
                    Operation::Distance(wing.lat, wing.lng, field.lat, field.lng),
                )?;
                if distance.at_most(Real::from_bits(FERRY_RANGE_KM_BITS)) {
                    let replace = match best {
                        None => true,
                        Some(current) => distance.precedes(current.distance) || (
                        !current.distance.precedes(distance) && field.id < current.id),
                    };
                    if replace {
                        best = Some(FerryChoice { distance, id: field.id });
                    }
                }
            }
        }
        index = index + 1;
    }
    Ok(best)
}

/// A wing that has escaped to `field`.
pub open spec fn evacuated_to(wing: AirWing, id: u64, field: Airfield) -> AirWing {
    AirWing {
        airfield_id: id,
        lat: field.lat,
        lng: field.lng,
        state: AirWingState::Evacuated,
        return_airfield_id: None,
        target_kind: None,
        target_id: None,
        rearm_ticks: 0,
        endurance_ticks: 0,
        force_mission: false,
        ..wing
    }
}

/// A wing whose target no longer exists.
pub open spec fn stood_down(wing: AirWing) -> AirWing {
    AirWing {
        state: AirWingState::Grounded,
        return_airfield_id: None,
        target_kind: None,
        target_id: None,
        rearm_ticks: 0,
        endurance_ticks: 0,
        ..wing
    }
}

/// Wings in evacuation.
pub struct Evacuation {
    pub wings: Seq<AirWing>,
    pub evacuated: int,
    pub lost: int,
    pub removed: Seq<u64>,
}

/// The wing at `position` escapes, or is lost.
pub open spec fn evacuate_wing(
    results: Map<Operation, u64>,
    model: Evacuation,
    fields: Seq<Airfield>,
    country: u16,
    side: usize,
    position: int,
) -> Evacuation {
    let wing = model.wings[position];
    if wing.sovereign_country_id != country {
        model
    } else {
        match ferry_field(
            results,
            model.wings,
            fields,
            wing,
            country,
            side,
            fields.len() as int,
        ) {
            Some(choice) => Evacuation {
                wings: model.wings.update(
                    position,
                    evacuated_to(wing, choice.id, first_field(fields, choice.id, 0)->0),
                ),
                evacuated: model.evacuated + wing.count,
                ..model
            },
            None => Evacuation {
                wings: model.wings.remove(position),
                lost: model.lost + wing.count,
                removed: model.removed.push(wing.id),
                ..model
            },
        }
    }
}

/// The last `count` wings have been dealt with, from the last one down.
pub open spec fn evacuate_wings(
    results: Map<Operation, u64>,
    wings: Seq<AirWing>,
    fields: Seq<Airfield>,
    country: u16,
    side: usize,
    count: int,
) -> Evacuation
    decreases count,
{
    if count <= 0 {
        Evacuation { wings, evacuated: 0, lost: 0, removed: Seq::empty() }
    } else {
        evacuate_wing(
            results,
            evacuate_wings(results, wings, fields, country, side, count - 1),
            fields,
            country,
            side,
            wings.len() - count,
        )
    }
}

/// Wings whose target was lost stand down; the others carry on.
pub open spec fn stand_down(wings: Seq<AirWing>, removed: Seq<u64>) -> Seq<AirWing> {
    wings.map_values(
        |wing: AirWing|
            if wing.target_id matches Some(id) && removed.contains(id) {
                stood_down(wing)
            } else {
                wing
            },
    )
}

proof fn lemma_ferry_exists(
    results: Map<Operation, u64>,
    wings: Seq<AirWing>,
    fields: Seq<Airfield>,
    wing: AirWing,
    country: u16,
    side: usize,
    count: int,
)
    requires
        count <= fields.len(),
    ensures
        ferry_field(results, wings, fields, wing, country, side, count) matches Some(best)
            ==> exists|i: int| 0 <= i < fields.len() && (#[trigger] fields[i]).id == best.id,
    decreases count,
{
    if count > 0 {
        lemma_ferry_exists(results, wings, fields, wing, country, side, count - 1);
        assert(fields[count - 1].id == fields[count - 1].id);
    }
}

/// Whether a worksheet holds all that an evacuation takes.
pub open spec fn evacuation_supplied(
    results: Map<Operation, u64>,
    wings: Seq<AirWing>,
    fields: Seq<Airfield>,
    country: u16,
    side: usize,
) -> bool {
    forall|k: int|
        0 <= k < wings.len() ==> ({
            let model = #[trigger] evacuate_wings(results, wings, fields, country, side, k);
            let wing = model.wings[wings.len() - k - 1];
            wing.sovereign_country_id == country ==> ferry_supplied(
                results,
                model.wings,
                fields,
                wing,
                country,
                side,
            )
        })
}

/// Ferry a defeated country's wings to allied fields, last wing first. Wings without a field are
/// lost, and whoever was after them stands down. Returns the aircraft that escaped and that were
/// lost.
pub fn evacuate_defeated_wings(
    wings: &mut Vec<AirWing>,
    fields: &[Airfield],
    country: u16,
    side: usize,
    reader: &mut Reader<'_>,
) -> (outcome: Result<(u64, u64), Operation>)
    requires
        old(wings)@.len() <= u32::MAX,
    ensures
        final(reader)@ == old(reader)@,
        outcome matches Ok(counts) ==> {
            let model = evacuate_wings(
                old(reader)@,
                old(wings)@,
                fields@,
                country,
                side,
                old(wings)@.len() as int,
            );
            &&& counts.0 == model.evacuated
            &&& counts.1 == model.lost
            &&& final(wings)@ == stand_down(model.wings, model.removed)
            &&& final(wings)@.len() <= old(wings)@.len()
        },
        outcome matches Err(missing) ==> !old(reader)@.contains_key(missing) && !evacuation_supplied(
            old(reader)@,
            old(wings)@,
            fields@,
            country,
            side,
        ),
{
    let total: usize = wings.len();
    let mut evacuated: u64 = 0;
    let mut lost: u64 = 0;
    let mut removed: Vec<u64> = Vec::new();
    let mut done: usize = 0;
    while done < total
        invariant
            done <= total <= u32::MAX,
            total == old(wings)@.len(),
            reader@ == old(reader)@,
            total - done <= wings@.len() <= total,
            evacuated + lost <= done * u32::MAX,
            ({
                let model = evacuate_wings(
                    reader@,
                    old(wings)@,
                    fields@,
                    country,
                    side,
                    done as int,
                );
                &&& model.wings == wings@
                &&& model.evacuated == evacuated
                &&& model.lost == lost
                &&& model.removed == removed@
            }),
        decreases total - done,
    {
        let position: usize = total - done - 1;
        let wing = wings[position];
        proof {
            assert((done + 1) * u32::MAX == done * u32::MAX + u32::MAX) by (nonlinear_arith);
            assert((done + 1) * u32::MAX <= u32::MAX * u32::MAX) by (nonlinear_arith)
                requires
                    done + 1 <= u32::MAX,
            ;
        }
        if wing.sovereign_country_id == country {
            let choice = eligible_allied_airfield(
                wings,
                fields,
                position,
                country,
                side,
                reader,
            )?;
            match choice {
                Some(chosen) => {
                    proof {
                        lemma_ferry_exists(
                            reader@,
                            wings@,
                            fields@,
                            wing,
                            country,
                            side,
                            fields@.len() as int,
                        );
                        lemma_first_field(fields@, chosen.id, 0);
                    }
                    if let Some(field) = find_field(fields, chosen.id) {
                        let mut moved = wing;
                        moved.airfield_id = chosen.id;
                        moved.lat = field.lat;
                        moved.lng = field.lng;
                        moved.state = AirWingState::Evacuated;
                        moved.return_airfield_id = None;
                        moved.target_kind = None;
                        moved.target_id = None;
                        moved.rearm_ticks = 0;
                        moved.endurance_ticks = 0;
                        moved.force_mission = false;
                        wings.set(position, moved);
                        evacuated = evacuated + wing.count as u64;
                    }
                },
                None => {
                    let gone = wings.remove(position);
                    lost = lost + gone.count as u64;
                    removed.push(gone.id);
                },
            }
        }
        done = done + 1;
    }
    let ghost kept = wings@;
    let mut index: usize = 0;
    let left: usize = wings.len();
    while index < left
        invariant
            index <= left,
            left == kept.len(),
            wings@.len() == left,
            forall|i: int|
                #![trigger wings@[i]]
                0 <= i < index ==> wings@[i] == stand_down(kept, removed@)[i],
            forall|i: int| #![trigger wings@[i]] index <= i < left ==> wings@[i] == kept[i],
        decreases left - index,
    {
        let mut wing = wings[index];
        let orphaned = match wing.target_id {
            Some(id) => crate::order::contains_id(&removed, id),
            None => false,
        };
        if orphaned {
            wing.state = AirWingState::Grounded;
            wing.return_airfield_id = None;
            wing.target_kind = None;
            wing.target_id = None;
            wing.rearm_ticks = 0;
            wing.endurance_ticks = 0;
            wings.set(index, wing);
        }
        index = index + 1;
    }
    assert(wings@ =~= stand_down(kept, removed@));
    Ok((evacuated, lost))
}

} // verus!
