//! Country economies as settlement and production read them.

use vstd::prelude::*;
use crate::scalar::Real;

verus! {

/// How far a country's formations still follow orders.
#[derive(Clone, Copy, Debug, PartialEq, Eq, Structural)]
pub enum CommandBand {
    Paid,
    Unpaid,
    Breakdown,
    Mutiny,
}

#[derive(Clone, Copy, Debug, PartialEq, Eq, Structural)]
pub struct EconomyState {
    pub country_id: u16,
    pub economic_strength: Real,
    pub base_income: Real,
    pub treasury: Real,
    pub income: Real,
    pub occupation_yield: Real,
    pub payroll_due: Real,
    pub occupation_due: Real,
    pub payroll_coverage: Real,
    pub occupation_coverage: Real,
    pub arrears_cycles: Real,
    pub command_band: CommandBand,
    pub mutiny_recovery_cycles: u32,
    pub initial_core_cells: u32,
    pub initial_city_population: Real,
    pub core_control_ratio: Real,
    pub city_control_ratio: Real,
    pub capital_held: bool,
    pub last_event_band: CommandBand,
    pub capitulated: bool,
}

} // verus!
