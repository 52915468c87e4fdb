//! What can go wrong while the runtime is set up or takes a step.

use vstd::prelude::*;
use crate::operations::OperationalError;
use crate::production::ProductionError;
use crate::reinforcement::ReinforcementError;
use crate::simulation::SimulationError;
use crate::units::KernelFault;

verus! {

#[derive(Clone, Copy, Debug, PartialEq, Eq)]
pub enum RuntimeError {
    InvalidConfig,
    InvalidCheckpoint(&'static str),
    InvalidUnitPolicy(u64),
    /// What the battlefield remembers of a formation cannot be.
    InvalidBattlefieldUnitState(u64),
    ClockOverflow,
    AwaitingStrategicEffects { cycle: u64, tick: u64 },
    ConflictResolved { cycle: u64, tick: u64 },
    Poisoned,
    CheckpointUnavailable,
    Ai(KernelFault),
    Front(KernelFault),
    Battlefield(KernelFault),
    Command(KernelFault),
    Simulation(SimulationError),
    Territory(KernelFault),
    Strategic(KernelFault),
    Production(ProductionError),
    Operational(OperationalError),
    Air(KernelFault),
    Reinforcement(ReinforcementError),
    OperationalExecution(KernelFault),
    NavalPlanning(KernelFault),
    StrategicMissile(KernelFault),
}

} // verus!
