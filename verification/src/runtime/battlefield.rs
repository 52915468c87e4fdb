//! The battlefield stage of a tick: what the battlefield kernels are told, and what becomes of
//! their answers.

use std::collections::BTreeMap;
use vstd::prelude::*;
use crate::operations::WarPosture;
use crate::runtime::policy::ResolvedMovementModifiers;
use crate::scalar::{real_of, Real};
use crate::units::ResolvedCombatOrder;

verus! {

/// How a war goes for a side.
#[derive(Clone, Copy, Debug, PartialEq, Eq, Structural)]
pub enum WarPhase {
    Advancing,
    Stalemate,
    Retreating,
    Collapsing,
}

/// What the runtime reads of a side's momentum.
#[derive(Clone, Copy, Debug, PartialEq, Eq, Structural)]
pub struct SideDynamics {
    pub side_index: usize,
    pub posture: WarPosture,
    pub posture_override: Option<WarPosture>,
    pub phase: WarPhase,
    pub initial_personnel: Real,
    pub current_personnel: Real,
}

#[derive(Clone, Copy, Debug, PartialEq, Eq, Structural)]
pub struct BattlefieldCell {
    pub at_sea: bool,
    pub mountain_intensity: Real,
}

#[derive(Clone, Copy, Debug, PartialEq, Eq, Structural)]
pub struct BattlefieldAttrition {
    pub damage: Real,
    pub supply_collapse_sampled: bool,
    pub supply_collapsed: bool,
}

#[derive(Clone, Copy, Debug, PartialEq, Eq, Structural)]
pub struct BattlefieldInfluence {
    pub radius: Real,
    pub delta: Real,
    pub concentration_bonus: Real,
    pub eligible: bool,
}

/// What the battlefield kernel resolved for a formation.
#[derive(Clone, Copy, Debug, PartialEq, Eq, Structural)]
pub struct BattlefieldUnitResult {
    pub unit_id: u64,
    pub base_speed: Real,
    pub movement: ResolvedMovementModifiers,
    pub combat: ResolvedCombatOrder,
    pub encircled: bool,
    pub encircled_ticks: u64,
    pub cell: BattlefieldCell,
    pub attrition: BattlefieldAttrition,
    pub influence: BattlefieldInfluence,
}

/// What local tactics resolved for a formation.
#[derive(Clone, Copy, Debug, PartialEq, Eq, Structural)]
pub struct BattlefieldLocalUnitResult {
    pub unit_id: u64,
    pub armor_supported: bool,
    pub armor_support_last_tick: Option<u64>,
    pub last_ally_count: u64,
}

/// What the battlefield remembers of a formation.
#[derive(Clone, Copy, Debug, PartialEq, Eq, Structural)]
pub struct BattlefieldUnitState {
    pub is_alpenjager: bool,
    pub encircled_ticks: u64,
    pub supply_collapsed_tick: Option<u64>,
    pub armor_support_last_tick: Option<u64>,
    pub last_ally_count: u64,
    pub cohesion_seed: Real,
}

/// Nothing is remembered yet.
pub open spec fn blank_memory() -> BattlefieldUnitState {
    BattlefieldUnitState {
        is_alpenjager: false,
        encircled_ticks: 0,
        supply_collapsed_tick: None,
        armor_support_last_tick: None,
        last_ally_count: 0,
        cohesion_seed: real_of(0),
    }
}

impl Default for BattlefieldUnitState {
    fn default() -> (state: Self)
        ensures
            state == blank_memory(),
    {
        BattlefieldUnitState {
            is_alpenjager: false,
            encircled_ticks: 0,
            supply_collapsed_tick: None,
            armor_support_last_tick: None,
            last_ally_count: 0,
            cohesion_seed: Real::zero(),
        }
    }
}

#[derive(Clone, Copy, Debug, PartialEq, Eq, Structural)]
pub enum BattlefieldWarPhase {
    Advancing,
    Stable,
    Collapsing,
}

#[derive(Clone, Copy, Debug, PartialEq, Eq, Structural)]
pub enum BattlefieldBuff {
    Debuff,
    Neutral,
    Buff,
    Super,
}

#[derive(Clone, Copy, Debug, PartialEq, Eq, Structural)]
pub struct BattlefieldCountryState {
    pub influence_buff: BattlefieldBuff,
    pub ai_speed_multiplier: Real,
    pub war_phase: BattlefieldWarPhase,
    pub capital_lost: bool,
}

/// What the battlefield remembers between ticks.
#[derive(Debug)]
pub struct BattlefieldRuntimeState {
    pub units: BTreeMap<u64, BattlefieldUnitState>,
    pub countries: BTreeMap<u16, BattlefieldCountryState>,
    pub mountains_enabled: bool,
    pub terrain_intensity: Vec<Real>,
}

} // verus!
