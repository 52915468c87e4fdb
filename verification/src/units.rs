//! Formations, orders and hostility as the simulation kernels exchange them.

use vstd::prelude::*;
use crate::order::Keyed;
use crate::scalar::{real_of, Real, ONE_BITS};

verus! {

/// Index of a side in the hostility matrix.
pub type SideKey = u16;

/// A failure inside a numeric kernel. The code is the kernel's own and is carried through
/// unchanged.
#[derive(Clone, Copy, Debug, PartialEq, Eq, Structural)]
pub struct KernelFault {
    pub code: u64,
}

#[derive(Clone, Copy, Debug, PartialEq, Eq, Structural)]
pub enum UnitKind {
    Army,
    Armor,
}

/// The part of a formation that combat reads and writes.
#[derive(Clone, Copy, Debug, PartialEq, Eq, Structural)]
pub struct CombatUnit {
    pub id: u64,
    pub side: u64,
    pub sovereign: u64,
    pub kind: UnitKind,
    pub lat: Real,
    pub lng: Real,
    pub health: Real,
    pub max_health: Real,
    pub personnel: u64,
    pub personnel_capacity: u64,
    pub equipment: u64,
    pub max_equipment: u64,
    pub quality: Real,
    pub transport: bool,
    pub armor_supported: bool,
    pub landing_penalty_active: bool,
    pub at_sea: bool,
    pub last_combat_tick: u64,
    pub victory_boost_ticks: u64,
}

#[derive(Clone, Copy, Debug, PartialEq, Eq, Structural)]
pub struct SimulationUnit {
    pub combat: CombatUnit,
    pub dir_lat: Real,
    pub dir_lng: Real,
    pub coast_stuck_ticks: u32,
    pub armor_landing_penalty_until_tick: u64,
    pub is_support: bool,
    pub ally_weight: Real,
}

impl Keyed for SimulationUnit {
    open spec fn sort_key(&self) -> int {
        self.combat.id as int
    }

    fn key(&self) -> (key: u64) {
        self.combat.id
    }
}

#[derive(Clone, Copy, Debug, PartialEq, Eq, Structural)]
pub enum CombatLayer {
    Proximity,
    Direct,
}

/// One resolved exchange between two formations.
#[derive(Clone, Copy, Debug, PartialEq, Eq, Structural)]
pub struct CombatEvent {
    pub layer: CombatLayer,
    pub attacker_id: u64,
    pub target_id: u64,
    pub attacker_damage: Real,
    pub target_damage: Real,
    pub attacker_personnel_loss: u64,
    pub target_personnel_loss: u64,
    pub attacker_equipment_loss: u64,
    pub target_equipment_loss: u64,
}

#[derive(Clone, Copy, Debug, PartialEq, Eq, Structural)]
pub struct MovementFactors {
    pub base_speed: Real,
    pub speed_mult: Real,
    pub plan_speed_mult: Real,
    pub neutral_penalty: Real,
    pub retreat_boost: Real,
    pub push_readiness: Real,
}

#[derive(Clone, Copy, Debug, PartialEq, Eq, Structural)]
pub struct ResolvedCombatOrder {
    pub dealt_multiplier: Real,
    pub taken_multiplier: Real,
    pub defense_bonus: Real,
    pub long_war_defense: Real,
    pub mountain: bool,
    pub urban: bool,
    pub current_cell_mountain: bool,
    pub current_cell_urban: bool,
}

/// Neutral combat modifiers: every multiplier one, no terrain.
pub open spec fn neutral_combat_order() -> ResolvedCombatOrder {
    ResolvedCombatOrder {
        dealt_multiplier: real_of(ONE_BITS),
        taken_multiplier: real_of(ONE_BITS),
        defense_bonus: real_of(ONE_BITS),
        long_war_defense: real_of(ONE_BITS),
        mountain: false,
        urban: false,
        current_cell_mountain: false,
        current_cell_urban: false,
    }
}

impl Default for ResolvedCombatOrder {
    fn default() -> (order: Self)
        ensures
            order == neutral_combat_order(),
    {
        ResolvedCombatOrder {
            dealt_multiplier: Real::one(),
            taken_multiplier: Real::one(),
            defense_bonus: Real::one(),
            long_war_defense: Real::one(),
            mountain: false,
            urban: false,
            current_cell_mountain: false,
            current_cell_urban: false,
        }
    }
}

#[derive(Clone, Copy, Debug, PartialEq, Eq, Structural)]
pub struct ResolvedUnitOrder {
    pub unit_id: u64,
    pub preferred_target_id: Option<u64>,
    pub movement_enabled: bool,
    pub dir_lat: Real,
    pub dir_lng: Real,
    pub factors: MovementFactors,
    pub combat: ResolvedCombatOrder,
}

impl Keyed for ResolvedUnitOrder {
    open spec fn sort_key(&self) -> int {
        self.unit_id as int
    }

    fn key(&self) -> (key: u64) {
        self.unit_id
    }
}

/// Stand still, fight without modifiers and prefer no target.
pub open spec fn hold_order(unit_id: u64) -> ResolvedUnitOrder {
    ResolvedUnitOrder {
        unit_id,
        preferred_target_id: None,
        movement_enabled: false,
        dir_lat: real_of(0),
        dir_lng: real_of(0),
        factors: MovementFactors {
            base_speed: real_of(0),
            speed_mult: real_of(ONE_BITS),
            plan_speed_mult: real_of(ONE_BITS),
            neutral_penalty: real_of(ONE_BITS),
            retreat_boost: real_of(ONE_BITS),
            push_readiness: real_of(ONE_BITS),
        },
        combat: neutral_combat_order(),
    }
}

impl ResolvedUnitOrder {
    pub fn hold(unit_id: u64) -> (order: ResolvedUnitOrder)
        ensures
            order == hold_order(unit_id),
    {
        ResolvedUnitOrder {
            unit_id,
            preferred_target_id: None,
            movement_enabled: false,
            dir_lat: Real::zero(),
            dir_lng: Real::zero(),
            factors: MovementFactors {
                base_speed: Real::zero(),
                speed_mult: Real::one(),
                plan_speed_mult: Real::one(),
                neutral_penalty: Real::one(),
                retreat_boost: Real::one(),
                push_readiness: Real::one(),
            },
            combat: ResolvedCombatOrder::default(),
        }
    }
}

/// Directed side hostility in row-major order. Without relations every two different sides are
/// hostile.
#[derive(Clone, Copy, Debug)]
pub struct HostilityMatrix<'a> {
    pub relations: Option<&'a [u8]>,
    pub max_sides: usize,
}

impl<'a> HostilityMatrix<'a> {
    /// The relations, where there are any, are a square over the declared sides.
    pub open spec fn well_formed(self) -> bool {
        self.relations matches Some(relations) ==> relations@.len() == self.max_sides
            * self.max_sides
    }
}

/// Whether `attacker` may attack `target`. The relation is directed.
pub open spec fn hostile(hostility: HostilityMatrix<'_>, attacker: int, target: int) -> bool {
    &&& attacker != target
    &&& 0 <= attacker < hostility.max_sides
    &&& 0 <= target < hostility.max_sides
    &&& (hostility.relations matches Some(relations) ==> relations@[attacker
        * hostility.max_sides + target] == 1)
}

pub proof fn lemma_square_index(row: int, column: int, width: int)
    requires
        0 <= row < width,
        0 <= column < width,
    ensures
        0 <= row * width,
        0 <= row * width + column < width * width,
{
    assert(0 <= row * width && row * width + column < width * width) by (nonlinear_arith)
        requires
            0 <= row < width,
            0 <= column < width,
    ;
}

pub fn is_hostile(hostility: HostilityMatrix<'_>, attacker: usize, target: usize) -> (answer: bool)
    requires
        hostility.well_formed(),
    ensures
        answer == hostile(hostility, attacker as int, target as int),
{
    if attacker == target || attacker >= hostility.max_sides || target >= hostility.max_sides {
        return false;
    }
    match hostility.relations {
        Some(relations) => {
            proof {
                lemma_square_index(attacker as int, target as int, hostility.max_sides as int);
                assert(relations.len() == relations@.len());
            }
            relations[attacker * hostility.max_sides + target] == 1
        },
        None => true,
    }
}

} // verus!
