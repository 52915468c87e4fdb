//! Airfields, wings and what they can host.

use vstd::prelude::*;
use crate::order::Keyed;
use crate::scalar::{real_of, Real};

verus! {

/// Bit pattern of `50.0`.
pub const FIFTY_BITS: u64 = 0x4049_0000_0000_0000;

/// Bit pattern of `100.0`.
pub const HUNDRED_BITS: u64 = 0x4059_0000_0000_0000;

#[derive(Clone, Copy, Debug, PartialEq, Eq, Structural)]
pub enum AirRole {
    Fighter,
    Strike,
}

/// What a wing is doing. Sorties are told apart by the air kernel alone.
#[derive(Clone, Copy, Debug, PartialEq, Eq, Structural)]
pub enum AirWingState {
    Grounded,
    Patrol,
    Sortie { code: u8 },
    Evacuated,
}

#[derive(Clone, Copy, Debug, PartialEq, Eq, Structural)]
pub enum AirTargetKind {
    Army,
    Armor,
    Wing,
    Airfield,
}

#[derive(Clone, Copy, Debug, PartialEq, Eq, Structural)]
pub struct AirWing {
    pub id: u64,
    pub side: usize,
    pub sovereign_country_id: u16,
    pub airfield_id: u64,
    pub return_airfield_id: Option<u64>,
    pub role: AirRole,
    pub quality: Real,
    pub max_count: u32,
    pub count: u32,
    pub lat: Real,
    pub lng: Real,
    pub state: AirWingState,
    pub target_kind: Option<AirTargetKind>,
    pub target_id: Option<u64>,
    pub rearm_ticks: u32,
    pub cooldown_ticks: u32,
    pub endurance_ticks: u32,
    pub next_mission_tick: Option<u64>,
    pub force_mission: bool,
}

impl Keyed for AirWing {
    open spec fn sort_key(&self) -> int {
        self.id as int
    }

    fn key(&self) -> (key: u64) {
        self.id
    }
}

#[derive(Clone, Copy, Debug, PartialEq, Eq, Structural)]
pub struct Airfield {
    pub id: u64,
    pub side: usize,
    pub owner_country_id: u16,
    pub controller_country_id: u16,
    pub lat: Real,
    pub lng: Real,
    pub capacity: u32,
    pub health: Real,
    pub disabled: bool,
    pub capture_repair_cycles: u64,
    pub capital: bool,
}

impl Keyed for Airfield {
    open spec fn sort_key(&self) -> int {
        self.id as int
    }

    fn key(&self) -> (key: u64) {
        self.id
    }
}

#[derive(Clone, Copy, Debug, PartialEq, Eq, Structural)]
pub struct AirCountryCoverage {
    pub country_id: u16,
    pub operations_coverage: Real,
}

/// All airfields and wings, each in ascending id order, and the funding of each country's
/// operations.
#[derive(Debug)]
pub struct AirPowerState {
    pub airfields: Vec<Airfield>,
    pub wings: Vec<AirWing>,
    pub country_coverage: Vec<AirCountryCoverage>,
}

/// What an [`AirPowerState`] holds.
pub struct AirModel {
    pub airfields: Seq<Airfield>,
    pub wings: Seq<AirWing>,
    pub country_coverage: Seq<AirCountryCoverage>,
}

impl View for AirPowerState {
    type V = AirModel;

    open spec fn view(&self) -> AirModel {
        AirModel {
            airfields: self.airfields@,
            wings: self.wings@,
            country_coverage: self.country_coverage@,
        }
    }
}

impl Clone for AirPowerState {
    fn clone(&self) -> (copied: Self)
        ensures
            copied@ == self@,
    {
        AirPowerState {
            airfields: crate::order::copy_all(&self.airfields),
            wings: crate::order::copy_all(&self.wings),
            country_coverage: crate::order::copy_all(&self.country_coverage),
        }
    }
}

/// Wings that a field can host: none while it is disabled or destroyed, one at half health.
pub open spec fn usable_capacity(field: Airfield) -> u32 {
    if field.disabled || field.health.le(real_of(0)) {
        0
    } else if field.health.le(real_of(FIFTY_BITS)) {
        if field.capacity < 1 {
            field.capacity
        } else {
            1
        }
    } else {
        field.capacity
    }
}

pub fn effective_capacity(field: &Airfield) -> (capacity: u32)
    ensures
        capacity == usable_capacity(*field),
{
    if field.disabled || field.health.at_most(Real::zero()) {
        0
    } else if field.health.at_most(Real::from_bits(FIFTY_BITS)) {
        if field.capacity < 1 {
            field.capacity
        } else {
            1
        }
    } else {
        field.capacity
    }
}

/// Wings stationed at a field that fly for its controller.
pub open spec fn national_wings(wings: Seq<AirWing>, field: Airfield) -> Seq<AirWing> {
    wings.filter(
        |wing: AirWing|
            wing.airfield_id == field.id && wing.state != AirWingState::Evacuated
                && wing.sovereign_country_id == field.controller_country_id,
    )
}

/// Wings stationed at a field that fly for another country.
pub open spec fn allied_wings(wings: Seq<AirWing>, field: Airfield) -> Seq<AirWing> {
    wings.filter(
        |wing: AirWing|
            wing.airfield_id == field.id && wing.state != AirWingState::Evacuated
                && wing.sovereign_country_id != field.controller_country_id,
    )
}

/// How many wings a field hosts for its controller and for others. Evacuated wings take no room.
pub fn field_occupancy(wings: &[AirWing], field: &Airfield) -> (occupancy: (u32, u32))
    requires
        wings@.len() <= u32::MAX,
    ensures
        occupancy.0 == national_wings(wings@, *field).len(),
        occupancy.1 == allied_wings(wings@, *field).len(),
        occupancy.0 + occupancy.1 <= wings@.len(),
{
    let ghost own = |wing: AirWing|
        wing.airfield_id == field.id && wing.state != AirWingState::Evacuated
            && wing.sovereign_country_id == field.controller_country_id;
    let ghost other = |wing: AirWing|
        wing.airfield_id == field.id && wing.state != AirWingState::Evacuated
            && wing.sovereign_country_id != field.controller_country_id;
    let mut national: u32 = 0;
    let mut allied: u32 = 0;
    let mut index: usize = 0;
    proof {
        wings@.take(0).lemma_filter_len(own);
        wings@.take(0).lemma_filter_len(other);
    }
    while index < wings.len()
        invariant
            index <= wings@.len() <= u32::MAX,
            own == (|wing: AirWing|
                wing.airfield_id == field.id && wing.state != AirWingState::Evacuated
                    && wing.sovereign_country_id == field.controller_country_id),
            other == (|wing: AirWing|
                wing.airfield_id == field.id && wing.state != AirWingState::Evacuated
                    && wing.sovereign_country_id != field.controller_country_id),
            national == wings@.take(index as int).filter(own).len(),
            allied == wings@.take(index as int).filter(other).len(),
            national + allied <= index,
        decreases wings@.len() - index,
    {
        let wing = wings[index];
        proof {
            let seen = wings@.take(index as int);
            assert(wings@.take(index + 1) =~= seen.push(wing));
            seen.lemma_filter_push(wing, own);
            seen.lemma_filter_push(wing, other);
        }
        if wing.airfield_id == field.id && wing.state != AirWingState::Evacuated {
            if wing.sovereign_country_id == field.controller_country_id {
                national = national + 1;
            } else {
                allied = allied + 1;
            }
        }
        index = index + 1;
    }
    assert(wings@.take(wings@.len() as int) =~= wings@);
    (national, allied)
}

/// Wings that show on the map: not empty and not evacuated.
pub open spec fn live_markers(wings: Seq<AirWing>) -> Seq<AirWing> {
    wings.filter(|wing: AirWing| wing.count > 0 && wing.state != AirWingState::Evacuated)
}

pub fn live_air_wing_markers(wings: &[AirWing]) -> (markers: usize)
    ensures
        markers == live_markers(wings@).len(),
        markers <= wings@.len(),
{
    let ghost live = |wing: AirWing| wing.count > 0 && wing.state != AirWingState::Evacuated;
    let mut markers: usize = 0;
    let mut index: usize = 0;
    proof {
        wings@.take(0).lemma_filter_len(live);
    }
    while index < wings.len()
        invariant
            index <= wings@.len(),
            live == (|wing: AirWing| wing.count > 0 && wing.state != AirWingState::Evacuated),
            markers == wings@.take(index as int).filter(live).len(),
            markers <= index,
        decreases wings@.len() - index,
    {
        let wing = wings[index];
        proof {
            let seen = wings@.take(index as int);
            assert(wings@.take(index + 1) =~= seen.push(wing));
            seen.lemma_filter_push(wing, live);
        }
        if wing.count > 0 && wing.state != AirWingState::Evacuated {
            markers = markers + 1;
        }
        index = index + 1;
    }
    assert(wings@.take(wings@.len() as int) =~= wings@);
    markers
}

} // verus!
