//! The air stage of a tick: what the air kernel is told, and the damage that it deals.

use std::collections::BTreeMap;
use vstd::prelude::*;
use crate::air::{AirPowerState, AirTargetKind};
use crate::casualties::{counts_as_damage, AirAdvanceOutcome, DamageCommand, LandDamage};
use crate::economy::{CommandBand, EconomyState};
use crate::operations::{ForceModel, OperationalRuntimeState, TaskForcePhase};
use crate::order::{rank_order, sort_stable, stable_sorted, Ranked};
use crate::runtime::error::RuntimeError;
use crate::runtime::world::StrategicState;
use crate::scalar::{real_of, Real, ONE_BITS};
use crate::tables::{ascending, formation_keys, lemma_only_ascending, ordered_countries};
use crate::taskforce::first_point;
use crate::units::{SimulationUnit, UnitKind};
use crate::worksheet::{integer, sum, Operation, Reader};

verus! {

/// How often air missions are chosen.
pub const AIR_MISSION_INTERVAL: u64 = 120;

/// When, within that interval, airfields change hands.
pub const AIRFIELD_CONTROLLER_PHASE: u64 = 47;

/// Whether airfields change hands at a tick.
pub fn airfield_controller_update_due(tick: u64) -> (due: bool)
    ensures
        due == (tick % AIR_MISSION_INTERVAL == AIRFIELD_CONTROLLER_PHASE),
{
    tick % AIR_MISSION_INTERVAL == AIRFIELD_CONTROLLER_PHASE
}

/// A formation as a target from the air.
#[derive(Clone, Copy, Debug, PartialEq, Eq, Structural)]
pub struct AirUnitTarget {
    pub id: u64,
    pub side: usize,
    pub country_id: u16,
    pub lat: Real,
    pub lng: Real,
    pub kind: AirTargetKind,
    pub strength: Real,
    pub priority_area: bool,
}

/// Armour counts by its vehicles, an army as one.
pub open spec fn air_target(
    results: Map<Operation, u64>,
    unit: SimulationUnit,
) -> Result<AirUnitTarget, RuntimeError> {
    if unit.combat.side > usize::MAX {
        Err(RuntimeError::InvalidCheckpoint("air target side exceeds platform"))
    } else if unit.combat.sovereign > u16::MAX {
        Err(RuntimeError::InvalidCheckpoint("invalid unit sovereign"))
    } else {
        Ok(
            AirUnitTarget {
                id: unit.combat.id,
                side: unit.combat.side as usize,
                country_id: unit.combat.sovereign as u16,
                lat: unit.combat.lat,
                lng: unit.combat.lng,
                kind: match unit.combat.kind {
                    UnitKind::Army => AirTargetKind::Army,
                    UnitKind::Armor => AirTargetKind::Armor,
                },
                strength: match unit.combat.kind {
                    UnitKind::Army => real_of(ONE_BITS),
                    UnitKind::Armor => integer(results, unit.combat.equipment),
                },
                priority_area: false,
            },
        )
    }
}

/// The first formations as targets.
pub open spec fn air_targets(
    results: Map<Operation, u64>,
    units: Seq<SimulationUnit>,
    count: nat,
) -> Result<Seq<AirUnitTarget>, RuntimeError>
    decreases count,
{
    if count == 0 {
        Ok(Seq::empty())
    } else {
        match air_targets(results, units, (count - 1) as nat) {
            Err(error) => Err(error),
            Ok(rest) => match air_target(results, units[count - 1]) {
                Err(error) => Err(error),
                Ok(target) => Ok(rest.push(target)),
            },
        }
    }
}

proof fn lemma_air_targets_fail(
    results: Map<Operation, u64>,
    units: Seq<SimulationUnit>,
    count: nat,
    whole: nat,
)
    requires
        count <= whole,
        air_targets(results, units, count) is Err,
    ensures
        air_targets(results, units, whole) == air_targets(results, units, count),
    decreases whole - count,
{
    if count < whole {
        lemma_air_targets_fail(results, units, count, (whole - 1) as nat);
    }
}

/// Whether a worksheet holds all that describing targets takes.
pub open spec fn targets_supplied(
    results: Map<Operation, u64>,
    units: Seq<SimulationUnit>,
) -> bool {
    forall|k: int|
        0 <= k < units.len() && (#[trigger] units[k]).combat.kind is Armor ==> results.contains_key(
            Operation::Integer(units[k].combat.equipment),
        )
}

pub fn air_unit_targets(units: &Vec<SimulationUnit>, reader: &mut Reader<'_>) -> (outcome: Result<
    Vec<AirUnitTarget>,
    RuntimeError,
>)
    requires
        old(reader).sound(),
    ensures
        final(reader)@ == old(reader)@,
        final(reader).sound(),
        final(reader).complete() ==> old(reader).complete() && (match outcome {
            Ok(targets) => air_targets(old(reader)@, units@, units@.len()) == Ok::<
                Seq<AirUnitTarget>,
                RuntimeError,
            >(targets@),
            Err(error) => air_targets(old(reader)@, units@, units@.len()) == Err::<
                Seq<AirUnitTarget>,
                RuntimeError,
            >(error),
        }),
        old(reader).complete() && targets_supplied(old(reader)@, units@) ==>
            final(reader).complete(),
{
    let ghost results = reader@;
    let ghost untouched = reader.complete();
    let mut targets: Vec<AirUnitTarget> = Vec::new();
    let mut at: usize = 0;
    while at < units.len()
        invariant
            at <= units@.len(),
            results == old(reader)@,
            untouched == old(reader).complete(),
            reader@ == results,
            reader.sound(),
            reader.complete() ==> untouched && air_targets(results, units@, at as nat) == Ok::<
                Seq<AirUnitTarget>,
                RuntimeError,
            >(targets@),
            untouched && targets_supplied(results, units@) ==> reader.complete(),
        decreases units@.len() - at,
    {
        let unit = units[at];
        if unit.combat.side > usize::MAX as u64 {
            proof {
                if reader.complete() {
                    lemma_air_targets_fail(results, units@, (at + 1) as nat, units@.len());
                }
            }
            return Err(RuntimeError::InvalidCheckpoint("air target side exceeds platform"));
        }
        if unit.combat.sovereign > 0xffff {
            proof {
                if reader.complete() {
                    lemma_air_targets_fail(results, units@, (at + 1) as nat, units@.len());
                }
            }
            return Err(RuntimeError::InvalidCheckpoint("invalid unit sovereign"));
        }
        let (kind, strength) = match unit.combat.kind {
            UnitKind::Army => (AirTargetKind::Army, Real::one()),
            UnitKind::Armor => (AirTargetKind::Armor, reader.integer(unit.combat.equipment)),
        };
        targets.push(
            AirUnitTarget {
                id: unit.combat.id,
                side: unit.combat.side as usize,
                country_id: unit.combat.sovereign as u16,
                lat: unit.combat.lat,
                lng: unit.combat.lng,
                kind,
                strength,
                priority_area: false,
            },
        );
        at = at + 1;
    }
    Ok(targets)
}

/// An area where a side wants its aircraft.
#[derive(Clone, Copy, Debug, PartialEq, Eq, Structural)]
pub struct AirPriorityArea {
    pub side: usize,
    pub lat: Real,
    pub lng: Real,
    pub radius_km: Real,
}

impl Ranked for AirPriorityArea {
    open spec fn ranks_before(self, other: Self) -> bool {
        self.side < other.side || (self.side == other.side && (self.lat.total_rank()
            < other.lat.total_rank() || (self.lat.total_rank() == other.lat.total_rank()
            && self.lng.total_rank() < other.lng.total_rank())))
    }

    fn is_before(&self, other: &Self) -> (answer: bool) {
        self.side < other.side || (self.side == other.side && (self.lat.precedes(other.lat) || (
        !other.lat.precedes(self.lat) && self.lng.precedes(other.lng))))
    }
}

/// Where a task force that prepares, attacks or consolidates wants support.
pub open spec fn priority_area(force: ForceModel, radius_km: Real) -> Option<AirPriorityArea> {
    if force.phase is Assembling || force.phase is Attacking || force.phase is Consolidating {
        match first_point(force.target, force.staging_anchor) {
            Some(place) => Some(
                AirPriorityArea {
                    side: force.side_index,
                    lat: place.lat,
                    lng: place.lng,
                    radius_km,
                },
            ),
            None => None,
        }
    } else {
        None
    }
}

/// The areas of the first task forces.
pub open spec fn priority_areas(
    forces: Seq<ForceModel>,
    radius_km: Real,
    count: nat,
) -> Seq<AirPriorityArea>
    decreases count,
{
    if count == 0 {
        Seq::empty()
    } else {
        let rest = priority_areas(forces, radius_km, (count - 1) as nat);
        match priority_area(forces[count - 1], radius_km) {
            Some(area) => rest.push(area),
            None => rest,
        }
    }
}

/// Neighbours that are the same count once.
pub open spec fn without_repeats(areas: Seq<AirPriorityArea>) -> Seq<AirPriorityArea>
    decreases areas.len(),
{
    if areas.len() == 0 {
        areas
    } else {
        let rest = without_repeats(areas.drop_last());
        if rest.len() > 0 && rest.last() == areas.last() {
            rest
        } else {
            rest.push(areas.last())
        }
    }
}

/// The areas where the sides want their aircraft, in order.
pub fn air_priority_areas(
    operations: Option<&OperationalRuntimeState>,
    radius_km: Real,
) -> (areas: Vec<AirPriorityArea>)
    ensures
        areas@ == (match operations {
            Some(state) => without_repeats(
                stable_sorted(
                    priority_areas(
                        state@.task_forces,
                        radius_km,
                        state@.task_forces.len(),
                    ),
                    rank_order::<AirPriorityArea>(),
                ),
            ),
            None => Seq::empty(),
        }),
{
    let mut areas: Vec<AirPriorityArea> = Vec::new();
    let state = match operations {
        Some(state) => state,
        None => {
            return areas;
        },
    };
    let ghost forces = state@.task_forces;
    let mut at: usize = 0;
    while at < state.task_forces.len()
        invariant
            at <= state.task_forces@.len(),
            forces == state@.task_forces,
            areas@ == priority_areas(forces, radius_km, at as nat),
        decreases state.task_forces@.len() - at,
    {
        let force = &state.task_forces[at];
        assert(forces[at as int] == force@);
        if force.phase == TaskForcePhase::Assembling || force.phase == TaskForcePhase::Attacking
            || force.phase == TaskForcePhase::Consolidating {
            let place = match force.target {
                Some(point) => Some(point),
                None => force.staging_anchor,
            };
            if let Some(point) = place {
                areas.push(
                    AirPriorityArea {
                        side: force.side_index,
                        lat: point.lat,
                        lng: point.lng,
                        radius_km,
                    },
                );
            }
        }
        at = at + 1;
    }
    let ordered = sort_stable(areas);
    let mut unique: Vec<AirPriorityArea> = Vec::new();
    let mut index: usize = 0;
    assert(ordered@.take(0) =~= Seq::<AirPriorityArea>::empty());
    while index < ordered.len()
        invariant
            index <= ordered@.len(),
            unique@ == without_repeats(ordered@.take(index as int)),
        decreases ordered@.len() - index,
    {
        let area = ordered[index];
        proof {
            assert(ordered@.take(index + 1).drop_last() =~= ordered@.take(index as int));
            assert(ordered@.take(index + 1).last() == area);
        }
        let repeated = unique.len() > 0 && unique[unique.len() - 1] == area;
        if !repeated {
            unique.push(area);
        }
        index = index + 1;
    }
    assert(ordered@.take(ordered@.len() as int) =~= ordered@);
    unique
}

/// How the countries obey.
pub open spec fn bands_of(economies: Map<u16, EconomyState>) -> Map<u16, CommandBand> {
    economies.map_values(|economy: EconomyState| economy.command_band)
}

/// How the countries obey, and how far their air operations are paid for. A country that has
/// capitulated flies no more.
pub fn air_country_policy(
    strategic: &StrategicState,
    air_power: &AirPowerState,
) -> (policy: (BTreeMap<u16, CommandBand>, BTreeMap<u16, Real>))
    ensures
        policy.0@ == bands_of(strategic.economies@),
        policy.1@ == paid_coverage(strategic.economies@, *air_power, air_power.country_coverage@.len()),
{
    broadcast use vstd::std_specs::btree::group_btree_axioms;

    let keys = ordered_countries(&strategic.economies);
    let mut bands: BTreeMap<u16, CommandBand> = BTreeMap::new();
    let mut at: usize = 0;
    while at < keys.len()
        invariant
            at <= keys@.len(),
            forall|i: int|
                0 <= i < keys@.len() ==> strategic.economies@.contains_key(#[trigger] keys@[i]),
            forall|key: u16|
                #[trigger] bands@.contains_key(key) == keys@.take(at as int).contains(key),
            forall|key: u16|
                #[trigger] bands@.contains_key(key) ==> strategic.economies@.contains_key(key)
                    && bands@[key] == strategic.economies@[key].command_band,
        decreases keys@.len() - at,
    {
        broadcast use vstd::std_specs::btree::group_btree_axioms;

        let key: u16 = keys[at];
        let band = strategic.economies.get(&key).unwrap().command_band;
        let ghost before = bands@;
        bands.insert(key, band);
        proof {
            assert(keys@.take(at + 1) =~= keys@.take(at as int).push(key));
            assert forall|other: u16| #[trigger] bands@.contains_key(other) == keys@.take(
                at + 1,
            ).contains(other) by {
                crate::order::lemma_push_contains(keys@.take(at as int), key, other);
                assert(before.contains_key(other) == keys@.take(at as int).contains(other));
            }
            assert forall|other: u16| #[trigger] bands@.contains_key(other) implies
                strategic.economies@.contains_key(other) && bands@[other]
                == strategic.economies@[other].command_band by {
                if other != key {
                    assert(before.contains_key(other));
                }
            }
        }
        at = at + 1;
    }
    proof {
        assert(keys@.take(keys@.len() as int) =~= keys@);
        let wanted = bands_of(strategic.economies@);
        assert forall|key: u16| bands@.contains_key(key) == wanted.contains_key(key) by {
            assert(bands@.contains_key(key) == keys@.contains(key));
            if strategic.economies@.contains_key(key) {
                assert(keys@.contains(key));
            }
        }
        assert(bands@ =~= wanted);
    }
    let mut coverage: BTreeMap<u16, Real> = BTreeMap::new();
    let mut index: usize = 0;
    while index < air_power.country_coverage.len()
        invariant
            index <= air_power.country_coverage@.len(),
            coverage@ == paid_coverage(strategic.economies@, *air_power, index as nat),
        decreases air_power.country_coverage@.len() - index,
    {
        broadcast use vstd::std_specs::btree::group_btree_axioms;

        let entry = air_power.country_coverage[index];
        let capitulated = match strategic.economies.get(&entry.country_id) {
            Some(economy) => economy.capitulated,
            None => false,
        };
        coverage.insert(
            entry.country_id,
            if capitulated {
                Real::zero()
            } else {
                entry.operations_coverage
            },
        );
        index = index + 1;
    }
    (bands, coverage)
}

/// How far the air operations of the first countries are paid for.
pub open spec fn paid_coverage(
    economies: Map<u16, EconomyState>,
    air_power: AirPowerState,
    count: nat,
) -> Map<u16, Real>
    decreases count,
{
    if count == 0 {
        Map::empty()
    } else {
        let entry = air_power.country_coverage@[count - 1];
        paid_coverage(economies, air_power, (count - 1) as nat).insert(
            entry.country_id,
            if economies.contains_key(entry.country_id)
                && economies[entry.country_id].capitulated {
                real_of(0)
            } else {
                entry.operations_coverage
            },
        )
    }
}

/// Damage to each unit over the first entries.
pub open spec fn damage_by_unit(
    results: Map<Operation, u64>,
    damage: Seq<LandDamage>,
    count: nat,
) -> Map<u64, Real>
    decreases count,
{
    if count == 0 {
        Map::empty()
    } else {
        let rest = damage_by_unit(results, damage, (count - 1) as nat);
        let entry = damage[count - 1];
        rest.insert(
            entry.unit_id,
            sum(
                results,
                if rest.contains_key(entry.unit_id) {
                    rest[entry.unit_id]
                } else {
                    real_of(0)
                },
                entry.damage,
            ),
        )
    }
}

/// The commands for the first damaged units.
pub open spec fn damage_orders(
    damage: Map<u64, Real>,
    keys: Seq<u64>,
    count: nat,
) -> Seq<DamageCommand>
    decreases count,
{
    if count == 0 {
        Seq::empty()
    } else {
        let rest = damage_orders(damage, keys, (count - 1) as nat);
        let unit_id = keys[count - 1];
        if counts_as_damage(damage[unit_id]) {
            rest.push(DamageCommand { unit_id, damage: damage[unit_id] })
        } else {
            rest
        }
    }
}

/// Whether a worksheet holds all that adding up the damage of strikes takes.
pub open spec fn damage_supplied(
    results: Map<Operation, u64>,
    damage: Seq<LandDamage>,
) -> bool {
    forall|k: int|
        0 <= k < damage.len() ==> ({
            let rest = damage_by_unit(results, damage, k as nat);
            let entry = #[trigger] damage[k];
            results.contains_key(
                Operation::Sum(
                    if rest.contains_key(entry.unit_id) {
                        rest[entry.unit_id]
                    } else {
                        real_of(0)
                    },
                    entry.damage,
                ),
            )
        })
}

/// The damage that the air war deals on land: one command for each unit, in the order of units.
pub fn air_damage_commands(outcome: &AirAdvanceOutcome, reader: &mut Reader<'_>) -> (commands: Vec<
    DamageCommand,
>)
    requires
        old(reader).sound(),
    ensures
        final(reader)@ == old(reader)@,
        final(reader).sound(),
        final(reader).complete() ==> old(reader).complete() && ({
            let damage = damage_by_unit(
                old(reader)@,
                outcome.land_damage@,
                outcome.land_damage@.len(),
            );
            let keys = ascending(damage.dom());
            commands@ == damage_orders(damage, keys, keys.len())
        }),
        old(reader).complete() && damage_supplied(old(reader)@, outcome.land_damage@) ==>
            final(reader).complete(),
{
    broadcast use vstd::std_specs::btree::group_btree_axioms;

    let ghost results = reader@;
    let ghost untouched = reader.complete();
    let mut totals: BTreeMap<u64, Real> = BTreeMap::new();
    let mut at: usize = 0;
    while at < outcome.land_damage.len()
        invariant
            at <= outcome.land_damage@.len(),
            reader@ == results,
            reader.sound(),
            reader.complete() ==> untouched && totals@ == damage_by_unit(
                results,
                outcome.land_damage@,
                at as nat,
            ),
            untouched && damage_supplied(results, outcome.land_damage@) ==> reader.complete(),
        decreases outcome.land_damage@.len() - at,
    {
        broadcast use vstd::std_specs::btree::group_btree_axioms;

        let entry = outcome.land_damage[at];
        let present = match totals.get(&entry.unit_id) {
            Some(amount) => *amount,
            None => Real::zero(),
        };
        let total = reader.sum(present, entry.damage);
        totals.insert(entry.unit_id, total);
        at = at + 1;
    }
    let keys = formation_keys(&totals);
    proof {
        lemma_only_ascending(keys@);
    }
    let mut commands: Vec<DamageCommand> = Vec::new();
    let mut index: usize = 0;
    while index < keys.len()
        invariant
            index <= keys@.len(),
            keys@.to_set() == totals@.dom(),
            commands@ == damage_orders(totals@, keys@, index as nat),
        decreases keys@.len() - index,
    {
        broadcast use vstd::std_specs::btree::group_btree_axioms;

        let unit_id: u64 = keys[index];
        assert(keys@.to_set().contains(unit_id));
        let damage = *totals.get(&unit_id).unwrap();
        if damage.is_finite() && Real::zero().less(damage) {
            commands.push(DamageCommand { unit_id, damage });
        }
        index = index + 1;
    }
    commands
}

} // verus!
