//! What a published frame shows of the battlefield.

use vstd::prelude::*;
use crate::order::{collected, lemma_collected_fail};
use crate::production::{cell_at, cell_supplied, grid_index};
use crate::runtime::battlefield::{
    BattlefieldLocalUnitResult, BattlefieldRuntimeState, BattlefieldUnitResult,
    BattlefieldUnitState,
};
use crate::runtime::error::RuntimeError;
use crate::runtime::tactics::StagedBattlefieldTick;
use crate::runtime::world::TerritoryControl;
use crate::scalar::{real_of, Real};
use crate::simulation::UnitSnapshot;
use crate::worksheet::{number_at, Operation, Reader};

verus! {

/// What the battlefield remembers of a formation: as staged, else as committed.
pub open spec fn memory_of(
    battlefield: BattlefieldRuntimeState,
    staged: Option<&StagedBattlefieldTick>,
    unit_id: u64,
) -> Option<BattlefieldUnitState> {
    if staged matches Some(stage) && stage.next_unit_state@.contains_key(unit_id) {
        Some(staged->0.next_unit_state@[unit_id])
    } else if battlefield.units@.contains_key(unit_id) {
        Some(battlefield.units@[unit_id])
    } else {
        None
    }
}

/// What the battlefield resolved for a formation, if it did.
pub open spec fn resolution_of(
    staged: Option<&StagedBattlefieldTick>,
    unit_id: u64,
) -> Option<BattlefieldUnitResult> {
    if staged matches Some(stage) && stage.resolved_by_id@.contains_key(unit_id) {
        Some(staged->0.resolved_by_id@[unit_id])
    } else {
        None
    }
}

/// What local tactics resolved for a formation, if they did.
pub open spec fn tactics_of(
    staged: Option<&StagedBattlefieldTick>,
    unit_id: u64,
) -> Option<BattlefieldLocalUnitResult> {
    if staged matches Some(stage) && stage.local_by_id@.contains_key(unit_id) {
        Some(staged->0.local_by_id@[unit_id])
    } else {
        None
    }
}

/// How mountainous a formation's place is shown to be.
pub open spec fn shown_intensity(
    results: Map<Operation, u64>,
    battlefield: BattlefieldRuntimeState,
    territory: TerritoryControl,
    staged: Option<&StagedBattlefieldTick>,
    unit: UnitSnapshot,
) -> Real {
    match resolution_of(staged, unit.id) {
        Some(resolved) => number_at(results, Operation::Single(resolved.cell.mountain_intensity)),
        None => if battlefield.mountains_enabled {
            match cell_at(results, territory.grid, unit.lat, unit.lng) {
                Some(cell) => battlefield.terrain_intensity@[cell],
                None => real_of(0),
            }
        } else {
            real_of(0)
        },
    }
}

/// A formation as a frame shows it, or why it cannot.
pub open spec fn shown_unit(
    results: Map<Operation, u64>,
    battlefield: BattlefieldRuntimeState,
    territory: TerritoryControl,
    staged: Option<&StagedBattlefieldTick>,
    units: Seq<UnitSnapshot>,
    at: int,
) -> Option<Result<UnitSnapshot, RuntimeError>> {
    let unit = units[at];
    match memory_of(battlefield, staged, unit.id) {
        None => Some(
            Err(
                RuntimeError::InvalidCheckpoint("battlefield state does not cover a published unit"),
            ),
        ),
        Some(memory) => {
            let intensity = shown_intensity(results, battlefield, territory, staged, unit);
            if !intensity.unit_interval() {
                Some(
                    Err(
                        RuntimeError::InvalidCheckpoint(
                            "published unit mountain intensity is invalid",
                        ),
                    ),
                )
            } else {
                Some(
                    Ok(
                        UnitSnapshot {
                            armor_supported: match tactics_of(staged, unit.id) {
                                Some(local) => local.armor_supported,
                                None => unit.armor_supported,
                            },
                            is_alpenjager: memory.is_alpenjager,
                            encircled_ticks: match resolution_of(staged, unit.id) {
                                Some(resolved) => resolved.encircled_ticks,
                                None => memory.encircled_ticks,
                            },
                            mountain_intensity: intensity,
                            ..unit
                        },
                    ),
                )
            }
        },
    }
}

pub open spec fn shown_units(
    results: Map<Operation, u64>,
    battlefield: BattlefieldRuntimeState,
    territory: TerritoryControl,
    staged: Option<&StagedBattlefieldTick>,
    units: Seq<UnitSnapshot>,
) -> spec_fn(int) -> Option<Result<UnitSnapshot, RuntimeError>> {
    |at: int| shown_unit(results, battlefield, territory, staged, units, at)
}

/// Whether a worksheet holds all that showing formations on a battlefield takes.
pub open spec fn visuals_supplied(
    results: Map<Operation, u64>,
    battlefield: BattlefieldRuntimeState,
    territory: TerritoryControl,
    staged: Option<&StagedBattlefieldTick>,
    units: Seq<UnitSnapshot>,
) -> bool {
    forall|k: int|
        0 <= k < units.len() ==> match resolution_of(staged, (#[trigger] units[k]).id) {
            Some(resolved) => results.contains_key(
                Operation::Single(resolved.cell.mountain_intensity),
            ),
            None => battlefield.mountains_enabled ==> cell_supplied(
                results,
                territory.grid,
                units[k].lat,
                units[k].lng,
            ),
        }
}

/// The formations of a frame with everything that the battlefield shows of them. Without a
/// battlefield they stay as they are.
pub fn enrich_unit_visuals(
    units: Vec<UnitSnapshot>,
    battlefield: Option<&BattlefieldRuntimeState>,
    territory: &TerritoryControl,
    staged: Option<&StagedBattlefieldTick>,
    reader: &mut Reader<'_>,
) -> (outcome: Result<Vec<UnitSnapshot>, RuntimeError>)
    requires
        old(reader).sound(),
        battlefield matches Some(state) ==> state.terrain_intensity@.len()
            == territory.grid.area(),
    ensures
        final(reader)@ == old(reader)@,
        final(reader).sound(),
        final(reader).complete() ==> old(reader).complete() && (match battlefield {
            None => outcome == Ok::<Vec<UnitSnapshot>, RuntimeError>(units),
            Some(state) => {
                let expected = collected(
                    shown_units(old(reader)@, *state, *territory, staged, units@),
                    units@.len(),
                );
                match outcome {
                    Ok(shown) => expected == Ok::<Seq<UnitSnapshot>, RuntimeError>(shown@),
                    Err(error) => expected == Err::<Seq<UnitSnapshot>, RuntimeError>(error),
                }
            },
        }),
        old(reader).complete() && (battlefield matches Some(state) ==> visuals_supplied(
            old(reader)@,
            *state,
            *territory,
            staged,
            units@,
        )) ==> final(reader).complete(),
{
    broadcast use vstd::std_specs::btree::group_btree_axioms;

    let state: &BattlefieldRuntimeState = match battlefield {
        None => {
            return Ok(units);
        },
        Some(state) => state,
    };
    let ghost results = reader@;
    let ghost untouched = reader.complete();
    let ghost entry = shown_units(results, *state, *territory, staged, units@);
    let mut shown: Vec<UnitSnapshot> = Vec::new();
    let mut at: usize = 0;
    while at < units.len()
        invariant
            at <= units@.len(),
            battlefield == Some(state),
            state.terrain_intensity@.len() == territory.grid.area(),
            results == old(reader)@,
            untouched == old(reader).complete(),
            entry == shown_units(results, *state, *territory, staged, units@),
            reader@ == results,
            reader.sound(),
            reader.complete() ==> untouched && collected(entry, at as nat) == Ok::<
                Seq<UnitSnapshot>,
                RuntimeError,
            >(shown@),
            untouched && visuals_supplied(results, *state, *territory, staged, units@)
                ==> reader.complete(),
        decreases units@.len() - at,
    {
        broadcast use vstd::std_specs::btree::group_btree_axioms;

        let mut unit = units[at];
        let id: u64 = unit.id;
        assert(entry(at as int) == shown_unit(
            results,
            *state,
            *territory,
            staged,
            units@,
            at as int,
        ));
        let mut memory: Option<BattlefieldUnitState> = None;
        let mut resolved: Option<BattlefieldUnitResult> = None;
        let mut local: Option<BattlefieldLocalUnitResult> = None;
        if let Some(stage) = staged {
            memory = match stage.next_unit_state.get(&id) {
                Some(memory) => Some(*memory),
                None => None,
            };
            resolved = match stage.resolved_by_id.get(&id) {
                Some(result) => Some(*result),
                None => None,
            };
            local = match stage.local_by_id.get(&id) {
                Some(result) => Some(*result),
                None => None,
            };
        }
        if memory.is_none() {
            memory = match state.units.get(&id) {
                Some(memory) => Some(*memory),
                None => None,
            };
        }
        assert(memory == memory_of(*state, staged, id));
        let known: BattlefieldUnitState = match memory {
            Some(memory) => memory,
            None => {
                proof {
                    if reader.complete() {
                        lemma_collected_fail(entry, (at + 1) as nat, units@.len());
                    }
                }
                return Err(
                    RuntimeError::InvalidCheckpoint(
                        "battlefield state does not cover a published unit",
                    ),
                );
            },
        };
        let intensity = match resolved {
            Some(result) => reader.gather_number(
                Operation::Single(result.cell.mountain_intensity),
            ),
            None => if state.mountains_enabled {
                match grid_index(territory.grid, unit.lat, unit.lng, reader) {
                    Some(cell) => state.terrain_intensity[cell],
                    None => Real::zero(),
                }
            } else {
                Real::zero()
            },
        };
        if !intensity.in_unit_interval() {
            proof {
                if reader.complete() {
                    lemma_collected_fail(entry, (at + 1) as nat, units@.len());
                }
            }
            return Err(
                RuntimeError::InvalidCheckpoint("published unit mountain intensity is invalid"),
            );
        }
        if let Some(result) = local {
            unit.armor_supported = result.armor_supported;
        }
        unit.is_alpenjager = known.is_alpenjager;
        unit.encircled_ticks = match resolved {
            Some(result) => result.encircled_ticks,
            None => known.encircled_ticks,
        };
        unit.mountain_intensity = intensity;
        shown.push(unit);
        at = at + 1;
    }
    Ok(shown)
}

} // verus!
