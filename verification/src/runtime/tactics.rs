//! The battlefield stage of a tick: what the battlefield kernels are told of every formation, and
//! what their answers change.

use std::collections::{BTreeMap, BTreeSet};
use vstd::prelude::*;
use crate::numbers::{N_0_25, N_0_45, N_0_5, N_0_6, N_0_8, N_0_96, N_200, N_50};
use crate::operations::WarPosture;
use crate::order::{collected, lemma_collected_fail};
use crate::production::ProductionCountry;
use crate::runtime::battlefield::{
    BattlefieldBuff, BattlefieldCountryState, BattlefieldLocalUnitResult, BattlefieldRuntimeState,
    BattlefieldUnitResult, BattlefieldUnitState, BattlefieldWarPhase, SideDynamics, WarPhase,
};
use crate::runtime::enlistment::{find_entry, first_entry};
use crate::runtime::error::RuntimeError;
use crate::runtime::planning::optional_map;
use crate::runtime::policy::{
    copy_policies, deploying, policies_view, unit_deploying, InfluenceModel, Policies,
    PolicyModel, RuntimeUnitPolicy, UnitAiPolicy,
};
use crate::runtime::world::TerritoryControl;
use crate::scalar::{real_of, Real, ONE_BITS};
use crate::strategic::{lemma_square, table_hostile};
use crate::units::{SimulationUnit, UnitKind};
use crate::worksheet::{product, quotient, Operation, Reader};

verus! {

/// A formation as local tactics see it.
#[derive(Clone, Copy, Debug, PartialEq, Eq, Structural)]
pub struct BattlefieldLocalUnitInput {
    pub id: u64,
    pub side: u16,
    pub sovereign: u16,
    pub kind: UnitKind,
    pub lat: Real,
    pub lng: Real,
    pub formation_strength: Real,
    pub refuses_offense: bool,
    pub previous_dir_lat: Real,
    pub previous_dir_lng: Real,
    pub task_force_key: Option<u64>,
}

pub open spec fn local_input(
    units: Seq<SimulationUnit>,
    strengths: Seq<Real>,
    policies: Policies,
    keys: Map<u64, u64>,
    at: int,
) -> Option<Result<BattlefieldLocalUnitInput, RuntimeError>> {
    let unit = units[at];
    let id = unit.combat.id;
    if unit.combat.sovereign > u16::MAX {
        Some(Err(RuntimeError::InvalidCheckpoint("invalid unit sovereign")))
    } else if unit.combat.side > u16::MAX {
        Some(Err(RuntimeError::InvalidCheckpoint("unit side exceeds SideKey")))
    } else if !policies.contains_key(id) {
        Some(Err(RuntimeError::InvalidUnitPolicy(id)))
    } else {
        Some(
            Ok(
                BattlefieldLocalUnitInput {
                    id,
                    side: unit.combat.side as u16,
                    sovereign: unit.combat.sovereign as u16,
                    kind: unit.combat.kind,
                    lat: unit.combat.lat,
                    lng: unit.combat.lng,
                    formation_strength: strengths[at],
                    refuses_offense: policies[id].influence matches Some(influence)
                        && influence.refuses_offense,
                    previous_dir_lat: unit.dir_lat,
                    previous_dir_lng: unit.dir_lng,
                    task_force_key: if keys.contains_key(id) {
                        Some(keys[id])
                    } else {
                        None
                    },
                },
            ),
        )
    }
}

pub open spec fn local_inputs(
    units: Seq<SimulationUnit>,
    strengths: Seq<Real>,
    policies: Policies,
    keys: Map<u64, u64>,
) -> spec_fn(int) -> Option<Result<BattlefieldLocalUnitInput, RuntimeError>> {
    |at: int| local_input(units, strengths, policies, keys, at)
}

/// The formations as local tactics see them.
pub fn battlefield_local_inputs(
    units: &Vec<SimulationUnit>,
    strengths: &Vec<Real>,
    policies: &BTreeMap<u64, RuntimeUnitPolicy>,
    keys: &BTreeMap<u64, u64>,
) -> (outcome: Result<Vec<BattlefieldLocalUnitInput>, RuntimeError>)
    requires
        strengths@.len() == units@.len(),
    ensures
        ({
            let expected = collected(
                local_inputs(units@, strengths@, policies_view(policies@), keys@),
                units@.len(),
            );
            match outcome {
                Ok(inputs) => expected == Ok::<Seq<BattlefieldLocalUnitInput>, RuntimeError>(
                    inputs@,
                ),
                Err(error) => expected == Err::<Seq<BattlefieldLocalUnitInput>, RuntimeError>(
                    error,
                ),
            }
        }),
{
    broadcast use vstd::std_specs::btree::group_btree_axioms;

    let ghost known = policies_view(policies@);
    let ghost entry = local_inputs(units@, strengths@, known, keys@);
    let mut inputs: Vec<BattlefieldLocalUnitInput> = Vec::new();
    let mut at: usize = 0;
    while at < units.len()
        invariant
            at <= units@.len(),
            strengths@.len() == units@.len(),
            known == policies_view(policies@),
            entry == local_inputs(units@, strengths@, known, keys@),
            collected(entry, at as nat) == Ok::<Seq<BattlefieldLocalUnitInput>, RuntimeError>(
                inputs@,
            ),
        decreases units@.len() - at,
    {
        broadcast use vstd::std_specs::btree::group_btree_axioms;

        let unit = units[at];
        let id: u64 = unit.combat.id;
        assert(known.contains_key(id) == policies@.contains_key(id));
        assert(entry(at as int) == local_input(units@, strengths@, known, keys@, at as int));
        if unit.combat.sovereign > 0xffff {
            proof {
                lemma_collected_fail(entry, (at + 1) as nat, units@.len());
            }
            return Err(RuntimeError::InvalidCheckpoint("invalid unit sovereign"));
        }
        if unit.combat.side > 0xffff {
            proof {
                lemma_collected_fail(entry, (at + 1) as nat, units@.len());
            }
            return Err(RuntimeError::InvalidCheckpoint("unit side exceeds SideKey"));
        }
        let refuses_offense = match policies.get(&id) {
            None => {
                proof {
                    lemma_collected_fail(entry, (at + 1) as nat, units@.len());
                }
                return Err(RuntimeError::InvalidUnitPolicy(id));
            },
            Some(policy) => {
                assert(known[id] == policy@);
                match &policy.influence {
                    Some(influence) => influence.refuses_offense,
                    None => false,
                }
            },
        };
        let task_force_key: Option<u64> = match keys.get(&id) {
            Some(key) => Some(*key),
            None => None,
        };
        inputs.push(
            BattlefieldLocalUnitInput {
                id,
                side: unit.combat.side as u16,
                sovereign: unit.combat.sovereign as u16,
                kind: unit.combat.kind,
                lat: unit.combat.lat,
                lng: unit.combat.lng,
                formation_strength: strengths[at],
                refuses_offense,
                previous_dir_lat: unit.dir_lat,
                previous_dir_lng: unit.dir_lng,
                task_force_key,
            },
        );
        at = at + 1;
    }
    Ok(inputs)
}

/// A formation as the battlefield kernel sees it.
#[derive(Clone, Copy, Debug, PartialEq, Eq, Structural)]
pub struct BattlefieldUnitInput {
    pub id: u64,
    pub side: u16,
    pub sovereign: u16,
    pub kind: UnitKind,
    pub transport: bool,
    pub lat: Real,
    pub lng: Real,
    pub formation_strength: Real,
    pub counts_for_capitulation: bool,
    pub armor_supported: bool,
    pub is_alpenjager: bool,
    pub victory_boost_ticks: u64,
    pub encircled_ticks: u64,
    pub last_combat_frame: Option<u64>,
    pub last_ally_count: u64,
    pub near_sovereign_city: bool,
    pub country: BattlefieldCountryState,
}

/// The phase of a war as the battlefield tells phases apart.
pub open spec fn battlefield_phase(phase: WarPhase) -> BattlefieldWarPhase {
    match phase {
        WarPhase::Advancing => BattlefieldWarPhase::Advancing,
        WarPhase::Collapsing => BattlefieldWarPhase::Collapsing,
        _ => BattlefieldWarPhase::Stable,
    }
}

/// The fastest that a defending side moves; slower the fewer people it has left.
pub open spec fn defensive_speed(results: Map<Operation, u64>, dynamics: SideDynamics) -> Real {
    let ratio = if real_of(0).lt(dynamics.initial_personnel) {
        quotient(results, dynamics.current_personnel, dynamics.initial_personnel).max_of(
            real_of(0),
        )
    } else {
        real_of(0)
    };
    let scale = if ratio.lt(real_of(N_0_25)) {
        real_of(N_0_6)
    } else if ratio.lt(real_of(N_0_5)) {
        real_of(N_0_8)
    } else {
        real_of(ONE_BITS)
    };
    product(results, real_of(N_0_96), scale)
}

/// A country under the momentum of its side.
pub open spec fn driven_country(
    results: Map<Operation, u64>,
    country: BattlefieldCountryState,
    dynamics: Option<Map<usize, SideDynamics>>,
    side: usize,
) -> BattlefieldCountryState {
    if dynamics matches Some(table) && table.contains_key(side) {
        let state = dynamics->0[side];
        BattlefieldCountryState {
            war_phase: battlefield_phase(state.phase),
            ai_speed_multiplier: if state.posture is Defensive {
                country.ai_speed_multiplier.min_of(defensive_speed(results, state))
            } else {
                country.ai_speed_multiplier
            },
            ..country
        }
    } else {
        country
    }
}

/// Whether the side that dominates a capital is an enemy.
pub open spec fn capital_taken(
    territory: TerritoryControl,
    hostility: Seq<u8>,
    side: usize,
    holder: i16,
) -> bool {
    &&& 0 <= holder < territory.max_sides
    &&& holder != side
    &&& side < territory.max_sides
    &&& table_hostile(hostility, territory.max_sides as int, side as int, holder as int)
}

/// How much a formation of a country weighs among its allies.
pub open spec fn ally_factor(buff: BattlefieldBuff) -> Real {
    match buff {
        BattlefieldBuff::Super => real_of(N_200),
        BattlefieldBuff::Buff => real_of(N_50),
        _ => real_of(ONE_BITS),
    }
}

/// Everything that the battlefield inputs depend on.
pub ghost struct BattlefieldScope {
    pub results: Map<Operation, u64>,
    pub units: Seq<SimulationUnit>,
    pub strengths: Seq<Real>,
    /// Whether each formation is near a city of its sovereign.
    pub near_city: Seq<bool>,
    pub memories: Map<u64, BattlefieldUnitState>,
    pub states: Map<u16, BattlefieldCountryState>,
    pub countries: Seq<ProductionCountry>,
    pub territory: TerritoryControl,
    pub hostility: Seq<u8>,
    pub dynamics: Option<Map<usize, SideDynamics>>,
}

/// The state of a formation's country, if it can be told.
pub open spec fn country_state(
    scope: BattlefieldScope,
    sovereign: u16,
    side: usize,
) -> Result<BattlefieldCountryState, RuntimeError> {
    if !scope.states.contains_key(sovereign) {
        Err(RuntimeError::InvalidCheckpoint("battlefield country state is missing"))
    } else {
        let driven = driven_country(
            scope.results,
            scope.states[sovereign],
            scope.dynamics,
            side,
        );
        let capital = match first_entry(scope.countries, sovereign, 0) {
            Some(country) => country.capital_cell,
            None => None,
        };
        match capital {
            None => Ok(driven),
            Some(cell) => if cell >= scope.territory.dominant_side@.len() {
                Err(
                    RuntimeError::InvalidCheckpoint("country capital is outside the territory grid"),
                )
            } else {
                Ok(
                    BattlefieldCountryState {
                        capital_lost: capital_taken(
                            scope.territory,
                            scope.hostility,
                            side,
                            scope.territory.dominant_side@[cell as int],
                        ),
                        ..driven
                    },
                )
            },
        }
    }
}

pub open spec fn battlefield_input(
    scope: BattlefieldScope,
    at: int,
) -> Option<Result<BattlefieldUnitInput, RuntimeError>> {
    let unit = scope.units[at];
    let id = unit.combat.id;
    let sovereign = unit.combat.sovereign as u16;
    let side = unit.combat.side as usize;
    if unit.combat.sovereign > u16::MAX {
        Some(Err(RuntimeError::InvalidCheckpoint("invalid unit sovereign")))
    } else if unit.combat.side > u16::MAX {
        Some(Err(RuntimeError::InvalidCheckpoint("unit side exceeds SideKey")))
    } else if !scope.memories.contains_key(id) {
        Some(
            Err(
                RuntimeError::InvalidCheckpoint("battlefield state does not cover a live unit"),
            ),
        )
    } else {
        match country_state(scope, sovereign, side) {
            Err(error) => Some(Err(error)),
            Ok(country) => Some(
                Ok(
                    BattlefieldUnitInput {
                        id,
                        side: side as u16,
                        sovereign,
                        kind: unit.combat.kind,
                        transport: unit.combat.transport,
                        lat: unit.combat.lat,
                        lng: unit.combat.lng,
                        formation_strength: scope.strengths[at],
                        counts_for_capitulation: real_of(0).lt(unit.combat.health) && (
                        unit.combat.kind is Army || unit.combat.equipment > 0),
                        armor_supported: unit.combat.armor_supported,
                        is_alpenjager: scope.memories[id].is_alpenjager,
                        victory_boost_ticks: unit.combat.victory_boost_ticks,
                        encircled_ticks: scope.memories[id].encircled_ticks,
                        last_combat_frame: if unit.combat.last_combat_tick != 0 {
                            Some(unit.combat.last_combat_tick)
                        } else {
                            None
                        },
                        last_ally_count: scope.memories[id].last_ally_count,
                        near_sovereign_city: scope.near_city[at],
                        country,
                    },
                ),
            ),
        }
    }
}

pub open spec fn battlefield_inputs(scope: BattlefieldScope) -> spec_fn(int) -> Option<
    Result<BattlefieldUnitInput, RuntimeError>,
> {
    |at: int| battlefield_input(scope, at)
}

/// How much each of the first formations weighs among its allies.
pub open spec fn ally_weights(
    results: Map<Operation, u64>,
    inputs: Seq<BattlefieldUnitInput>,
    count: nat,
) -> Map<u64, Real>
    decreases count,
{
    if count == 0 {
        Map::empty()
    } else {
        let input = inputs[count - 1];
        ally_weights(results, inputs, (count - 1) as nat).insert(
            input.id,
            product(results, input.formation_strength, ally_factor(input.country.influence_buff)),
        )
    }
}

/// Whether a worksheet holds all that the drive of a country takes.
pub open spec fn drive_supplied(
    results: Map<Operation, u64>,
    dynamics: Option<Map<usize, SideDynamics>>,
    side: usize,
) -> bool {
    dynamics matches Some(table) ==> (table.contains_key(side) && table[side].posture is Defensive
        ==> {
        let state = table[side];
        let ratio = if real_of(0).lt(state.initial_personnel) {
            quotient(results, state.current_personnel, state.initial_personnel).max_of(real_of(0))
        } else {
            real_of(0)
        };
        let scale = if ratio.lt(real_of(N_0_25)) {
            real_of(N_0_6)
        } else if ratio.lt(real_of(N_0_5)) {
            real_of(N_0_8)
        } else {
            real_of(ONE_BITS)
        };
        &&& real_of(0).lt(state.initial_personnel) ==> results.contains_key(
            Operation::Quotient(state.current_personnel, state.initial_personnel),
        )
        &&& results.contains_key(Operation::Product(real_of(N_0_96), scale))
    })
}

fn drive_country(
    country: BattlefieldCountryState,
    dynamics: Option<&BTreeMap<usize, SideDynamics>>,
    side: usize,
    reader: &mut Reader<'_>,
) -> (driven: BattlefieldCountryState)
    requires
        old(reader).sound(),
    ensures
        final(reader)@ == old(reader)@,
        final(reader).sound(),
        final(reader).complete() ==> old(reader).complete() && driven == driven_country(
            old(reader)@,
            country,
            optional_map(dynamics),
            side,
        ),
        old(reader).complete() && drive_supplied(old(reader)@, optional_map(dynamics), side) ==>
            final(reader).complete(),
{
    broadcast use vstd::std_specs::btree::group_btree_axioms;

    let mut driven = country;
    if let Some(table) = dynamics {
        if let Some(state) = table.get(&side) {
            driven.war_phase = match state.phase {
                WarPhase::Advancing => BattlefieldWarPhase::Advancing,
                WarPhase::Collapsing => BattlefieldWarPhase::Collapsing,
                WarPhase::Stalemate | WarPhase::Retreating => BattlefieldWarPhase::Stable,
            };
            if state.posture == WarPosture::Defensive {
                let ratio = if Real::zero().less(state.initial_personnel) {
                    reader.quotient(state.current_personnel, state.initial_personnel).larger(
                        Real::zero(),
                    )
                } else {
                    Real::zero()
                };
                let scale = if ratio.less(Real::from_bits(N_0_25)) {
                    Real::from_bits(N_0_6)
                } else if ratio.less(Real::from_bits(N_0_5)) {
                    Real::from_bits(N_0_8)
                } else {
                    Real::one()
                };
                let limit = reader.product(Real::from_bits(N_0_96), scale);
                driven.ai_speed_multiplier = driven.ai_speed_multiplier.smaller(limit);
            }
        }
    }
    driven
}

fn is_capital_taken(territory: &TerritoryControl, hostility: &Vec<u8>, side: usize, holder: i16) -> (
    answer: bool)
    requires
        hostility@.len() == territory.max_sides * territory.max_sides,
    ensures
        answer == capital_taken(*territory, hostility@, side, holder),
{
    if holder < 0 {
        return false;
    }
    let other: usize = holder as usize;
    if other >= territory.max_sides || other == side || side >= territory.max_sides {
        return false;
    }
    proof {
        lemma_square(side as int, other as int, territory.max_sides as int);
        assert(0 <= side * territory.max_sides) by (nonlinear_arith)
            requires
                0 <= side,
                0 <= territory.max_sides,
        ;
        assert(hostility.len() == hostility@.len());
    }
    hostility[side * territory.max_sides + other] == 1
}

/// Whether a worksheet holds all that describing formations to the battlefield takes.
pub open spec fn field_supplied(scope: BattlefieldScope) -> bool {
    forall|k: int|
        0 <= k < scope.units.len() ==> ({
            let unit = (#[trigger] scope.units[k]).combat;
            let sovereign = unit.sovereign as u16;
            &&& drive_supplied(scope.results, scope.dynamics, unit.side as usize)
            &&& scope.states.contains_key(sovereign) ==> scope.results.contains_key(
                Operation::Product(
                    scope.strengths[k],
                    ally_factor(scope.states[sovereign].influence_buff),
                ),
            )
        })
}

/// The formations as the battlefield kernel sees them, and how much each weighs among its allies.
pub fn battlefield_unit_inputs(
    units: &Vec<SimulationUnit>,
    strengths: &Vec<Real>,
    near_city: &Vec<bool>,
    state: &BattlefieldRuntimeState,
    countries: &Vec<ProductionCountry>,
    territory: &TerritoryControl,
    hostility: &Vec<u8>,
    dynamics: Option<&BTreeMap<usize, SideDynamics>>,
    reader: &mut Reader<'_>,
) -> (outcome: Result<(Vec<BattlefieldUnitInput>, BTreeMap<u64, Real>), RuntimeError>)
    requires
        old(reader).sound(),
        strengths@.len() == units@.len(),
        near_city@.len() == units@.len(),
        hostility@.len() == territory.max_sides * territory.max_sides,
    ensures
        final(reader)@ == old(reader)@,
        final(reader).sound(),
        final(reader).complete() ==> old(reader).complete() && ({
            let expected = collected(
                battlefield_inputs(
                    BattlefieldScope {
                        results: old(reader)@,
                        units: units@,
                        strengths: strengths@,
                        near_city: near_city@,
                        memories: state.units@,
                        states: state.countries@,
                        countries: countries@,
                        territory: *territory,
                        hostility: hostility@,
                        dynamics: optional_map(dynamics),
                    },
                ),
                units@.len(),
            );
            match outcome {
                Ok((inputs, weights)) => expected == Ok::<Seq<BattlefieldUnitInput>, RuntimeError>(
                    inputs@,
                ) && weights@ == ally_weights(old(reader)@, inputs@, inputs@.len()),
                Err(error) => expected == Err::<Seq<BattlefieldUnitInput>, RuntimeError>(error),
            }
        }),
        old(reader).complete() && field_supplied(
            BattlefieldScope {
                results: old(reader)@,
                units: units@,
                strengths: strengths@,
                near_city: near_city@,
                memories: state.units@,
                states: state.countries@,
                countries: countries@,
                territory: *territory,
                hostility: hostility@,
                dynamics: optional_map(dynamics),
            },
        ) ==> final(reader).complete(),
{
    broadcast use vstd::std_specs::btree::group_btree_axioms;

    let ghost results = reader@;
    let ghost untouched = reader.complete();
    let ghost scope = BattlefieldScope {
        results: reader@,
        units: units@,
        strengths: strengths@,
        near_city: near_city@,
        memories: state.units@,
        states: state.countries@,
        countries: countries@,
        territory: *territory,
        hostility: hostility@,
        dynamics: optional_map(dynamics),
    };
    let ghost entry = battlefield_inputs(scope);
    let mut inputs: Vec<BattlefieldUnitInput> = Vec::new();
    let mut weights: BTreeMap<u64, Real> = BTreeMap::new();
    let mut at: usize = 0;
    while at < units.len()
        invariant
            at <= units@.len(),
            strengths@.len() == units@.len(),
            near_city@.len() == units@.len(),
            hostility@.len() == territory.max_sides * territory.max_sides,
            results == old(reader)@,
            untouched == old(reader).complete(),
            scope == (BattlefieldScope {
                results,
                units: units@,
                strengths: strengths@,
                near_city: near_city@,
                memories: state.units@,
                states: state.countries@,
                countries: countries@,
                territory: *territory,
                hostility: hostility@,
                dynamics: optional_map(dynamics),
            }),
            entry == battlefield_inputs(scope),
            reader@ == results,
            reader.sound(),
            reader.complete() ==> untouched && collected(entry, at as nat) == Ok::<
                Seq<BattlefieldUnitInput>,
                RuntimeError,
            >(inputs@) && weights@ == ally_weights(results, inputs@, inputs@.len()),
            untouched && field_supplied(scope) ==> reader.complete(),
        decreases units@.len() - at,
    {
        assert(scope.units[at as int] == units@[at as int]);
        broadcast use vstd::std_specs::btree::group_btree_axioms;

        let unit = units[at];
        let id: u64 = unit.combat.id;
        assert(entry(at as int) == battlefield_input(scope, at as int));
        if unit.combat.sovereign > 0xffff {
            proof {
                if reader.complete() {
                    lemma_collected_fail(entry, (at + 1) as nat, units@.len());
                }
            }
            return Err(RuntimeError::InvalidCheckpoint("invalid unit sovereign"));
        }
        if unit.combat.side > 0xffff {
            proof {
                if reader.complete() {
                    lemma_collected_fail(entry, (at + 1) as nat, units@.len());
                }
            }
            return Err(RuntimeError::InvalidCheckpoint("unit side exceeds SideKey"));
        }
        let sovereign: u16 = unit.combat.sovereign as u16;
        let side: usize = unit.combat.side as usize;
        let memory: BattlefieldUnitState = match state.units.get(&id) {
            Some(memory) => *memory,
            None => {
                proof {
                    if reader.complete() {
                        lemma_collected_fail(entry, (at + 1) as nat, units@.len());
                    }
                }
                return Err(
                    RuntimeError::InvalidCheckpoint("battlefield state does not cover a live unit"),
                );
            },
        };
        let standing: BattlefieldCountryState = match state.countries.get(&sovereign) {
            Some(country) => *country,
            None => {
                proof {
                    if reader.complete() {
                        lemma_collected_fail(entry, (at + 1) as nat, units@.len());
                    }
                }
                return Err(RuntimeError::InvalidCheckpoint("battlefield country state is missing"));
            },
        };
        let mut country = drive_country(standing, dynamics, side, reader);
        let capital: Option<usize> = match find_entry(countries, sovereign) {
            Some(place) => countries[place].capital_cell,
            None => None,
        };
        if let Some(cell) = capital {
            if cell >= territory.dominant_side.len() {
                proof {
                    if reader.complete() {
                        lemma_collected_fail(entry, (at + 1) as nat, units@.len());
                    }
                }
                return Err(
                    RuntimeError::InvalidCheckpoint("country capital is outside the territory grid"),
                );
            }
            let holder: i16 = territory.dominant_side[cell];
            country.capital_lost = is_capital_taken(territory, hostility, side, holder);
        }
        let factor = match country.influence_buff {
            BattlefieldBuff::Super => Real::from_bits(N_200),
            BattlefieldBuff::Buff => Real::from_bits(N_50),
            _ => Real::one(),
        };
        let weight = reader.product(strengths[at], factor);
        weights.insert(id, weight);
        let input = BattlefieldUnitInput {
            id,
            side: side as u16,
            sovereign,
            kind: unit.combat.kind,
            transport: unit.combat.transport,
            lat: unit.combat.lat,
            lng: unit.combat.lng,
            formation_strength: strengths[at],
            counts_for_capitulation: Real::zero().less(unit.combat.health) && (unit.combat.kind
                == UnitKind::Army || unit.combat.equipment > 0),
            armor_supported: unit.combat.armor_supported,
            is_alpenjager: memory.is_alpenjager,
            victory_boost_ticks: unit.combat.victory_boost_ticks,
            encircled_ticks: memory.encircled_ticks,
            last_combat_frame: if unit.combat.last_combat_tick != 0 {
                Some(unit.combat.last_combat_tick)
            } else {
                None
            },
            last_ally_count: memory.last_ally_count,
            near_sovereign_city: near_city[at],
            country,
        };
        let ghost before = inputs@;
        inputs.push(input);
        proof {
            lemma_weights_prefix(results, before, inputs@, before.len());
        }
        at = at + 1;
    }
    Ok((inputs, weights))
}

proof fn lemma_weights_prefix(
    results: Map<Operation, u64>,
    left: Seq<BattlefieldUnitInput>,
    right: Seq<BattlefieldUnitInput>,
    count: nat,
)
    requires
        count <= left.len(),
        count <= right.len(),
        forall|i: int| 0 <= i < count ==> left[i] == right[i],
    ensures
        ally_weights(results, left, count) == ally_weights(results, right, count),
    decreases count,
{
    if count > 0 {
        lemma_weights_prefix(results, left, right, (count - 1) as nat);
    }
}

/// The last formation with an id among the first.
pub open spec fn unit_called(
    units: Seq<SimulationUnit>,
    unit_id: u64,
    count: nat,
) -> Option<SimulationUnit>
    decreases count,
{
    if count == 0 {
        None
    } else if units[count - 1].combat.id == unit_id {
        Some(units[count - 1])
    } else {
        unit_called(units, unit_id, (count - 1) as nat)
    }
}

/// Whether a table finds every formation by its id.
pub open spec fn finds_units(
    index: Map<u64, usize>,
    units: Seq<SimulationUnit>,
    count: nat,
) -> bool {
    forall|unit_id: u64|
        #![trigger index.contains_key(unit_id)]
        match unit_called(units, unit_id, count) {
            Some(unit) => index.contains_key(unit_id) && index[unit_id] < units.len()
                && units[index[unit_id] as int] == unit,
            None => !index.contains_key(unit_id),
        }
}

/// A table that finds every formation by its id.
pub fn index_formations(units: &Vec<SimulationUnit>) -> (index: BTreeMap<u64, usize>)
    ensures
        finds_units(index@, units@, units@.len()),
{
    broadcast use vstd::std_specs::btree::group_btree_axioms;

    let mut index: BTreeMap<u64, usize> = BTreeMap::new();
    let mut at: usize = 0;
    while at < units.len()
        invariant
            at <= units@.len(),
            finds_units(index@, units@, at as nat),
        decreases units@.len() - at,
    {
        broadcast use vstd::std_specs::btree::group_btree_axioms;

        let ghost before = index@;
        index.insert(units[at].combat.id, at);
        proof {
            assert forall|unit_id: u64|
                #![trigger index@.contains_key(unit_id)]
                match unit_called(units@, unit_id, (at + 1) as nat) {
                    Some(unit) => index@.contains_key(unit_id) && index@[unit_id] < units@.len()
                        && units@[index@[unit_id] as int] == unit,
                    None => !index@.contains_key(unit_id),
                } by {
                assert(before.contains_key(unit_id) || !before.contains_key(unit_id));
            }
        }
        at = at + 1;
    }
    index
}

/// What local tactics said of a formation; the last word counts.
pub open spec fn local_called(
    local: Seq<BattlefieldLocalUnitResult>,
    count: nat,
) -> Map<u64, BattlefieldLocalUnitResult>
    decreases count,
{
    if count == 0 {
        Map::empty()
    } else {
        local_called(local, (count - 1) as nat).insert(local[count - 1].unit_id, local[count - 1])
    }
}

fn index_local(local: &Vec<BattlefieldLocalUnitResult>) -> (table: BTreeMap<
    u64,
    BattlefieldLocalUnitResult,
>)
    ensures
        table@ == local_called(local@, local@.len()),
{
    broadcast use vstd::std_specs::btree::group_btree_axioms;

    let mut table: BTreeMap<u64, BattlefieldLocalUnitResult> = BTreeMap::new();
    let mut at: usize = 0;
    while at < local.len()
        invariant
            at <= local@.len(),
            table@ == local_called(local@, at as nat),
        decreases local@.len() - at,
    {
        broadcast use vstd::std_specs::btree::group_btree_axioms;

        table.insert(local[at].unit_id, local[at]);
        at = at + 1;
    }
    table
}

/// A battlefield tick that is not committed yet.
#[derive(Debug)]
pub struct StagedBattlefieldTick {
    pub policies: BTreeMap<u64, RuntimeUnitPolicy>,
    pub next_unit_state: BTreeMap<u64, BattlefieldUnitState>,
    pub resolved_by_id: BTreeMap<u64, BattlefieldUnitResult>,
    pub local_by_id: BTreeMap<u64, BattlefieldLocalUnitResult>,
    pub ally_weight_by_id: BTreeMap<u64, Real>,
    pub influence_eligible: BTreeSet<u64>,
}

/// What a [`StagedBattlefieldTick`] says.
pub ghost struct BattlefieldModel {
    pub policies: Policies,
    pub next_unit_state: Map<u64, BattlefieldUnitState>,
    pub resolved_by_id: Map<u64, BattlefieldUnitResult>,
    pub local_by_id: Map<u64, BattlefieldLocalUnitResult>,
    pub ally_weight_by_id: Map<u64, Real>,
    pub influence_eligible: Set<u64>,
}

/// A policy after the battlefield resolved its formation.
pub open spec fn resolved_policy(
    results: Map<Operation, u64>,
    policy: PolicyModel,
    unit: SimulationUnit,
    result: BattlefieldUnitResult,
) -> PolicyModel {
    PolicyModel {
        ai: UnitAiPolicy {
            base_speed: result.base_speed,
            movement: result.movement,
            combat: result.combat,
            encircled: result.encircled,
            reinforcement_eligible: quotient(
                results,
                unit.combat.health,
                unit.combat.max_health.max_of(real_of(ONE_BITS)),
            ).lt(real_of(N_0_45)),
            ..policy.ai
        },
        influence: match policy.influence {
            Some(influence) => Some(
                InfluenceModel {
                    radius: result.influence.radius,
                    delta: result.influence.delta,
                    concentration_bonus: result.influence.concentration_bonus,
                    ..influence
                },
            ),
            None => None,
        },
        ..policy
    }
}

/// What the battlefield remembers of a formation afterwards. A formation that deploys keeps its
/// encirclement and supply.
pub open spec fn resolved_memory(
    memory: BattlefieldUnitState,
    deploying: bool,
    tick: u64,
    result: BattlefieldUnitResult,
    local: BattlefieldLocalUnitResult,
) -> BattlefieldUnitState {
    BattlefieldUnitState {
        encircled_ticks: if deploying {
            memory.encircled_ticks
        } else {
            result.encircled_ticks
        },
        supply_collapsed_tick: if deploying || !result.attrition.supply_collapse_sampled {
            memory.supply_collapsed_tick
        } else if result.attrition.supply_collapsed {
            Some(tick)
        } else {
            None
        },
        armor_support_last_tick: local.armor_support_last_tick,
        last_ally_count: local.last_ally_count,
        ..memory
    }
}

/// The battlefield's first answers are taken over.
pub open spec fn battlefield_resolved(
    results: Map<Operation, u64>,
    units: Seq<SimulationUnit>,
    start: BattlefieldModel,
    tick: u64,
    answers: Seq<BattlefieldUnitResult>,
    count: nat,
) -> Result<BattlefieldModel, RuntimeError>
    decreases count,
{
    if count == 0 {
        Ok(start)
    } else {
        match battlefield_resolved(results, units, start, tick, answers, (count - 1) as nat) {
            Err(error) => Err(error),
            Ok(model) => answer_taken(results, units, model, tick, answers[count - 1]),
        }
    }
}

/// One answer of the battlefield is taken over.
pub open spec fn answer_taken(
    results: Map<Operation, u64>,
    units: Seq<SimulationUnit>,
    model: BattlefieldModel,
    tick: u64,
    answer: BattlefieldUnitResult,
) -> Result<BattlefieldModel, RuntimeError> {
    let id = answer.unit_id;
    if !model.policies.contains_key(id) {
        Err(RuntimeError::InvalidUnitPolicy(id))
    } else {
        match unit_called(units, id, units.len()) {
            None => Err(
                RuntimeError::InvalidCheckpoint("battlefield result references a missing unit"),
            ),
            Some(unit) => if !model.next_unit_state.contains_key(id) {
                Err(RuntimeError::InvalidCheckpoint("battlefield result has no persistent state"))
            } else if !model.local_by_id.contains_key(id) {
                Err(RuntimeError::InvalidCheckpoint("battlefield tactics omitted a live unit"))
            } else {
                let policy = resolved_policy(results, model.policies[id], unit, answer);
                Ok(
                    BattlefieldModel {
                        policies: model.policies.insert(id, policy),
                        next_unit_state: model.next_unit_state.insert(
                            id,
                            resolved_memory(
                                model.next_unit_state[id],
                                deploying(policy, tick),
                                tick,
                                answer,
                                model.local_by_id[id],
                            ),
                        ),
                        resolved_by_id: model.resolved_by_id.insert(id, answer),
                        influence_eligible: if policy.influence is Some
                            && answer.influence.eligible {
                            model.influence_eligible.insert(id)
                        } else {
                            model.influence_eligible
                        },
                        ..model
                    },
                )
            },
        }
    }
}

proof fn lemma_resolved_fail(
    results: Map<Operation, u64>,
    units: Seq<SimulationUnit>,
    start: BattlefieldModel,
    tick: u64,
    answers: Seq<BattlefieldUnitResult>,
    count: nat,
    whole: nat,
)
    requires
        count <= whole,
        battlefield_resolved(results, units, start, tick, answers, count) is Err,
    ensures
        battlefield_resolved(results, units, start, tick, answers, whole)
            == battlefield_resolved(results, units, start, tick, answers, count),
    decreases whole,
{
    if count < whole {
        lemma_resolved_fail(
            results,
            units,
            start,
            tick,
            answers,
            count,
            (whole - 1) as nat,
        );
    }
}

impl View for StagedBattlefieldTick {
    type V = BattlefieldModel;

    open spec fn view(&self) -> BattlefieldModel {
        BattlefieldModel {
            policies: policies_view(self.policies@),
            next_unit_state: self.next_unit_state@,
            resolved_by_id: self.resolved_by_id@,
            local_by_id: self.local_by_id@,
            ally_weight_by_id: self.ally_weight_by_id@,
            influence_eligible: self.influence_eligible@,
        }
    }
}

/// Whether a worksheet holds all that taking the health of formations takes.
pub open spec fn health_supplied(
    results: Map<Operation, u64>,
    units: Seq<SimulationUnit>,
) -> bool {
    forall|k: int|
        0 <= k < units.len() ==> results.contains_key(
            Operation::Quotient(
                (#[trigger] units[k]).combat.health,
                units[k].combat.max_health.max_of(real_of(ONE_BITS)),
            ),
        )
}

fn take_answer(
    units: &Vec<SimulationUnit>,
    index: &BTreeMap<u64, usize>,
    staged: &mut StagedBattlefieldTick,
    tick: u64,
    answer: BattlefieldUnitResult,
    reader: &mut Reader<'_>,
) -> (outcome: Result<(), RuntimeError>)
    requires
        old(reader).sound(),
        finds_units(index@, units@, units@.len()),
    ensures
        final(reader)@ == old(reader)@,
        final(reader).sound(),
        final(reader).complete() ==> old(reader).complete() && (match outcome {
            Ok(_) => answer_taken(
                old(reader)@,
                units@,
                old(staged)@,
                tick,
                answer,
            ) == Ok::<BattlefieldModel, RuntimeError>(final(staged)@),
            Err(error) => answer_taken(
                old(reader)@,
                units@,
                old(staged)@,
                tick,
                answer,
            ) == Err::<BattlefieldModel, RuntimeError>(error),
        }),
        old(reader).complete() && health_supplied(old(reader)@, units@) ==>
            final(reader).complete(),
{
    broadcast use vstd::std_specs::btree::group_btree_axioms;

    let ghost before = staged@;
    let ghost old_policies = staged.policies@;
    let id: u64 = answer.unit_id;
    assert(before.policies.contains_key(id) == old_policies.contains_key(id));
    let mut policy: RuntimeUnitPolicy = match staged.policies.get(&id) {
        Some(policy) => policy.clone(),
        None => {
            return Err(RuntimeError::InvalidUnitPolicy(id));
        },
    };
    let ghost previous = policy@;
    assert(before.policies[id] == previous);
    assert(index@.contains_key(id) || !index@.contains_key(id));
    let unit: SimulationUnit = match index.get(&id) {
        Some(place) => units[*place],
        None => {
            return Err(
                RuntimeError::InvalidCheckpoint("battlefield result references a missing unit"),
            );
        },
    };
    let mut memory: BattlefieldUnitState = match staged.next_unit_state.get(&id) {
        Some(memory) => *memory,
        None => {
            return Err(
                RuntimeError::InvalidCheckpoint("battlefield result has no persistent state"),
            );
        },
    };
    let local: BattlefieldLocalUnitResult = match staged.local_by_id.get(&id) {
        Some(local) => *local,
        None => {
            return Err(RuntimeError::InvalidCheckpoint("battlefield tactics omitted a live unit"));
        },
    };
    policy.ai.base_speed = answer.base_speed;
    policy.ai.movement = answer.movement;
    policy.ai.combat = answer.combat;
    policy.ai.encircled = answer.encircled;
    let health = reader.quotient(unit.combat.health, unit.combat.max_health.larger(Real::one()));
    policy.ai.reinforcement_eligible = health.less(Real::from_bits(N_0_45));
    let mut spreads = false;
    if let Some(influence) = &mut policy.influence {
        influence.radius = answer.influence.radius;
        influence.delta = answer.influence.delta;
        influence.concentration_bonus = answer.influence.concentration_bonus;
        spreads = true;
    }
    let ghost resolved = policy@;
    proof {
        if reader.complete() {
            assert(resolved == resolved_policy(reader@, previous, unit, answer));
        }
    }
    if !unit_deploying(&policy, tick) {
        memory.encircled_ticks = answer.encircled_ticks;
        if answer.attrition.supply_collapse_sampled {
            memory.supply_collapsed_tick = if answer.attrition.supply_collapsed {
                Some(tick)
            } else {
                None
            };
        }
    }
    memory.armor_support_last_tick = local.armor_support_last_tick;
    memory.last_ally_count = local.last_ally_count;
    staged.policies.insert(id, policy);
    staged.next_unit_state.insert(id, memory);
    staged.resolved_by_id.insert(id, answer);
    if spreads && answer.influence.eligible {
        staged.influence_eligible.insert(id);
    }
    assert(policies_view(staged.policies@) =~= policies_view(old_policies).insert(id, resolved));
    Ok(())
}

/// Takes over what the battlefield kernels said, on copies of policies and memories.
pub fn apply_battlefield_results(
    units: &Vec<SimulationUnit>,
    policies: &BTreeMap<u64, RuntimeUnitPolicy>,
    memories: &BTreeMap<u64, BattlefieldUnitState>,
    local: &Vec<BattlefieldLocalUnitResult>,
    answers: &Vec<BattlefieldUnitResult>,
    weights: BTreeMap<u64, Real>,
    tick: u64,
    reader: &mut Reader<'_>,
) -> (outcome: Result<StagedBattlefieldTick, RuntimeError>)
    requires
        old(reader).sound(),
    ensures
        final(reader)@ == old(reader)@,
        final(reader).sound(),
        final(reader).complete() ==> old(reader).complete() && ({
            let expected = battlefield_resolved(
                old(reader)@,
                units@,
                BattlefieldModel {
                    policies: policies_view(policies@),
                    next_unit_state: memories@,
                    resolved_by_id: Map::empty(),
                    local_by_id: local_called(local@, local@.len()),
                    ally_weight_by_id: weights@,
                    influence_eligible: Set::empty(),
                },
                tick,
                answers@,
                answers@.len(),
            );
            match outcome {
                Ok(staged) => expected == Ok::<BattlefieldModel, RuntimeError>(staged@),
                Err(error) => expected == Err::<BattlefieldModel, RuntimeError>(error),
            }
        }),
        old(reader).complete() && health_supplied(old(reader)@, units@) ==>
            final(reader).complete(),
{
    broadcast use vstd::std_specs::btree::group_btree_axioms;

    let ghost results = reader@;
    let ghost untouched = reader.complete();
    let ghost told = weights@;
    let index = index_formations(units);
    let mut staged = StagedBattlefieldTick {
        policies: copy_policies(policies),
        next_unit_state: memories.clone(),
        resolved_by_id: BTreeMap::new(),
        local_by_id: index_local(local),
        ally_weight_by_id: weights,
        influence_eligible: BTreeSet::new(),
    };
    let ghost start = BattlefieldModel {
        policies: policies_view(policies@),
        next_unit_state: memories@,
        resolved_by_id: Map::empty(),
        local_by_id: local_called(local@, local@.len()),
        ally_weight_by_id: told,
        influence_eligible: Set::empty(),
    };
    assert(staged.influence_eligible@ =~= Set::<u64>::empty());
    assert(staged@ == start);
    let mut at: usize = 0;
    while at < answers.len()
        invariant
            at <= answers@.len(),
            finds_units(index@, units@, units@.len()),
            results == old(reader)@,
            untouched == old(reader).complete(),
            told == weights@,
            start == (BattlefieldModel {
                policies: policies_view(policies@),
                next_unit_state: memories@,
                resolved_by_id: Map::empty(),
                local_by_id: local_called(local@, local@.len()),
                ally_weight_by_id: told,
                influence_eligible: Set::empty(),
            }),
            reader@ == results,
            reader.sound(),
            reader.complete() ==> untouched && battlefield_resolved(
                results,
                units@,
                start,
                tick,
                answers@,
                at as nat,
            ) == Ok::<BattlefieldModel, RuntimeError>(staged@),
            untouched && health_supplied(results, units@) ==> reader.complete(),
        decreases answers@.len() - at,
    {
        match take_answer(units, &index, &mut staged, tick, answers[at], reader) {
            Ok(_) => {},
            Err(error) => {
                proof {
                    if reader.complete() {
                        lemma_resolved_fail(
                            results,
                            units@,
                            start,
                            tick,
                            answers@,
                            (at + 1) as nat,
                            answers@.len(),
                        );
                    }
                }
                return Err(error);
            },
        }
        at = at + 1;
    }
    Ok(staged)
}

} // verus!
