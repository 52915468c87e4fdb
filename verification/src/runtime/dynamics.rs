//! Momentum of the sides: what the momentum kernel is told at a tick.

use std::collections::{BTreeMap, BTreeSet};
use vstd::prelude::*;
use crate::operations::{
    estimate_supplied, hostile_strength, OperationalRuntimeState, SideModel, WarPosture,
};
use crate::runtime::battlefield::{SideDynamics, WarPhase};
use crate::runtime::counters::capped;
use crate::runtime::error::RuntimeError;
use crate::runtime::policy::{deploying, policies_view, unit_deploying, Policies, RuntimeUnitPolicy};
use crate::scalar::{real_of, Real, ONE_BITS};
use crate::strategic::{table_hostile, CountryAggregate, TerritorySnapshot};
use crate::tables::{ascending, ordered_countries, ordered_sides, side_keys};
use crate::units::{SimulationUnit, UnitKind};
use crate::worksheet::{difference, integer, number_at, product, quotient, sum, Operation, Reader};

verus! {

/// What the momentum kernel does to a side at a tick.
#[derive(Clone, Copy, Debug, PartialEq, Eq, Structural)]
pub enum DynamicsDirective {
    /// The side has left the war: its posture is balanced and its history stands still.
    Retire,
    /// The side judges its posture by what it knows.
    Intelligence {
        sample: Option<u64>,
        posture_override: Option<WarPosture>,
        deployed: bool,
        strength: Real,
        known_hostile: Option<Real>,
    },
    /// The side judges its posture by what there is.
    Direct {
        sample: Option<u64>,
        deployed: bool,
        strength: Real,
        hostile_deployed: bool,
        hostile_strength: Real,
    },
}

/// Cells that a side controls, over the first counts.
pub open spec fn cells_of(
    countries: Seq<CountryAggregate>,
    country_to_side: Map<u16, usize>,
    side: usize,
    count: nat,
) -> int
    decreases count,
{
    if count == 0 {
        0
    } else {
        let rest = cells_of(countries, country_to_side, side, (count - 1) as nat);
        let country = countries[count - 1];
        if country_to_side.contains_key(country.country_id)
            && country_to_side[country.country_id] == side {
            rest + country.controlled
        } else {
            rest
        }
    }
}

/// Whether a unit fights for a side and is past its deployment.
pub open spec fn stands_for(
    unit: SimulationUnit,
    policies: Policies,
    tick: u64,
    side: int,
) -> bool {
    unit.combat.side == side && !deploying(policies[unit.combat.id], tick)
}

/// Strength of a side over the first units.
pub open spec fn side_strength(
    results: Map<Operation, u64>,
    units: Seq<SimulationUnit>,
    strengths: Seq<Real>,
    policies: Policies,
    tick: u64,
    side: int,
    count: nat,
) -> Real
    decreases count,
{
    if count == 0 {
        real_of(0)
    } else {
        let rest = side_strength(
            results,
            units,
            strengths,
            policies,
            tick,
            side,
            (count - 1) as nat,
        );
        if stands_for(units[count - 1], policies, tick, side) {
            sum(results, rest, strengths[count - 1].max_of(real_of(0)))
        } else {
            rest
        }
    }
}

/// Whether a side has deployed units among the first ones.
pub open spec fn side_deployed(
    units: Seq<SimulationUnit>,
    policies: Policies,
    tick: u64,
    side: int,
    count: nat,
) -> bool
    decreases count,
{
    count > 0 && (side_deployed(units, policies, tick, side, (count - 1) as nat) || stands_for(
        units[count - 1],
        policies,
        tick,
        side,
    ))
}

/// What is wrong with the first unit that does not fit.
pub open spec fn strength_fault(
    units: Seq<SimulationUnit>,
    policies: Policies,
    side_count: usize,
    from: int,
) -> Option<RuntimeError>
    decreases units.len() - from,
{
    if from < 0 || from >= units.len() {
        None
    } else if units[from].combat.side >= side_count {
        Some(
            RuntimeError::InvalidCheckpoint(
                "side dynamics encountered a unit outside declared topology",
            ),
        )
    } else if !policies.contains_key(units[from].combat.id) {
        Some(RuntimeError::InvalidUnitPolicy(units[from].combat.id))
    } else {
        strength_fault(units, policies, side_count, from + 1)
    }
}

/// Whether a worksheet holds all that measuring sides takes.
pub open spec fn strengths_supplied(
    results: Map<Operation, u64>,
    units: Seq<SimulationUnit>,
    strengths: Seq<Real>,
    policies: Policies,
    tick: u64,
) -> bool {
    forall|k: int|
        0 <= k < units.len() && policies.contains_key((#[trigger] units[k]).combat.id)
            && !deploying(policies[units[k].combat.id], tick) ==> results.contains_key(
            Operation::Sum(
                side_strength(
                    results,
                    units,
                    strengths,
                    policies,
                    tick,
                    units[k].combat.side as int,
                    k as nat,
                ),
                strengths[k].max_of(real_of(0)),
            ),
        )
}

/// The strength of each side and whether it has deployed units.
fn measure_sides(
    units: &Vec<SimulationUnit>,
    strengths: &Vec<Real>,
    policies: &BTreeMap<u64, RuntimeUnitPolicy>,
    tick: u64,
    side_count: usize,
    reader: &mut Reader<'_>,
) -> (outcome: Result<(Vec<Real>, Vec<bool>), RuntimeError>)
    requires
        old(reader).sound(),
        strengths@.len() == units@.len(),
    ensures
        final(reader)@ == old(reader)@,
        final(reader).sound(),
        match outcome {
            Ok((strength, deployed)) => {
                &&& strength_fault(units@, policies_view(policies@), side_count, 0) is None
                &&& strength@.len() == side_count
                &&& deployed@.len() == side_count
                &&& forall|side: int|
                    0 <= side < side_count ==> #[trigger] deployed@[side] == side_deployed(
                        units@,
                        policies_view(policies@),
                        tick,
                        side,
                        units@.len(),
                    )
                &&& final(reader).complete() ==> old(reader).complete() && forall|side: int|
                    0 <= side < side_count ==> #[trigger] strength@[side] == side_strength(
                        old(reader)@,
                        units@,
                        strengths@,
                        policies_view(policies@),
                        tick,
                        side,
                        units@.len(),
                    )
            },
            Err(error) => strength_fault(units@, policies_view(policies@), side_count, 0) == Some(
                error,
            ),
        },
        final(reader).complete() ==> old(reader).complete(),
        old(reader).complete() && strengths_supplied(
            old(reader)@,
            units@,
            strengths@,
            policies_view(policies@),
            tick,
        ) ==> final(reader).complete(),
{
    broadcast use vstd::std_specs::btree::group_btree_axioms;

    let ghost results = reader@;
    let ghost untouched = reader.complete();
    let ghost shown = policies_view(policies@);
    let mut strength: Vec<Real> = Vec::new();
    let mut deployed: Vec<bool> = Vec::new();
    let mut fill: usize = 0;
    while fill < side_count
        invariant
            fill <= side_count,
            strength@.len() == fill,
            deployed@.len() == fill,
            forall|side: int| 0 <= side < fill ==> #[trigger] strength@[side] == real_of(0),
            forall|side: int| 0 <= side < fill ==> !#[trigger] deployed@[side],
        decreases side_count - fill,
    {
        strength.push(Real::zero());
        deployed.push(false);
        fill = fill + 1;
    }
    let mut at: usize = 0;
    while at < units.len()
        invariant
            at <= units@.len(),
            strengths@.len() == units@.len(),
            shown == policies_view(policies@),
            results == old(reader)@,
            untouched == old(reader).complete(),
            reader@ == results,
            reader.sound(),
            strength@.len() == side_count,
            deployed@.len() == side_count,
            strength_fault(units@, shown, side_count, 0) == strength_fault(
                units@,
                shown,
                side_count,
                at as int,
            ),
            forall|side: int|
                0 <= side < side_count ==> #[trigger] deployed@[side] == side_deployed(
                    units@,
                    shown,
                    tick,
                    side,
                    at as nat,
                ),
            reader.complete() ==> untouched && forall|side: int|
                0 <= side < side_count ==> #[trigger] strength@[side] == side_strength(
                    results,
                    units@,
                    strengths@,
                    shown,
                    tick,
                    side,
                    at as nat,
                ),
            untouched && strengths_supplied(
                results,
                units@,
                strengths@,
                shown,
                tick,
            ) ==> reader.complete(),
        decreases units@.len() - at,
    {
        broadcast use vstd::std_specs::btree::group_btree_axioms;

        let unit = units[at];
        if unit.combat.side >= side_count as u64 {
            return Err(
                RuntimeError::InvalidCheckpoint(
                    "side dynamics encountered a unit outside declared topology",
                ),
            );
        }
        let side: usize = unit.combat.side as usize;
        assert(shown.contains_key(unit.combat.id) == policies@.contains_key(unit.combat.id));
        let policy = match policies.get(&unit.combat.id) {
            Some(policy) => policy,
            None => {
                return Err(RuntimeError::InvalidUnitPolicy(unit.combat.id));
            },
        };
        assert(shown[unit.combat.id] == policy@);
        let ghost earlier_strength = strength@;
        let ghost earlier_deployed = deployed@;
        if !unit_deploying(policy, tick) {
            let grown = reader.sum(strength[side], strengths[at].larger(Real::zero()));
            strength[side] = grown;
            deployed[side] = true;
        }
        proof {
            assert forall|s: int| 0 <= s < side_count implies #[trigger] deployed@[s]
                == side_deployed(units@, shown, tick, s, (at + 1) as nat) by {
                assert(earlier_deployed[s] == side_deployed(units@, shown, tick, s, at as nat));
            }
            if reader.complete() {
                assert forall|s: int| 0 <= s < side_count implies #[trigger] strength@[s]
                    == side_strength(
                    results,
                    units@,
                    strengths@,
                    shown,
                    tick,
                    s,
                    (at + 1) as nat,
                ) by {
                    assert(earlier_strength[s] == side_strength(
                        results,
                        units@,
                        strengths@,
                        shown,
                        tick,
                        s,
                        at as nat,
                    ));
                }
            }
        }
        at = at + 1;
    }
    Ok((strength, deployed))
}

/// Cells that each side controls, kept at the limit of counting.
fn count_cells_by_side(
    snapshot: &TerritorySnapshot,
    country_to_side: &BTreeMap<u16, usize>,
    side_count: usize,
) -> (cells: Vec<u64>)
    ensures
        cells@.len() == side_count,
        forall|side: int|
            0 <= side < side_count ==> #[trigger] cells@[side] == capped(
                cells_of(
                    snapshot.countries@,
                    country_to_side@,
                    side as usize,
                    snapshot.countries@.len(),
                ),
            ),
{
    broadcast use vstd::std_specs::btree::group_btree_axioms;

    let countries = &snapshot.countries;
    let mut cells: Vec<u64> = Vec::new();
    let mut fill: usize = 0;
    while fill < side_count
        invariant
            fill <= side_count,
            cells@.len() == fill,
            forall|side: int| 0 <= side < fill ==> #[trigger] cells@[side] == 0,
        decreases side_count - fill,
    {
        cells.push(0);
        fill = fill + 1;
    }
    let mut at: usize = 0;
    while at < countries.len()
        invariant
            at <= countries@.len(),
            countries@ == snapshot.countries@,
            cells@.len() == side_count,
            forall|side: int|
                0 <= side < side_count ==> #[trigger] cells@[side] == capped(
                    cells_of(countries@, country_to_side@, side as usize, at as nat),
                ),
            forall|side: usize|
                #[trigger] cells_of(countries@, country_to_side@, side, at as nat) >= 0,
        decreases countries@.len() - at,
    {
        broadcast use vstd::std_specs::btree::group_btree_axioms;

        let ghost earlier = cells@;
        if let Some(found) = country_to_side.get(&countries[at].country_id) {
            let side: usize = *found;
            if side < side_count {
                cells[side] = cells[side].saturating_add(countries[at].controlled);
            }
        }
        proof {
            assert forall|side: usize| #[trigger]
                cells_of(countries@, country_to_side@, side, (at + 1) as nat) >= 0 by {
                assert(cells_of(countries@, country_to_side@, side, at as nat) >= 0);
            }
            assert forall|side: int| 0 <= side < side_count implies #[trigger] cells@[side]
                == capped(
                cells_of(countries@, country_to_side@, side as usize, (at + 1) as nat),
            ) by {
                assert(earlier[side] == capped(
                    cells_of(countries@, country_to_side@, side as usize, at as nat),
                ));
                assert(cells_of(countries@, country_to_side@, side as usize, at as nat) >= 0);
            }
        }
        at = at + 1;
    }
    cells
}

/// Strength of a side's enemies, over the first sides.
pub open spec fn enemy_strength(
    results: Map<Operation, u64>,
    strengths: Seq<Real>,
    hostility: Seq<u8>,
    side_count: int,
    side: int,
    count: nat,
) -> Real
    decreases count,
{
    if count == 0 {
        real_of(0)
    } else {
        let rest = enemy_strength(
            results,
            strengths,
            hostility,
            side_count,
            side,
            (count - 1) as nat,
        );
        if table_hostile(hostility, side_count, side, count - 1) {
            sum(results, rest, strengths[count - 1])
        } else {
            rest
        }
    }
}

/// Whether one of a side's enemies, among the first sides, has deployed units.
pub open spec fn enemy_deployed(
    deployed: Seq<bool>,
    hostility: Seq<u8>,
    side_count: int,
    side: int,
    count: nat,
) -> bool
    decreases count,
{
    count > 0 && (enemy_deployed(deployed, hostility, side_count, side, (count - 1) as nat) || (
    table_hostile(hostility, side_count, side, count - 1) && deployed[count - 1]))
}

/// What all directives of a tick depend on.
pub ghost struct DynamicsScope {
    pub tick: u64,
    pub sample_due: bool,
    pub countries: Seq<CountryAggregate>,
    pub country_to_side: Map<u16, usize>,
    pub active_sides: Seq<u16>,
    pub hostility: Seq<u8>,
    pub side_count: usize,
    pub units: Seq<SimulationUnit>,
    pub strengths: Seq<Real>,
    pub policies: Policies,
    pub operations: Option<Seq<SideModel>>,
}

pub open spec fn strengths_by_side(
    results: Map<Operation, u64>,
    scope: DynamicsScope,
) -> Seq<Real> {
    Seq::new(
        scope.side_count as nat,
        |side: int|
            side_strength(
                results,
                scope.units,
                scope.strengths,
                scope.policies,
                scope.tick,
                side,
                scope.units.len(),
            ),
    )
}

pub open spec fn deployed_by_side(scope: DynamicsScope) -> Seq<bool> {
    Seq::new(
        scope.side_count as nat,
        |side: int|
            side_deployed(scope.units, scope.policies, scope.tick, side, scope.units.len()),
    )
}

/// The override in force for a side.
pub open spec fn override_of(sides: Seq<SideModel>, side: usize) -> Option<WarPosture> {
    if side < sides.len() {
        match sides[side as int].current_override {
            Some(current) => Some(current.posture.war_posture()),
            None => None,
        }
    } else {
        None
    }
}

pub open spec fn is_active(active: Seq<u16>, side: usize) -> bool {
    exists|i: int| 0 <= i < active.len() && #[trigger] active[i] == side
}

/// What the momentum kernel does to one side.
pub open spec fn directive_for(
    results: Map<Operation, u64>,
    scope: DynamicsScope,
    side: usize,
) -> DynamicsDirective {
    let sample = if scope.sample_due {
        Some(
            capped(
                cells_of(scope.countries, scope.country_to_side, side, scope.countries.len()),
            ),
        )
    } else {
        None
    };
    let strengths = strengths_by_side(results, scope);
    let deployed = deployed_by_side(scope);
    if !is_active(scope.active_sides, side) {
        DynamicsDirective::Retire
    } else {
        match scope.operations {
            Some(sides) => DynamicsDirective::Intelligence {
                sample,
                posture_override: override_of(sides, side),
                deployed: deployed[side as int],
                strength: strengths[side as int],
                known_hostile: hostile_strength(results, sides, side),
            },
            None => DynamicsDirective::Direct {
                sample,
                deployed: deployed[side as int],
                strength: strengths[side as int],
                hostile_deployed: enemy_deployed(
                    deployed,
                    scope.hostility,
                    scope.side_count as int,
                    side as int,
                    scope.side_count as nat,
                ),
                hostile_strength: enemy_strength(
                    results,
                    strengths,
                    scope.hostility,
                    scope.side_count as int,
                    side as int,
                    scope.side_count as nat,
                ),
            },
        }
    }
}

fn find_active(active: &Vec<u16>, side: usize) -> (answer: bool)
    ensures
        answer == is_active(active@, side),
{
    let mut at: usize = 0;
    while at < active.len()
        invariant
            at <= active@.len(),
            forall|i: int| 0 <= i < at ==> #[trigger] active@[i] != side,
        decreases active@.len() - at,
    {
        if active[at] as usize == side {
            return true;
        }
        at = at + 1;
    }
    false
}

/// Whether a worksheet holds all that weighing the enemies of a side takes.
pub open spec fn enemies_supplied(
    results: Map<Operation, u64>,
    strengths: Seq<Real>,
    hostility: Seq<u8>,
    side_count: int,
    side: int,
) -> bool {
    forall|other: int|
        #![trigger strengths[other]]
        0 <= other < side_count && table_hostile(hostility, side_count, side, other)
            ==> results.contains_key(
            Operation::Sum(
                enemy_strength(results, strengths, hostility, side_count, side, other as nat),
                strengths[other],
            ),
        )
}

/// Whether a worksheet holds all that judging sides takes.
pub open spec fn directives_supplied(
    results: Map<Operation, u64>,
    scope: DynamicsScope,
    sides: Seq<usize>,
) -> bool {
    &&& strengths_supplied(results, scope.units, scope.strengths, scope.policies, scope.tick)
    &&& forall|k: int|
        0 <= k < sides.len() && is_active(scope.active_sides, #[trigger] sides[k])
            ==> match scope.operations {
            Some(models) => estimate_supplied(results, models, sides[k]),
            None => enemies_supplied(
                results,
                strengths_by_side(results, scope),
                scope.hostility,
                scope.side_count as int,
                sides[k] as int,
            ),
        }
}

fn weigh_enemies(
    strength: &Vec<Real>,
    deployed: &Vec<bool>,
    hostility: &Vec<u8>,
    side_count: usize,
    side: usize,
    reader: &mut Reader<'_>,
) -> (enemies: (Real, bool))
    requires
        old(reader).sound(),
        strength@.len() == side_count,
        deployed@.len() == side_count,
        hostility@.len() == side_count * side_count,
        side < side_count,
    ensures
        final(reader)@ == old(reader)@,
        final(reader).sound(),
        enemies.1 == enemy_deployed(
            deployed@,
            hostility@,
            side_count as int,
            side as int,
            side_count as nat,
        ),
        final(reader).complete() ==> old(reader).complete() && enemies.0 == enemy_strength(
            old(reader)@,
            strength@,
            hostility@,
            side_count as int,
            side as int,
            side_count as nat,
        ),
        old(reader).complete() && enemies_supplied(
            old(reader)@,
            strength@,
            hostility@,
            side_count as int,
            side as int,
        ) ==> final(reader).complete(),
{
    let ghost results = reader@;
    let ghost untouched = reader.complete();
    assert(hostility@.len() == hostility.len());
    let mut total = Real::zero();
    let mut present = false;
    let mut other: usize = 0;
    while other < side_count
        invariant
            other <= side_count,
            side < side_count,
            hostility@.len() == side_count * side_count,
            hostility@.len() <= usize::MAX,
            strength@.len() == side_count,
            deployed@.len() == side_count,
            reader@ == results,
            reader.sound(),
            present == enemy_deployed(
                deployed@,
                hostility@,
                side_count as int,
                side as int,
                other as nat,
            ),
            reader.complete() ==> untouched && total == enemy_strength(
                results,
                strength@,
                hostility@,
                side_count as int,
                side as int,
                other as nat,
            ),
            untouched && enemies_supplied(
                results,
                strength@,
                hostility@,
                side_count as int,
                side as int,
            ) ==> reader.complete(),
        decreases side_count - other,
    {
        proof {
            crate::strategic::lemma_square(side as int, other as int, side_count as int);
            assert(0 <= side * side_count) by (nonlinear_arith)
                requires
                    0 <= side,
                    0 <= side_count,
            ;
        }
        if hostility[side * side_count + other] == 1 {
            let part = strength[other];
            total = reader.sum(total, part);
            if deployed[other] {
                present = true;
            }
        }
        other = other + 1;
    }
    (total, present)
}

/// What the momentum kernel does to every side at a tick, in the order of sides.
pub fn stage_side_dynamics(
    sides: &Vec<usize>,
    tick: u64,
    sample_due: bool,
    snapshot: &TerritorySnapshot,
    country_to_side: &BTreeMap<u16, usize>,
    active_sides: &Vec<u16>,
    hostility: &Vec<u8>,
    side_count: usize,
    units: &Vec<SimulationUnit>,
    strengths: &Vec<Real>,
    policies: &BTreeMap<u64, RuntimeUnitPolicy>,
    operations: Option<&OperationalRuntimeState>,
    reader: &mut Reader<'_>,
) -> (outcome: Result<Vec<DynamicsDirective>, RuntimeError>)
    requires
        old(reader).sound(),
        strengths@.len() == units@.len(),
        hostility@.len() == side_count * side_count,
        forall|i: int| 0 <= i < sides@.len() ==> #[trigger] sides@[i] < side_count,
    ensures
        final(reader)@ == old(reader)@,
        final(reader).sound(),
        final(reader).complete() ==> old(reader).complete(),
        ({
            let scope = DynamicsScope {
                tick,
                sample_due,
                countries: snapshot.countries@,
                country_to_side: country_to_side@,
                active_sides: active_sides@,
                hostility: hostility@,
                side_count,
                units: units@,
                strengths: strengths@,
                policies: policies_view(policies@),
                operations: match operations {
                    Some(state) => Some(state@.sides),
                    None => None,
                },
            };
            &&& old(reader).complete() && directives_supplied(old(reader)@, scope, sides@) ==>
                final(reader).complete()
            &&& match outcome {
                Ok(directives) => {
                    &&& strength_fault(units@, scope.policies, side_count, 0) is None
                    &&& directives@.len() == sides@.len()
                    &&& final(reader).complete() ==> forall|i: int|
                        0 <= i < sides@.len() ==> #[trigger] directives@[i] == directive_for(
                            old(reader)@,
                            scope,
                            sides@[i],
                        )
                },
                Err(error) => strength_fault(units@, scope.policies, side_count, 0) == Some(
                    error,
                ),
            }
        }),
{
    let ghost results = reader@;
    let ghost untouched = reader.complete();
    let ghost scope = DynamicsScope {
        tick,
        sample_due,
        countries: snapshot.countries@,
        country_to_side: country_to_side@,
        active_sides: active_sides@,
        hostility: hostility@,
        side_count,
        units: units@,
        strengths: strengths@,
        policies: policies_view(policies@),
        operations: match operations {
            Some(state) => Some(state@.sides),
            None => None,
        },
    };
    let (strength, deployed) = match measure_sides(
        units,
        strengths,
        policies,
        tick,
        side_count,
        reader,
    ) {
        Ok(pair) => pair,
        Err(error) => {
            return Err(error);
        },
    };
    proof {
        assert(deployed@ =~= deployed_by_side(scope));
        if reader.complete() {
            assert(strength@ =~= strengths_by_side(results, scope));
        }
    }
    let cells = count_cells_by_side(snapshot, country_to_side, side_count);
    let mut directives: Vec<DynamicsDirective> = Vec::new();
    let mut at: usize = 0;
    while at < sides.len()
        invariant
            at <= sides@.len(),
            hostility@.len() == side_count * side_count,
            forall|i: int| 0 <= i < sides@.len() ==> #[trigger] sides@[i] < side_count,
            results == old(reader)@,
            untouched == old(reader).complete(),
            reader@ == results,
            reader.sound(),
            scope.sample_due == sample_due,
            scope.active_sides == active_sides@,
            scope.hostility == hostility@,
            scope.side_count == side_count,
            scope.operations == (match operations {
                Some(state) => Some(state@.sides),
                None => None::<Seq<SideModel>>,
            }),
            strength@.len() == side_count,
            cells@.len() == side_count,
            deployed@ == deployed_by_side(scope),
            deployed@.len() == side_count,
            forall|side: int|
                0 <= side < side_count ==> #[trigger] cells@[side] == capped(
                    cells_of(
                        scope.countries,
                        scope.country_to_side,
                        side as usize,
                        scope.countries.len(),
                    ),
                ),
            directives@.len() == at,
            reader.complete() ==> untouched && strength@ == strengths_by_side(results, scope)
                && forall|i: int|
                0 <= i < at ==> #[trigger] directives@[i] == directive_for(
                    results,
                    scope,
                    sides@[i],
                ),
            untouched && directives_supplied(results, scope, sides@) ==> reader.complete(),
        decreases sides@.len() - at,
    {
        let side: usize = sides[at];
        let directive = if !find_active(active_sides, side) {
            DynamicsDirective::Retire
        } else {
            let sample = if sample_due {
                Some(cells[side])
            } else {
                None
            };
            match operations {
                Some(state) => {
                    let known_hostile = state.believe_hostile_strength(side, reader);
                    DynamicsDirective::Intelligence {
                        sample,
                        posture_override: state.posture_override(side),
                        deployed: deployed[side],
                        strength: strength[side],
                        known_hostile,
                    }
                },
                None => {
                    let enemies = weigh_enemies(
                        &strength,
                        &deployed,
                        hostility,
                        side_count,
                        side,
                        reader,
                    );
                    DynamicsDirective::Direct {
                        sample,
                        deployed: deployed[side],
                        strength: strength[side],
                        hostile_deployed: enemies.1,
                        hostile_strength: enemies.0,
                    }
                },
            }
        };
        directives.push(directive);
        at = at + 1;
    }
    Ok(directives)
}

/// A product that stays at the limit of counting.
pub(crate) fn capped_product(left: u64, right: u64) -> (product: u64)
    ensures
        product == capped(left * right),
{
    let exact: u128 = {
        assert(0 <= left * right <= 0xffff_ffff_ffff_ffff * 0xffff_ffff_ffff_ffff)
            by (nonlinear_arith)
            requires
                0 <= left <= 0xffff_ffff_ffff_ffff,
                0 <= right <= 0xffff_ffff_ffff_ffff,
        ;
        (left as u128) * (right as u128)
    };
    if exact > 0xffff_ffff_ffff_ffff {
        0xffff_ffff_ffff_ffff
    } else {
        exact as u64
    }
}

pub open spec fn side_amount(amounts: Map<usize, Real>, side: usize) -> Real {
    if amounts.contains_key(side) {
        amounts[side]
    } else {
        real_of(0)
    }
}

pub open spec fn with_amount(
    results: Map<Operation, u64>,
    amounts: Map<usize, Real>,
    side: usize,
    amount: Real,
) -> Map<usize, Real> {
    amounts.insert(side, sum(results, side_amount(amounts, side), amount))
}

/// Whether a worksheet holds all that adding to an amount takes.
pub open spec fn amount_supplied(
    results: Map<Operation, u64>,
    amounts: Map<usize, Real>,
    side: usize,
    amount: Real,
) -> bool {
    results.contains_key(Operation::Sum(side_amount(amounts, side), amount))
}

fn add_amount(
    amounts: &mut BTreeMap<usize, Real>,
    side: usize,
    amount: Real,
    reader: &mut Reader<'_>,
)
    requires
        old(reader).sound(),
    ensures
        final(reader)@ == old(reader)@,
        final(reader).sound(),
        final(reader).complete() ==> old(reader).complete() && final(amounts)@ == with_amount(
            old(reader)@,
            old(amounts)@,
            side,
            amount,
        ),
        old(reader).complete() && amount_supplied(old(reader)@, old(amounts)@, side, amount) ==>
            final(reader).complete(),
{
    broadcast use vstd::std_specs::btree::group_btree_axioms;

    let present = match amounts.get(&side) {
        Some(amount) => *amount,
        None => Real::zero(),
    };
    let total = reader.sum(present, amount);
    amounts.insert(side, total);
}

/// People whom the sides lost since an earlier toll, over the first countries.
pub open spec fn losses_by_side(
    results: Map<Operation, u64>,
    previous: Map<u16, Real>,
    next: Map<u16, Real>,
    country_to_side: Map<u16, usize>,
    keys: Seq<u16>,
    count: nat,
) -> Map<usize, Real>
    decreases count,
{
    if count == 0 {
        Map::empty()
    } else {
        let rest = losses_by_side(
            results,
            previous,
            next,
            country_to_side,
            keys,
            (count - 1) as nat,
        );
        let country = keys[count - 1];
        let before = if previous.contains_key(country) {
            previous[country]
        } else {
            real_of(0)
        };
        let lost = difference(results, next[country], before).max_of(real_of(0));
        if country_to_side.contains_key(country) {
            with_amount(results, rest, country_to_side[country], lost)
        } else {
            rest
        }
    }
}

/// Whether a worksheet holds all that adding up losses by side takes.
pub open spec fn losses_supplied(
    results: Map<Operation, u64>,
    previous: Map<u16, Real>,
    next: Map<u16, Real>,
    country_to_side: Map<u16, usize>,
    keys: Seq<u16>,
) -> bool {
    forall|k: int|
        0 <= k < keys.len() ==> ({
            let country = #[trigger] keys[k];
            let before = if previous.contains_key(country) {
                previous[country]
            } else {
                real_of(0)
            };
            &&& results.contains_key(Operation::Difference(next[country], before))
            &&& country_to_side.contains_key(country) ==> amount_supplied(
                results,
                losses_by_side(results, previous, next, country_to_side, keys, k as nat),
                country_to_side[country],
                difference(results, next[country], before).max_of(real_of(0)),
            )
        })
}

/// People whom the sides lost since an earlier toll.
pub fn casualties_by_side(
    previous: &BTreeMap<u16, Real>,
    next: &BTreeMap<u16, Real>,
    country_to_side: &BTreeMap<u16, usize>,
    reader: &mut Reader<'_>,
) -> (losses: BTreeMap<usize, Real>)
    requires
        old(reader).sound(),
    ensures
        final(reader)@ == old(reader)@,
        final(reader).sound(),
        final(reader).complete() ==> old(reader).complete() && losses@ == losses_by_side(
            old(reader)@,
            previous@,
            next@,
            country_to_side@,
            ascending(next@.dom()),
            ascending(next@.dom()).len(),
        ),
        old(reader).complete() && losses_supplied(
            old(reader)@,
            previous@,
            next@,
            country_to_side@,
            ascending(next@.dom()),
        ) ==> final(reader).complete(),
{
    broadcast use vstd::std_specs::btree::group_btree_axioms;

    let ghost results = reader@;
    let ghost untouched = reader.complete();
    let keys = ordered_countries(next);
    let mut losses: BTreeMap<usize, Real> = BTreeMap::new();
    let mut at: usize = 0;
    while at < keys.len()
        invariant
            at <= keys@.len(),
            forall|i: int| 0 <= i < keys@.len() ==> next@.contains_key(#[trigger] keys@[i]),
            reader@ == results,
            reader.sound(),
            reader.complete() ==> untouched && losses@ == losses_by_side(
                results,
                previous@,
                next@,
                country_to_side@,
                keys@,
                at as nat,
            ),
            untouched && losses_supplied(results, previous@, next@, country_to_side@, keys@)
                ==> reader.complete(),
        decreases keys@.len() - at,
    {
        broadcast use vstd::std_specs::btree::group_btree_axioms;

        let country: u16 = keys[at];
        let total = *next.get(&country).unwrap();
        let before = match previous.get(&country) {
            Some(amount) => *amount,
            None => Real::zero(),
        };
        let lost = reader.difference(total, before).larger(Real::zero());
        if let Some(side) = country_to_side.get(&country) {
            add_amount(&mut losses, *side, lost, reader);
        }
        at = at + 1;
    }
    losses
}

/// A country whose formations lose a share of their people.
#[derive(Clone, Copy, Debug, PartialEq, Eq, Structural)]
pub struct DesertionCommand {
    pub country_id: u16,
    pub rate: Real,
}

/// The last rate for each country among the first commands.
pub open spec fn desertion_rates(commands: Seq<DesertionCommand>, count: nat) -> Map<u16, Real>
    decreases count,
{
    if count == 0 {
        Map::empty()
    } else {
        desertion_rates(commands, (count - 1) as nat).insert(
            commands[count - 1].country_id,
            commands[count - 1].rate,
        )
    }
}

/// People who desert from a formation. One that is left with hardly any health loses everybody.
pub open spec fn deserters(
    results: Map<Operation, u64>,
    unit: SimulationUnit,
    rate: Real,
    unit_health: Real,
    crew: u64,
) -> Real {
    let health = difference(
        results,
        unit.combat.health,
        product(results, unit.combat.health, rate).max_of(real_of(0)),
    );
    let broken = health.le(real_of(ONE_BITS));
    if unit.combat.kind is Armor {
        let before = unit.combat.equipment;
        let capacity = if unit.combat.max_equipment > 0 {
            unit.combat.max_equipment
        } else {
            before
        };
        let left = results[Operation::Whole(
            number_at(
                results,
                Operation::Ceiling(
                    product(
                        results,
                        integer(results, capacity),
                        quotient(results, health, unit_health),
                    ),
                ),
            ).max_of(real_of(0)),
        )];
        let after = if left < before {
            left
        } else {
            before
        };
        let lost = integer(results, capped((before - after) * crew));
        if broken {
            sum(results, lost, integer(results, capped(after * crew)))
        } else {
            lost
        }
    } else {
        let before = integer(results, unit.combat.personnel);
        let share = product(results, before, rate).min_of(before);
        let after = results[Operation::Whole(
            number_at(results, Operation::Round(difference(results, before, share))).max_of(
                real_of(0),
            ),
        )];
        sum(
            results,
            share,
            if broken {
                integer(results, after)
            } else {
                real_of(0)
            },
        )
    }
}

/// People who desert from each side, over the first units.
pub open spec fn desertions_by_side(
    results: Map<Operation, u64>,
    units: Seq<SimulationUnit>,
    rates: Map<u16, Real>,
    unit_health: Real,
    crew: u64,
    count: nat,
) -> Map<usize, Real>
    decreases count,
{
    if count == 0 {
        Map::empty()
    } else {
        let rest = desertions_by_side(
            results,
            units,
            rates,
            unit_health,
            crew,
            (count - 1) as nat,
        );
        let unit = units[count - 1];
        let country = unit.combat.sovereign as u16;
        if unit.combat.sovereign > u16::MAX || !rates.contains_key(country) || rates[country].le(
            real_of(0),
        ) {
            rest
        } else {
            with_amount(
                results,
                rest,
                unit.combat.side as usize,
                deserters(results, unit, rates[country], unit_health, crew),
            )
        }
    }
}

/// Whether a worksheet holds all that counting deserters takes.
pub open spec fn deserters_supplied(
    results: Map<Operation, u64>,
    unit: SimulationUnit,
    rate: Real,
    unit_health: Real,
    crew: u64,
) -> bool {
    let part = product(results, unit.combat.health, rate).max_of(real_of(0));
    let health = difference(results, unit.combat.health, part);
    let broken = health.le(real_of(ONE_BITS));
    &&& results.contains_key(Operation::Product(unit.combat.health, rate))
    &&& results.contains_key(Operation::Difference(unit.combat.health, part))
    &&& if unit.combat.kind is Armor {
        let before = unit.combat.equipment;
        let capacity = if unit.combat.max_equipment > 0 {
            unit.combat.max_equipment
        } else {
            before
        };
        let pieces = integer(results, capacity);
        let share = quotient(results, health, unit_health);
        let kept = product(results, pieces, share);
        let raised = number_at(results, Operation::Ceiling(kept)).max_of(real_of(0));
        let left = results[Operation::Whole(raised)];
        let after = if left < before {
            left
        } else {
            before
        };
        let gone = capped((before - after) * crew);
        let lost = integer(results, gone);
        &&& results.contains_key(Operation::Integer(capacity))
        &&& results.contains_key(Operation::Quotient(health, unit_health))
        &&& results.contains_key(Operation::Product(pieces, share))
        &&& results.contains_key(Operation::Ceiling(kept))
        &&& results.contains_key(Operation::Whole(raised))
        &&& results.contains_key(Operation::Integer(gone))
        &&& broken ==> results.contains_key(Operation::Integer(capped(after * crew)))
            && results.contains_key(Operation::Sum(lost, integer(results, capped(after * crew))))
    } else {
        let before = integer(results, unit.combat.personnel);
        let wanted = product(results, before, rate);
        let share = wanted.min_of(before);
        let kept = difference(results, before, share);
        let rounded = number_at(results, Operation::Round(kept)).max_of(real_of(0));
        let after = results[Operation::Whole(rounded)];
        &&& results.contains_key(Operation::Integer(unit.combat.personnel))
        &&& results.contains_key(Operation::Product(before, rate))
        &&& results.contains_key(Operation::Difference(before, share))
        &&& results.contains_key(Operation::Round(kept))
        &&& results.contains_key(Operation::Whole(rounded))
        &&& if broken {
            &&& results.contains_key(Operation::Integer(after))
            &&& results.contains_key(Operation::Sum(share, integer(results, after)))
        } else {
            results.contains_key(Operation::Sum(share, real_of(0)))
        }
    }
}

fn count_deserters(
    unit: &SimulationUnit,
    rate: Real,
    unit_health: Real,
    crew: u64,
    reader: &mut Reader<'_>,
) -> (people: Real)
    requires
        old(reader).sound(),
    ensures
        final(reader)@ == old(reader)@,
        final(reader).sound(),
        final(reader).complete() ==> old(reader).complete() && people == deserters(
            old(reader)@,
            *unit,
            rate,
            unit_health,
            crew,
        ),
        old(reader).complete() && deserters_supplied(
            old(reader)@,
            *unit,
            rate,
            unit_health,
            crew,
        ) ==> final(reader).complete(),
{
    let part = reader.product(unit.combat.health, rate);
    let health = reader.difference(unit.combat.health, part.larger(Real::zero()));
    let broken = health.at_most(Real::one());
    if unit.combat.kind == UnitKind::Armor {
        let before: u64 = unit.combat.equipment;
        let capacity: u64 = if unit.combat.max_equipment > 0 {
            unit.combat.max_equipment
        } else {
            before
        };
        let pieces = reader.integer(capacity);
        let share = reader.quotient(health, unit_health);
        let kept = reader.product(pieces, share);
        let raised = reader.gather_number(Operation::Ceiling(kept)).larger(Real::zero());
        let left: u64 = reader.gather(Operation::Whole(raised));
        let after: u64 = if left < before {
            left
        } else {
            before
        };
        let lost = reader.integer(capped_product(before - after, crew));
        if broken {
            let rest = reader.integer(capped_product(after, crew));
            reader.sum(lost, rest)
        } else {
            lost
        }
    } else {
        let before = reader.integer(unit.combat.personnel);
        let wanted = reader.product(before, rate);
        let share = wanted.smaller(before);
        let kept = reader.difference(before, share);
        let rounded = reader.gather_number(Operation::Round(kept)).larger(Real::zero());
        let after: u64 = reader.gather(Operation::Whole(rounded));
        if broken {
            let rest = reader.integer(after);
            reader.sum(share, rest)
        } else {
            reader.sum(share, Real::zero())
        }
    }
}

/// Whether a worksheet holds all that adding up deserters by side takes.
pub open spec fn desertions_supplied(
    results: Map<Operation, u64>,
    units: Seq<SimulationUnit>,
    rates: Map<u16, Real>,
    unit_health: Real,
    crew: u64,
) -> bool {
    forall|k: int|
        0 <= k < units.len() ==> ({
            let unit = #[trigger] units[k];
            let country = unit.combat.sovereign as u16;
            unit.combat.sovereign <= u16::MAX && rates.contains_key(country)
                && !rates[country].le(real_of(0)) ==> {
                &&& deserters_supplied(results, unit, rates[country], unit_health, crew)
                &&& amount_supplied(
                    results,
                    desertions_by_side(results, units, rates, unit_health, crew, k as nat),
                    unit.combat.side as usize,
                    deserters(results, unit, rates[country], unit_health, crew),
                )
            }
        })
}

/// People who desert from each side.
pub fn desertion_personnel_loss_by_side(
    units: &Vec<SimulationUnit>,
    commands: &Vec<DesertionCommand>,
    unit_health: Real,
    crew_per_vehicle: u64,
    reader: &mut Reader<'_>,
) -> (losses: BTreeMap<usize, Real>)
    requires
        old(reader).sound(),
        forall|i: int| 0 <= i < units@.len() ==> (#[trigger] units@[i]).combat.side <= usize::MAX,
    ensures
        final(reader)@ == old(reader)@,
        final(reader).sound(),
        final(reader).complete() ==> old(reader).complete() && losses@ == desertions_by_side(
            old(reader)@,
            units@,
            desertion_rates(commands@, commands@.len()),
            unit_health,
            crew_per_vehicle,
            units@.len(),
        ),
        old(reader).complete() && desertions_supplied(
            old(reader)@,
            units@,
            desertion_rates(commands@, commands@.len()),
            unit_health,
            crew_per_vehicle,
        ) ==> final(reader).complete(),
{
    broadcast use vstd::std_specs::btree::group_btree_axioms;

    let ghost results = reader@;
    let ghost untouched = reader.complete();
    let mut rates: BTreeMap<u16, Real> = BTreeMap::new();
    let mut index: usize = 0;
    while index < commands.len()
        invariant
            index <= commands@.len(),
            rates@ == desertion_rates(commands@, index as nat),
        decreases commands@.len() - index,
    {
        broadcast use vstd::std_specs::btree::group_btree_axioms;

        rates.insert(commands[index].country_id, commands[index].rate);
        index = index + 1;
    }
    let mut losses: BTreeMap<usize, Real> = BTreeMap::new();
    let mut at: usize = 0;
    while at < units.len()
        invariant
            at <= units@.len(),
            forall|i: int|
                0 <= i < units@.len() ==> (#[trigger] units@[i]).combat.side <= usize::MAX,
            rates@ == desertion_rates(commands@, commands@.len()),
            reader@ == results,
            reader.sound(),
            reader.complete() ==> untouched && losses@ == desertions_by_side(
                results,
                units@,
                rates@,
                unit_health,
                crew_per_vehicle,
                at as nat,
            ),
            untouched && desertions_supplied(
                results,
                units@,
                rates@,
                unit_health,
                crew_per_vehicle,
            ) ==> reader.complete(),
        decreases units@.len() - at,
    {
        broadcast use vstd::std_specs::btree::group_btree_axioms;

        let unit = units[at];
        if unit.combat.sovereign <= 0xffff {
            let country: u16 = unit.combat.sovereign as u16;
            if let Some(found) = rates.get(&country) {
                let rate = *found;
                if !rate.at_most(Real::zero()) {
                    let people = count_deserters(
                        &unit,
                        rate,
                        unit_health,
                        crew_per_vehicle,
                        reader,
                    );
                    add_amount(&mut losses, unit.combat.side as usize, people, reader);
                }
            }
        }
        at = at + 1;
    }
    losses
}

/// The momentum of a table covers the sides exactly, each under its own index, and the momentum
/// kernel found nothing wrong with it.
pub open spec fn dynamics_valid(
    dynamics: Map<usize, SideDynamics>,
    sound: Seq<bool>,
    side_count: usize,
) -> bool {
    &&& dynamics.dom().len() == side_count
    &&& forall|side: usize| side < side_count ==> #[trigger] side_fits(dynamics, sound, side)
}

pub open spec fn side_fits(
    dynamics: Map<usize, SideDynamics>,
    sound: Seq<bool>,
    side: usize,
) -> bool {
    dynamics.contains_key(side) && dynamics[side].side_index == side && sound[side as int]
}

/// Momentum fits the sides. `sound` holds the momentum kernel's verdict on each.
pub fn validate_side_dynamics_state(
    dynamics: Option<&BTreeMap<usize, SideDynamics>>,
    sound: &Vec<bool>,
    side_count: usize,
) -> (verdict: Result<(), RuntimeError>)
    requires
        sound@.len() == side_count,
    ensures
        verdict is Ok <==> (dynamics matches Some(table) ==> dynamics_valid(
            table@,
            sound@,
            side_count,
        )),
        verdict matches Err(error) ==> error == RuntimeError::InvalidCheckpoint(
            "side dynamics must exactly cover the stable side topology",
        ),
{
    broadcast use vstd::std_specs::btree::group_btree_axioms;

    let table = match dynamics {
        Some(table) => table,
        None => {
            return Ok(());
        },
    };
    let keys = side_keys(table);
    if keys.len() != side_count {
        return Err(
            RuntimeError::InvalidCheckpoint(
                "side dynamics must exactly cover the stable side topology",
            ),
        );
    }
    let mut side: usize = 0;
    while side < side_count
        invariant
            side <= side_count,
            sound@.len() == side_count,
            dynamics == Some(table),
            table@.dom().len() == side_count,
            forall|s: usize| s < side ==> #[trigger] side_fits(table@, sound@, s),
        decreases side_count - side,
    {
        broadcast use vstd::std_specs::btree::group_btree_axioms;

        let mut fits = false;
        if let Some(state) = table.get(&side) {
            if state.side_index == side && sound[side] {
                fits = true;
            }
        }
        assert(fits == side_fits(table@, sound@, side));
        if !fits {
            return Err(
                RuntimeError::InvalidCheckpoint(
                    "side dynamics must exactly cover the stable side topology",
                ),
            );
        }
        side = side + 1;
    }
    Ok(())
}

/// The sides that collapse.
pub open spec fn collapsing_sides(dynamics: Map<usize, SideDynamics>) -> Set<usize> {
    Set::new(|side: usize| dynamics.contains_key(side) && dynamics[side].phase is Collapsing)
}

pub fn find_collapsing(dynamics: &BTreeMap<usize, SideDynamics>) -> (sides: BTreeSet<usize>)
    ensures
        sides@ == collapsing_sides(dynamics@),
{
    broadcast use vstd::std_specs::btree::group_btree_axioms;

    let keys = ordered_sides(dynamics);
    let mut sides: BTreeSet<usize> = BTreeSet::new();
    let mut at: usize = 0;
    while at < keys.len()
        invariant
            at <= keys@.len(),
            forall|i: int| 0 <= i < keys@.len() ==> dynamics@.contains_key(#[trigger] keys@[i]),
            forall|side: usize|
                #[trigger] sides@.contains(side) <==> keys@.take(at as int).contains(side)
                    && dynamics@[side].phase is Collapsing,
        decreases keys@.len() - at,
    {
        broadcast use vstd::std_specs::btree::group_btree_axioms;

        let side: usize = keys[at];
        let ghost before = sides@;
        if dynamics.get(&side).unwrap().phase == WarPhase::Collapsing {
            sides.insert(side);
        }
        proof {
            assert(keys@.take(at + 1) =~= keys@.take(at as int).push(side));
            assert forall|other: usize| #[trigger] sides@.contains(other) <==> keys@.take(
                at + 1,
            ).contains(other) && dynamics@[other].phase is Collapsing by {
                crate::order::lemma_push_contains(keys@.take(at as int), side, other);
                assert(before.contains(other) <==> keys@.take(at as int).contains(other)
                    && dynamics@[other].phase is Collapsing);
            }
        }
        at = at + 1;
    }
    proof {
        assert(keys@.take(keys@.len() as int) =~= keys@);
        assert forall|side: usize| sides@.contains(side) == collapsing_sides(
            dynamics@,
        ).contains(side) by {
            if dynamics@.contains_key(side) {
                assert(keys@.contains(side));
            }
            if keys@.contains(side) {
                let i = choose|i: int| 0 <= i < keys@.len() && keys@[i] == side;
                assert(dynamics@.contains_key(keys@[i]));
            }
        }
        assert(sides@ =~= collapsing_sides(dynamics@));
    }
    sides
}

} // verus!
