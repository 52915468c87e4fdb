//! Influence: which formations stamp the territory at a tick, and how strongly.

use std::collections::{BTreeMap, BTreeSet};
use vstd::prelude::*;
use crate::numbers::{
    N_0_05, N_0_1, N_0_2, N_0_4, N_0_8, N_0_9, N_0_95, N_1000, N_2147483647, N_3, N_500, N_600,
};
use crate::order::{collected, lemma_collected_fail};
use crate::runtime::error::RuntimeError;
use crate::runtime::policy::{
    deploying, policies_view, unit_deploying, InfluenceModel, Policies, RuntimeUnitPolicy,
    UnitInfluencePolicy,
};
use crate::scalar::{real_of, Real, ONE_BITS};
use crate::simulation::UnitSnapshot;
use crate::units::SimulationUnit;
use crate::views::{lemma_views_push, views};
use crate::worksheet::{integer, number_at, product, quotient, sum, Operation, Reader};

verus! {

/// In how many groups formations take turns.
pub const STRIDE: usize = 3;

/// A formation that stamps the territory.
#[derive(Debug)]
pub struct InfluenceSource {
    pub id: u64,
    pub side: usize,
    pub sovereign: u16,
    pub beneficiary: u16,
    pub lat: Real,
    pub lng: Real,
    pub radius: Real,
    pub delta: Real,
    pub concentration_bonus: Real,
    pub owner_ally_country_ids: BTreeSet<u16>,
    pub protected_owner_ids: BTreeSet<u16>,
    pub rebel_de_jure: Option<u16>,
    pub credit_de_jure: Option<u16>,
    pub credit_de_jure_by_country: BTreeMap<u16, u16>,
    pub refuses_offense: bool,
}

/// What an [`InfluenceSource`] says.
pub ghost struct SourceModel {
    pub id: u64,
    pub side: usize,
    pub sovereign: u16,
    pub beneficiary: u16,
    pub lat: Real,
    pub lng: Real,
    pub radius: Real,
    pub delta: Real,
    pub concentration_bonus: Real,
    pub owner_ally_country_ids: Set<u16>,
    pub protected_owner_ids: Set<u16>,
    pub rebel_de_jure: Option<u16>,
    pub credit_de_jure: Option<u16>,
    pub credit_de_jure_by_country: Map<u16, u16>,
    pub refuses_offense: bool,
}

impl View for InfluenceSource {
    type V = SourceModel;

    open spec fn view(&self) -> SourceModel {
        SourceModel {
            id: self.id,
            side: self.side,
            sovereign: self.sovereign,
            beneficiary: self.beneficiary,
            lat: self.lat,
            lng: self.lng,
            radius: self.radius,
            delta: self.delta,
            concentration_bonus: self.concentration_bonus,
            owner_ally_country_ids: self.owner_ally_country_ids@,
            protected_owner_ids: self.protected_owner_ids@,
            rebel_de_jure: self.rebel_de_jure,
            credit_de_jure: self.credit_de_jure,
            credit_de_jure_by_country: self.credit_de_jure_by_country@,
            refuses_offense: self.refuses_offense,
        }
    }
}

pub open spec fn source_of(
    influence: InfluenceModel,
    id: u64,
    side: usize,
    sovereign: u16,
    lat: Real,
    lng: Real,
    radius: Real,
    delta: Real,
) -> SourceModel {
    SourceModel {
        id,
        side,
        sovereign,
        beneficiary: match influence.beneficiary {
            Some(country) => country,
            None => sovereign,
        },
        lat,
        lng,
        radius,
        delta,
        concentration_bonus: influence.concentration_bonus,
        owner_ally_country_ids: influence.owner_ally_country_ids,
        protected_owner_ids: influence.protected_owner_ids,
        rebel_de_jure: influence.rebel_de_jure,
        credit_de_jure: influence.credit_de_jure,
        credit_de_jure_by_country: influence.credit_de_jure_by_country,
        refuses_offense: influence.refuses_offense,
    }
}

fn make_source(
    influence: &UnitInfluencePolicy,
    id: u64,
    side: usize,
    sovereign: u16,
    lat: Real,
    lng: Real,
    radius: Real,
    delta: Real,
) -> (source: InfluenceSource)
    ensures
        source@ == source_of(influence@, id, side, sovereign, lat, lng, radius, delta),
{
    InfluenceSource {
        id,
        side,
        sovereign,
        beneficiary: match influence.beneficiary {
            Some(country) => country,
            None => sovereign,
        },
        lat,
        lng,
        radius,
        delta,
        concentration_bonus: influence.concentration_bonus,
        owner_ally_country_ids: influence.owner_ally_country_ids.clone(),
        protected_owner_ids: influence.protected_owner_ids.clone(),
        rebel_de_jure: influence.rebel_de_jure,
        credit_de_jure: influence.credit_de_jure,
        credit_de_jure_by_country: influence.credit_de_jure_by_country.clone(),
        refuses_offense: influence.refuses_offense,
    }
}

/// Radius and delta at a tick: delta ramps up over the first 600 ticks, and with a seed both
/// waver.
pub open spec fn timed_influence(
    results: Map<Operation, u64>,
    influence: InfluenceModel,
    tick: u64,
) -> (Real, Real) {
    match influence.browser_temporal_seed {
        None => (influence.radius, influence.delta),
        Some(seed) => {
            let time = integer(results, tick);
            let ramp = sum(
                results,
                real_of(N_0_05),
                product(results, quotient(results, time, real_of(N_600)), real_of(N_0_95)),
            ).min_of(real_of(ONE_BITS));
            let delta_noise = sum(
                results,
                real_of(N_0_8),
                product(
                    results,
                    number_at(
                        results,
                        Operation::Sine(
                            sum(
                                results,
                                product(results, seed, real_of(N_1000)),
                                product(results, time, real_of(N_0_05)),
                            ),
                        ),
                    ),
                    real_of(N_0_4),
                ),
            );
            let radius_noise = sum(
                results,
                real_of(N_0_9),
                product(
                    results,
                    number_at(
                        results,
                        Operation::Sine(
                            sum(
                                results,
                                product(results, seed, real_of(N_500)),
                                product(results, time, real_of(N_0_1)),
                            ),
                        ),
                    ),
                    real_of(N_0_2),
                ),
            );
            (
                product(results, influence.radius, radius_noise),
                product(results, product(results, influence.delta, ramp), delta_noise),
            )
        },
    }
}

/// Whether a worksheet holds all that timing an influence takes.
pub open spec fn timing_supplied(
    results: Map<Operation, u64>,
    influence: InfluenceModel,
    tick: u64,
) -> bool {
    influence.browser_temporal_seed matches Some(seed) ==> {
        let time = integer(results, tick);
        let share = quotient(results, time, real_of(N_600));
        let grown = product(results, share, real_of(N_0_95));
        let ramp = sum(results, real_of(N_0_05), grown).min_of(real_of(ONE_BITS));
        let a1 = product(results, seed, real_of(N_1000));
        let a2 = product(results, time, real_of(N_0_05));
        let a3 = sum(results, a1, a2);
        let a4 = number_at(results, Operation::Sine(a3));
        let a5 = product(results, a4, real_of(N_0_4));
        let delta_noise = sum(results, real_of(N_0_8), a5);
        let b1 = product(results, seed, real_of(N_500));
        let b2 = product(results, time, real_of(N_0_1));
        let b3 = sum(results, b1, b2);
        let b4 = number_at(results, Operation::Sine(b3));
        let b5 = product(results, b4, real_of(N_0_2));
        let radius_noise = sum(results, real_of(N_0_9), b5);
        let radius = product(results, influence.radius, radius_noise);
        let ramped = product(results, influence.delta, ramp);
        let delta = product(results, ramped, delta_noise);
        &&& results.contains_key(Operation::Integer(tick))
        &&& results.contains_key(Operation::Quotient(time, real_of(N_600)))
        &&& results.contains_key(Operation::Product(share, real_of(N_0_95)))
        &&& results.contains_key(Operation::Sum(real_of(N_0_05), grown))
        &&& results.contains_key(Operation::Product(seed, real_of(N_1000)))
        &&& results.contains_key(Operation::Product(time, real_of(N_0_05)))
        &&& results.contains_key(Operation::Sum(a1, a2))
        &&& results.contains_key(Operation::Sine(a3))
        &&& results.contains_key(Operation::Product(a4, real_of(N_0_4)))
        &&& results.contains_key(Operation::Sum(real_of(N_0_8), a5))
        &&& results.contains_key(Operation::Product(seed, real_of(N_500)))
        &&& results.contains_key(Operation::Product(time, real_of(N_0_1)))
        &&& results.contains_key(Operation::Sum(b1, b2))
        &&& results.contains_key(Operation::Sine(b3))
        &&& results.contains_key(Operation::Product(b4, real_of(N_0_2)))
        &&& results.contains_key(Operation::Sum(real_of(N_0_9), b5))
        &&& results.contains_key(Operation::Product(influence.radius, radius_noise))
        &&& results.contains_key(Operation::Product(influence.delta, ramp))
        &&& results.contains_key(Operation::Product(ramped, delta_noise))
    }
}

pub fn resolve_influence_timing(
    influence: &UnitInfluencePolicy,
    tick: u64,
    reader: &mut Reader<'_>,
) -> (timed: (Real, Real))
    requires
        old(reader).sound(),
    ensures
        final(reader)@ == old(reader)@,
        final(reader).sound(),
        final(reader).complete() ==> old(reader).complete() && timed == timed_influence(
            old(reader)@,
            influence@,
            tick,
        ),
        old(reader).complete() && timing_supplied(old(reader)@, influence@, tick) ==>
            final(reader).complete(),
{
    let seed = match influence.browser_temporal_seed {
        Some(seed) => seed,
        None => {
            return (influence.radius, influence.delta);
        },
    };
    let time = reader.integer(tick);
    let share = reader.quotient(time, Real::from_bits(N_600));
    let grown = reader.product(share, Real::from_bits(N_0_95));
    let ramp = reader.sum(Real::from_bits(N_0_05), grown).smaller(Real::one());
    let a1 = reader.product(seed, Real::from_bits(N_1000));
    let a2 = reader.product(time, Real::from_bits(N_0_05));
    let a3 = reader.sum(a1, a2);
    let a4 = reader.gather_number(Operation::Sine(a3));
    let a5 = reader.product(a4, Real::from_bits(N_0_4));
    let delta_noise = reader.sum(Real::from_bits(N_0_8), a5);
    let b1 = reader.product(seed, Real::from_bits(N_500));
    let b2 = reader.product(time, Real::from_bits(N_0_1));
    let b3 = reader.sum(b1, b2);
    let b4 = reader.gather_number(Operation::Sine(b3));
    let b5 = reader.product(b4, Real::from_bits(N_0_2));
    let radius_noise = reader.sum(Real::from_bits(N_0_9), b5);
    let radius = reader.product(influence.radius, radius_noise);
    let ramped = reader.product(influence.delta, ramp);
    let delta = reader.product(ramped, delta_noise);
    (radius, delta)
}

/// How a living formation stamps the territory.
pub open spec fn influence_source(
    results: Map<Operation, u64>,
    units: Seq<UnitSnapshot>,
    policies: Policies,
    tick: u64,
    eligible: Option<Set<u64>>,
    at: int,
) -> Option<Result<SourceModel, RuntimeError>> {
    let unit = units[at];
    let policy = policies[unit.id];
    if !real_of(0).lt(unit.health) {
        None
    } else if !policies.contains_key(unit.id) {
        Some(Err(RuntimeError::InvalidUnitPolicy(unit.id)))
    } else if deploying(policy, tick) || (eligible matches Some(allowed) && !allowed.contains(
        unit.id,
    )) {
        None
    } else {
        match policy.influence {
            None => None,
            Some(influence) => if unit.sovereign == 0 || unit.sovereign > u16::MAX {
                Some(
                    Err(
                        RuntimeError::InvalidCheckpoint(
                            "unit sovereign exceeds territory country width",
                        ),
                    ),
                )
            } else {
                let timed = timed_influence(results, influence, tick);
                Some(
                    Ok(
                        source_of(
                            influence,
                            unit.id,
                            unit.side as usize,
                            unit.sovereign as u16,
                            unit.lat,
                            unit.lng,
                            timed.0,
                            timed.1,
                        ),
                    ),
                )
            },
        }
    }
}

pub open spec fn all_influence_sources(
    results: Map<Operation, u64>,
    units: Seq<UnitSnapshot>,
    policies: Policies,
    tick: u64,
    eligible: Option<Set<u64>>,
) -> spec_fn(int) -> Option<Result<SourceModel, RuntimeError>> {
    |at: int| influence_source(results, units, policies, tick, eligible, at)
}

pub open spec fn optional_set(set: Option<&BTreeSet<u64>>) -> Option<Set<u64>> {
    match set {
        Some(members) => Some(members@),
        None => None,
    }
}

/// Whether a worksheet holds all that the stamps of formations takes.
pub open spec fn sources_supplied(
    results: Map<Operation, u64>,
    units: Seq<UnitSnapshot>,
    policies: Policies,
    tick: u64,
) -> bool {
    forall|k: int|
        0 <= k < units.len() && policies.contains_key((#[trigger] units[k]).id) ==> (
        policies[units[k].id].influence matches Some(influence) ==> timing_supplied(
            results,
            influence,
            tick,
        ))
}

/// Every living formation that may stamp the territory.
pub fn influence_sources(
    units: &Vec<UnitSnapshot>,
    policies: &BTreeMap<u64, RuntimeUnitPolicy>,
    tick: u64,
    eligible: Option<&BTreeSet<u64>>,
    reader: &mut Reader<'_>,
) -> (outcome: Result<Vec<InfluenceSource>, RuntimeError>)
    requires
        old(reader).sound(),
    ensures
        final(reader)@ == old(reader)@,
        final(reader).sound(),
        final(reader).complete() ==> old(reader).complete() && ({
            let expected = collected(
                all_influence_sources(
                    old(reader)@,
                    units@,
                    policies_view(policies@),
                    tick,
                    optional_set(eligible),
                ),
                units@.len(),
            );
            match outcome {
                Ok(sources) => expected == Ok::<Seq<SourceModel>, RuntimeError>(views(sources@)),
                Err(error) => expected == Err::<Seq<SourceModel>, RuntimeError>(error),
            }
        }),
        old(reader).complete() && sources_supplied(
            old(reader)@,
            units@,
            policies_view(policies@),
            tick,
        ) ==> final(reader).complete(),
{
    broadcast use vstd::std_specs::btree::group_btree_axioms;

    let ghost results = reader@;
    let ghost untouched = reader.complete();
    let ghost shown = policies_view(policies@);
    let ghost entry = all_influence_sources(
        results,
        units@,
        shown,
        tick,
        optional_set(eligible),
    );
    let mut sources: Vec<InfluenceSource> = Vec::new();
    assert(views(sources@) =~= Seq::<SourceModel>::empty());
    let mut at: usize = 0;
    while at < units.len()
        invariant
            at <= units@.len(),
            shown == policies_view(policies@),
            entry == all_influence_sources(
                results,
                units@,
                shown,
                tick,
                optional_set(eligible),
            ),
            results == old(reader)@,
            untouched == old(reader).complete(),
            reader@ == results,
            reader.sound(),
            reader.complete() ==> untouched && collected(entry, at as nat) == Ok::<
                Seq<SourceModel>,
                RuntimeError,
            >(views(sources@)),
            untouched && sources_supplied(results, units@, shown, tick) ==> reader.complete(),
        decreases units@.len() - at,
    {
        broadcast use vstd::std_specs::btree::group_btree_axioms;

        let unit = units[at];
        assert(entry(at as int) == influence_source(
            results,
            units@,
            shown,
            tick,
            optional_set(eligible),
            at as int,
        ));
        if Real::zero().less(unit.health) {
            assert(shown.contains_key(unit.id) == policies@.contains_key(unit.id));
            let policy = match policies.get(&unit.id) {
                Some(policy) => policy,
                None => {
                    proof {
                        if reader.complete() {
                            lemma_collected_fail(entry, (at + 1) as nat, units@.len());
                        }
                    }
                    return Err(RuntimeError::InvalidUnitPolicy(unit.id));
                },
            };
            assert(shown[unit.id] == policy@);
            let allowed = match eligible {
                Some(members) => members.contains(&unit.id),
                None => true,
            };
            if !unit_deploying(policy, tick) && allowed {
                if let Some(influence) = &policy.influence {
                    let timed = resolve_influence_timing(influence, tick, reader);
                    if unit.sovereign == 0 || unit.sovereign > 0xffff {
                        proof {
                            if reader.complete() {
                                lemma_collected_fail(entry, (at + 1) as nat, units@.len());
                            }
                        }
                        return Err(
                            RuntimeError::InvalidCheckpoint(
                                "unit sovereign exceeds territory country width",
                            ),
                        );
                    }
                    let source = make_source(
                        influence,
                        unit.id,
                        unit.side as usize,
                        unit.sovereign as u16,
                        unit.lat,
                        unit.lng,
                        timed.0,
                        timed.1,
                    );
                    proof {
                        lemma_views_push(sources@, source);
                    }
                    sources.push(source);
                }
            }
        }
        at = at + 1;
    }
    Ok(sources)
}

/// How many formations may stamp the territory at a tick, and how many cells may spread, by how
/// many sides are left.
pub open spec fn influence_budgets(sides: usize) -> (usize, usize) {
    if sides <= 2 {
        (300, 1_600)
    } else {
        (
            if 600int / (sides as int) > 50 {
                (600int / (sides as int)) as usize
            } else {
                50
            },
            if 3_200int / (sides as int) > 400 {
                (3_200int / (sides as int)) as usize
            } else {
                400
            },
        )
    }
}

pub fn browser_influence_budgets(nonempty_side_count: usize) -> (budgets: (usize, usize))
    ensures
        budgets == influence_budgets(nonempty_side_count),
{
    if nonempty_side_count <= 2 {
        return (300, 1_600);
    }
    let applications: usize = 600 / nonempty_side_count;
    let spread: usize = 3_200 / nonempty_side_count;
    (
        if applications > 50 {
            applications
        } else {
            50
        },
        if spread > 400 {
            spread
        } else {
            400
        },
    )
}

/// The group of a seed.
pub open spec fn cohort_of(results: Map<Operation, u64>, seed: Real, stride: usize) -> int {
    let scaled = number_at(
        results,
        Operation::Floor(product(results, seed.absolute(), real_of(N_2147483647))),
    );
    let stable = if scaled.finite() {
        results[Operation::Wrapped(scaled)] % 0x1_0000_0000
    } else {
        0
    };
    stable as int % stride as int
}

/// Whether a worksheet holds all that the group of a seed takes.
pub open spec fn cohort_supplied(results: Map<Operation, u64>, seed: Real) -> bool {
    let raised = product(results, seed.absolute(), real_of(N_2147483647));
    let scaled = number_at(results, Operation::Floor(raised));
    &&& results.contains_key(Operation::Product(seed.absolute(), real_of(N_2147483647)))
    &&& results.contains_key(Operation::Floor(raised))
    &&& scaled.finite() ==> results.contains_key(Operation::Wrapped(scaled))
}

pub fn browser_stable_unit_cohort(seed: Real, stride: usize, reader: &mut Reader<'_>) -> (cohort:
    usize)
    requires
        old(reader).sound(),
        stride > 0,
    ensures
        final(reader)@ == old(reader)@,
        final(reader).sound(),
        final(reader).complete() ==> old(reader).complete() && cohort == cohort_of(
            old(reader)@,
            seed,
            stride,
        ),
        old(reader).complete() && cohort_supplied(old(reader)@, seed) ==> final(reader).complete(),
{
    let raised = reader.product(seed.without_sign(), Real::from_bits(N_2147483647));
    let scaled = reader.gather_number(Operation::Floor(raised));
    let stable: u64 = if scaled.is_finite() {
        reader.gather(Operation::Wrapped(scaled)) % 0x1_0000_0000
    } else {
        0
    };
    (stable % stride as u64) as usize
}

/// Which formations take their turn, and how many may.
#[derive(Clone, Copy, Debug, PartialEq, Eq, Structural)]
pub struct InfluenceSchedule {
    pub cohort: usize,
    pub application_budget: usize,
    pub selected_units: usize,
}

/// How many formations of a group may stamp the territory.
pub open spec fn cohort_budget(cohort: int, sides: usize) -> int {
    let most = influence_budgets(sides).0 as int;
    let share = most / 3 + if cohort < most % 3 {
        1int
    } else {
        0
    };
    if share > 1 {
        share
    } else {
        1
    }
}

/// What the turns of a tick depend on.
pub ghost struct TurnScope {
    pub units: Seq<SimulationUnit>,
    pub policies: Policies,
    pub tick: u64,
    pub frame: u64,
}

/// What keeps a formation from taking turns at all.
pub open spec fn seed_fault(scope: TurnScope, unit: SimulationUnit) -> Option<RuntimeError> {
    let policy = scope.policies[unit.combat.id];
    if !scope.policies.contains_key(unit.combat.id) {
        Some(RuntimeError::InvalidUnitPolicy(unit.combat.id))
    } else if policy.influence is None || policy.influence->Some_0.browser_temporal_seed is None {
        Some(
            RuntimeError::InvalidCheckpoint(
                "influence runtime requires a temporal seed for every live formation",
            ),
        )
    } else {
        None
    }
}

/// Whether it is a formation's turn. Those that fought in the last five frames rest.
pub open spec fn in_turn(
    results: Map<Operation, u64>,
    scope: TurnScope,
    unit: SimulationUnit,
) -> bool {
    let policy = scope.policies[unit.combat.id];
    &&& cohort_of(results, policy.influence->Some_0.browser_temporal_seed->Some_0, STRIDE)
        == scope.tick as int % 3
    &&& !deploying(policy, scope.tick)
    &&& scope.frame > unit.combat.last_combat_tick + 5
}

/// How a formation stamps the territory in its turn: for three ticks at once.
pub open spec fn stamp_of(
    results: Map<Operation, u64>,
    scope: TurnScope,
    unit: SimulationUnit,
) -> Result<SourceModel, RuntimeError> {
    let influence = scope.policies[unit.combat.id].influence->Some_0;
    let timed = timed_influence(results, influence, scope.tick);
    if unit.combat.sovereign == 0 || unit.combat.sovereign > u16::MAX {
        Err(RuntimeError::InvalidCheckpoint("unit sovereign exceeds territory country width"))
    } else if unit.combat.side > usize::MAX {
        Err(RuntimeError::InvalidCheckpoint("unit side exceeds territory side width"))
    } else {
        Ok(
            source_of(
                influence,
                unit.combat.id,
                unit.combat.side as usize,
                unit.combat.sovereign as u16,
                unit.combat.lat,
                unit.combat.lng,
                timed.0,
                product(results, timed.1, real_of(N_3)),
            ),
        )
    }
}

/// Where the round of a tick begins.
pub open spec fn round_start(tick: u64, count: nat) -> int {
    if count == 0 {
        0
    } else {
        (tick * 30) % (count as int)
    }
}

/// The formation that comes in a place of a round.
pub open spec fn in_round(scope: TurnScope, place: int) -> SimulationUnit {
    scope.units[(round_start(scope.tick, scope.units.len()) + place) % (scope.units.len() as int)]
}

/// What the first formations of a round amount to.
pub ghost struct Round {
    pub sources: Seq<SourceModel>,
    /// The budget is spent.
    pub closed: bool,
    pub fault: Option<RuntimeError>,
}

pub open spec fn round_of(
    results: Map<Operation, u64>,
    scope: TurnScope,
    budget: int,
    count: nat,
) -> Round
    decreases count,
{
    if count == 0 {
        Round { sources: Seq::empty(), closed: false, fault: None }
    } else {
        let rest = round_of(results, scope, budget, (count - 1) as nat);
        let unit = in_round(scope, count - 1);
        if rest.closed || rest.fault is Some {
            rest
        } else if seed_fault(scope, unit) is Some {
            Round { fault: seed_fault(scope, unit), ..rest }
        } else if !in_turn(results, scope, unit) {
            rest
        } else if rest.sources.len() >= budget {
            Round { closed: true, ..rest }
        } else {
            match stamp_of(results, scope, unit) {
                Ok(source) => Round { sources: rest.sources.push(source), ..rest },
                Err(error) => Round { fault: Some(error), ..rest },
            }
        }
    }
}

proof fn lemma_round_ends(
    results: Map<Operation, u64>,
    scope: TurnScope,
    budget: int,
    count: nat,
    whole: nat,
)
    requires
        count <= whole,
        round_of(results, scope, budget, count).closed || round_of(
            results,
            scope,
            budget,
            count,
        ).fault is Some,
    ensures
        round_of(results, scope, budget, whole) == round_of(results, scope, budget, count),
    decreases whole - count,
{
    if count < whole {
        lemma_round_ends(results, scope, budget, count, (whole - 1) as nat);
    }
}

/// Whether a worksheet holds all that the stamps of a round takes.
pub open spec fn round_supplied(
    results: Map<Operation, u64>,
    units: Seq<SimulationUnit>,
    policies: Policies,
    tick: u64,
) -> bool {
    forall|k: int|
        0 <= k < units.len() && policies.contains_key((#[trigger] units[k]).combat.id) ==> (
        policies[units[k].combat.id].influence matches Some(influence) ==> (
        influence.browser_temporal_seed matches Some(seed) ==> {
            &&& cohort_supplied(results, seed)
            &&& timing_supplied(results, influence, tick)
            &&& results.contains_key(
                Operation::Product(timed_influence(results, influence, tick).1, real_of(N_3)),
            )
        }))
}

/// The formations that stamp the territory at a tick when turns are taken. They take turns in
/// three groups, and the round begins thirty formations further on at each tick.
pub fn browser_influence_sources(
    units: &Vec<SimulationUnit>,
    policies: &BTreeMap<u64, RuntimeUnitPolicy>,
    tick: u64,
    frame: u64,
    nonempty_side_count: usize,
    reader: &mut Reader<'_>,
) -> (outcome: Result<(Vec<InfluenceSource>, InfluenceSchedule), RuntimeError>)
    requires
        old(reader).sound(),
    ensures
        final(reader)@ == old(reader)@,
        final(reader).sound(),
        final(reader).complete() ==> old(reader).complete() && ({
            let scope = TurnScope {
                units: units@,
                policies: policies_view(policies@),
                tick,
                frame,
            };
            let budget = cohort_budget(tick as int % 3, nonempty_side_count);
            let round = round_of(old(reader)@, scope, budget, units@.len());
            match outcome {
                Ok((sources, schedule)) => round.fault is None && views(sources@) == round.sources
                    && schedule == (InfluenceSchedule {
                    cohort: (tick as int % 3) as usize,
                    application_budget: budget as usize,
                    selected_units: round.sources.len() as usize,
                }),
                Err(error) => round.fault == Some(error),
            }
        }),
        old(reader).complete() && round_supplied(
            old(reader)@,
            units@,
            policies_view(policies@),
            tick,
        ) ==> final(reader).complete(),
{
    broadcast use vstd::std_specs::btree::group_btree_axioms;

    let ghost results = reader@;
    let ghost untouched = reader.complete();
    let ghost scope = TurnScope {
        units: units@,
        policies: policies_view(policies@),
        tick,
        frame,
    };
    let cohort: usize = (tick % 3) as usize;
    let most: usize = browser_influence_budgets(nonempty_side_count).0;
    let extra: usize = if cohort < most % 3 {
        1
    } else {
        0
    };
    let share: usize = most / 3 + extra;
    let budget: usize = if share > 1 {
        share
    } else {
        1
    };
    assert(budget == cohort_budget(tick as int % 3, nonempty_side_count));
    let count: usize = units.len();
    let start: usize = if count == 0 {
        0
    } else {
        ((tick as u128 * 30) % (count as u128)) as usize
    };
    let mut sources: Vec<InfluenceSource> = Vec::new();
    assert(views(sources@) =~= Seq::<SourceModel>::empty());
    let mut closed = false;
    let mut offset: usize = 0;
    while offset < count && !closed
        invariant
            offset <= count,
            count == units@.len(),
            start == round_start(tick, units@.len()),
            count > 0 ==> start < count,
            budget == cohort_budget(tick as int % 3, nonempty_side_count),
            cohort == tick as int % 3,
            scope == (TurnScope {
                units: units@,
                policies: policies_view(policies@),
                tick,
                frame,
            }),
            results == old(reader)@,
            untouched == old(reader).complete(),
            reader@ == results,
            reader.sound(),
            sources@.len() <= offset,
            reader.complete() ==> untouched && (Round {
                sources: views(sources@),
                closed,
                fault: None,
            }) == round_of(results, scope, budget as int, offset as nat),
            untouched && round_supplied(
                results,
                units@,
                policies_view(policies@),
                tick,
            ) ==> reader.complete(),
        decreases count - offset,
    {
        broadcast use vstd::std_specs::btree::group_btree_axioms;

        let ghost next = (offset + 1) as nat;
        let place: usize = if offset < count - start {
            start + offset
        } else {
            offset - (count - start)
        };
        proof {
            assert(place == (start + offset) % (count as int)) by {
                if start + offset < count {
                    vstd::arithmetic::div_mod::lemma_small_mod(
                        (start + offset) as nat,
                        count as nat,
                    );
                } else {
                    vstd::arithmetic::div_mod::lemma_fundamental_div_mod_converse(
                        start + offset,
                        count as int,
                        1,
                        start + offset - count,
                    );
                }
            }
        }
        let unit = units[place];
        let id: u64 = unit.combat.id;
        assert(unit == in_round(scope, offset as int));
        assert(scope.policies.contains_key(id) == policies@.contains_key(id));
        let policy = match policies.get(&id) {
            Some(policy) => policy,
            None => {
                proof {
                    if reader.complete() {
                        lemma_round_ends(results, scope, budget as int, next, units@.len());
                    }
                }
                return Err(RuntimeError::InvalidUnitPolicy(id));
            },
        };
        assert(scope.policies[id] == policy@);
        let seed_found = match &policy.influence {
            Some(influence) => influence.browser_temporal_seed,
            None => None,
        };
        let seed = match seed_found {
            Some(seed) => seed,
            None => {
                proof {
                    if reader.complete() {
                        lemma_round_ends(results, scope, budget as int, next, units@.len());
                    }
                }
                return Err(
                    RuntimeError::InvalidCheckpoint(
                        "influence runtime requires a temporal seed for every live formation",
                    ),
                );
            },
        };
        let own: usize = browser_stable_unit_cohort(seed, STRIDE, reader);
        let rested = (frame as u128) > (unit.combat.last_combat_tick as u128) + 5;
        if own == cohort && !unit_deploying(policy, tick) && rested {
            if sources.len() >= budget {
                closed = true;
            } else if let Some(influence) = &policy.influence {
                let timed = resolve_influence_timing(influence, tick, reader);
                let delta = reader.product(timed.1, Real::from_bits(N_3));
                if unit.combat.sovereign == 0 || unit.combat.sovereign > 0xffff {
                    proof {
                        if reader.complete() {
                            lemma_round_ends(results, scope, budget as int, next, units@.len());
                        }
                    }
                    return Err(
                        RuntimeError::InvalidCheckpoint(
                            "unit sovereign exceeds territory country width",
                        ),
                    );
                }
                if unit.combat.side > usize::MAX as u64 {
                    proof {
                        if reader.complete() {
                            lemma_round_ends(results, scope, budget as int, next, units@.len());
                        }
                    }
                    return Err(
                        RuntimeError::InvalidCheckpoint(
                            "unit side exceeds territory side width",
                        ),
                    );
                }
                let source = make_source(
                    influence,
                    id,
                    unit.combat.side as usize,
                    unit.combat.sovereign as u16,
                    unit.combat.lat,
                    unit.combat.lng,
                    timed.0,
                    delta,
                );
                proof {
                    lemma_views_push(sources@, source);
                }
                sources.push(source);
            }
        }
        offset = offset + 1;
    }
    proof {
        if reader.complete() && closed {
            lemma_round_ends(results, scope, budget as int, offset as nat, units@.len());
        }
    }
    let schedule = InfluenceSchedule {
        cohort,
        application_budget: budget,
        selected_units: sources.len(),
    };
    Ok((sources, schedule))
}

/// A round never stamps more formations than its budget allows.
pub proof fn a_round_keeps_its_budget(
    results: Map<Operation, u64>,
    scope: TurnScope,
    budget: int,
    count: nat,
)
    requires
        budget >= 0,
    ensures
        round_of(results, scope, budget, count).sources.len() <= budget,
    decreases count,
{
    if count > 0 {
        a_round_keeps_its_budget(results, scope, budget, (count - 1) as nat);
    }
}

/// The budgets of the three groups add up to the budget of all formations.
pub proof fn the_groups_share_the_budget(sides: usize)
    ensures
        cohort_budget(0, sides) + cohort_budget(1, sides) + cohort_budget(2, sides)
            == influence_budgets(sides).0,
{
}

} // verus!
