//! What a checkpoint must satisfy before the runtime starts from it.

use std::collections::{BTreeMap, BTreeSet};
use vstd::prelude::*;
use crate::casualties::{ledger_view, Ledger};
use crate::numbers::N_360;
use crate::production::{standard_production_config, ProductionConfig, ProductionCountry};
use crate::reinforcement::{reserves_cover, reserves_valid};
use crate::runtime::enlistment::{find_entry, first_entry};
use crate::runtime::error::RuntimeError;
use crate::runtime::planning::{priors_view, FrontLayoutPrior, FrontObjective, PriorModel};
use crate::scalar::{real_of, Real};
use crate::tables::{formation_keys, ordered_countries};
use crate::units::SimulationUnit;

verus! {

/// Limits of a front layout.
#[derive(Clone, Copy, Debug, PartialEq, Eq, Structural)]
pub struct FrontLayoutConfig {
    pub max_grid_cells: usize,
    pub max_sides: usize,
    pub max_units: usize,
    pub max_frontier_cells: usize,
    pub max_segments: usize,
    pub max_assignment_edges: usize,
}

/// How often fronts are laid out anew.
pub const DEFAULT_FRONT_REFRESH_TICKS: u64 = 30;

/// How much of the territory a tick counts.
pub const DEFAULT_CENSUS_BUDGET: usize = 16_384;

/// How much of the territory is counted at a time when everything must be.
pub const DEFAULT_CENSUS_FLUSH_CHUNK: usize = 65_536;

/// How a runtime runs.
#[derive(Clone, Copy, Debug, PartialEq, Eq, Structural)]
pub struct RuntimeConfig {
    pub front: FrontLayoutConfig,
    pub production: ProductionConfig,
    pub front_refresh_ticks: u64,
    pub census_budget: usize,
    pub census_flush_chunk: usize,
    /// How hard planning holds on to earlier places in the fronts.
    pub prior_assignment_stickiness: Real,
}

/// The usual way to run, within the limits of a front layout.
pub open spec fn standard_runtime_config(front: FrontLayoutConfig) -> RuntimeConfig {
    RuntimeConfig {
        front,
        production: standard_production_config(),
        front_refresh_ticks: DEFAULT_FRONT_REFRESH_TICKS,
        census_budget: DEFAULT_CENSUS_BUDGET,
        census_flush_chunk: DEFAULT_CENSUS_FLUSH_CHUNK,
        prior_assignment_stickiness: real_of(N_360),
    }
}

impl RuntimeConfig {
    pub fn standard(front: FrontLayoutConfig) -> (config: RuntimeConfig)
        ensures
            config == standard_runtime_config(front),
    {
        RuntimeConfig {
            front,
            production: ProductionConfig::default(),
            front_refresh_ticks: DEFAULT_FRONT_REFRESH_TICKS,
            census_budget: DEFAULT_CENSUS_BUDGET,
            census_flush_chunk: DEFAULT_CENSUS_FLUSH_CHUNK,
            prior_assignment_stickiness: Real::from_bits(N_360),
        }
    }
}

/// Whether every limit leaves room for something.
pub open spec fn runtime_config_valid(config: RuntimeConfig) -> bool {
    &&& config.front_refresh_ticks > 0
    &&& config.census_budget > 0
    &&& config.census_flush_chunk > 0
    &&& config.front.max_grid_cells > 0
    &&& config.front.max_sides > 0
    &&& config.front.max_units > 0
    &&& config.front.max_frontier_cells > 0
    &&& config.front.max_segments > 0
    &&& config.front.max_assignment_edges > 0
}

pub fn validate_runtime_config(config: RuntimeConfig) -> (verdict: Result<(), RuntimeError>)
    ensures
        verdict is Ok <==> runtime_config_valid(config),
        verdict matches Err(error) ==> error == RuntimeError::InvalidConfig,
{
    if config.front_refresh_ticks == 0 || config.census_budget == 0 || config.census_flush_chunk
        == 0 || config.front.max_grid_cells == 0 || config.front.max_sides == 0
        || config.front.max_units == 0 || config.front.max_frontier_cells == 0
        || config.front.max_segments == 0 || config.front.max_assignment_edges == 0 {
        return Err(RuntimeError::InvalidConfig);
    }
    Ok(())
}

pub open spec fn is_live(units: Seq<SimulationUnit>, unit_id: u64) -> bool {
    exists|i: int| 0 <= i < units.len() && (#[trigger] units[i]).combat.id == unit_id
}

pub open spec fn is_objective(objectives: Seq<FrontObjective>, objective_id: u64) -> bool {
    exists|i: int| 0 <= i < objectives.len() && (#[trigger] objectives[i]).id == objective_id
}

pub open spec fn objectives_distinct(objectives: Seq<FrontObjective>) -> bool {
    forall|i: int, j: int|
        #![trigger objectives[i], objectives[j]]
        0 <= i < j < objectives.len() ==> objectives[i].id != objectives[j].id
}

/// The ids of the live formations.
pub fn live_ids(units: &Vec<SimulationUnit>) -> (ids: BTreeSet<u64>)
    ensures
        forall|id: u64| #[trigger] ids@.contains(id) == is_live(units@, id),
{
    broadcast use vstd::std_specs::btree::group_btree_axioms;

    let mut ids: BTreeSet<u64> = BTreeSet::new();
    let mut at: usize = 0;
    while at < units.len()
        invariant
            at <= units@.len(),
            forall|id: u64|
                #[trigger] ids@.contains(id) == exists|i: int|
                    0 <= i < at && (#[trigger] units@[i]).combat.id == id,
        decreases units@.len() - at,
    {
        broadcast use vstd::std_specs::btree::group_btree_axioms;

        let ghost before = ids@;
        ids.insert(units[at].combat.id);
        proof {
            assert forall|id: u64| #[trigger] ids@.contains(id) == exists|i: int|
                0 <= i < at + 1 && (#[trigger] units@[i]).combat.id == id by {
                assert(before.contains(id) || !before.contains(id));
                if id == units@[at as int].combat.id {
                    assert(units@[at as int].combat.id == id);
                }
            }
        }
        at = at + 1;
    }
    ids
}

fn objective_set(objectives: &Vec<FrontObjective>) -> (outcome: (BTreeSet<u64>, bool))
    ensures
        forall|id: u64| #[trigger] outcome.0@.contains(id) == is_objective(objectives@, id),
        outcome.1 == objectives_distinct(objectives@),
{
    broadcast use vstd::std_specs::btree::group_btree_axioms;

    let mut ids: BTreeSet<u64> = BTreeSet::new();
    let mut distinct = true;
    let mut at: usize = 0;
    while at < objectives.len()
        invariant
            at <= objectives@.len(),
            forall|id: u64|
                #[trigger] ids@.contains(id) == exists|i: int|
                    0 <= i < at && (#[trigger] objectives@[i]).id == id,
            distinct == objectives_distinct(objectives@.take(at as int)),
        decreases objectives@.len() - at,
    {
        broadcast use vstd::std_specs::btree::group_btree_axioms;

        let ghost before = ids@;
        let ghost earlier = objectives@.take(at as int);
        let ghost later = objectives@.take(at + 1);
        let id: u64 = objectives[at].id;
        let repeated = ids.contains(&id);
        proof {
            assert forall|i: int| 0 <= i < at implies later[i] == earlier[i] by {}
            assert(later[at as int].id == id);
            if repeated {
                let i = choose|i: int| 0 <= i < at && (#[trigger] objectives@[i]).id == id;
                assert(later[i].id == later[at as int].id);
            } else {
                assert forall|i: int, j: int|
                    #![trigger later[i], later[j]]
                    0 <= i < j < later.len() && objectives_distinct(earlier) implies later[i].id
                    != later[j].id by {
                    assert(later[i] == objectives@[i]);
                    if j < at {
                        assert(earlier[i].id != earlier[j].id);
                    } else {
                        assert(before.contains(objectives@[i].id));
                    }
                }
            }
            if !objectives_distinct(earlier) {
                let (i, j) = choose|i: int, j: int|
                    0 <= i < j < earlier.len() && (#[trigger] earlier[i]).id == (
                    #[trigger] earlier[j]).id;
                assert(later[i].id == later[j].id);
            }
        }
        if repeated {
            distinct = false;
        }
        ids.insert(id);
        proof {
            assert forall|other: u64| #[trigger] ids@.contains(other) == exists|i: int|
                0 <= i < at + 1 && (#[trigger] objectives@[i]).id == other by {
                assert(before.contains(other) || !before.contains(other));
                if other == id {
                    assert(objectives@[at as int].id == other);
                }
            }
        }
        at = at + 1;
    }
    assert(objectives@.take(objectives@.len() as int) =~= objectives@);
    (ids, distinct)
}

/// Whether earlier assignments name live formations and objectives that there are.
pub open spec fn assignments_valid(
    units: Seq<SimulationUnit>,
    objectives: Seq<FrontObjective>,
    assignments: Map<u64, u64>,
) -> bool {
    &&& objectives_distinct(objectives)
    &&& forall|unit_id: u64| #[trigger]
        assignments.contains_key(unit_id) ==> is_live(units, unit_id) && is_objective(
            objectives,
            assignments[unit_id],
        )
}

pub fn validate_prior_assignments(
    units: &Vec<SimulationUnit>,
    objectives: &Vec<FrontObjective>,
    assignments: &BTreeMap<u64, u64>,
) -> (verdict: Result<(), RuntimeError>)
    ensures
        verdict is Ok <==> assignments_valid(units@, objectives@, assignments@),
        verdict matches Err(error) ==> error == RuntimeError::InvalidCheckpoint(
            "prior front assignments reference missing units or objectives",
        ),
{
    broadcast use vstd::std_specs::btree::group_btree_axioms;

    let live = live_ids(units);
    let (objective_ids, distinct) = objective_set(objectives);
    let keys = formation_keys(assignments);
    let mut valid = distinct;
    let mut at: usize = 0;
    while at < keys.len()
        invariant
            at <= keys@.len(),
            keys@.to_set() == assignments@.dom(),
            forall|id: u64| #[trigger] live@.contains(id) == is_live(units@, id),
            forall|id: u64|
                #[trigger] objective_ids@.contains(id) == is_objective(objectives@, id),
            valid ==> objectives_distinct(objectives@) && forall|i: int|
                0 <= i < at ==> is_live(units@, #[trigger] keys@[i]) && is_objective(
                    objectives@,
                    assignments@[keys@[i]],
                ),
            !valid ==> !assignments_valid(units@, objectives@, assignments@),
        decreases keys@.len() - at,
    {
        broadcast use vstd::std_specs::btree::group_btree_axioms;

        let id: u64 = keys[at];
        assert(keys@.to_set().contains(id));
        assert(assignments@.contains_key(id));
        let objective: u64 = *assignments.get(&id).unwrap();
        if !live.contains(&id) || !objective_ids.contains(&objective) {
            valid = false;
        }
        at = at + 1;
    }
    proof {
        if valid {
            assert forall|unit_id: u64| #[trigger]
                assignments@.contains_key(unit_id) implies is_live(units@, unit_id)
                && is_objective(objectives@, assignments@[unit_id]) by {
                assert(keys@.to_set().contains(unit_id));
                let i = choose|i: int| 0 <= i < keys@.len() && keys@[i] == unit_id;
                assert(is_live(units@, keys@[i]));
            }
        }
    }
    if !valid {
        return Err(
            RuntimeError::InvalidCheckpoint(
                "prior front assignments reference missing units or objectives",
            ),
        );
    }
    Ok(())
}

/// Whether a prior belongs to its key, a live formation and an objective that there is.
pub open spec fn prior_valid(
    units: Seq<SimulationUnit>,
    objectives: Seq<FrontObjective>,
    unit_id: u64,
    prior: PriorModel,
) -> bool {
    &&& prior.unit_id == unit_id
    &&& prior.pair_key.len() > 0
    &&& is_live(units, unit_id)
    &&& is_objective(objectives, prior.objective_id)
}

/// What is wrong with the memory of the front planner.
pub open spec fn front_planner_fault(
    tick: u64,
    units: Seq<SimulationUnit>,
    objectives: Seq<FrontObjective>,
    priors: Map<u64, PriorModel>,
    last_refresh: Option<u64>,
) -> Option<RuntimeError> {
    if last_refresh matches Some(refresh) && refresh > tick {
        Some(
            RuntimeError::InvalidCheckpoint("last front refresh is newer than the runtime clock"),
        )
    } else if last_refresh is None && priors.dom().len() > 0 {
        Some(RuntimeError::InvalidCheckpoint("front layout prior has no completed refresh"))
    } else if exists|unit_id: u64|
        priors.contains_key(unit_id) && !prior_valid(
            units,
            objectives,
            unit_id,
            #[trigger] priors[unit_id],
        ) {
        Some(
            RuntimeError::InvalidCheckpoint(
                "front layout prior references missing units or objectives",
            ),
        )
    } else {
        None
    }
}

pub fn validate_front_planner_state(
    tick: u64,
    units: &Vec<SimulationUnit>,
    objectives: &Vec<FrontObjective>,
    priors: &BTreeMap<u64, FrontLayoutPrior>,
    last_refresh: Option<u64>,
) -> (verdict: Result<(), RuntimeError>)
    ensures
        match verdict {
            Ok(_) => front_planner_fault(
                tick,
                units@,
                objectives@,
                priors_view(priors@),
                last_refresh,
            ) is None,
            Err(error) => front_planner_fault(
                tick,
                units@,
                objectives@,
                priors_view(priors@),
                last_refresh,
            ) == Some(error),
        },
{
    broadcast use vstd::std_specs::btree::group_btree_axioms;

    let ghost shown = priors_view(priors@);
    if let Some(refresh) = last_refresh {
        if refresh > tick {
            return Err(
                RuntimeError::InvalidCheckpoint(
                    "last front refresh is newer than the runtime clock",
                ),
            );
        }
    }
    let keys = formation_keys(priors);
    assert(shown.dom() =~= priors@.dom());
    proof {
        assert(keys@.no_duplicates());
        keys@.unique_seq_to_set();
    }
    if last_refresh.is_none() && keys.len() > 0 {
        return Err(
            RuntimeError::InvalidCheckpoint("front layout prior has no completed refresh"),
        );
    }
    let live = live_ids(units);
    let (objective_ids, _distinct) = objective_set(objectives);
    let mut at: usize = 0;
    while at < keys.len()
        invariant
            at <= keys@.len(),
            keys@.to_set() == priors@.dom(),
            shown == priors_view(priors@),
            shown.dom() =~= priors@.dom(),
            !(last_refresh matches Some(refresh) && refresh > tick),
            !(last_refresh is None && shown.dom().len() > 0),
            forall|id: u64| #[trigger] live@.contains(id) == is_live(units@, id),
            forall|id: u64|
                #[trigger] objective_ids@.contains(id) == is_objective(objectives@, id),
            forall|i: int|
                0 <= i < at ==> prior_valid(
                    units@,
                    objectives@,
                    #[trigger] keys@[i],
                    shown[keys@[i]],
                ),
        decreases keys@.len() - at,
    {
        broadcast use vstd::std_specs::btree::group_btree_axioms;

        let id: u64 = keys[at];
        assert(keys@.to_set().contains(id));
        assert(shown.contains_key(id));
        let prior = priors.get(&id).unwrap();
        assert(shown[id] == prior@);
        if prior.unit_id != id || prior.pair_key.as_str().unicode_len() == 0 || !live.contains(&id)
            || !objective_ids.contains(&prior.objective_id) {
            assert(!prior_valid(units@, objectives@, id, shown[id]));
            return Err(
                RuntimeError::InvalidCheckpoint(
                    "front layout prior references missing units or objectives",
                ),
            );
        }
        at = at + 1;
    }
    proof {
        assert forall|unit_id: u64| shown.contains_key(unit_id) implies prior_valid(
            units@,
            objectives@,
            unit_id,
            #[trigger] shown[unit_id],
        ) by {
            assert(keys@.to_set().contains(unit_id));
            let i = choose|i: int| 0 <= i < keys@.len() && keys@[i] == unit_id;
            assert(prior_valid(units@, objectives@, keys@[i], shown[keys@[i]]));
        }
    }
    Ok(())
}

/// One reserve for every side.
pub fn validate_personnel_reserves(
    reserves: &BTreeMap<usize, Real>,
    side_count: usize,
) -> (verdict: Result<(), RuntimeError>)
    ensures
        verdict is Ok <==> reserves_valid(reserves@, side_count),
        verdict matches Err(error) ==> error == RuntimeError::InvalidCheckpoint(
            "personnel reserves must exactly cover the stable side topology",
        ),
{
    if reserves_cover(reserves, side_count) {
        Ok(())
    } else {
        Err(
            RuntimeError::InvalidCheckpoint(
                "personnel reserves must exactly cover the stable side topology",
            ),
        )
    }
}

/// Whether a country takes part in the scenario.
pub open spec fn takes_part(countries: Seq<ProductionCountry>, country_id: u16) -> bool {
    first_entry(countries, country_id, 0) is Some
}

/// Whether tolls name countries of the scenario and count people.
pub open spec fn toll_valid(
    countries: Seq<ProductionCountry>,
    toll: Map<u16, Real>,
    excluded: Option<u16>,
) -> bool {
    forall|country: u16| #[trigger]
        toll.contains_key(country) ==> takes_part(countries, country)
            && toll[country].finite_nonnegative() && excluded != Some(country)
}

fn check_toll(
    countries: &Vec<ProductionCountry>,
    toll: &BTreeMap<u16, Real>,
    excluded: Option<u16>,
) -> (answer: bool)
    ensures
        answer == toll_valid(countries@, toll@, excluded),
{
    broadcast use vstd::std_specs::btree::group_btree_axioms;

    let keys = ordered_countries(toll);
    let mut at: usize = 0;
    while at < keys.len()
        invariant
            at <= keys@.len(),
            forall|i: int| 0 <= i < keys@.len() ==> toll@.contains_key(#[trigger] keys@[i]),
            forall|country: u16| #[trigger] toll@.contains_key(country) ==> keys@.contains(country),
            forall|i: int|
                0 <= i < at ==> takes_part(countries@, #[trigger] keys@[i])
                    && toll@[keys@[i]].finite_nonnegative() && excluded != Some(keys@[i]),
        decreases keys@.len() - at,
    {
        broadcast use vstd::std_specs::btree::group_btree_axioms;

        let country: u16 = keys[at];
        assert(toll@.contains_key(country));
        let amount = *toll.get(&country).unwrap();
        let named = match excluded {
            Some(other) => other == country,
            None => false,
        };
        if named || find_entry(countries, country).is_none() || !amount.is_finite_nonnegative() {
            return false;
        }
        at = at + 1;
    }
    proof {
        assert forall|country: u16| #[trigger] toll@.contains_key(country) implies takes_part(
            countries@,
            country,
        ) && toll@[country].finite_nonnegative() && excluded != Some(country) by {
            let i = choose|i: int| 0 <= i < keys@.len() && keys@[i] == country;
            assert(takes_part(countries@, keys@[i]));
        }
    }
    true
}

pub fn validate_casualties(
    casualties: &BTreeMap<u16, Real>,
    countries: &Vec<ProductionCountry>,
) -> (verdict: Result<(), RuntimeError>)
    ensures
        verdict is Ok <==> toll_valid(countries@, casualties@, None),
        verdict matches Err(error) ==> error == RuntimeError::InvalidCheckpoint(
            "invalid casualty ledger",
        ),
{
    if check_toll(countries, casualties, None) {
        Ok(())
    } else {
        Err(RuntimeError::InvalidCheckpoint("invalid casualty ledger"))
    }
}

/// Whether a ledger names countries of the scenario, none as its own attacker, and counts people.
pub open spec fn ledger_valid(countries: Seq<ProductionCountry>, ledger: Ledger) -> bool {
    forall|victim: u16| #[trigger]
        ledger.contains_key(victim) ==> takes_part(countries, victim) && toll_valid(
            countries,
            ledger[victim],
            Some(victim),
        )
}

pub fn validate_casualties_by_victim(
    casualties: &BTreeMap<u16, BTreeMap<u16, Real>>,
    countries: &Vec<ProductionCountry>,
) -> (verdict: Result<(), RuntimeError>)
    ensures
        verdict is Ok <==> ledger_valid(countries@, ledger_view(casualties@)),
        verdict matches Err(error) ==> error == RuntimeError::InvalidCheckpoint(
            "invalid victim-to-attacker casualty ledger",
        ),
{
    broadcast use vstd::std_specs::btree::group_btree_axioms;

    let ghost shown = ledger_view(casualties@);
    let keys = ordered_countries(casualties);
    let mut at: usize = 0;
    while at < keys.len()
        invariant
            at <= keys@.len(),
            shown == ledger_view(casualties@),
            forall|i: int| 0 <= i < keys@.len() ==> casualties@.contains_key(#[trigger] keys@[i]),
            forall|country: u16| #[trigger]
                casualties@.contains_key(country) ==> keys@.contains(country),
            forall|i: int|
                0 <= i < at ==> takes_part(countries@, #[trigger] keys@[i]) && toll_valid(
                    countries@,
                    shown[keys@[i]],
                    Some(keys@[i]),
                ),
        decreases keys@.len() - at,
    {
        broadcast use vstd::std_specs::btree::group_btree_axioms;

        let victim: u16 = keys[at];
        assert(casualties@.contains_key(victim));
        let toll = casualties.get(&victim).unwrap();
        assert(shown.contains_key(victim) && shown[victim] == toll@);
        if find_entry(countries, victim).is_none() || !check_toll(countries, toll, Some(victim)) {
            return Err(
                RuntimeError::InvalidCheckpoint("invalid victim-to-attacker casualty ledger"),
            );
        }
        at = at + 1;
    }
    proof {
        assert forall|victim: u16| #[trigger] shown.contains_key(victim) implies takes_part(
            countries@,
            victim,
        ) && toll_valid(countries@, shown[victim], Some(victim)) by {
            assert(casualties@.contains_key(victim));
            let i = choose|i: int| 0 <= i < keys@.len() && keys@[i] == victim;
            assert(takes_part(countries@, keys@[i]));
        }
    }
    Ok(())
}

/// Whether every formation is accounted for: each one is left or removed, none is both, none is left
/// twice, and no other one turns up.
pub open spec fn accounted(
    before: Seq<SimulationUnit>,
    left: Seq<SimulationUnit>,
    removed: Seq<u64>,
) -> bool {
    &&& forall|i: int|
        0 <= i < before.len() ==> is_live(left, (#[trigger] before[i]).combat.id)
            != removed.contains(before[i].combat.id)
    &&& forall|i: int| 0 <= i < left.len() ==> is_live(before, (#[trigger] left[i]).combat.id)
    &&& forall|i: int| 0 <= i < removed.len() ==> is_live(before, #[trigger] removed[i])
    &&& forall|i: int, j: int|
        #![trigger left[i], left[j]]
        0 <= i < j < left.len() ==> left[i].combat.id != left[j].combat.id
}

/// The removed formations, or nothing where one was not there before.
fn removed_from(known: &BTreeSet<u64>, removed: &Vec<u64>) -> (outcome: Option<BTreeSet<u64>>)
    ensures
        outcome is Some <==> forall|i: int|
            0 <= i < removed@.len() ==> known@.contains(#[trigger] removed@[i]),
        outcome matches Some(gone) ==> forall|id: u64| #[trigger]
            gone@.contains(id) == removed@.contains(id),
{
    broadcast use vstd::std_specs::btree::group_btree_axioms;

    let mut gone: BTreeSet<u64> = BTreeSet::new();
    let mut at: usize = 0;
    proof {
        assert(removed@.take(0) =~= Seq::<u64>::empty());
    }
    while at < removed.len()
        invariant
            at <= removed@.len(),
            forall|i: int| 0 <= i < at ==> known@.contains(#[trigger] removed@[i]),
            forall|id: u64| #[trigger] gone@.contains(id) == removed@.take(at as int).contains(id),
        decreases removed@.len() - at,
    {
        broadcast use vstd::std_specs::btree::group_btree_axioms;

        if !known.contains(&removed[at]) {
            return None;
        }
        let ghost earlier = gone@;
        gone.insert(removed[at]);
        proof {
            let so_far = removed@.take(at as int);
            let longer = removed@.take(at + 1);
            assert(longer =~= so_far.push(removed@[at as int]));
            assert forall|id: u64| #[trigger] gone@.contains(id) == longer.contains(id) by {
                if so_far.contains(id) {
                    let k = so_far.index_of(id);
                    assert(longer[k] == id);
                }
                if longer.contains(id) && id != removed@[at as int] {
                    let k = longer.index_of(id);
                    assert(so_far[k] == id);
                }
                if id == removed@[at as int] {
                    assert(longer[at as int] == id);
                }
                assert(earlier.contains(id) == so_far.contains(id));
            }
        }
        at = at + 1;
    }
    assert(removed@.take(removed@.len() as int) =~= removed@);
    Some(gone)
}

/// Whether formations are left at most once each, and were all there before.
fn left_from(known: &BTreeSet<u64>, left: &Vec<SimulationUnit>) -> (answer: bool)
    ensures
        answer <==> (forall|i: int|
            0 <= i < left@.len() ==> known@.contains((#[trigger] left@[i]).combat.id)) && (forall|
            i: int,
            j: int,
        |
            #![trigger left@[i], left@[j]]
            0 <= i < j < left@.len() ==> left@[i].combat.id != left@[j].combat.id),
{
    broadcast use vstd::std_specs::btree::group_btree_axioms;

    let mut seen: BTreeSet<u64> = BTreeSet::new();
    let mut at: usize = 0;
    while at < left.len()
        invariant
            at <= left@.len(),
            forall|i: int| 0 <= i < at ==> known@.contains((#[trigger] left@[i]).combat.id),
            forall|i: int, j: int|
                #![trigger left@[i], left@[j]]
                0 <= i < j < at ==> left@[i].combat.id != left@[j].combat.id,
            forall|i: int| 0 <= i < at ==> seen@.contains((#[trigger] left@[i]).combat.id),
            forall|id: u64| #[trigger]
                seen@.contains(id) ==> exists|i: int|
                    0 <= i < at && (#[trigger] left@[i]).combat.id == id,
        decreases left@.len() - at,
    {
        broadcast use vstd::std_specs::btree::group_btree_axioms;

        let id = left[at].combat.id;
        if !known.contains(&id) || seen.contains(&id) {
            return false;
        }
        let ghost earlier = seen@;
        seen.insert(id);
        proof {
            assert forall|other: u64| #[trigger] seen@.contains(other) implies exists|i: int|
                0 <= i < at + 1 && (#[trigger] left@[i]).combat.id == other by {
                if other == id {
                    assert(left@[at as int].combat.id == other);
                } else {
                    assert(earlier.contains(other));
                }
            }
        }
        at = at + 1;
    }
    true
}

/// Whether every formation is accounted for.
pub(crate) fn accounts_for_all(
    before: &Vec<SimulationUnit>,
    left: &Vec<SimulationUnit>,
    removed: &Vec<u64>,
) -> (answer: bool)
    ensures
        answer == accounted(before@, left@, removed@),
{
    broadcast use vstd::std_specs::btree::group_btree_axioms;

    let known = live_ids(before);
    let stand = live_ids(left);
    if !left_from(&known, left) {
        return false;
    }
    match removed_from(&known, removed) {
        None => false,
        Some(gone) => {
            let mut at: usize = 0;
            while at < before.len()
                invariant
                    at <= before@.len(),
                    forall|id: u64| #[trigger] stand@.contains(id) == is_live(left@, id),
                    forall|id: u64| #[trigger] gone@.contains(id) == removed@.contains(id),
                    forall|i: int|
                        0 <= i < at ==> is_live(left@, (#[trigger] before@[i]).combat.id)
                            != removed@.contains(before@[i].combat.id),
                decreases before@.len() - at,
            {
                let id = before[at].combat.id;
                if stand.contains(&id) == gone.contains(&id) {
                    assert(is_live(left@, before@[at as int].combat.id) == removed@.contains(
                        before@[at as int].combat.id,
                    ));
                    return false;
                }
                at = at + 1;
            }
            true
        },
    }
}

/// Two steps that account for every formation account for every formation together: what was there
/// before the first is left by the second, or one of the two removed it.
pub proof fn steps_account_together(
    before: Seq<SimulationUnit>,
    between: Seq<SimulationUnit>,
    gone: Seq<u64>,
    left: Seq<SimulationUnit>,
    removed: Seq<u64>,
)
    requires
        accounted(before, between, gone),
        accounted(between, left, removed),
    ensures
        accounted(before, left, gone + removed),
{
    let all = gone + removed;
    assert forall|id: u64| #[trigger] all.contains(id) == (gone.contains(id) || removed.contains(
        id,
    )) by {
        if gone.contains(id) {
            let k = gone.index_of(id);
            assert(all[k] == id);
        }
        if removed.contains(id) {
            let k = removed.index_of(id);
            assert(all[gone.len() + k] == id);
        }
    }
    assert forall|i: int| 0 <= i < left.len() implies is_live(
        before,
        (#[trigger] left[i]).combat.id,
    ) by {
        let k = choose|k: int|
            0 <= k < between.len() && (#[trigger] between[k]).combat.id == left[i].combat.id;
        assert(is_live(before, between[k].combat.id));
    }
    assert forall|i: int| 0 <= i < all.len() implies is_live(before, #[trigger] all[i]) by {
        if i >= gone.len() {
            let id = removed[i - gone.len()];
            assert(is_live(between, id));
            let k = choose|k: int| 0 <= k < between.len() && (#[trigger] between[k]).combat.id == id;
            assert(is_live(before, between[k].combat.id));
        } else {
            assert(is_live(before, gone[i]));
        }
    }
    assert forall|i: int| 0 <= i < before.len() implies is_live(
        left,
        (#[trigger] before[i]).combat.id,
    ) != all.contains(before[i].combat.id) by {
        let id = before[i].combat.id;
        if is_live(between, id) {
            let k = choose|k: int| 0 <= k < between.len() && (#[trigger] between[k]).combat.id == id;
            assert(is_live(left, between[k].combat.id) != removed.contains(between[k].combat.id));
        } else {
            if is_live(left, id) {
                let k = choose|k: int| 0 <= k < left.len() && (#[trigger] left[k]).combat.id == id;
                assert(is_live(between, left[k].combat.id));
            }
        }
    }
}

} // verus!
