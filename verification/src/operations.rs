//! Operational continuation state: intelligence, task forces and posture overrides.

use std::collections::{BTreeMap, BTreeSet};
use vstd::prelude::*;
use crate::numbers::{
    MINUS_N_180, MINUS_N_90, N_0_002, N_0_15, N_0_2, N_0_22, N_0_3, N_0_35, N_0_4, N_0_45, N_0_5,
    N_0_6, N_0_75, N_0_85, N_0_88, N_180, N_90,
};
use crate::order::{
    copy_all, in_order, lemma_filter_commutes, lemma_permutation_contains, lemma_sort_commutes,
    rank_order, retain_with, sort_stable, stable_sort_orders, stable_sorted, strictly_sorted,
    Keyed, Ranked,
};
use crate::scalar::{real_of, Real, INFINITY_BITS, ONE_BITS};
use crate::text::{
    clone_text, decimal, decimal_text, decimals_are_distinct, fnv_hash, fnv_of, is_digit,
    lemma_decimal_digits, precedes, text_before, text_order_is_strict_and_total, text_view,
};
use crate::views::{lemma_views_push, lemma_views_update, replicas, shown, views, Replica};
use crate::worksheet::{
    all_missing, difference, integer, longitude_delta, number_at, product, quotient, sum,
    Operation, Reader, Worksheet,
};

verus! {

pub const OPERATIONAL_AI_SCHEMA_VERSION: &'static str = "native-operational-ai-v1";

/// How many override events are kept.
pub const OPERATIONAL_OVERRIDE_HISTORY_LIMIT: usize = 64;

/// How long a supply collapse keeps its side on the defensive.
pub const SUPPLY_OVERRIDE_TICKS: u64 = 300;

/// A place on the globe in degrees.
#[derive(Clone, Copy, Debug, PartialEq, Eq, Structural)]
pub struct OperationalPoint {
    pub lat: Real,
    pub lng: Real,
}

impl OperationalPoint {
    /// On the globe.
    pub open spec fn valid(self) -> bool {
        &&& self.lat.finite()
        &&& self.lng.finite()
        &&& real_of(MINUS_N_90).le(self.lat)
        &&& self.lat.le(real_of(N_90))
        &&& real_of(MINUS_N_180).le(self.lng)
        &&& self.lng.le(real_of(N_180))
    }

    /// Equal as numbers.
    pub open spec fn same(self, other: OperationalPoint) -> bool {
        self.lat.same(other.lat) && self.lng.same(other.lng)
    }

    pub fn validate(self) -> (answer: bool)
        ensures
            answer == self.valid(),
    {
        self.lat.is_finite() && self.lng.is_finite() && Real::from_bits(MINUS_N_90).at_most(
            self.lat,
        ) && self.lat.at_most(Real::from_bits(N_90)) && Real::from_bits(MINUS_N_180).at_most(
            self.lng,
        ) && self.lng.at_most(Real::from_bits(N_180))
    }

    pub fn equals(self, other: OperationalPoint) -> (answer: bool)
        ensures
            answer == self.same(other),
    {
        self.lat.equals(other.lat) && self.lng.equals(other.lng)
    }
}

pub open spec fn optional_point_valid(point: Option<OperationalPoint>) -> bool {
    point matches Some(place) ==> place.valid()
}

fn validate_optional_point(point: Option<OperationalPoint>) -> (answer: bool)
    ensures
        answer == optional_point_valid(point),
{
    match point {
        Some(place) => place.validate(),
        None => true,
    }
}

#[derive(Clone, Copy, Debug, PartialEq, Eq, Structural)]
pub enum IntelStatus {
    Fresh,
    Stale,
    Degraded,
}

#[derive(Clone, Copy, Debug, PartialEq, Eq, Structural)]
pub struct OperationalIntelConfig {
    pub scan_interval_ticks: u64,
    pub fresh_ticks: u64,
    pub stale_ticks: u64,
    pub expire_ticks: u64,
}

pub open spec fn standard_intel_config() -> OperationalIntelConfig {
    OperationalIntelConfig {
        scan_interval_ticks: 150,
        fresh_ticks: 300,
        stale_ticks: 1_200,
        expire_ticks: 1_800,
    }
}

impl Default for OperationalIntelConfig {
    fn default() -> (config: Self)
        ensures
            config == standard_intel_config(),
            config.valid(),
    {
        OperationalIntelConfig {
            scan_interval_ticks: 150,
            fresh_ticks: 300,
            stale_ticks: 1_200,
            expire_ticks: 1_800,
        }
    }
}

impl OperationalIntelConfig {
    pub open spec fn valid(self) -> bool {
        &&& self.scan_interval_ticks > 0
        &&& self.fresh_ticks > 0
        &&& self.fresh_ticks <= self.stale_ticks
        &&& self.stale_ticks <= self.expire_ticks
    }

    pub fn validate(self) -> (answer: bool)
        ensures
            answer == self.valid(),
    {
        self.scan_interval_ticks > 0 && self.fresh_ticks > 0 && self.fresh_ticks
            <= self.stale_ticks && self.stale_ticks <= self.expire_ticks
    }
}

#[derive(Clone, Copy, Debug, PartialEq, Eq, Structural)]
pub struct PrewarEnemyPower {
    pub side_index: usize,
    pub power: Real,
}

#[derive(Clone, Copy, Debug, PartialEq, Eq, Structural)]
pub enum OperationalPosture {
    Offensive,
    Defensive,
}

/// The posture of a side at war.
#[derive(Clone, Copy, Debug, PartialEq, Eq, Structural)]
pub enum WarPosture {
    Offensive,
    Balanced,
    Defensive,
}

impl OperationalPosture {
    pub open spec fn war_posture(self) -> WarPosture {
        match self {
            OperationalPosture::Offensive => WarPosture::Offensive,
            OperationalPosture::Defensive => WarPosture::Defensive,
        }
    }

    pub fn to_war_posture(self) -> (posture: WarPosture)
        ensures
            posture == self.war_posture(),
    {
        match self {
            OperationalPosture::Offensive => WarPosture::Offensive,
            OperationalPosture::Defensive => WarPosture::Defensive,
        }
    }
}

#[derive(Clone, Copy, Debug, PartialEq, Eq, Structural)]
pub enum OperationalOverrideSource {
    LastStand,
    SupplyCollapse,
    OffensiveDesperation,
    DefensiveDesperation,
    DefenderReaction,
}

#[derive(Clone, Copy, Debug, PartialEq, Eq, Structural)]
pub struct OperationalOverride {
    pub posture: OperationalPosture,
    pub source: OperationalOverrideSource,
    pub started_tick: u64,
    pub expires_tick: Option<u64>,
    pub sequence: u64,
}

#[derive(Clone, Copy, Debug, PartialEq, Eq, Structural)]
pub enum TaskForcePhase {
    Assembling,
    Attacking,
    Consolidating,
    Culminated,
    Withdrawing,
    Regrouping,
    Complete,
}

#[derive(Clone, Copy, Debug, PartialEq, Eq, Structural)]
pub enum TaskForcePosture {
    Aggressive,
    Balanced,
    Defensive,
}

#[derive(Clone, Copy, Debug, PartialEq, Eq, Structural)]
pub enum TaskForceRole {
    Spearhead,
    Line,
    Reserve,
    Support,
}

#[derive(Clone, Copy, Debug, PartialEq, Eq, Structural)]
pub struct TaskForceMember {
    pub unit_id: u64,
    pub role: TaskForceRole,
    pub assigned_tick: u64,
    pub route_progress: Real,
}

#[derive(Clone, Copy, Debug, PartialEq, Eq, Structural)]
pub enum CountryDesperationMode {
    Normal,
    LastStand,
    DefensiveDesperation,
    OffensiveDesperation,
    UnderMobilized,
}

#[derive(Clone, Copy, Debug, PartialEq, Eq, Structural)]
pub struct CountryDesperationState {
    pub country_id: u16,
    pub mode: CountryDesperationMode,
    pub initial_cities: Option<u64>,
    pub initial_manpower: Option<Real>,
    pub previous_controlled: Option<u64>,
    pub stall_ticks: u64,
}

#[derive(Clone, Copy, Debug, PartialEq, Eq, Structural)]
pub struct OperationalOverrideEvent {
    pub sequence: u64,
    pub side_index: usize,
    pub posture: Option<OperationalPosture>,
    pub source: OperationalOverrideSource,
    pub started_tick: u64,
    pub expires_tick: Option<u64>,
}

/// An enemy formation as an observer last saw it.
#[derive(Debug)]
pub struct OperationalContact {
    pub key: String,
    pub enemy_side_index: usize,
    pub sector_id: String,
    pub unit_id: u64,
    pub country_id: Option<u16>,
    pub domain: String,
    pub kind: String,
    pub lat: Real,
    pub lng: Real,
    pub velocity_lat: Real,
    pub velocity_lng: Real,
    pub observed_power: Real,
    pub base_confidence: Real,
    pub confidence: Real,
    pub observed_tick: u64,
    pub age_ticks: u64,
    pub status: IntelStatus,
    pub source: String,
}

/// What a [`OperationalContact`] says.
pub struct ContactModel {
    pub key: Seq<char>,
    pub enemy_side_index: usize,
    pub sector_id: Seq<char>,
    pub unit_id: u64,
    pub country_id: Option<u16>,
    pub domain: Seq<char>,
    pub kind: Seq<char>,
    pub lat: Real,
    pub lng: Real,
    pub velocity_lat: Real,
    pub velocity_lng: Real,
    pub observed_power: Real,
    pub base_confidence: Real,
    pub confidence: Real,
    pub observed_tick: u64,
    pub age_ticks: u64,
    pub status: IntelStatus,
    pub source: Seq<char>,
}

impl View for OperationalContact {
    type V = ContactModel;

    open spec fn view(&self) -> ContactModel {
        ContactModel {
            key: self.key@,
            enemy_side_index: self.enemy_side_index,
            sector_id: self.sector_id@,
            unit_id: self.unit_id,
            country_id: self.country_id,
            domain: self.domain@,
            kind: self.kind@,
            lat: self.lat,
            lng: self.lng,
            velocity_lat: self.velocity_lat,
            velocity_lng: self.velocity_lng,
            observed_power: self.observed_power,
            base_confidence: self.base_confidence,
            confidence: self.confidence,
            observed_tick: self.observed_tick,
            age_ticks: self.age_ticks,
            status: self.status,
            source: self.source@,
        }
    }
}

impl Replica for OperationalContact {
    fn replica(&self) -> (copy: Self) {
        OperationalContact {
            key: self.key.clone(),
            enemy_side_index: self.enemy_side_index,
            sector_id: self.sector_id.clone(),
            unit_id: self.unit_id,
            country_id: self.country_id,
            domain: self.domain.clone(),
            kind: self.kind.clone(),
            lat: self.lat,
            lng: self.lng,
            velocity_lat: self.velocity_lat,
            velocity_lng: self.velocity_lng,
            observed_power: self.observed_power,
            base_confidence: self.base_confidence,
            confidence: self.confidence,
            observed_tick: self.observed_tick,
            age_ticks: self.age_ticks,
            status: self.status,
            source: self.source.clone(),
        }
    }
}

impl Clone for OperationalContact {
    fn clone(&self) -> (copy: Self)
        ensures
            copy@ == self@,
    {
        self.replica()
    }
}

/// What a side knows of its enemies.
#[derive(Debug)]
pub struct OperationalIntelState {
    pub last_scan_tick: u64,
    pub revision: u64,
    pub config: OperationalIntelConfig,
    pub prewar_enemy_power: Vec<PrewarEnemyPower>,
    pub contacts: Vec<OperationalContact>,
}

/// What a [`OperationalIntelState`] says.
pub struct IntelModel {
    pub last_scan_tick: u64,
    pub revision: u64,
    pub config: OperationalIntelConfig,
    pub prewar_enemy_power: Seq<PrewarEnemyPower>,
    pub contacts: Seq<ContactModel>,
}

impl View for OperationalIntelState {
    type V = IntelModel;

    open spec fn view(&self) -> IntelModel {
        IntelModel {
            last_scan_tick: self.last_scan_tick,
            revision: self.revision,
            config: self.config,
            prewar_enemy_power: self.prewar_enemy_power@,
            contacts: views(self.contacts@),
        }
    }
}

impl Replica for OperationalIntelState {
    fn replica(&self) -> (copy: Self) {
        OperationalIntelState {
            last_scan_tick: self.last_scan_tick,
            revision: self.revision,
            config: self.config,
            prewar_enemy_power: copy_all(self.prewar_enemy_power.as_slice()),
            contacts: replicas(&self.contacts),
        }
    }
}

impl Clone for OperationalIntelState {
    fn clone(&self) -> (copy: Self)
        ensures
            copy@ == self@,
    {
        self.replica()
    }
}

/// One side as an observer.
#[derive(Debug)]
pub struct OperationalSideState {
    pub side_index: usize,
    pub hostile_side_indices: Vec<usize>,
    pub intel: OperationalIntelState,
    pub current_override: Option<OperationalOverride>,
}

/// What a [`OperationalSideState`] says.
pub struct SideModel {
    pub side_index: usize,
    pub hostile_side_indices: Seq<usize>,
    pub intel: IntelModel,
    pub current_override: Option<OperationalOverride>,
}

impl View for OperationalSideState {
    type V = SideModel;

    open spec fn view(&self) -> SideModel {
        SideModel {
            side_index: self.side_index,
            hostile_side_indices: self.hostile_side_indices@,
            intel: self.intel@,
            current_override: self.current_override,
        }
    }
}

impl Replica for OperationalSideState {
    fn replica(&self) -> (copy: Self) {
        OperationalSideState {
            side_index: self.side_index,
            hostile_side_indices: copy_all(self.hostile_side_indices.as_slice()),
            intel: self.intel.replica(),
            current_override: self.current_override,
        }
    }
}

impl Clone for OperationalSideState {
    fn clone(&self) -> (copy: Self)
        ensures
            copy@ == self@,
    {
        self.replica()
    }
}

/// Formations that carry out one plan together.
#[derive(Debug)]
pub struct OperationalTaskForce {
    pub id: String,
    pub signature: String,
    pub side_index: usize,
    pub plan_signature: String,
    pub plan_type: String,
    pub theater_id: Option<String>,
    pub target: Option<OperationalPoint>,
    pub staging_anchor: Option<OperationalPoint>,
    pub route: Vec<OperationalPoint>,
    pub phase: TaskForcePhase,
    pub posture: TaskForcePosture,
    pub members: Vec<TaskForceMember>,
    pub reserve_unit_ids: Vec<u64>,
    pub desired_power: Real,
    pub launch_power: Real,
    pub current_power: Real,
    pub peak_power: Real,
    pub readiness: Real,
    pub max_assigned_units: usize,
    pub created_tick: u64,
    pub phase_started_tick: u64,
    pub last_progress_tick: u64,
    pub last_recovery_tick: u64,
    pub recovery_power: Real,
    pub progress: Real,
    pub withdrawal_anchor: Option<OperationalPoint>,
    pub completion_reason: Option<String>,
    pub outcome: Option<String>,
    pub severe_surprise: bool,
    pub parent_task_force_id: Option<String>,
    pub supply_invalidated_tick: Option<u64>,
    pub intent_revision: u64,
}

/// What a [`OperationalTaskForce`] says.
pub struct ForceModel {
    pub id: Seq<char>,
    pub signature: Seq<char>,
    pub side_index: usize,
    pub plan_signature: Seq<char>,
    pub plan_type: Seq<char>,
    pub theater_id: Option<Seq<char>>,
    pub target: Option<OperationalPoint>,
    pub staging_anchor: Option<OperationalPoint>,
    pub route: Seq<OperationalPoint>,
    pub phase: TaskForcePhase,
    pub posture: TaskForcePosture,
    pub members: Seq<TaskForceMember>,
    pub reserve_unit_ids: Seq<u64>,
    pub desired_power: Real,
    pub launch_power: Real,
    pub current_power: Real,
    pub peak_power: Real,
    pub readiness: Real,
    pub max_assigned_units: usize,
    pub created_tick: u64,
    pub phase_started_tick: u64,
    pub last_progress_tick: u64,
    pub last_recovery_tick: u64,
    pub recovery_power: Real,
    pub progress: Real,
    pub withdrawal_anchor: Option<OperationalPoint>,
    pub completion_reason: Option<Seq<char>>,
    pub outcome: Option<Seq<char>>,
    pub severe_surprise: bool,
    pub parent_task_force_id: Option<Seq<char>>,
    pub supply_invalidated_tick: Option<u64>,
    pub intent_revision: u64,
}

impl View for OperationalTaskForce {
    type V = ForceModel;

    open spec fn view(&self) -> ForceModel {
        ForceModel {
            id: self.id@,
            signature: self.signature@,
            side_index: self.side_index,
            plan_signature: self.plan_signature@,
            plan_type: self.plan_type@,
            theater_id: text_view(self.theater_id),
            target: self.target,
            staging_anchor: self.staging_anchor,
            route: self.route@,
            phase: self.phase,
            posture: self.posture,
            members: self.members@,
            reserve_unit_ids: self.reserve_unit_ids@,
            desired_power: self.desired_power,
            launch_power: self.launch_power,
            current_power: self.current_power,
            peak_power: self.peak_power,
            readiness: self.readiness,
            max_assigned_units: self.max_assigned_units,
            created_tick: self.created_tick,
            phase_started_tick: self.phase_started_tick,
            last_progress_tick: self.last_progress_tick,
            last_recovery_tick: self.last_recovery_tick,
            recovery_power: self.recovery_power,
            progress: self.progress,
            withdrawal_anchor: self.withdrawal_anchor,
            completion_reason: text_view(self.completion_reason),
            outcome: text_view(self.outcome),
            severe_surprise: self.severe_surprise,
            parent_task_force_id: text_view(self.parent_task_force_id),
            supply_invalidated_tick: self.supply_invalidated_tick,
            intent_revision: self.intent_revision,
        }
    }
}

impl Replica for OperationalTaskForce {
    fn replica(&self) -> (copy: Self) {
        OperationalTaskForce {
            id: self.id.clone(),
            signature: self.signature.clone(),
            side_index: self.side_index,
            plan_signature: self.plan_signature.clone(),
            plan_type: self.plan_type.clone(),
            theater_id: clone_text(&self.theater_id),
            target: self.target,
            staging_anchor: self.staging_anchor,
            route: copy_all(self.route.as_slice()),
            phase: self.phase,
            posture: self.posture,
            members: copy_all(self.members.as_slice()),
            reserve_unit_ids: copy_all(self.reserve_unit_ids.as_slice()),
            desired_power: self.desired_power,
            launch_power: self.launch_power,
            current_power: self.current_power,
            peak_power: self.peak_power,
            readiness: self.readiness,
            max_assigned_units: self.max_assigned_units,
            created_tick: self.created_tick,
            phase_started_tick: self.phase_started_tick,
            last_progress_tick: self.last_progress_tick,
            last_recovery_tick: self.last_recovery_tick,
            recovery_power: self.recovery_power,
            progress: self.progress,
            withdrawal_anchor: self.withdrawal_anchor,
            completion_reason: clone_text(&self.completion_reason),
            outcome: clone_text(&self.outcome),
            severe_surprise: self.severe_surprise,
            parent_task_force_id: clone_text(&self.parent_task_force_id),
            supply_invalidated_tick: self.supply_invalidated_tick,
            intent_revision: self.intent_revision,
        }
    }
}

impl Clone for OperationalTaskForce {
    fn clone(&self) -> (copy: Self)
        ensures
            copy@ == self@,
    {
        self.replica()
    }
}

/// Everything that carries over from tick to tick.
#[derive(Debug)]
pub struct OperationalRuntimeState {
    pub schema: String,
    pub sides: Vec<OperationalSideState>,
    pub task_forces: Vec<OperationalTaskForce>,
    pub country_desperation: Vec<CountryDesperationState>,
    pub override_events: Vec<OperationalOverrideEvent>,
    pub next_override_sequence: u64,
}

/// What a [`OperationalRuntimeState`] says.
pub struct OperationsModel {
    pub schema: Seq<char>,
    pub sides: Seq<SideModel>,
    pub task_forces: Seq<ForceModel>,
    pub country_desperation: Seq<CountryDesperationState>,
    pub override_events: Seq<OperationalOverrideEvent>,
    pub next_override_sequence: u64,
}

impl View for OperationalRuntimeState {
    type V = OperationsModel;

    open spec fn view(&self) -> OperationsModel {
        OperationsModel {
            schema: self.schema@,
            sides: views(self.sides@),
            task_forces: views(self.task_forces@),
            country_desperation: self.country_desperation@,
            override_events: self.override_events@,
            next_override_sequence: self.next_override_sequence,
        }
    }
}

impl Replica for OperationalRuntimeState {
    fn replica(&self) -> (copy: Self) {
        OperationalRuntimeState {
            schema: self.schema.clone(),
            sides: replicas(&self.sides),
            task_forces: replicas(&self.task_forces),
            country_desperation: copy_all(self.country_desperation.as_slice()),
            override_events: copy_all(self.override_events.as_slice()),
            next_override_sequence: self.next_override_sequence,
        }
    }
}

impl Clone for OperationalRuntimeState {
    fn clone(&self) -> (copy: Self)
        ensures
            copy@ == self@,
    {
        self.replica()
    }
}

#[derive(Clone, Copy, Debug, PartialEq, Eq)]
pub enum OperationalError {
    Invalid(&'static str),
}

/// Whether every value is larger than the one before it.
pub fn strictly_sorted_unique<T: Keyed>(values: &[T]) -> (answer: bool)
    ensures
        answer == strictly_sorted(values@),
{
    let mut at: usize = 1;
    while at < values.len()
        invariant
            at >= 1,
            forall|i: int, j: int|
                #![trigger values@[i], values@[j]]
                0 <= i < j < at && j < values@.len() ==> values@[i].sort_key()
                    < values@[j].sort_key(),
        decreases values@.len() - at,
    {
        if values[at - 1].key() >= values[at].key() {
            assert(values@[at - 1].sort_key() >= values@[at as int].sort_key());
            return false;
        }
        assert forall|i: int, j: int| #![trigger values@[i], values@[j]] 0 <= i < j < at + 1 && j
            < values@.len() implies values@[i].sort_key() < values@[j].sort_key() by {
            if j == at && i < at - 1 {
                assert(values@[i].sort_key() < values@[at - 1].sort_key());
            }
        }
        at = at + 1;
    }
    true
}

/// A key that depends on nothing but the identifier.
pub fn stable_task_force_key(id: &str) -> (key: u64)
    ensures
        key == force_key(id@),
{
    fnv_hash(id.as_bytes())
}

pub open spec fn force_key(id: Seq<char>) -> u64 {
    fnv_of(vstd::utf8::encode_utf8(id), vstd::utf8::encode_utf8(id).len())
}

pub fn contains_index(values: &[usize], wanted: usize) -> (found: bool)
    ensures
        found == values@.contains(wanted),
{
    let mut at: usize = 0;
    while at < values.len()
        invariant
            at <= values@.len(),
            forall|i: int| 0 <= i < at ==> values@[i] != wanted,
        decreases values@.len() - at,
    {
        if values[at] == wanted {
            return true;
        }
        at = at + 1;
    }
    false
}

/// The outside facts that operational state is held against.
pub ghost struct OperationsScope {
    pub side_count: usize,
    pub live_units: Map<u64, usize>,
    pub countries: Set<u16>,
    pub tick: u64,
    pub next_sequence: u64,
}

pub open spec fn observer_valid(side: SideModel, expected: int, scope: OperationsScope) -> bool {
    &&& side.side_index == expected
    &&& strictly_sorted(side.hostile_side_indices)
    &&& forall|i: int|
        0 <= i < side.hostile_side_indices.len() ==> {
            let enemy = #[trigger] side.hostile_side_indices[i];
            enemy < scope.side_count && enemy != expected
        }
    &&& side.intel.config.valid()
    &&& side.intel.last_scan_tick <= scope.tick
}

pub open spec fn prewar_valid(side: SideModel) -> bool {
    forall|i: int|
        0 <= i < side.intel.prewar_enemy_power.len() ==> {
            let record = #[trigger] side.intel.prewar_enemy_power[i];
            record.side_index == side.hostile_side_indices[i] && record.power.finite_nonnegative()
        }
}

pub open spec fn contact_valid(side: SideModel, at: int, scope: OperationsScope) -> bool {
    let contact = side.intel.contacts[at];
    &&& contact.key.len() > 0
    &&& at > 0 ==> text_before(side.intel.contacts[at - 1].key, contact.key)
    &&& side.hostile_side_indices.contains(contact.enemy_side_index)
    &&& scope.live_units.contains_key(contact.unit_id)
    &&& contact.country_id matches Some(country) ==> scope.countries.contains(country)
    &&& (OperationalPoint { lat: contact.lat, lng: contact.lng }).valid()
    &&& contact.velocity_lat.finite()
    &&& contact.velocity_lng.finite()
    &&& contact.observed_power.finite_nonnegative()
    &&& contact.base_confidence.unit_interval()
    &&& contact.confidence.unit_interval()
    &&& contact.observed_tick <= scope.tick
    &&& contact.age_ticks <= scope.tick - contact.observed_tick
}

pub open spec fn override_valid(current: OperationalOverride, scope: OperationsScope) -> bool {
    &&& current.started_tick <= scope.tick
    &&& current.expires_tick matches Some(expires) ==> current.started_tick <= expires
    &&& current.sequence < scope.next_sequence
}

/// What is wrong with one side.
pub open spec fn side_fault(
    side: SideModel,
    expected: int,
    scope: OperationsScope,
) -> Option<OperationalError> {
    if !observer_valid(side, expected, scope) {
        Some(OperationalError::Invalid("observer side state"))
    } else if side.intel.prewar_enemy_power.len() != side.hostile_side_indices.len() {
        Some(OperationalError::Invalid("prewar hostile coverage"))
    } else if !prewar_valid(side) {
        Some(OperationalError::Invalid("prewar hostile power"))
    } else if exists|at: int|
        0 <= at < side.intel.contacts.len() && !#[trigger] contact_valid(side, at, scope) {
        Some(OperationalError::Invalid("observer contact"))
    } else if side.current_override matches Some(current) && !override_valid(current, scope) {
        Some(OperationalError::Invalid("current posture override"))
    } else {
        None
    }
}

/// What is wrong with the first faulty side.
pub open spec fn sides_fault(
    sides: Seq<SideModel>,
    from: int,
    scope: OperationsScope,
) -> Option<OperationalError>
    decreases sides.len() - from,
{
    if from < 0 || from >= sides.len() {
        None
    } else if side_fault(sides[from], from, scope) is Some {
        side_fault(sides[from], from, scope)
    } else {
        sides_fault(sides, from + 1, scope)
    }
}

/// The units that members claim, on top of those that were claimed before.
pub open spec fn claims(base: Set<u64>, members: Seq<TaskForceMember>, count: nat) -> Set<u64>
    decreases count,
{
    if count == 0 {
        base
    } else {
        claims(base, members, (count - 1) as nat).insert(members[count - 1].unit_id)
    }
}

/// The units that the first task forces claim.
pub open spec fn claimed(forces: Seq<ForceModel>, count: nat) -> Set<u64>
    decreases count,
{
    if count == 0 {
        Set::empty()
    } else {
        let force = forces[count - 1];
        claims(claimed(forces, (count - 1) as nat), force.members, force.members.len())
    }
}

pub open spec fn force_fields_valid(
    forces: Seq<ForceModel>,
    at: int,
    scope: OperationsScope,
) -> bool {
    let force = forces[at];
    &&& force.id.len() > 0
    &&& at > 0 ==> text_before(forces[at - 1].id, force.id)
    &&& force.side_index < scope.side_count
    &&& optional_point_valid(force.target)
    &&& optional_point_valid(force.staging_anchor)
    &&& forall|i: int| 0 <= i < force.route.len() ==> (#[trigger] force.route[i]).valid()
    &&& optional_point_valid(force.withdrawal_anchor)
    &&& force.desired_power.finite_nonnegative()
    &&& force.launch_power.finite_nonnegative()
    &&& force.current_power.finite_nonnegative()
    &&& force.peak_power.finite_nonnegative()
    &&& force.recovery_power.finite_nonnegative()
    &&& force.readiness.unit_interval()
    &&& force.progress.unit_interval()
    &&& force.max_assigned_units > 0
    &&& force.created_tick <= scope.tick
    &&& force.phase_started_tick <= scope.tick
    &&& force.last_progress_tick <= scope.tick
    &&& force.last_recovery_tick <= scope.tick
    &&& force.supply_invalidated_tick matches Some(at) ==> at <= scope.tick
}

pub open spec fn member_valid(
    force: ForceModel,
    at: int,
    claimed_before: Set<u64>,
    scope: OperationsScope,
) -> bool {
    let member = force.members[at];
    &&& at > 0 ==> force.members[at - 1].unit_id < member.unit_id
    &&& scope.live_units.contains_key(member.unit_id)
    &&& scope.live_units[member.unit_id] == force.side_index
    &&& !claims(claimed_before, force.members, at as nat).contains(member.unit_id)
    &&& member.assigned_tick <= scope.tick
    &&& member.route_progress.unit_interval()
}

pub open spec fn members_valid(
    force: ForceModel,
    claimed_before: Set<u64>,
    scope: OperationsScope,
) -> bool {
    forall|at: int|
        0 <= at < force.members.len() ==> #[trigger] member_valid(
            force,
            at,
            claimed_before,
            scope,
        )
}

pub open spec fn reserve_valid(force: ForceModel) -> bool {
    &&& strictly_sorted(force.reserve_unit_ids)
    &&& forall|i: int|
        0 <= i < force.reserve_unit_ids.len() ==> has_member(
            force.members,
            #[trigger] force.reserve_unit_ids[i],
        )
}

pub open spec fn has_member(members: Seq<TaskForceMember>, unit_id: u64) -> bool {
    exists|i: int| 0 <= i < members.len() && (#[trigger] members[i]).unit_id == unit_id
}

/// What is wrong with one task force.
pub open spec fn force_fault(
    forces: Seq<ForceModel>,
    at: int,
    scope: OperationsScope,
) -> Option<OperationalError> {
    let force = forces[at];
    if !force_fields_valid(forces, at, scope) {
        Some(OperationalError::Invalid("task force"))
    } else if !members_valid(force, claimed(forces, at as nat), scope) {
        Some(OperationalError::Invalid("task force member"))
    } else if !reserve_valid(force) {
        Some(OperationalError::Invalid("task force reserve"))
    } else {
        None
    }
}

/// What is wrong with the first faulty task force.
pub open spec fn forces_fault(
    forces: Seq<ForceModel>,
    from: int,
    scope: OperationsScope,
) -> Option<OperationalError>
    decreases forces.len() - from,
{
    if from < 0 || from >= forces.len() {
        None
    } else if force_fault(forces, from, scope) is Some {
        force_fault(forces, from, scope)
    } else {
        forces_fault(forces, from + 1, scope)
    }
}

pub open spec fn desperation_valid(
    states: Seq<CountryDesperationState>,
    at: int,
    scope: OperationsScope,
) -> bool {
    let country = states[at];
    &&& at > 0 ==> states[at - 1].country_id < country.country_id
    &&& scope.countries.contains(country.country_id)
    &&& country.initial_manpower matches Some(manpower) ==> manpower.finite_nonnegative()
}

pub open spec fn event_valid(
    events: Seq<OperationalOverrideEvent>,
    at: int,
    scope: OperationsScope,
) -> bool {
    let event = events[at];
    &&& at > 0 ==> events[at - 1].sequence < event.sequence
    &&& 0 < event.sequence < scope.next_sequence
    &&& event.side_index < scope.side_count
    &&& event.started_tick <= scope.tick
    &&& event.expires_tick matches Some(expires) ==> event.started_tick <= expires
}

/// What is wrong with operational state, in the order in which it is examined.
pub open spec fn operations_fault(
    state: OperationsModel,
    scope: OperationsScope,
) -> Option<OperationalError> {
    if state.schema != OPERATIONAL_AI_SCHEMA_VERSION@ || state.sides.len() != scope.side_count {
        Some(OperationalError::Invalid("schema or side coverage"))
    } else if sides_fault(state.sides, 0, scope) is Some {
        sides_fault(state.sides, 0, scope)
    } else if forces_fault(state.task_forces, 0, scope) is Some {
        forces_fault(state.task_forces, 0, scope)
    } else if exists|at: int|
        0 <= at < state.country_desperation.len() && !#[trigger] desperation_valid(
            state.country_desperation,
            at,
            scope,
        ) {
        Some(OperationalError::Invalid("country desperation"))
    } else if exists|at: int|
        0 <= at < state.override_events.len() && !#[trigger] event_valid(
            state.override_events,
            at,
            scope,
        ) {
        Some(OperationalError::Invalid("override history"))
    } else if state.next_override_sequence == 0 {
        Some(OperationalError::Invalid("override sequence"))
    } else {
        None
    }
}

fn validate_observer(
    side: &OperationalSideState,
    expected: usize,
    side_count: usize,
    tick: u64,
    scope: Ghost<OperationsScope>,
) -> (answer: bool)
    requires
        scope@.side_count == side_count,
        scope@.tick == tick,
    ensures
        answer == observer_valid(side@, expected as int, scope@),
{
    if side.side_index != expected || !strictly_sorted_unique(
        side.hostile_side_indices.as_slice(),
    ) {
        return false;
    }
    let mut at: usize = 0;
    while at < side.hostile_side_indices.len()
        invariant
            at <= side.hostile_side_indices@.len(),
            scope@.side_count == side_count,
            forall|i: int|
                0 <= i < at ==> {
                    let enemy = #[trigger] side.hostile_side_indices@[i];
                    enemy < side_count && enemy != expected
                },
        decreases side.hostile_side_indices@.len() - at,
    {
        let enemy: usize = side.hostile_side_indices[at];
        if enemy >= side_count || enemy == expected {
            assert(side@.hostile_side_indices[at as int] == enemy);
            return false;
        }
        at = at + 1;
    }
    side.intel.config.validate() && side.intel.last_scan_tick <= tick
}

fn validate_prewar(side: &OperationalSideState) -> (answer: bool)
    requires
        side.intel.prewar_enemy_power@.len() == side.hostile_side_indices@.len(),
    ensures
        answer == prewar_valid(side@),
{
    let mut at: usize = 0;
    while at < side.intel.prewar_enemy_power.len()
        invariant
            at <= side.intel.prewar_enemy_power@.len(),
            side.intel.prewar_enemy_power@.len() == side.hostile_side_indices@.len(),
            forall|i: int|
                0 <= i < at ==> {
                    let record = #[trigger] side.intel.prewar_enemy_power@[i];
                    record.side_index == side.hostile_side_indices@[i]
                        && record.power.finite_nonnegative()
                },
        decreases side.intel.prewar_enemy_power@.len() - at,
    {
        let record = side.intel.prewar_enemy_power[at];
        if record.side_index != side.hostile_side_indices[at]
            || !record.power.is_finite_nonnegative() {
            assert(side@.intel.prewar_enemy_power[at as int] == record);
            return false;
        }
        at = at + 1;
    }
    true
}

fn validate_contact(
    side: &OperationalSideState,
    at: usize,
    live_units: &BTreeMap<u64, usize>,
    countries: &BTreeSet<u16>,
    tick: u64,
    scope: Ghost<OperationsScope>,
) -> (answer: bool)
    requires
        at < side.intel.contacts@.len(),
        scope@.live_units == live_units@,
        scope@.countries == countries@,
        scope@.tick == tick,
    ensures
        answer == contact_valid(side@, at as int, scope@),
{
    broadcast use vstd::std_specs::btree::group_btree_axioms;

    let contact = &side.intel.contacts[at];
    assert(side@.intel.contacts[at as int] == contact@);
    if contact.key.as_str().is_empty() {
        assert(side@.intel.contacts[at as int].key.len() == 0);
        return false;
    }
    assert(contact.key@.len() > 0);
    if at > 0 {
        assert(side@.intel.contacts[at - 1] == side.intel.contacts@[at - 1]@);
        if !precedes(side.intel.contacts[at - 1].key.as_str(), contact.key.as_str()) {
            return false;
        }
    }
    if !contains_index(side.hostile_side_indices.as_slice(), contact.enemy_side_index)
        || !live_units.contains_key(&contact.unit_id) {
        return false;
    }
    if let Some(country) = contact.country_id {
        if !countries.contains(&country) {
            return false;
        }
    }
    let place = OperationalPoint { lat: contact.lat, lng: contact.lng };
    place.validate() && contact.velocity_lat.is_finite() && contact.velocity_lng.is_finite()
        && contact.observed_power.is_finite_nonnegative()
        && contact.base_confidence.in_unit_interval() && contact.confidence.in_unit_interval()
        && contact.observed_tick <= tick && contact.age_ticks <= tick - contact.observed_tick
}

fn validate_side(
    side: &OperationalSideState,
    expected: usize,
    side_count: usize,
    live_units: &BTreeMap<u64, usize>,
    countries: &BTreeSet<u16>,
    tick: u64,
    next_sequence: u64,
    scope: Ghost<OperationsScope>,
) -> (verdict: Result<(), OperationalError>)
    requires
        scope@ == (OperationsScope {
            side_count,
            live_units: live_units@,
            countries: countries@,
            tick,
            next_sequence,
        }),
    ensures
        verdict is Ok <==> side_fault(side@, expected as int, scope@) is None,
        verdict matches Err(error) ==> side_fault(side@, expected as int, scope@) == Some(error),
{
    if !validate_observer(side, expected, side_count, tick, scope) {
        return Err(OperationalError::Invalid("observer side state"));
    }
    if side.intel.prewar_enemy_power.len() != side.hostile_side_indices.len() {
        return Err(OperationalError::Invalid("prewar hostile coverage"));
    }
    if !validate_prewar(side) {
        return Err(OperationalError::Invalid("prewar hostile power"));
    }
    let mut at: usize = 0;
    while at < side.intel.contacts.len()
        invariant
            at <= side.intel.contacts@.len(),
            scope@ == (OperationsScope {
                side_count,
                live_units: live_units@,
                countries: countries@,
                tick,
                next_sequence,
            }),
            observer_valid(side@, expected as int, scope@),
            side@.intel.prewar_enemy_power.len() == side@.hostile_side_indices.len(),
            prewar_valid(side@),
            forall|i: int| 0 <= i < at ==> #[trigger] contact_valid(side@, i, scope@),
        decreases side.intel.contacts@.len() - at,
    {
        if !validate_contact(side, at, live_units, countries, tick, scope) {
            assert(!contact_valid(side@, at as int, scope@));
            assert(at < side@.intel.contacts.len());
            return Err(OperationalError::Invalid("observer contact"));
        }
        at = at + 1;
    }
    if let Some(current) = side.current_override {
        if current.started_tick > tick || current.sequence >= next_sequence {
            return Err(OperationalError::Invalid("current posture override"));
        }
        if let Some(expires) = current.expires_tick {
            if expires < current.started_tick {
                return Err(OperationalError::Invalid("current posture override"));
            }
        }
    }
    Ok(())
}

fn validate_route(route: &Vec<OperationalPoint>) -> (answer: bool)
    ensures
        answer == (forall|i: int| 0 <= i < route@.len() ==> (#[trigger] route@[i]).valid()),
{
    let mut at: usize = 0;
    while at < route.len()
        invariant
            at <= route@.len(),
            forall|i: int| 0 <= i < at ==> (#[trigger] route@[i]).valid(),
        decreases route@.len() - at,
    {
        if !route[at].validate() {
            assert(!route@[at as int].valid());
            return false;
        }
        at = at + 1;
    }
    true
}

fn validate_force_fields(
    forces: &Vec<OperationalTaskForce>,
    at: usize,
    side_count: usize,
    tick: u64,
    scope: Ghost<OperationsScope>,
) -> (answer: bool)
    requires
        at < forces@.len(),
        scope@.side_count == side_count,
        scope@.tick == tick,
    ensures
        answer == force_fields_valid(views(forces@), at as int, scope@),
{
    let force = &forces[at];
    assert(views(forces@)[at as int] == force@);
    if force.id.as_str().is_empty() {
        assert(views(forces@)[at as int].id.len() == 0);
        return false;
    }
    assert(force.id@.len() > 0);
    if at > 0 {
        assert(views(forces@)[at - 1] == forces@[at - 1]@);
        if !precedes(forces[at - 1].id.as_str(), force.id.as_str()) {
            return false;
        }
    }
    if force.side_index >= side_count || !validate_optional_point(force.target)
        || !validate_optional_point(force.staging_anchor) || !validate_optional_point(
        force.withdrawal_anchor,
    ) {
        return false;
    }
    assert(force@.route == force.route@);
    if !validate_route(&force.route) {
        proof {
            let bad = choose|i: int|
                0 <= i < force.route@.len() && !(#[trigger] force.route@[i]).valid();
            assert(!views(forces@)[at as int].route[bad].valid());
        }
        return false;
    }
    if !force.desired_power.is_finite_nonnegative() || !force.launch_power.is_finite_nonnegative()
        || !force.current_power.is_finite_nonnegative()
        || !force.peak_power.is_finite_nonnegative()
        || !force.recovery_power.is_finite_nonnegative() || !force.readiness.in_unit_interval()
        || !force.progress.in_unit_interval() {
        return false;
    }
    if force.max_assigned_units == 0 || force.created_tick > tick || force.phase_started_tick > tick
        || force.last_progress_tick > tick || force.last_recovery_tick > tick {
        return false;
    }
    match force.supply_invalidated_tick {
        Some(invalidated) => invalidated <= tick,
        None => true,
    }
}

pub fn member_exists(members: &Vec<TaskForceMember>, unit_id: u64) -> (found: bool)
    ensures
        found == has_member(members@, unit_id),
{
    let mut at: usize = 0;
    while at < members.len()
        invariant
            at <= members@.len(),
            forall|i: int| 0 <= i < at ==> (#[trigger] members@[i]).unit_id != unit_id,
        decreases members@.len() - at,
    {
        if members[at].unit_id == unit_id {
            return true;
        }
        at = at + 1;
    }
    false
}

fn validate_reserve(force: &OperationalTaskForce) -> (answer: bool)
    ensures
        answer == reserve_valid(force@),
{
    if !strictly_sorted_unique(force.reserve_unit_ids.as_slice()) {
        return false;
    }
    let mut at: usize = 0;
    while at < force.reserve_unit_ids.len()
        invariant
            at <= force.reserve_unit_ids@.len(),
            forall|i: int|
                0 <= i < at ==> has_member(
                    force.members@,
                    #[trigger] force.reserve_unit_ids@[i],
                ),
        decreases force.reserve_unit_ids@.len() - at,
    {
        if !member_exists(&force.members, force.reserve_unit_ids[at]) {
            assert(!has_member(force@.members, force@.reserve_unit_ids[at as int]));
            return false;
        }
        at = at + 1;
    }
    true
}

fn validate_force(
    forces: &Vec<OperationalTaskForce>,
    at: usize,
    claimed_units: &mut BTreeSet<u64>,
    side_count: usize,
    live_units: &BTreeMap<u64, usize>,
    tick: u64,
    scope: Ghost<OperationsScope>,
) -> (verdict: Result<(), OperationalError>)
    requires
        at < forces@.len(),
        scope@.side_count == side_count,
        scope@.tick == tick,
        scope@.live_units == live_units@,
        old(claimed_units)@ == claimed(views(forces@), at as nat),
    ensures
        verdict is Ok <==> force_fault(views(forces@), at as int, scope@) is None,
        verdict matches Err(error) ==> force_fault(views(forces@), at as int, scope@) == Some(
            error,
        ),
        verdict is Ok ==> final(claimed_units)@ == claimed(views(forces@), (at + 1) as nat),
{
    broadcast use vstd::std_specs::btree::group_btree_axioms;

    let ghost before = claimed_units@;
    if !validate_force_fields(forces, at, side_count, tick, scope) {
        return Err(OperationalError::Invalid("task force"));
    }
    let force = &forces[at];
    assert(views(forces@)[at as int] == force@);
    let mut index: usize = 0;
    while index < force.members.len()
        invariant
            at < forces@.len(),
            index <= force.members@.len(),
            force@ == views(forces@)[at as int],
            force_fields_valid(views(forces@), at as int, scope@),
            before == claimed(views(forces@), at as nat),
            scope@.tick == tick,
            scope@.live_units == live_units@,
            claimed_units@ == claims(before, force.members@, index as nat),
            forall|m: int| 0 <= m < index ==> #[trigger] member_valid(force@, m, before, scope@),
        decreases force.members@.len() - index,
    {
        broadcast use vstd::std_specs::btree::group_btree_axioms;

        let member = force.members[index];
        let mut fits = true;
        if index > 0 {
            if force.members[index - 1].unit_id >= member.unit_id {
                fits = false;
            }
        }
        match live_units.get(&member.unit_id) {
            Some(side) => {
                if *side != force.side_index {
                    fits = false;
                }
            },
            None => {
                fits = false;
            },
        }
        if claimed_units.contains(&member.unit_id) || member.assigned_tick > tick
            || !member.route_progress.in_unit_interval() {
            fits = false;
        }
        assert(force@.members == force.members@);
        assert(fits == member_valid(force@, index as int, before, scope@));
        if !fits {
            assert(!members_valid(force@, before, scope@));
            return Err(OperationalError::Invalid("task force member"));
        }
        claimed_units.insert(member.unit_id);
        index = index + 1;
    }
    if !validate_reserve(force) {
        return Err(OperationalError::Invalid("task force reserve"));
    }
    Ok(())
}

impl OperationalRuntimeState {
    /// Hold the state against the units, countries and tick that it belongs to.
    pub fn validate(
        &self,
        side_count: usize,
        live_units: &BTreeMap<u64, usize>,
        countries: &BTreeSet<u16>,
        tick: u64,
    ) -> (verdict: Result<(), OperationalError>)
        ensures
            ({
                let scope = OperationsScope {
                    side_count,
                    live_units: live_units@,
                    countries: countries@,
                    tick,
                    next_sequence: self.next_override_sequence,
                };
                &&& verdict is Ok <==> operations_fault(self@, scope) is None
                &&& verdict matches Err(error) ==> operations_fault(self@, scope) == Some(error)
            }),
    {
        broadcast use vstd::std_specs::btree::group_btree_axioms;

        let scope: Ghost<OperationsScope> = Ghost(
            OperationsScope {
                side_count,
                live_units: live_units@,
                countries: countries@,
                tick,
                next_sequence: self.next_override_sequence,
            },
        );
        if self.schema != OPERATIONAL_AI_SCHEMA_VERSION.to_owned() || self.sides.len()
            != side_count {
            return Err(OperationalError::Invalid("schema or side coverage"));
        }
        let mut index: usize = 0;
        while index < self.sides.len()
            invariant
                index <= self.sides@.len(),
                self@.schema == OPERATIONAL_AI_SCHEMA_VERSION@,
                self@.sides.len() == side_count,
                scope@ == (OperationsScope {
                    side_count,
                    live_units: live_units@,
                    countries: countries@,
                    tick,
                    next_sequence: self.next_override_sequence,
                }),
                sides_fault(self@.sides, 0, scope@) == sides_fault(
                    self@.sides,
                    index as int,
                    scope@,
                ),
            decreases self.sides@.len() - index,
        {
            let verdict = validate_side(
                &self.sides[index],
                index,
                side_count,
                live_units,
                countries,
                tick,
                self.next_override_sequence,
                scope,
            );
            assert(self@.sides[index as int] == self.sides@[index as int]@);
            if verdict.is_err() {
                return verdict;
            }
            index = index + 1;
        }
        let mut claimed_units: BTreeSet<u64> = BTreeSet::new();
        let mut at: usize = 0;
        while at < self.task_forces.len()
            invariant
                at <= self.task_forces@.len(),
                self@.schema == OPERATIONAL_AI_SCHEMA_VERSION@,
                self@.sides.len() == side_count,
                scope@ == (OperationsScope {
                    side_count,
                    live_units: live_units@,
                    countries: countries@,
                    tick,
                    next_sequence: self.next_override_sequence,
                }),
                sides_fault(self@.sides, 0, scope@) is None,
                claimed_units@ == claimed(self@.task_forces, at as nat),
                forces_fault(self@.task_forces, 0, scope@) == forces_fault(
                    self@.task_forces,
                    at as int,
                    scope@,
                ),
            decreases self.task_forces@.len() - at,
        {
            let verdict = validate_force(
                &self.task_forces,
                at,
                &mut claimed_units,
                side_count,
                live_units,
                tick,
                scope,
            );
            if verdict.is_err() {
                return verdict;
            }
            at = at + 1;
        }
        self.validate_histories(side_count, countries, tick, scope)
    }

    fn validate_histories(
        &self,
        side_count: usize,
        countries: &BTreeSet<u16>,
        tick: u64,
        scope: Ghost<OperationsScope>,
    ) -> (verdict: Result<(), OperationalError>)
        requires
            scope@.side_count == side_count,
            scope@.countries == countries@,
            scope@.tick == tick,
            scope@.next_sequence == self.next_override_sequence,
            self@.schema == OPERATIONAL_AI_SCHEMA_VERSION@,
            self@.sides.len() == side_count,
            sides_fault(self@.sides, 0, scope@) is None,
            forces_fault(self@.task_forces, 0, scope@) is None,
        ensures
            verdict is Ok <==> operations_fault(self@, scope@) is None,
            verdict matches Err(error) ==> operations_fault(self@, scope@) == Some(error),
    {
        broadcast use vstd::std_specs::btree::group_btree_axioms;

        let states = &self.country_desperation;
        let mut at: usize = 0;
        while at < states.len()
            invariant
                at <= states@.len(),
                states@ == self@.country_desperation,
                scope@.countries == countries@,
                self@.schema == OPERATIONAL_AI_SCHEMA_VERSION@,
                self@.sides.len() == scope@.side_count,
                sides_fault(self@.sides, 0, scope@) is None,
                forces_fault(self@.task_forces, 0, scope@) is None,
                forall|i: int| 0 <= i < at ==> #[trigger] desperation_valid(states@, i, scope@),
            decreases states@.len() - at,
        {
            broadcast use vstd::std_specs::btree::group_btree_axioms;

            let state = states[at];
            let mut fits = countries.contains(&state.country_id);
            if at > 0 {
                if states[at - 1].country_id >= state.country_id {
                    fits = false;
                }
            }
            if let Some(manpower) = state.initial_manpower {
                if !manpower.is_finite_nonnegative() {
                    fits = false;
                }
            }
            assert(fits == desperation_valid(states@, at as int, scope@));
            if !fits {
                return Err(OperationalError::Invalid("country desperation"));
            }
            at = at + 1;
        }
        let events = &self.override_events;
        let mut index: usize = 0;
        while index < events.len()
            invariant
                index <= events@.len(),
                events@ == self@.override_events,
                scope@.side_count == side_count,
                scope@.tick == tick,
                scope@.next_sequence == self.next_override_sequence,
                self@.schema == OPERATIONAL_AI_SCHEMA_VERSION@,
                self@.sides.len() == side_count,
                sides_fault(self@.sides, 0, scope@) is None,
                forces_fault(self@.task_forces, 0, scope@) is None,
                forall|i: int|
                    0 <= i < self@.country_desperation.len() ==> #[trigger] desperation_valid(
                        self@.country_desperation,
                        i,
                        scope@,
                    ),
                forall|i: int| 0 <= i < index ==> #[trigger] event_valid(events@, i, scope@),
            decreases events@.len() - index,
        {
            let event = events[index];
            let mut fits = event.sequence != 0 && event.sequence < self.next_override_sequence
                && event.side_index < side_count && event.started_tick <= tick;
            if index > 0 {
                if events[index - 1].sequence >= event.sequence {
                    fits = false;
                }
            }
            if let Some(expires) = event.expires_tick {
                if expires < event.started_tick {
                    fits = false;
                }
            }
            assert(fits == event_valid(events@, index as int, scope@));
            if !fits {
                return Err(OperationalError::Invalid("override history"));
            }
            index = index + 1;
        }
        if self.next_override_sequence == 0 {
            return Err(OperationalError::Invalid("override sequence"));
        }
        Ok(())
    }
}

/// Whether one side is hostile to another in a square table.
pub open spec fn declared_hostile(
    hostility: Seq<u8>,
    side_count: usize,
    side: int,
    other: int,
) -> bool {
    let cell = side * side_count + other;
    cell < hostility.len() && hostility[cell] == 1
}

/// The enemies of a side among the first sides.
pub open spec fn enemies_below(
    hostility: Seq<u8>,
    side_count: usize,
    side: int,
    count: nat,
) -> Seq<usize>
    decreases count,
{
    if count == 0 {
        Seq::empty()
    } else {
        let rest = enemies_below(hostility, side_count, side, (count - 1) as nat);
        if declared_hostile(hostility, side_count, side, count - 1) {
            rest.push((count - 1) as usize)
        } else {
            rest
        }
    }
}

/// The strength of a side before the war, never below zero.
pub open spec fn prewar_strength(strength: Seq<Real>, side: int) -> Real {
    (if side < strength.len() {
        strength[side]
    } else {
        real_of(0)
    }).max_of(real_of(0))
}

pub open spec fn initial_side(
    hostility: Seq<u8>,
    strength: Seq<Real>,
    side_count: usize,
    side: int,
) -> SideModel {
    let enemies = enemies_below(hostility, side_count, side, side_count as nat);
    SideModel {
        side_index: side as usize,
        hostile_side_indices: enemies,
        intel: IntelModel {
            last_scan_tick: 0,
            revision: 0,
            config: standard_intel_config(),
            prewar_enemy_power: Seq::new(
                enemies.len(),
                |i: int|
                    PrewarEnemyPower {
                        side_index: enemies[i],
                        power: prewar_strength(strength, enemies[i] as int),
                    },
            ),
            contacts: Seq::empty(),
        },
        current_override: None,
    }
}

pub open spec fn initial_operations(
    hostility: Seq<u8>,
    strength: Seq<Real>,
    side_count: usize,
) -> OperationsModel {
    OperationsModel {
        schema: OPERATIONAL_AI_SCHEMA_VERSION@,
        sides: Seq::new(
            side_count as nat,
            |side: int| initial_side(hostility, strength, side_count, side),
        ),
        task_forces: Seq::empty(),
        country_desperation: Seq::empty(),
        override_events: Seq::empty(),
        next_override_sequence: 1,
    }
}

pub(crate) fn is_declared_hostile(hostility: &[u8], side_count: usize, side: usize, other: usize) -> (answer:
    bool)
    ensures
        answer == declared_hostile(hostility@, side_count, side as int, other as int),
{
    assert(0 <= side * side_count) by (nonlinear_arith)
        requires
            side >= 0,
            side_count >= 0,
    ;
    match side.checked_mul(side_count) {
        Some(row) => match row.checked_add(other) {
            Some(cell) => cell < hostility.len() && hostility[cell] == 1,
            None => {
                assert(hostility@.len() == hostility.len());
                false
            },
        },
        None => {
            assert(hostility@.len() == hostility.len());
            false
        },
    }
}

fn initial_side_state(
    side_count: usize,
    hostility: &[u8],
    strength: &[Real],
    side: usize,
) -> (state: OperationalSideState)
    ensures
        state@ == initial_side(hostility@, strength@, side_count, side as int),
{
    let mut enemies: Vec<usize> = Vec::new();
    let mut powers: Vec<PrewarEnemyPower> = Vec::new();
    let mut other: usize = 0;
    while other < side_count
        invariant
            other <= side_count,
            enemies@ == enemies_below(hostility@, side_count, side as int, other as nat),
            powers@.len() == enemies@.len(),
            forall|i: int|
                0 <= i < powers@.len() ==> #[trigger] powers@[i] == (PrewarEnemyPower {
                    side_index: enemies@[i],
                    power: prewar_strength(strength@, enemies@[i] as int),
                }),
        decreases side_count - other,
    {
        if is_declared_hostile(hostility, side_count, side, other) {
            let power = if other < strength.len() {
                strength[other]
            } else {
                Real::zero()
            };
            enemies.push(other);
            powers.push(PrewarEnemyPower { side_index: other, power: power.larger(Real::zero()) });
        }
        other = other + 1;
    }
    let state = OperationalSideState {
        side_index: side,
        hostile_side_indices: enemies,
        intel: OperationalIntelState {
            last_scan_tick: 0,
            revision: 0,
            config: OperationalIntelConfig::default(),
            prewar_enemy_power: powers,
            contacts: Vec::new(),
        },
        current_override: None,
    };
    proof {
        let model = initial_side(hostility@, strength@, side_count, side as int);
        assert(state@.intel.prewar_enemy_power =~= model.intel.prewar_enemy_power);
        assert(state@.intel.contacts =~= model.intel.contacts);
    }
    state
}

/// The contact's place in the order of keys.
pub open spec fn contact_order() -> spec_fn(ContactModel, ContactModel) -> bool {
    |left: ContactModel, right: ContactModel| text_before(left.key, right.key)
}

impl Ranked for OperationalContact {
    open spec fn ranks_before(self, other: Self) -> bool {
        text_before(self.key@, other.key@)
    }

    fn is_before(&self, other: &Self) -> (answer: bool) {
        precedes(self.key.as_str(), other.key.as_str())
    }
}

fn sort_contacts(contacts: Vec<OperationalContact>) -> (ordered: Vec<OperationalContact>)
    ensures
        views(ordered@) == stable_sorted(views(contacts@), contact_order()),
{
    proof {
        lemma_sort_commutes(
            contacts@,
            shown::<OperationalContact>(),
            rank_order::<OperationalContact>(),
            contact_order(),
        );
    }
    sort_stable(contacts)
}

pub open spec fn intel_status(age: u64, config: OperationalIntelConfig) -> IntelStatus {
    if age <= config.fresh_ticks {
        IntelStatus::Fresh
    } else if age <= config.stale_ticks {
        IntelStatus::Stale
    } else {
        IntelStatus::Degraded
    }
}

pub open spec fn gap(high: u64, low: u64) -> u64 {
    if high > low {
        (high - low) as u64
    } else {
        0
    }
}

pub open spec fn at_least_one(value: u64) -> u64 {
    if value == 0 {
        1
    } else {
        value
    }
}

/// Confidence in a contact of some age: it falls to 0.85 while fresh, to 0.35 while stale and to
/// 0.05 until it expires, each time in a straight line.
pub open spec fn decayed(
    results: Map<Operation, u64>,
    base: Real,
    age: u64,
    config: OperationalIntelConfig,
) -> Real {
    let elapsed = integer(results, age);
    let fresh = integer(results, config.fresh_ticks);
    let stale = integer(results, config.stale_ticks);
    let confidence = if elapsed.le(fresh) {
        product(
            results,
            base,
            difference(
                results,
                real_of(ONE_BITS),
                quotient(results, product(results, real_of(N_0_15), elapsed), fresh),
            ),
        )
    } else if elapsed.le(stale) {
        let progress = quotient(
            results,
            difference(results, elapsed, fresh),
            integer(results, at_least_one(gap(config.stale_ticks, config.fresh_ticks))),
        );
        product(
            results,
            base,
            difference(
                results,
                real_of(N_0_85),
                product(results, progress, real_of(N_0_5)),
            ),
        )
    } else {
        let progress = quotient(
            results,
            difference(results, elapsed, stale),
            integer(results, at_least_one(gap(config.expire_ticks, config.stale_ticks))),
        );
        product(
            results,
            base,
            difference(
                results,
                real_of(N_0_35),
                product(results, progress, real_of(N_0_3)),
            ),
        )
    };
    confidence.clamp_of(real_of(0), real_of(ONE_BITS))
}

/// Whether a worksheet holds all that the fading of confidence takes.
pub open spec fn fading_supplied(
    results: Map<Operation, u64>,
    base: Real,
    age: u64,
    config: OperationalIntelConfig,
) -> bool {
    let elapsed = integer(results, age);
    let fresh = integer(results, config.fresh_ticks);
    let stale = integer(results, config.stale_ticks);
    &&& results.contains_key(Operation::Integer(age))
    &&& results.contains_key(Operation::Integer(config.fresh_ticks))
    &&& results.contains_key(Operation::Integer(config.stale_ticks))
    &&& if elapsed.le(fresh) {
        let weighted = product(results, real_of(N_0_15), elapsed);
        let share = quotient(results, weighted, fresh);
        let factor = difference(results, real_of(ONE_BITS), share);
        &&& results.contains_key(Operation::Product(real_of(N_0_15), elapsed))
        &&& results.contains_key(Operation::Quotient(weighted, fresh))
        &&& results.contains_key(Operation::Difference(real_of(ONE_BITS), share))
        &&& results.contains_key(Operation::Product(base, factor))
    } else if elapsed.le(stale) {
        let past = difference(results, elapsed, fresh);
        let width = at_least_one(gap(config.stale_ticks, config.fresh_ticks));
        let span = integer(results, width);
        let progress = quotient(results, past, span);
        let loss = product(results, progress, real_of(N_0_5));
        let factor = difference(results, real_of(N_0_85), loss);
        &&& results.contains_key(Operation::Difference(elapsed, fresh))
        &&& results.contains_key(Operation::Integer(width))
        &&& results.contains_key(Operation::Quotient(past, span))
        &&& results.contains_key(Operation::Product(progress, real_of(N_0_5)))
        &&& results.contains_key(Operation::Difference(real_of(N_0_85), loss))
        &&& results.contains_key(Operation::Product(base, factor))
    } else {
        let past = difference(results, elapsed, stale);
        let width = at_least_one(gap(config.expire_ticks, config.stale_ticks));
        let span = integer(results, width);
        let progress = quotient(results, past, span);
        let loss = product(results, progress, real_of(N_0_3));
        let factor = difference(results, real_of(N_0_35), loss);
        &&& results.contains_key(Operation::Difference(elapsed, stale))
        &&& results.contains_key(Operation::Integer(width))
        &&& results.contains_key(Operation::Quotient(past, span))
        &&& results.contains_key(Operation::Product(progress, real_of(N_0_3)))
        &&& results.contains_key(Operation::Difference(real_of(N_0_35), loss))
        &&& results.contains_key(Operation::Product(base, factor))
    }
}

fn decayed_confidence(
    base: Real,
    age: u64,
    config: OperationalIntelConfig,
    reader: &mut Reader<'_>,
) -> (confidence: Real)
    requires
        old(reader).sound(),
    ensures
        final(reader)@ == old(reader)@,
        final(reader).sound(),
        final(reader).complete() ==> old(reader).complete() && confidence == decayed(
            old(reader)@,
            base,
            age,
            config,
        ),
        old(reader).complete() && fading_supplied(old(reader)@, base, age, config) ==>
            final(reader).complete(),
{
    let elapsed = reader.integer(age);
    let fresh = reader.integer(config.fresh_ticks);
    let stale = reader.integer(config.stale_ticks);
    let confidence = if elapsed.at_most(fresh) {
        let weighted = reader.product(Real::from_bits(N_0_15), elapsed);
        let share = reader.quotient(weighted, fresh);
        let factor = reader.difference(Real::one(), share);
        reader.product(base, factor)
    } else if elapsed.at_most(stale) {
        let past = reader.difference(elapsed, fresh);
        let width = raise_to_one(config.stale_ticks.saturating_sub(config.fresh_ticks));
        let span = reader.integer(width);
        let progress = reader.quotient(past, span);
        let loss = reader.product(progress, Real::from_bits(N_0_5));
        let factor = reader.difference(Real::from_bits(N_0_85), loss);
        reader.product(base, factor)
    } else {
        let past = reader.difference(elapsed, stale);
        let width = raise_to_one(config.expire_ticks.saturating_sub(config.stale_ticks));
        let span = reader.integer(width);
        let progress = reader.quotient(past, span);
        let loss = reader.product(progress, Real::from_bits(N_0_3));
        let factor = reader.difference(Real::from_bits(N_0_35), loss);
        reader.product(base, factor)
    };
    confidence.clamped(Real::zero(), Real::one())
}

pub fn raise_to_one(value: u64) -> (raised: u64)
    ensures
        raised == at_least_one(value),
{
    if value == 0 {
        1
    } else {
        value
    }
}

/// A contact at a later tick.
pub open spec fn aged_contact(
    results: Map<Operation, u64>,
    contact: ContactModel,
    config: OperationalIntelConfig,
    tick: u64,
) -> ContactModel {
    let age = gap(tick, contact.observed_tick);
    ContactModel {
        age_ticks: age,
        confidence: decayed(results, contact.base_confidence, age, config),
        status: intel_status(age, config),
        ..contact
    }
}

/// The first contacts at a later tick, without those that have expired.
pub open spec fn aged_contacts(
    results: Map<Operation, u64>,
    contacts: Seq<ContactModel>,
    config: OperationalIntelConfig,
    tick: u64,
    count: nat,
) -> Seq<ContactModel>
    decreases count,
{
    if count == 0 {
        Seq::empty()
    } else {
        let rest = aged_contacts(results, contacts, config, tick, (count - 1) as nat);
        let contact = contacts[count - 1];
        if gap(tick, contact.observed_tick) > config.expire_ticks {
            rest
        } else {
            rest.push(aged_contact(results, contact, config, tick))
        }
    }
}

pub open spec fn next_revision(revision: u64) -> u64 {
    if revision == u64::MAX {
        revision
    } else {
        (revision + 1) as u64
    }
}

pub open spec fn aged_side(
    results: Map<Operation, u64>,
    side: SideModel,
    tick: u64,
) -> SideModel {
    SideModel {
        intel: IntelModel {
            contacts: stable_sorted(
                aged_contacts(
                    results,
                    side.intel.contacts,
                    side.intel.config,
                    tick,
                    side.intel.contacts.len(),
                ),
                contact_order(),
            ),
            revision: next_revision(side.intel.revision),
            ..side.intel
        },
        ..side
    }
}

/// Whether a worksheet holds all that the ageing of contacts takes.
pub open spec fn ageing_supplied(
    results: Map<Operation, u64>,
    contacts: Seq<ContactModel>,
    config: OperationalIntelConfig,
    tick: u64,
) -> bool {
    forall|k: int|
        0 <= k < contacts.len() && gap(tick, (#[trigger] contacts[k]).observed_tick)
            <= config.expire_ticks ==> fading_supplied(
                results,
                contacts[k].base_confidence,
                gap(tick, contacts[k].observed_tick),
                config,
            )
}

fn age_contacts(
    contacts: Vec<OperationalContact>,
    config: OperationalIntelConfig,
    tick: u64,
    reader: &mut Reader<'_>,
) -> (kept: Vec<OperationalContact>)
    requires
        old(reader).sound(),
    ensures
        final(reader)@ == old(reader)@,
        final(reader).sound(),
        final(reader).complete() ==> old(reader).complete() && views(kept@) == aged_contacts(
            old(reader)@,
            views(contacts@),
            config,
            tick,
            contacts@.len(),
        ),
        old(reader).complete() && ageing_supplied(
            old(reader)@,
            views(contacts@),
            config,
            tick,
        ) ==> final(reader).complete(),
{
    let ghost whole = contacts@;
    let ghost results = reader@;
    let ghost untouched = reader.complete();
    let mut kept: Vec<OperationalContact> = Vec::new();
    proof {
        assert(views(kept@) =~= Seq::<ContactModel>::empty());
    }
    for contact in it: contacts
        invariant
            it.seq() == whole,
            reader@ == results,
            reader.sound(),
            reader.complete() ==> untouched && views(kept@) == aged_contacts(
                results,
                views(whole),
                config,
                tick,
                it.index() as nat,
            ),
            untouched && ageing_supplied(results, views(whole), config, tick)
                ==> reader.complete(),
    {
        let ghost done = it.index();
        assert(views(whole)[done] == contact@);
        let age: u64 = tick.saturating_sub(contact.observed_tick);
        if age <= config.expire_ticks {
            let mut aged = contact;
            let confidence = decayed_confidence(aged.base_confidence, age, config, reader);
            aged.age_ticks = age;
            aged.confidence = confidence;
            aged.status =
            if age <= config.fresh_ticks {
                IntelStatus::Fresh
            } else if age <= config.stale_ticks {
                IntelStatus::Stale
            } else {
                IntelStatus::Degraded
            };
            proof {
                lemma_views_push(kept@, aged);
                if reader.complete() {
                    assert(aged@ == aged_contact(results, contact@, config, tick));
                }
            }
            kept.push(aged);
        }
    }
    kept
}

/// Whether a worksheet holds all that the ageing of what sides know takes.
pub open spec fn sides_supplied(
    results: Map<Operation, u64>,
    sides: Seq<SideModel>,
    tick: u64,
) -> bool {
    forall|k: int|
        0 <= k < sides.len() ==> ageing_supplied(
            results,
            (#[trigger] sides[k]).intel.contacts,
            sides[k].intel.config,
            tick,
        )
}

fn age_side(side: &mut OperationalSideState, tick: u64, reader: &mut Reader<'_>)
    requires
        old(reader).sound(),
    ensures
        final(reader)@ == old(reader)@,
        final(reader).sound(),
        final(reader).complete() ==> old(reader).complete() && final(side)@ == aged_side(
            old(reader)@,
            old(side)@,
            tick,
        ),
        old(reader).complete() && ageing_supplied(
            old(reader)@,
            old(side)@.intel.contacts,
            old(side)@.intel.config,
            tick,
        ) ==> final(reader).complete(),
{
    let mut contacts: Vec<OperationalContact> = Vec::new();
    core::mem::swap(&mut side.intel.contacts, &mut contacts);
    let kept = age_contacts(contacts, side.intel.config, tick, reader);
    side.intel.contacts = sort_contacts(kept);
    side.intel.revision = side.intel.revision.saturating_add(1);
}

/// Prewar strength of one enemy: the first record counts.
pub open spec fn prewar_power(records: Seq<PrewarEnemyPower>, enemy: usize, from: int) -> Real
    decreases records.len() - from,
{
    if from < 0 || from >= records.len() {
        real_of(0)
    } else if records[from].side_index == enemy {
        records[from].power
    } else {
        prewar_power(records, enemy, from + 1)
    }
}

/// Observed strength of one enemy over the first contacts.
pub open spec fn observed_strength(
    results: Map<Operation, u64>,
    contacts: Seq<ContactModel>,
    enemy: usize,
    count: nat,
) -> Real
    decreases count,
{
    if count == 0 {
        real_of(0)
    } else {
        let rest = observed_strength(results, contacts, enemy, (count - 1) as nat);
        let contact = contacts[count - 1];
        if contact.enemy_side_index == enemy {
            sum(
                results,
                rest,
                product(
                    results,
                    contact.observed_power,
                    sum(
                        results,
                        real_of(N_0_6),
                        product(results, contact.confidence, real_of(N_0_4)),
                    ),
                ),
            )
        } else {
            rest
        }
    }
}

pub open spec fn has_contact(contacts: Seq<ContactModel>, enemy: usize, count: nat) -> bool {
    exists|i: int|
        0 <= i < count && i < contacts.len() && (#[trigger] contacts[i]).enemy_side_index == enemy
}

/// What a side believes of one enemy: what it observes, yet never less than 0.4 of the prewar
/// strength; the prewar strength where it observes nothing.
pub open spec fn believed_strength(
    results: Map<Operation, u64>,
    intel: IntelModel,
    enemy: usize,
) -> Real {
    let prewar = prewar_power(intel.prewar_enemy_power, enemy, 0);
    if has_contact(intel.contacts, enemy, intel.contacts.len()) {
        observed_strength(results, intel.contacts, enemy, intel.contacts.len()).max_of(
            product(results, prewar, real_of(N_0_4)),
        )
    } else {
        prewar
    }
}

pub open spec fn believed_total(
    results: Map<Operation, u64>,
    side: SideModel,
    count: nat,
) -> Real
    decreases count,
{
    if count == 0 {
        real_of(0)
    } else {
        sum(
            results,
            believed_total(results, side, (count - 1) as nat),
            believed_strength(results, side.intel, side.hostile_side_indices[count - 1]),
        )
    }
}

pub open spec fn hostile_strength(
    results: Map<Operation, u64>,
    sides: Seq<SideModel>,
    observer: usize,
) -> Option<Real> {
    if observer >= sides.len() || sides[observer as int].side_index != observer
        || sides[observer as int].hostile_side_indices.len() == 0 {
        None
    } else {
        let side = sides[observer as int];
        Some(
            believed_total(results, side, side.hostile_side_indices.len()).max_of(real_of(0)),
        )
    }
}

fn find_prewar_power(records: &Vec<PrewarEnemyPower>, enemy: usize) -> (power: Real)
    ensures
        power == prewar_power(records@, enemy, 0),
{
    let mut at: usize = 0;
    while at < records.len()
        invariant
            at <= records@.len(),
            prewar_power(records@, enemy, 0) == prewar_power(records@, enemy, at as int),
        decreases records@.len() - at,
    {
        if records[at].side_index == enemy {
            return records[at].power;
        }
        at = at + 1;
    }
    Real::zero()
}

/// Whether a worksheet holds all that the strength that contacts show takes.
pub open spec fn belief_supplied(
    results: Map<Operation, u64>,
    intel: IntelModel,
    enemy: usize,
) -> bool {
    &&& forall|k: int|
        0 <= k < intel.contacts.len() && (#[trigger] intel.contacts[k]).enemy_side_index == enemy
            ==> ({
            let contact = intel.contacts[k];
            let part = product(results, contact.confidence, real_of(N_0_4));
            let weight = sum(results, real_of(N_0_6), part);
            let power = product(results, contact.observed_power, weight);
            let before = observed_strength(results, intel.contacts, enemy, k as nat);
            &&& results.contains_key(Operation::Product(contact.confidence, real_of(N_0_4)))
            &&& results.contains_key(Operation::Sum(real_of(N_0_6), part))
            &&& results.contains_key(Operation::Product(contact.observed_power, weight))
            &&& results.contains_key(Operation::Sum(before, power))
        })
    &&& has_contact(intel.contacts, enemy, intel.contacts.len()) ==> results.contains_key(
        Operation::Product(
            prewar_power(intel.prewar_enemy_power, enemy, 0),
            real_of(N_0_4),
        ),
    )
}

/// Whether a worksheet holds all that the strength of all enemies takes.
pub open spec fn estimate_supplied(
    results: Map<Operation, u64>,
    sides: Seq<SideModel>,
    observer: usize,
) -> bool {
    let side = sides[observer as int];
    observer < sides.len() && side.side_index == observer ==> forall|k: int|
        0 <= k < side.hostile_side_indices.len() ==> ({
            let enemy = #[trigger] side.hostile_side_indices[k];
            &&& belief_supplied(results, side.intel, enemy)
            &&& results.contains_key(
                Operation::Sum(
                    believed_total(results, side, k as nat),
                    believed_strength(results, side.intel, enemy),
                ),
            )
        })
}

fn believe_strength(
    intel: &OperationalIntelState,
    enemy: usize,
    reader: &mut Reader<'_>,
) -> (power: Real)
    requires
        old(reader).sound(),
    ensures
        final(reader)@ == old(reader)@,
        final(reader).sound(),
        final(reader).complete() ==> old(reader).complete() && power == believed_strength(
            old(reader)@,
            intel@,
            enemy,
        ),
        old(reader).complete() && belief_supplied(old(reader)@, intel@, enemy) ==>
            final(reader).complete(),
{
    let ghost results = reader@;
    let ghost untouched = reader.complete();
    let prewar = find_prewar_power(&intel.prewar_enemy_power, enemy);
    let mut observed = Real::zero();
    let mut seen = false;
    let mut at: usize = 0;
    while at < intel.contacts.len()
        invariant
            at <= intel.contacts@.len(),
            reader@ == results,
            reader.sound(),
            seen == has_contact(intel@.contacts, enemy, at as nat),
            reader.complete() ==> untouched && observed == observed_strength(
                results,
                intel@.contacts,
                enemy,
                at as nat,
            ),
            untouched && belief_supplied(results, intel@, enemy) ==> reader.complete(),
        decreases intel.contacts@.len() - at,
    {
        let contact = &intel.contacts[at];
        assert(intel@.contacts[at as int] == contact@);
        if contact.enemy_side_index == enemy {
            let part = reader.product(contact.confidence, Real::from_bits(N_0_4));
            let weight = reader.sum(Real::from_bits(N_0_6), part);
            let power = reader.product(contact.observed_power, weight);
            observed = reader.sum(observed, power);
            seen = true;
        }
        at = at + 1;
    }
    if seen {
        let floor = reader.product(prewar, Real::from_bits(N_0_4));
        observed.larger(floor)
    } else {
        prewar
    }
}

/// A formation seen by an observer.
#[derive(Debug)]
pub struct TacticalContactObservation {
    pub observer_side: usize,
    pub enemy_side: usize,
    pub target_unit_id: u64,
    pub target_country_id: u16,
    pub target_position: OperationalPoint,
    pub observed_power: Real,
    pub kind: String,
}

/// The key under which a contact is kept.
pub open spec fn contact_key(enemy: usize, unit_id: u64) -> Seq<char> {
    "native:"@ + decimal(enemy as nat) + ":"@ + decimal(unit_id as nat)
}

fn native_contact_key(enemy: usize, unit_id: u64) -> (key: String)
    ensures
        key@ == contact_key(enemy, unit_id),
{
    let mut key = "native:".to_owned();
    key.append(decimal_text(enemy as u64).as_str());
    key.append(":");
    key.append(decimal_text(unit_id).as_str());
    key
}

/// Whether a side takes an observation in.
pub open spec fn accepts(side: SideModel, observation: TacticalContactObservation) -> bool {
    &&& side.hostile_side_indices.contains(observation.enemy_side)
    &&& observation.target_position.valid()
    &&& observation.observed_power.finite_nonnegative()
}

/// Where the first contact with a key stands.
pub open spec fn contact_position(contacts: Seq<ContactModel>, key: Seq<char>, from: int) -> int
    decreases contacts.len() - from,
{
    if from < 0 || from >= contacts.len() {
        contacts.len() as int
    } else if contacts[from].key == key {
        from
    } else {
        contact_position(contacts, key, from + 1)
    }
}

pub open spec fn observed_contact(
    results: Map<Operation, u64>,
    contacts: Seq<ContactModel>,
    observation: TacticalContactObservation,
    tick: u64,
) -> ContactModel {
    let key = contact_key(observation.enemy_side, observation.target_unit_id);
    let at = contact_position(contacts, key, 0);
    let elapsed = integer(results, at_least_one(gap(tick, contacts[at].observed_tick)));
    ContactModel {
        key,
        enemy_side_index: observation.enemy_side,
        sector_id: "native-local"@,
        unit_id: observation.target_unit_id,
        country_id: Some(observation.target_country_id),
        domain: "LAND"@,
        kind: observation.kind@,
        lat: observation.target_position.lat,
        lng: observation.target_position.lng,
        velocity_lat: if at < contacts.len() {
            quotient(
                results,
                difference(results, observation.target_position.lat, contacts[at].lat),
                elapsed,
            )
        } else {
            real_of(0)
        },
        velocity_lng: if at < contacts.len() {
            quotient(
                results,
                longitude_delta(results, contacts[at].lng, observation.target_position.lng),
                elapsed,
            )
        } else {
            real_of(0)
        },
        observed_power: observation.observed_power,
        base_confidence: real_of(N_0_88),
        confidence: real_of(N_0_88),
        observed_tick: tick,
        age_ticks: 0,
        status: IntelStatus::Fresh,
        source: "native-tactical"@,
    }
}

pub open spec fn other_key(key: Seq<char>) -> spec_fn(ContactModel) -> bool {
    |contact: ContactModel| contact.key != key
}

/// A side after one observation: it replaces what was known of the same formation.
pub open spec fn observed_side(
    results: Map<Operation, u64>,
    side: SideModel,
    observation: TacticalContactObservation,
    tick: u64,
) -> SideModel {
    let key = contact_key(observation.enemy_side, observation.target_unit_id);
    SideModel {
        intel: IntelModel {
            contacts: side.intel.contacts.filter(other_key(key)).push(
                observed_contact(results, side.intel.contacts, observation, tick),
            ),
            last_scan_tick: tick,
            ..side.intel
        },
        ..side
    }
}

/// The sides after the first observations, before their contacts are put in order.
pub open spec fn observed_sides(
    results: Map<Operation, u64>,
    sides: Seq<SideModel>,
    observations: Seq<TacticalContactObservation>,
    tick: u64,
    count: nat,
) -> Seq<SideModel>
    decreases count,
{
    if count == 0 {
        sides
    } else {
        let rest = observed_sides(results, sides, observations, tick, (count - 1) as nat);
        let observation = observations[count - 1];
        if observation.observer_side < rest.len() && accepts(
            rest[observation.observer_side as int],
            observation,
        ) {
            rest.update(
                observation.observer_side as int,
                observed_side(results, rest[observation.observer_side as int], observation, tick),
            )
        } else {
            rest
        }
    }
}

/// Whether one of the first observations reached a side.
pub open spec fn reached(
    sides: Seq<SideModel>,
    observations: Seq<TacticalContactObservation>,
    side: int,
    count: nat,
) -> bool {
    exists|i: int|
        0 <= i < count && i < observations.len() && (#[trigger] observations[i]).observer_side
            == side && accepts(sides[side], observations[i])
}

pub open spec fn ordered_side(side: SideModel) -> SideModel {
    SideModel {
        intel: IntelModel {
            contacts: stable_sorted(side.intel.contacts, contact_order()),
            revision: next_revision(side.intel.revision),
            ..side.intel
        },
        ..side
    }
}

/// The sides after all observations.
pub open spec fn informed_sides(
    results: Map<Operation, u64>,
    sides: Seq<SideModel>,
    observations: Seq<TacticalContactObservation>,
    tick: u64,
) -> Seq<SideModel> {
    let observed = observed_sides(results, sides, observations, tick, observations.len());
    Seq::new(
        sides.len(),
        |side: int|
            if reached(sides, observations, side, observations.len()) {
                ordered_side(observed[side])
            } else {
                observed[side]
            },
    )
}

fn accepts_observation(
    side: &OperationalSideState,
    observation: &TacticalContactObservation,
) -> (answer: bool)
    ensures
        answer == accepts(side@, *observation),
{
    contains_index(side.hostile_side_indices.as_slice(), observation.enemy_side)
        && observation.target_position.validate()
        && observation.observed_power.is_finite_nonnegative()
}

/// Whether a worksheet holds all that an observation takes.
pub open spec fn observation_supplied(
    results: Map<Operation, u64>,
    contacts: Seq<ContactModel>,
    observation: TacticalContactObservation,
    tick: u64,
) -> bool {
    let key = contact_key(observation.enemy_side, observation.target_unit_id);
    let at = contact_position(contacts, key, 0);
    let passed = at_least_one(gap(tick, contacts[at].observed_tick));
    let place = observation.target_position;
    let elapsed = integer(results, passed);
    at < contacts.len() ==> {
        &&& results.contains_key(Operation::Integer(passed))
        &&& results.contains_key(Operation::Difference(place.lat, contacts[at].lat))
        &&& results.contains_key(
            Operation::Quotient(difference(results, place.lat, contacts[at].lat), elapsed),
        )
        &&& results.contains_key(Operation::LongitudeDelta(contacts[at].lng, place.lng))
        &&& results.contains_key(
            Operation::Quotient(longitude_delta(results, contacts[at].lng, place.lng), elapsed),
        )
    }
}

/// Whether a worksheet holds all that taking observations in takes.
pub open spec fn observations_supplied(
    results: Map<Operation, u64>,
    sides: Seq<SideModel>,
    observations: Seq<TacticalContactObservation>,
    tick: u64,
) -> bool {
    forall|k: int|
        0 <= k < observations.len() ==> ({
            let observation = #[trigger] observations[k];
            let earlier = observed_sides(results, sides, observations, tick, k as nat);
            let side = observation.observer_side;
            side < sides.len() && accepts(sides[side as int], observation)
                ==> observation_supplied(
                    results,
                    earlier[side as int].intel.contacts,
                    observation,
                    tick,
                )
        })
}

fn observe(
    side: &mut OperationalSideState,
    observation: &TacticalContactObservation,
    tick: u64,
    reader: &mut Reader<'_>,
)
    requires
        old(reader).sound(),
    ensures
        final(reader)@ == old(reader)@,
        final(reader).sound(),
        final(side)@.hostile_side_indices == old(side)@.hostile_side_indices,
        final(reader).complete() ==> old(reader).complete() && final(side)@ == observed_side(
            old(reader)@,
            old(side)@,
            *observation,
            tick,
        ),
        old(reader).complete() && observation_supplied(
            old(reader)@,
            old(side)@.intel.contacts,
            *observation,
            tick,
        ) ==> final(reader).complete(),
{
    let key = native_contact_key(observation.enemy_side, observation.target_unit_id);
    let mut contacts: Vec<OperationalContact> = Vec::new();
    core::mem::swap(&mut side.intel.contacts, &mut contacts);
    let ghost before = views(contacts@);
    let mut at: usize = 0;
    while at < contacts.len() && contacts[at].key != key
        invariant
            at <= contacts@.len(),
            before == views(contacts@),
            contact_position(before, key@, 0) == contact_position(before, key@, at as int),
        decreases contacts@.len() - at,
    {
        assert(before[at as int] == contacts@[at as int]@);
        at = at + 1;
    }
    let mut velocity_lat = Real::zero();
    let mut velocity_lng = Real::zero();
    if at < contacts.len() {
        assert(before[at as int] == contacts@[at as int]@);
        let elapsed = reader.integer(
            raise_to_one(tick.saturating_sub(contacts[at].observed_tick)),
        );
        let moved_lat = reader.difference(observation.target_position.lat, contacts[at].lat);
        velocity_lat = reader.quotient(moved_lat, elapsed);
        let moved_lng = reader.longitude_delta(contacts[at].lng, observation.target_position.lng);
        velocity_lng = reader.quotient(moved_lng, elapsed);
    }
    let ghost wanted = |contact: OperationalContact| contact.key@ != key@;
    proof {
        lemma_filter_commutes(contacts@, shown::<OperationalContact>(), wanted, other_key(key@));
    }
    let differs = |contact: &OperationalContact| -> (keep: bool)
        ensures
            keep == (contact.key@ != key@),
        {
            contact.key != key
        };
    let mut kept = retain_with(contacts, differs, Ghost(wanted));
    let contact = OperationalContact {
        key,
        enemy_side_index: observation.enemy_side,
        sector_id: "native-local".to_owned(),
        unit_id: observation.target_unit_id,
        country_id: Some(observation.target_country_id),
        domain: "LAND".to_owned(),
        kind: observation.kind.clone(),
        lat: observation.target_position.lat,
        lng: observation.target_position.lng,
        velocity_lat,
        velocity_lng,
        observed_power: observation.observed_power,
        base_confidence: Real::from_bits(N_0_88),
        confidence: Real::from_bits(N_0_88),
        observed_tick: tick,
        age_ticks: 0,
        status: IntelStatus::Fresh,
        source: "native-tactical".to_owned(),
    };
    proof {
        lemma_views_push(kept@, contact);
    }
    kept.push(contact);
    side.intel.contacts = kept;
    side.intel.last_scan_tick = tick;
}

proof fn lemma_observed_sides_keep_enemies(
    results: Map<Operation, u64>,
    sides: Seq<SideModel>,
    observations: Seq<TacticalContactObservation>,
    tick: u64,
    count: nat,
)
    ensures
        observed_sides(results, sides, observations, tick, count).len() == sides.len(),
        forall|i: int|
            0 <= i < sides.len() ==> (#[trigger] observed_sides(
                results,
                sides,
                observations,
                tick,
                count,
            )[i]).hostile_side_indices == sides[i].hostile_side_indices,
    decreases count,
{
    if count > 0 {
        lemma_observed_sides_keep_enemies(results, sides, observations, tick, (count - 1) as nat);
    }
}

impl OperationalRuntimeState {
    /// The state at the outbreak of war.
    pub fn bootstrap(side_count: usize, hostility: &[u8], strength: &[Real]) -> (state: Self)
        ensures
            state@ == initial_operations(hostility@, strength@, side_count),
    {
        let mut sides: Vec<OperationalSideState> = Vec::new();
        let mut side: usize = 0;
        while side < side_count
            invariant
                side <= side_count,
                sides@.len() == side,
                forall|i: int|
                    0 <= i < side ==> (#[trigger] sides@[i])@ == initial_side(
                        hostility@,
                        strength@,
                        side_count,
                        i,
                    ),
            decreases side_count - side,
        {
            sides.push(initial_side_state(side_count, hostility, strength, side));
            side = side + 1;
        }
        let state = OperationalRuntimeState {
            schema: OPERATIONAL_AI_SCHEMA_VERSION.to_owned(),
            sides,
            task_forces: Vec::new(),
            country_desperation: Vec::new(),
            override_events: Vec::new(),
            next_override_sequence: 1,
        };
        proof {
            let model = initial_operations(hostility@, strength@, side_count);
            assert(state@.sides =~= model.sides);
            assert(state@.task_forces =~= model.task_forces);
        }
        state
    }

    /// Let what is known grow older.
    pub fn pre_tick(&mut self, tick: u64, sheet: &Worksheet) -> (outcome: Result<
        (),
        Vec<Operation>,
    >)
        ensures
            outcome is Ok ==> final(self)@ == (OperationsModel {
                sides: Seq::new(
                    old(self)@.sides.len(),
                    |i: int| aged_side(sheet@, old(self)@.sides[i], tick),
                ),
                ..old(self)@
            }),
            outcome matches Err(missing) ==> *final(self) == *old(self) && missing@.len() > 0
                && all_missing(missing@, sheet@)
                && !sides_supplied(sheet@, old(self)@.sides, tick),
    {
        let mut reader = sheet.reader();
        let mut staged = replicas(&self.sides);
        let ghost before = self@.sides;
        let ghost results = sheet@;
        proof {
            assert(staged@.len() == views(staged@).len());
            assert(self.sides@.len() == views(self.sides@).len());
        }
        let mut at: usize = 0;
        while at < staged.len()
            invariant
                at <= staged@.len(),
                reader@ == results,
                reader.sound(),
                before.len() == staged@.len(),
                forall|i: int|
                    at <= i < staged@.len() ==> (#[trigger] staged@[i])@ == before[i],
                reader.complete() ==> forall|i: int|
                    0 <= i < at ==> (#[trigger] staged@[i])@ == aged_side(
                        results,
                        before[i],
                        tick,
                    ),
                sides_supplied(results, before, tick) ==> reader.complete(),
            decreases staged@.len() - at,
        {
            assert(staged@[at as int]@ == before[at as int]);
            age_side(&mut staged[at], tick, &mut reader);
            at = at + 1;
        }
        if !reader.is_complete() {
            return Err(reader.into_missing());
        }
        self.sides = staged;
        proof {
            assert(self@.sides =~= Seq::new(
                before.len(),
                |i: int| aged_side(results, before[i], tick),
            ));
        }
        Ok(())
    }

    /// The strength that a side believes its enemies to have.
    pub fn known_hostile_strength(&self, observer_side: usize, sheet: &Worksheet) -> (outcome:
        Result<Option<Real>, Vec<Operation>>)
        ensures
            outcome matches Ok(strength) ==> strength == hostile_strength(
                sheet@,
                self@.sides,
                observer_side,
            ),
            outcome matches Err(missing) ==> missing@.len() > 0 && all_missing(missing@, sheet@)
                && !estimate_supplied(sheet@, self@.sides, observer_side),
    {
        let mut reader = sheet.reader();
        let strength = self.believe_hostile_strength(observer_side, &mut reader);
        if !reader.is_complete() {
            return Err(reader.into_missing());
        }
        Ok(strength)
    }

    pub(crate) fn believe_hostile_strength(
        &self,
        observer_side: usize,
        reader: &mut Reader<'_>,
    ) -> (strength: Option<Real>)
        requires
            old(reader).sound(),
        ensures
            final(reader)@ == old(reader)@,
            final(reader).sound(),
            final(reader).complete() ==> old(reader).complete() && strength == hostile_strength(
                old(reader)@,
                self@.sides,
                observer_side,
            ),
            old(reader).complete() && estimate_supplied(old(reader)@, self@.sides, observer_side) ==>
                final(reader).complete(),
    {
        let ghost results = reader@;
        let ghost untouched = reader.complete();
        if observer_side >= self.sides.len() {
            return None;
        }
        let side = &self.sides[observer_side];
        assert(self@.sides[observer_side as int] == side@);
        if side.side_index != observer_side || side.hostile_side_indices.len() == 0 {
            return None;
        }
        let mut total = Real::zero();
        let mut at: usize = 0;
        while at < side.hostile_side_indices.len()
            invariant
                at <= side.hostile_side_indices@.len(),
                reader@ == results,
                reader.sound(),
                reader.complete() ==> untouched && total == believed_total(
                    results,
                    side@,
                    at as nat,
                ),
                side@ == self@.sides[observer_side as int],
                side@.side_index == observer_side,
                observer_side < self@.sides.len(),
                untouched && estimate_supplied(results, self@.sides, observer_side) ==>
                    reader.complete(),
            decreases side.hostile_side_indices@.len() - at,
        {
            assert(side@.hostile_side_indices[at as int] == side.hostile_side_indices@[at as int]);
            let power = believe_strength(&side.intel, side.hostile_side_indices[at], reader);
            total = reader.sum(total, power);
            at = at + 1;
        }
        Some(total.larger(Real::zero()))
    }

    /// The posture that an override imposes on a side.
    pub fn posture_override(&self, side_index: usize) -> (posture: Option<WarPosture>)
        ensures
            posture == (if side_index < self@.sides.len() {
                match self@.sides[side_index as int].current_override {
                    Some(current) => Some(current.posture.war_posture()),
                    None => None,
                }
            } else {
                None
            }),
    {
        if side_index >= self.sides.len() {
            return None;
        }
        assert(self@.sides[side_index as int] == self.sides@[side_index as int]@);
        match self.sides[side_index].current_override {
            Some(current) => Some(current.posture.to_war_posture()),
            None => None,
        }
    }

    /// Take in what formations saw of each other.
    pub fn ingest_tactical_contacts(
        &mut self,
        tick: u64,
        observations: &[TacticalContactObservation],
        sheet: &Worksheet,
    ) -> (outcome: Result<(), Vec<Operation>>)
        ensures
            outcome is Ok ==> final(self)@ == (OperationsModel {
                sides: informed_sides(sheet@, old(self)@.sides, observations@, tick),
                ..old(self)@
            }),
            outcome matches Err(missing) ==> *final(self) == *old(self) && missing@.len() > 0
                && all_missing(missing@, sheet@)
                && !observations_supplied(sheet@, old(self)@.sides, observations@, tick),
    {
        let ghost before = self@.sides;
        let ghost results = sheet@;
        let mut reader = sheet.reader();
        let mut staged = replicas(&self.sides);
        let mut touched: Vec<bool> = Vec::new();
        proof {
            assert(staged@.len() == views(staged@).len());
            assert(self.sides@.len() == views(self.sides@).len());
        }
        let mut fill: usize = 0;
        while fill < staged.len()
            invariant
                fill <= staged@.len(),
                touched@.len() == fill,
                forall|i: int| 0 <= i < fill ==> !#[trigger] touched@[i],
            decreases staged@.len() - fill,
        {
            touched.push(false);
            fill = fill + 1;
        }
        let mut at: usize = 0;
        while at < observations.len()
            invariant
                at <= observations@.len(),
                reader@ == results,
                reader.sound(),
                staged@.len() == before.len(),
                touched@.len() == before.len(),
                forall|i: int|
                    0 <= i < before.len() ==> (#[trigger] staged@[i])@.hostile_side_indices
                        == before[i].hostile_side_indices,
                forall|i: int|
                    0 <= i < before.len() ==> #[trigger] touched@[i] == reached(
                        before,
                        observations@,
                        i,
                        at as nat,
                    ),
                reader.complete() ==> views(staged@) == observed_sides(
                    results,
                    before,
                    observations@,
                    tick,
                    at as nat,
                ),
                observations_supplied(results, before, observations@, tick) ==> reader.complete(),
            decreases observations@.len() - at,
        {
            let observation = &observations[at];
            let side: usize = observation.observer_side;
            let ghost earlier = staged@;
            let ghost marked = touched@;
            if side < staged.len() {
                assert(views(staged@)[side as int] == staged@[side as int]@);
                assert(staged@[side as int]@.hostile_side_indices
                    == before[side as int].hostile_side_indices);
                if accepts_observation(&staged[side], observation) {
                    observe(&mut staged[side], observation, tick, &mut reader);
                    touched[side] = true;
                    proof {
                        assert(staged@ =~= earlier.update(side as int, staged@[side as int]));
                        lemma_views_update(earlier, side as int, staged@[side as int]);
                        assert(accepts(before[side as int], *observation));
                    }
                }
            }
            proof {
                assert forall|i: int| 0 <= i < before.len() implies #[trigger] touched@[i]
                    == reached(before, observations@, i, (at + 1) as nat) by {
                    assert(marked[i] == reached(before, observations@, i, at as nat));
                    if reached(before, observations@, i, at as nat) {
                        let k = choose|k: int|
                            0 <= k < at && k < observations@.len() && (
                            #[trigger] observations@[k]).observer_side == i && accepts(
                                before[i],
                                observations@[k],
                            );
                        assert(observations@[k].observer_side == i);
                    }
                    if reached(before, observations@, i, (at + 1) as nat) && !reached(
                        before,
                        observations@,
                        i,
                        at as nat,
                    ) {
                        let k = choose|k: int|
                            0 <= k < at + 1 && k < observations@.len() && (
                            #[trigger] observations@[k]).observer_side == i && accepts(
                                before[i],
                                observations@[k],
                            );
                        assert(k == at);
                    }
                    assert(observations@[at as int].observer_side == side);
                }
            }
            at = at + 1;
        }
        if !reader.is_complete() {
            return Err(reader.into_missing());
        }
        let ghost observed = views(staged@);
        let mut index: usize = 0;
        while index < staged.len()
            invariant
                index <= staged@.len(),
                staged@.len() == before.len(),
                touched@.len() == before.len(),
                observed.len() == before.len(),
                forall|i: int|
                    0 <= i < before.len() ==> #[trigger] touched@[i] == reached(
                        before,
                        observations@,
                        i,
                        observations@.len(),
                    ),
                forall|i: int|
                    index <= i < staged@.len() ==> (#[trigger] staged@[i])@ == observed[i],
                forall|i: int|
                    0 <= i < index ==> (#[trigger] staged@[i])@ == (if reached(
                        before,
                        observations@,
                        i,
                        observations@.len(),
                    ) {
                        ordered_side(observed[i])
                    } else {
                        observed[i]
                    }),
            decreases staged@.len() - index,
        {
            if touched[index] {
                order_side(&mut staged[index]);
            }
            index = index + 1;
        }
        self.sides = staged;
        proof {
            assert(self@.sides =~= informed_sides(results, before, observations@, tick));
        }
        Ok(())
    }
}

fn order_side(side: &mut OperationalSideState)
    ensures
        final(side)@ == ordered_side(old(side)@),
{
    let mut contacts: Vec<OperationalContact> = Vec::new();
    core::mem::swap(&mut side.intel.contacts, &mut contacts);
    side.intel.contacts = sort_contacts(contacts);
    side.intel.revision = side.intel.revision.saturating_add(1);
}

/// The first task force members under the key of their force.
proof fn lemma_member_prefix(members: Seq<TaskForceMember>, unit_id: u64, count: int)
    requires
        0 <= count < members.len(),
    ensures
        has_member(members.take(count + 1), unit_id) == (has_member(members.take(count), unit_id)
            || members[count].unit_id == unit_id),
{
    let longer = members.take(count + 1);
    let shorter = members.take(count);
    if has_member(longer, unit_id) {
        let i = choose|i: int| 0 <= i < longer.len() && (#[trigger] longer[i]).unit_id == unit_id;
        if i < count {
            assert(shorter[i] == longer[i]);
        }
    }
    if has_member(shorter, unit_id) {
        let i = choose|i: int| 0 <= i < shorter.len() && (#[trigger] shorter[i]).unit_id == unit_id;
        assert(longer[i] == shorter[i]);
    }
    assert(longer[count] == members[count]);
}

/// Whether a unit belongs to one of the task forces from a place on.
pub open spec fn belongs_from(forces: Seq<ForceModel>, unit_id: u64, from: int) -> bool {
    exists|f: int|
        from <= f < forces.len() && has_member((#[trigger] forces[f]).members, unit_id)
}

/// What one country looks like to the judgement of its situation.
#[derive(Clone, Copy, Debug, PartialEq, Eq, Structural)]
pub struct CountryOperationalInput {
    pub country_id: u16,
    pub initial_land: u64,
    pub controlled: u64,
    pub cities_controlled: u64,
    pub current_personnel: Real,
    pub offensive_role: bool,
}

/// The last input for a country.
pub open spec fn country_inputs(
    inputs: Seq<CountryOperationalInput>,
    count: nat,
) -> Map<u16, CountryOperationalInput>
    decreases count,
{
    if count == 0 {
        Map::empty()
    } else {
        country_inputs(inputs, (count - 1) as nat).insert(
            inputs[count - 1].country_id,
            inputs[count - 1],
        )
    }
}

pub open spec fn distance_between(left: u64, right: u64) -> u64 {
    if left >= right {
        (left - right) as u64
    } else {
        (right - left) as u64
    }
}

/// How long a country has made no headway.
pub open spec fn stalled(
    results: Map<Operation, u64>,
    state: CountryDesperationState,
    input: CountryOperationalInput,
    interval: u64,
) -> u64 {
    let previous = match state.previous_controlled {
        Some(controlled) => controlled,
        None => input.controlled,
    };
    let land = integer(results, at_least_one(input.initial_land));
    let threshold = at_least_one(
        results[Operation::Whole(
            number_at(results, Operation::Floor(product(results, land, real_of(N_0_002)))),
        )],
    );
    if distance_between(input.controlled, previous) <= threshold {
        if state.stall_ticks + interval <= u64::MAX {
            (state.stall_ticks + interval) as u64
        } else {
            u64::MAX
        }
    } else {
        if state.stall_ticks >= 2 * interval {
            (state.stall_ticks - 2 * interval) as u64
        } else {
            0
        }
    }
}

/// A country's judgement of its situation.
pub open spec fn judged_country(
    results: Map<Operation, u64>,
    state: CountryDesperationState,
    input: CountryOperationalInput,
    tick: u64,
    interval: u64,
) -> CountryDesperationState {
    let initial_cities = match state.initial_cities {
        Some(cities) => cities,
        None => input.cities_controlled,
    };
    let personnel = input.current_personnel.max_of(real_of(0));
    let initial_manpower = match state.initial_manpower {
        Some(manpower) => manpower,
        None => personnel,
    };
    let stall_ticks = stalled(results, state, input, interval);
    let control = quotient(
        results,
        integer(results, input.controlled),
        integer(results, at_least_one(input.initial_land)),
    );
    let cities = quotient(
        results,
        integer(results, input.cities_controlled),
        integer(results, at_least_one(initial_cities)),
    );
    let mobilization = quotient(results, personnel, initial_manpower.max_of(real_of(ONE_BITS)));
    CountryDesperationState {
        country_id: state.country_id,
        mode: if control.le(real_of(N_0_22)) || cities.le(real_of(N_0_2)) {
            CountryDesperationMode::LastStand
        } else if control.le(real_of(N_0_4)) || cities.le(real_of(N_0_35)) {
            CountryDesperationMode::DefensiveDesperation
        } else if input.offensive_role && tick >= 1_200 && stall_ticks >= 900 && real_of(
            N_0_45,
        ).lt(control) {
            CountryDesperationMode::OffensiveDesperation
        } else if mobilization.lt(real_of(N_0_75)) {
            CountryDesperationMode::UnderMobilized
        } else {
            CountryDesperationMode::Normal
        },
        initial_cities: Some(initial_cities),
        initial_manpower: Some(initial_manpower),
        previous_controlled: Some(input.controlled),
        stall_ticks,
    }
}

pub open spec fn judged_countries(
    results: Map<Operation, u64>,
    states: Seq<CountryDesperationState>,
    inputs: Map<u16, CountryOperationalInput>,
    tick: u64,
    interval: u64,
) -> Seq<CountryDesperationState> {
    Seq::new(
        states.len(),
        |i: int|
            if inputs.contains_key(states[i].country_id) {
                judged_country(results, states[i], inputs[states[i].country_id], tick, interval)
            } else {
                states[i]
            },
    )
}

/// Whether a worksheet holds all that judging a country takes.
pub open spec fn judging_supplied(
    results: Map<Operation, u64>,
    state: CountryDesperationState,
    input: CountryOperationalInput,
) -> bool {
    let initial_cities = match state.initial_cities {
        Some(cities) => cities,
        None => input.cities_controlled,
    };
    let personnel = input.current_personnel.max_of(real_of(0));
    let initial_manpower = match state.initial_manpower {
        Some(manpower) => manpower,
        None => personnel,
    };
    let land = integer(results, at_least_one(input.initial_land));
    let share = product(results, land, real_of(N_0_002));
    let lowered = number_at(results, Operation::Floor(share));
    let controlled = integer(results, input.controlled);
    let held = integer(results, input.cities_controlled);
    let founded = integer(results, at_least_one(initial_cities));
    &&& results.contains_key(Operation::Integer(at_least_one(input.initial_land)))
    &&& results.contains_key(Operation::Product(land, real_of(N_0_002)))
    &&& results.contains_key(Operation::Floor(share))
    &&& results.contains_key(Operation::Whole(lowered))
    &&& results.contains_key(Operation::Integer(input.controlled))
    &&& results.contains_key(Operation::Quotient(controlled, land))
    &&& results.contains_key(Operation::Integer(input.cities_controlled))
    &&& results.contains_key(Operation::Integer(at_least_one(initial_cities)))
    &&& results.contains_key(Operation::Quotient(held, founded))
    &&& results.contains_key(Operation::Quotient(personnel, initial_manpower.max_of(real_of(ONE_BITS))))
}

/// Whether a worksheet holds all that judging countries takes.
pub open spec fn judgements_supplied(
    results: Map<Operation, u64>,
    states: Seq<CountryDesperationState>,
    inputs: Map<u16, CountryOperationalInput>,
) -> bool {
    forall|k: int|
        0 <= k < states.len() && inputs.contains_key((#[trigger] states[k]).country_id)
            ==> judging_supplied(results, states[k], inputs[states[k].country_id])
}

fn judge_country(
    state: CountryDesperationState,
    input: CountryOperationalInput,
    tick: u64,
    interval: u64,
    reader: &mut Reader<'_>,
) -> (judged: CountryDesperationState)
    requires
        old(reader).sound(),
    ensures
        final(reader)@ == old(reader)@,
        final(reader).sound(),
        final(reader).complete() ==> old(reader).complete() && judged == judged_country(
            old(reader)@,
            state,
            input,
            tick,
            interval,
        ),
        old(reader).complete() && judging_supplied(old(reader)@, state, input) ==>
            final(reader).complete(),
{
    let initial_land: u64 = raise_to_one(input.initial_land);
    let initial_cities: u64 = match state.initial_cities {
        Some(cities) => cities,
        None => input.cities_controlled,
    };
    let personnel = input.current_personnel.larger(Real::zero());
    let initial_manpower = match state.initial_manpower {
        Some(manpower) => manpower,
        None => personnel,
    };
    let previous: u64 = match state.previous_controlled {
        Some(controlled) => controlled,
        None => input.controlled,
    };
    let delta: u64 = if input.controlled >= previous {
        input.controlled - previous
    } else {
        previous - input.controlled
    };
    let land = reader.integer(initial_land);
    let share = reader.product(land, Real::from_bits(N_0_002));
    let lowered = reader.gather_number(Operation::Floor(share));
    let threshold: u64 = raise_to_one(reader.gather(Operation::Whole(lowered)));
    let stall_ticks: u64 = if delta <= threshold {
        state.stall_ticks.saturating_add(interval)
    } else {
        state.stall_ticks.saturating_sub(interval.saturating_add(interval))
    };
    let controlled = reader.integer(input.controlled);
    let control = reader.quotient(controlled, land);
    let held = reader.integer(input.cities_controlled);
    let founded = reader.integer(raise_to_one(initial_cities));
    let cities = reader.quotient(held, founded);
    let mobilization = reader.quotient(personnel, initial_manpower.larger(Real::one()));
    let mode = if control.at_most(Real::from_bits(N_0_22)) || cities.at_most(
        Real::from_bits(N_0_2),
    ) {
        CountryDesperationMode::LastStand
    } else if control.at_most(Real::from_bits(N_0_4)) || cities.at_most(Real::from_bits(N_0_35)) {
        CountryDesperationMode::DefensiveDesperation
    } else if input.offensive_role && tick >= 1_200 && stall_ticks >= 900 && Real::from_bits(
        N_0_45,
    ).less(control) {
        CountryDesperationMode::OffensiveDesperation
    } else if mobilization.less(Real::from_bits(N_0_75)) {
        CountryDesperationMode::UnderMobilized
    } else {
        CountryDesperationMode::Normal
    };
    CountryDesperationState {
        country_id: state.country_id,
        mode,
        initial_cities: Some(initial_cities),
        initial_manpower: Some(initial_manpower),
        previous_controlled: Some(input.controlled),
        stall_ticks,
    }
}

/// What the situation of a side calls for.
#[derive(Clone, Copy, Debug, PartialEq, Eq, Structural)]
pub struct DesiredOverride {
    pub posture: OperationalPosture,
    pub source: OperationalOverrideSource,
    pub expires_tick: Option<u64>,
}

/// Whether a country of the side is in a mode.
pub open spec fn side_in_mode(
    states: Seq<CountryDesperationState>,
    country_to_side: Map<u16, usize>,
    side: usize,
    mode: CountryDesperationMode,
) -> bool {
    exists|i: int|
        0 <= i < states.len() && (#[trigger] states[i]).mode == mode
            && country_to_side.contains_key(states[i].country_id)
            && country_to_side[states[i].country_id] == side
}

/// Whether supply of one of the side's task forces collapsed not long ago.
pub open spec fn recent_supply_collapse(
    forces: Seq<ForceModel>,
    side: usize,
    tick: u64,
) -> bool {
    exists|i: int|
        0 <= i < forces.len() && (#[trigger] forces[i]).side_index == side && (
        forces[i].supply_invalidated_tick matches Some(collapse) && gap(tick, collapse)
            <= SUPPLY_OVERRIDE_TICKS)
}

/// Whether the side has a task force that is about to attack or attacks.
pub open spec fn viable_offensive(forces: Seq<ForceModel>, side: usize) -> bool {
    exists|i: int|
        0 <= i < forces.len() && (#[trigger] forces[i]).side_index == side && (
        forces[i].phase is Assembling || forces[i].phase is Attacking)
}

/// A last stand comes first, then a supply collapse, then defensive and offensive desperation.
pub open spec fn desired_override(
    state: OperationsModel,
    country_to_side: Map<u16, usize>,
    side: usize,
    tick: u64,
) -> Option<DesiredOverride> {
    let states = state.country_desperation;
    if side_in_mode(states, country_to_side, side, CountryDesperationMode::LastStand) {
        Some(
            DesiredOverride {
                posture: OperationalPosture::Defensive,
                source: OperationalOverrideSource::LastStand,
                expires_tick: None,
            },
        )
    } else if recent_supply_collapse(state.task_forces, side, tick) {
        Some(
            DesiredOverride {
                posture: OperationalPosture::Defensive,
                source: OperationalOverrideSource::SupplyCollapse,
                expires_tick: Some(
                    if tick + SUPPLY_OVERRIDE_TICKS <= u64::MAX {
                        (tick + SUPPLY_OVERRIDE_TICKS) as u64
                    } else {
                        u64::MAX
                    },
                ),
            },
        )
    } else if side_in_mode(
        states,
        country_to_side,
        side,
        CountryDesperationMode::DefensiveDesperation,
    ) {
        Some(
            DesiredOverride {
                posture: OperationalPosture::Defensive,
                source: OperationalOverrideSource::DefensiveDesperation,
                expires_tick: None,
            },
        )
    } else if viable_offensive(state.task_forces, side) && side_in_mode(
        states,
        country_to_side,
        side,
        CountryDesperationMode::OffensiveDesperation,
    ) {
        Some(
            DesiredOverride {
                posture: OperationalPosture::Offensive,
                source: OperationalOverrideSource::OffensiveDesperation,
                expires_tick: None,
            },
        )
    } else {
        None
    }
}

/// Whether what is in force is what is called for.
pub open spec fn override_stands(
    current: Option<OperationalOverride>,
    desired: Option<DesiredOverride>,
) -> bool {
    match (current, desired) {
        (Some(present), Some(wanted)) => present.posture == wanted.posture && present.source
            == wanted.source,
        (None, None) => true,
        _ => false,
    }
}

pub open spec fn changed_override(
    desired: Option<DesiredOverride>,
    tick: u64,
    sequence: u64,
) -> Option<OperationalOverride> {
    match desired {
        Some(wanted) => Some(
            OperationalOverride {
                posture: wanted.posture,
                source: wanted.source,
                started_tick: tick,
                expires_tick: wanted.expires_tick,
                sequence,
            },
        ),
        None => None,
    }
}

pub open spec fn override_event(
    current: Option<OperationalOverride>,
    desired: Option<DesiredOverride>,
    side: usize,
    tick: u64,
    sequence: u64,
) -> OperationalOverrideEvent {
    OperationalOverrideEvent {
        sequence,
        side_index: side,
        posture: match desired {
            Some(wanted) => Some(wanted.posture),
            None => None,
        },
        source: match desired {
            Some(wanted) => wanted.source,
            None => current->Some_0.source,
        },
        started_tick: tick,
        expires_tick: match desired {
            Some(wanted) => wanted.expires_tick,
            None => Some(tick),
        },
    }
}

/// The state after the overrides of the first sides were brought up to date.
pub open spec fn overrides_evolved(
    state: OperationsModel,
    country_to_side: Map<u16, usize>,
    tick: u64,
    count: nat,
) -> OperationsModel
    decreases count,
{
    if count == 0 {
        state
    } else {
        let rest = overrides_evolved(state, country_to_side, tick, (count - 1) as nat);
        let side = (count - 1) as usize;
        let desired = desired_override(state, country_to_side, side, tick);
        let current = rest.sides[side as int].current_override;
        if override_stands(current, desired) {
            rest
        } else {
            OperationsModel {
                sides: rest.sides.update(
                    side as int,
                    SideModel {
                        current_override: changed_override(
                            desired,
                            tick,
                            rest.next_override_sequence,
                        ),
                        ..rest.sides[side as int]
                    },
                ),
                override_events: rest.override_events.push(
                    override_event(current, desired, side, tick, rest.next_override_sequence),
                ),
                next_override_sequence: next_revision(rest.next_override_sequence),
                ..rest
            }
        }
    }
}

/// The newest events.
pub open spec fn recent_events(
    events: Seq<OperationalOverrideEvent>,
) -> Seq<OperationalOverrideEvent> {
    if events.len() > OPERATIONAL_OVERRIDE_HISTORY_LIMIT {
        events.skip(events.len() - OPERATIONAL_OVERRIDE_HISTORY_LIMIT)
    } else {
        events
    }
}

pub open spec fn evolved_operations(
    state: OperationsModel,
    country_to_side: Map<u16, usize>,
    tick: u64,
) -> OperationsModel {
    let evolved = overrides_evolved(state, country_to_side, tick, state.sides.len());
    OperationsModel { override_events: recent_events(evolved.override_events), ..evolved }
}

/// What observers of the simulation are shown of operational state.
#[derive(Debug)]
pub struct OperationalSnapshot {
    pub schema_version: &'static str,
    pub tick: u64,
    pub sides: Vec<OperationalSideState>,
    pub task_forces: Vec<OperationalTaskForce>,
    pub country_desperation: Vec<CountryDesperationState>,
    pub override_events: Vec<OperationalOverrideEvent>,
}

impl OperationalRuntimeState {
    /// The task force key of every unit that belongs to one. Where several claim a unit, the last
    /// counts.
    pub fn task_force_key_by_unit(&self) -> (keys: BTreeMap<u64, u64>)
        ensures
            forall|unit_id: u64|
                #[trigger] keys@.contains_key(unit_id) == belongs_from(
                    self@.task_forces,
                    unit_id,
                    0,
                ),
            forall|f: int, unit_id: u64|
                #![trigger has_member(self@.task_forces[f].members, unit_id)]
                0 <= f < self@.task_forces.len() && has_member(
                    self@.task_forces[f].members,
                    unit_id,
                ) && !belongs_from(self@.task_forces, unit_id, f + 1) ==> keys@[unit_id]
                    == force_key(self@.task_forces[f].id),
    {
        broadcast use vstd::std_specs::btree::group_btree_axioms;

        let ghost forces = self@.task_forces;
        let mut keys: BTreeMap<u64, u64> = BTreeMap::new();
        let mut at: usize = 0;
        while at < self.task_forces.len()
            invariant
                at <= self.task_forces@.len(),
                forces == self@.task_forces,
                forall|unit_id: u64|
                    #[trigger] keys@.contains_key(unit_id) == belongs_from(
                        forces.take(at as int),
                        unit_id,
                        0,
                    ),
                forall|f: int, unit_id: u64|
                    #![trigger has_member(forces[f].members, unit_id)]
                    0 <= f < at && has_member(forces[f].members, unit_id) && !belongs_from(
                        forces.take(at as int),
                        unit_id,
                        f + 1,
                    ) ==> keys@[unit_id] == force_key(forces[f].id),
            decreases self.task_forces@.len() - at,
        {
            let force = &self.task_forces[at];
            assert(forces[at as int] == force@);
            let key: u64 = stable_task_force_key(force.id.as_str());
            let ghost before = keys@;
            proof {
                assert forall|unit_id: u64| !#[trigger] has_member(
                    force.members@.take(0),
                    unit_id,
                ) by {}
            }
            let mut index: usize = 0;
            while index < force.members.len()
                invariant
                    index <= force.members@.len(),
                    forall|unit_id: u64|
                        #[trigger] keys@.contains_key(unit_id) == (before.contains_key(unit_id)
                            || has_member(force.members@.take(index as int), unit_id)),
                    forall|unit_id: u64|
                        #[trigger] keys@.contains_key(unit_id) ==> keys@[unit_id] == (if has_member(
                            force.members@.take(index as int),
                            unit_id,
                        ) {
                            key
                        } else {
                            before[unit_id]
                        }),
                decreases force.members@.len() - index,
            {
                broadcast use vstd::std_specs::btree::group_btree_axioms;

                let ghost earlier = keys@;
                keys.insert(force.members[index].unit_id, key);
                proof {
                    assert forall|unit_id: u64| #[trigger] keys@.contains_key(unit_id) == (
                    before.contains_key(unit_id) || has_member(
                        force.members@.take(index + 1),
                        unit_id,
                    )) && (keys@.contains_key(unit_id) ==> keys@[unit_id] == (if has_member(
                        force.members@.take(index + 1),
                        unit_id,
                    ) {
                        key
                    } else {
                        before[unit_id]
                    })) by {
                        lemma_member_prefix(force.members@, unit_id, index as int);
                        assert(earlier.contains_key(unit_id) == (before.contains_key(unit_id)
                            || has_member(force.members@.take(index as int), unit_id)));
                    }
                }
                index = index + 1;
            }
            proof {
                assert(force.members@.take(force.members@.len() as int) =~= force.members@);
                let longer = forces.take(at + 1);
                let shorter = forces.take(at as int);
                assert forall|unit_id: u64, from: int|
                    0 <= from <= at implies #[trigger] belongs_from(longer, unit_id, from) == (
                belongs_from(shorter, unit_id, from) || has_member(
                    force.members@,
                    unit_id,
                )) by {
                    if belongs_from(longer, unit_id, from) {
                        let f = choose|f: int|
                            from <= f < longer.len() && has_member(
                                (#[trigger] longer[f]).members,
                                unit_id,
                            );
                        if f < at {
                            assert(shorter[f] == longer[f]);
                        }
                    }
                    if belongs_from(shorter, unit_id, from) {
                        let f = choose|f: int|
                            from <= f < shorter.len() && has_member(
                                (#[trigger] shorter[f]).members,
                                unit_id,
                            );
                        assert(shorter[f] == longer[f]);
                    }
                    assert(longer[at as int].members == force.members@);
                }
                assert forall|unit_id: u64| #[trigger] keys@.contains_key(unit_id)
                    == belongs_from(longer, unit_id, 0) by {
                    assert(before.contains_key(unit_id) == belongs_from(shorter, unit_id, 0));
                }
                assert forall|f: int, unit_id: u64|
                    #![trigger has_member(forces[f].members, unit_id)]
                    0 <= f < at + 1 && has_member(forces[f].members, unit_id) && !belongs_from(
                        longer,
                        unit_id,
                        f + 1,
                    ) implies keys@[unit_id] == force_key(forces[f].id) by {
                    if f < at {
                        assert(belongs_from(longer, unit_id, f + 1) == (belongs_from(
                            shorter,
                            unit_id,
                            f + 1,
                        ) || has_member(force.members@, unit_id)));
                        assert(shorter[f] == forces[f]);
                        assert(belongs_from(shorter, unit_id, 0));
                        assert(before.contains_key(unit_id));
                        assert(keys@.contains_key(unit_id));
                    } else {
                        assert(has_member(force.members@, unit_id));
                        assert(keys@.contains_key(unit_id));
                    }
                }
            }
            at = at + 1;
        }
        assert(forces.take(forces.len() as int) =~= forces);
        keys
    }

    /// Whether a unit belongs to a task force.
    pub fn contains_unit(&self, unit_id: u64) -> (found: bool)
        ensures
            found == belongs_from(self@.task_forces, unit_id, 0),
    {
        let mut at: usize = 0;
        while at < self.task_forces.len()
            invariant
                at <= self.task_forces@.len(),
                forall|f: int|
                    0 <= f < at ==> !has_member(
                        (#[trigger] self@.task_forces[f]).members,
                        unit_id,
                    ),
            decreases self.task_forces@.len() - at,
        {
            assert(self@.task_forces[at as int] == self.task_forces@[at as int]@);
            if member_exists(&self.task_forces[at].members, unit_id) {
                return true;
            }
            at = at + 1;
        }
        false
    }

    /// Judge the situation of every country that has an input.
    pub fn update_country_desperation(
        &mut self,
        tick: u64,
        interval: u64,
        countries: &[CountryOperationalInput],
        sheet: &Worksheet,
    ) -> (outcome: Result<(), Vec<Operation>>)
        ensures
            outcome is Ok ==> final(self)@ == (OperationsModel {
                country_desperation: judged_countries(
                    sheet@,
                    old(self)@.country_desperation,
                    country_inputs(countries@, countries@.len()),
                    tick,
                    interval,
                ),
                ..old(self)@
            }),
            outcome matches Err(missing) ==> *final(self) == *old(self) && missing@.len() > 0
                && all_missing(missing@, sheet@)
                && !judgements_supplied(
                    sheet@,
                    old(self)@.country_desperation,
                    country_inputs(countries@, countries@.len()),
                ),
    {
        broadcast use vstd::std_specs::btree::group_btree_axioms;

        let mut by_id: BTreeMap<u16, CountryOperationalInput> = BTreeMap::new();
        let mut index: usize = 0;
        while index < countries.len()
            invariant
                index <= countries@.len(),
                by_id@ == country_inputs(countries@, index as nat),
            decreases countries@.len() - index,
        {
            broadcast use vstd::std_specs::btree::group_btree_axioms;

            by_id.insert(countries[index].country_id, countries[index]);
            index = index + 1;
        }
        let ghost before = self@;
        let ghost inputs = country_inputs(countries@, countries@.len());
        let mut reader = sheet.reader();
        let mut staged: Vec<CountryDesperationState> = Vec::new();
        let mut at: usize = 0;
        while at < self.country_desperation.len()
            invariant
                at <= self.country_desperation@.len(),
                before == self@,
                by_id@ == inputs,
                reader@ == sheet@,
                reader.sound(),
                staged@.len() == at,
                reader.complete() ==> forall|i: int|
                    0 <= i < at ==> #[trigger] staged@[i] == judged_countries(
                        sheet@,
                        before.country_desperation,
                        inputs,
                        tick,
                        interval,
                    )[i],
                judgements_supplied(sheet@, before.country_desperation, inputs) ==>
                    reader.complete(),
            decreases self.country_desperation@.len() - at,
        {
            assert(before.country_desperation[at as int] == self.country_desperation@[at as int]);
            broadcast use vstd::std_specs::btree::group_btree_axioms;

            let state = self.country_desperation[at];
            match by_id.get(&state.country_id) {
                Some(input) => {
                    staged.push(judge_country(state, *input, tick, interval, &mut reader));
                },
                None => {
                    staged.push(state);
                },
            }
            at = at + 1;
        }
        if !reader.is_complete() {
            return Err(reader.into_missing());
        }
        self.country_desperation = staged;
        proof {
            assert(self@.country_desperation =~= judged_countries(
                sheet@,
                before.country_desperation,
                inputs,
                tick,
                interval,
            ));
        }
        Ok(())
    }

    fn side_has_mode(
        &self,
        country_to_side: &BTreeMap<u16, usize>,
        side: usize,
        mode: CountryDesperationMode,
    ) -> (answer: bool)
        ensures
            answer == side_in_mode(self@.country_desperation, country_to_side@, side, mode),
    {
        broadcast use vstd::std_specs::btree::group_btree_axioms;

        let states = &self.country_desperation;
        let mut at: usize = 0;
        while at < states.len()
            invariant
                at <= states@.len(),
                states@ == self@.country_desperation,
                forall|i: int|
                    0 <= i < at ==> !((#[trigger] states@[i]).mode == mode
                        && country_to_side@.contains_key(states@[i].country_id)
                        && country_to_side@[states@[i].country_id] == side),
            decreases states@.len() - at,
        {
            broadcast use vstd::std_specs::btree::group_btree_axioms;

            if states[at].mode == mode {
                if let Some(owner) = country_to_side.get(&states[at].country_id) {
                    if *owner == side {
                        assert(states@[at as int].mode == mode);
                        return true;
                    }
                }
            }
            at = at + 1;
        }
        false
    }

    fn has_recent_collapse(&self, side: usize, tick: u64) -> (answer: bool)
        ensures
            answer == recent_supply_collapse(self@.task_forces, side, tick),
    {
        let ghost forces = self@.task_forces;
        let mut at: usize = 0;
        while at < self.task_forces.len()
            invariant
                at <= self.task_forces@.len(),
                forces == self@.task_forces,
                forall|i: int|
                    0 <= i < at ==> !((#[trigger] forces[i]).side_index == side && (
                    forces[i].supply_invalidated_tick matches Some(collapse) && gap(tick, collapse)
                        <= SUPPLY_OVERRIDE_TICKS)),
            decreases self.task_forces@.len() - at,
        {
            assert(forces[at as int] == self.task_forces@[at as int]@);
            if self.task_forces[at].side_index == side {
                if let Some(collapse) = self.task_forces[at].supply_invalidated_tick {
                    if tick.saturating_sub(collapse) <= SUPPLY_OVERRIDE_TICKS {
                        return true;
                    }
                }
            }
            at = at + 1;
        }
        false
    }

    fn has_viable_offensive(&self, side: usize) -> (answer: bool)
        ensures
            answer == viable_offensive(self@.task_forces, side),
    {
        let ghost forces = self@.task_forces;
        let mut at: usize = 0;
        while at < self.task_forces.len()
            invariant
                at <= self.task_forces@.len(),
                forces == self@.task_forces,
                forall|i: int|
                    0 <= i < at ==> !((#[trigger] forces[i]).side_index == side && (
                    forces[i].phase is Assembling || forces[i].phase is Attacking)),
            decreases self.task_forces@.len() - at,
        {
            assert(forces[at as int] == self.task_forces@[at as int]@);
            if self.task_forces[at].side_index == side && (self.task_forces[at].phase
                == TaskForcePhase::Assembling || self.task_forces[at].phase
                == TaskForcePhase::Attacking) {
                return true;
            }
            at = at + 1;
        }
        false
    }

    fn desire_override(
        &self,
        country_to_side: &BTreeMap<u16, usize>,
        side: usize,
        tick: u64,
    ) -> (desired: Option<DesiredOverride>)
        ensures
            desired == desired_override(self@, country_to_side@, side, tick),
    {
        if self.side_has_mode(country_to_side, side, CountryDesperationMode::LastStand) {
            Some(
                DesiredOverride {
                    posture: OperationalPosture::Defensive,
                    source: OperationalOverrideSource::LastStand,
                    expires_tick: None,
                },
            )
        } else if self.has_recent_collapse(side, tick) {
            Some(
                DesiredOverride {
                    posture: OperationalPosture::Defensive,
                    source: OperationalOverrideSource::SupplyCollapse,
                    expires_tick: Some(tick.saturating_add(SUPPLY_OVERRIDE_TICKS)),
                },
            )
        } else if self.side_has_mode(
            country_to_side,
            side,
            CountryDesperationMode::DefensiveDesperation,
        ) {
            Some(
                DesiredOverride {
                    posture: OperationalPosture::Defensive,
                    source: OperationalOverrideSource::DefensiveDesperation,
                    expires_tick: None,
                },
            )
        } else if self.has_viable_offensive(side) && self.side_has_mode(
            country_to_side,
            side,
            CountryDesperationMode::OffensiveDesperation,
        ) {
            Some(
                DesiredOverride {
                    posture: OperationalPosture::Offensive,
                    source: OperationalOverrideSource::OffensiveDesperation,
                    expires_tick: None,
                },
            )
        } else {
            None
        }
    }

    /// Bring the posture overrides of all sides up to date and keep the newest events.
    pub fn evolve_overrides(&mut self, tick: u64, country_to_side: &BTreeMap<u16, usize>)
        ensures
            final(self)@ == evolved_operations(old(self)@, country_to_side@, tick),
            final(self)@.override_events.len() <= OPERATIONAL_OVERRIDE_HISTORY_LIMIT,
    {
        let ghost before = self@;
        let mut side: usize = 0;
        while side < self.sides.len()
            invariant
                side <= self.sides@.len(),
                self@.sides.len() == before.sides.len(),
                self@ == overrides_evolved(before, country_to_side@, tick, side as nat),
                self@.task_forces == before.task_forces,
                self@.country_desperation == before.country_desperation,
            decreases self.sides@.len() - side,
        {
            let ghost earlier = self@;
            let ghost earlier_sides = self.sides@;
            let desired = self.desire_override(country_to_side, side, tick);
            assert(desired == desired_override(before, country_to_side@, side, tick));
            let current = self.sides[side].current_override;
            assert(earlier.sides[side as int] == self.sides@[side as int]@);
            let stands = match (current, desired) {
                (Some(present), Some(wanted)) => present.posture == wanted.posture
                    && present.source == wanted.source,
                (None, None) => true,
                _ => false,
            };
            if !stands {
                let sequence: u64 = self.next_override_sequence;
                self.next_override_sequence = sequence.saturating_add(1);
                let event = match desired {
                    Some(wanted) => OperationalOverrideEvent {
                        sequence,
                        side_index: side,
                        posture: Some(wanted.posture),
                        source: wanted.source,
                        started_tick: tick,
                        expires_tick: wanted.expires_tick,
                    },
                    None => OperationalOverrideEvent {
                        sequence,
                        side_index: side,
                        posture: None,
                        source: match current {
                            Some(present) => present.source,
                            None => OperationalOverrideSource::LastStand,
                        },
                        started_tick: tick,
                        expires_tick: Some(tick),
                    },
                };
                self.override_events.push(event);
                self.sides[side].current_override =
                match desired {
                    Some(wanted) => Some(
                        OperationalOverride {
                            posture: wanted.posture,
                            source: wanted.source,
                            started_tick: tick,
                            expires_tick: wanted.expires_tick,
                            sequence,
                        },
                    ),
                    None => None,
                };
                proof {
                    assert(self.sides@ =~= earlier_sides.update(
                        side as int,
                        self.sides@[side as int],
                    ));
                    lemma_views_update(earlier_sides, side as int, self.sides@[side as int]);
                }
            }
            side = side + 1;
        }
        let ghost evolved = self@;
        if self.override_events.len() > OPERATIONAL_OVERRIDE_HISTORY_LIMIT {
            let surplus: usize = self.override_events.len() - OPERATIONAL_OVERRIDE_HISTORY_LIMIT;
            self.override_events = self.override_events.split_off(surplus);
            assert(self.override_events@ =~= evolved.override_events.skip(surplus as int));
        }
    }

    /// A copy for observers.
    pub fn snapshot(&self, tick: u64) -> (snapshot: OperationalSnapshot)
        ensures
            snapshot.schema_version@ == OPERATIONAL_AI_SCHEMA_VERSION@,
            snapshot.tick == tick,
            views(snapshot.sides@) == self@.sides,
            views(snapshot.task_forces@) == self@.task_forces,
            snapshot.country_desperation@ == self@.country_desperation,
            snapshot.override_events@ == self@.override_events,
    {
        OperationalSnapshot {
            schema_version: OPERATIONAL_AI_SCHEMA_VERSION,
            tick,
            sides: replicas(&self.sides),
            task_forces: replicas(&self.task_forces),
            country_desperation: copy_all(self.country_desperation.as_slice()),
            override_events: copy_all(self.override_events.as_slice()),
        }
    }
}

proof fn lemma_enemies(hostility: Seq<u8>, side_count: usize, side: int, count: nat)
    requires
        count <= side_count,
    ensures
        strictly_sorted(enemies_below(hostility, side_count, side, count)),
        forall|i: int|
            0 <= i < enemies_below(hostility, side_count, side, count).len() ==> {
                let enemy = #[trigger] enemies_below(hostility, side_count, side, count)[i];
                enemy < count && declared_hostile(hostility, side_count, side, enemy as int)
            },
    decreases count,
{
    if count > 0 {
        lemma_enemies(hostility, side_count, side, (count - 1) as nat);
    }
}

proof fn lemma_sides_fault(sides: Seq<SideModel>, from: int, scope: OperationsScope)
    requires
        0 <= from,
    ensures
        sides_fault(sides, from, scope) is None <==> forall|i: int|
            from <= i < sides.len() ==> #[trigger] side_fault(sides[i], i, scope) is None,
    decreases sides.len() - from,
{
    if from < sides.len() {
        lemma_sides_fault(sides, from + 1, scope);
        if side_fault(sides[from], from, scope) is None {
            assert forall|i: int| from <= i < sides.len() && sides_fault(
                sides,
                from + 1,
                scope,
            ) is None implies #[trigger] side_fault(sides[i], i, scope) is None by {}
        }
    }
}

/// War begins in a state that passes validation, as long as no side is infinitely strong.
pub proof fn initial_operations_are_valid(
    hostility: Seq<u8>,
    strength: Seq<Real>,
    scope: OperationsScope,
)
    requires
        scope.next_sequence == 1,
        forall|side: int|
            0 <= side < scope.side_count ==> !#[trigger] declared_hostile(
                hostility,
                scope.side_count,
                side,
                side,
            ),
        forall|side: int|
            0 <= side < strength.len() ==> (#[trigger] strength[side]).bits != INFINITY_BITS,
    ensures
        operations_fault(
            initial_operations(hostility, strength, scope.side_count),
            scope,
        ) is None,
{
    let state = initial_operations(hostility, strength, scope.side_count);
    assert forall|i: int| 0 <= i < state.sides.len() implies #[trigger] side_fault(
        state.sides[i],
        i,
        scope,
    ) is None by {
        let side = state.sides[i];
        lemma_enemies(hostility, scope.side_count, i, scope.side_count as nat);
        assert(observer_valid(side, i, scope)) by {
            assert forall|k: int| 0 <= k < side.hostile_side_indices.len() implies {
                let enemy = #[trigger] side.hostile_side_indices[k];
                enemy < scope.side_count && enemy != i
            } by {
                assert(!declared_hostile(hostility, scope.side_count, i, i));
            }
        }
    }
    lemma_sides_fault(state.sides, 0, scope);
}

proof fn lemma_overrides_evolved(
    state: OperationsModel,
    country_to_side: Map<u16, usize>,
    tick: u64,
    count: nat,
)
    requires
        count <= state.sides.len(),
        state.sides.len() <= usize::MAX,
    ensures
        ({
            let evolved = overrides_evolved(state, country_to_side, tick, count);
            &&& evolved.sides.len() == state.sides.len()
            &&& evolved.schema == state.schema
            &&& evolved.task_forces == state.task_forces
            &&& evolved.country_desperation == state.country_desperation
            &&& forall|i: int|
                count <= i < state.sides.len() ==> #[trigger] evolved.sides[i] == state.sides[i]
            &&& forall|i: int|
                0 <= i < state.sides.len() ==> #[trigger] evolved.sides[i] == (SideModel {
                    current_override: evolved.sides[i].current_override,
                    ..state.sides[i]
                })
            &&& forall|i: int|
                0 <= i < count ==> override_stands(
                    (#[trigger] evolved.sides[i]).current_override,
                    desired_override(state, country_to_side, i as usize, tick),
                )
            &&& state.next_override_sequence <= evolved.next_override_sequence
            &&& state.next_override_sequence + count < u64::MAX ==> {
                evolved.next_override_sequence <= state.next_override_sequence + count
            }
        }),
    decreases count,
{
    if count > 0 {
        lemma_overrides_evolved(state, country_to_side, tick, (count - 1) as nat);
    }
}

/// After the overrides are brought up to date, every side is under the override that its
/// situation calls for: a last stand before a supply collapse, and that before desperation.
pub proof fn overrides_follow_the_situation(
    state: OperationsModel,
    country_to_side: Map<u16, usize>,
    tick: u64,
    side: usize,
)
    requires
        side < state.sides.len() <= usize::MAX,
    ensures
        override_stands(
            evolved_operations(state, country_to_side, tick).sides[side as int].current_override,
            desired_override(state, country_to_side, side, tick),
        ),
        side_in_mode(
            state.country_desperation,
            country_to_side,
            side,
            CountryDesperationMode::LastStand,
        ) ==> (evolved_operations(state, country_to_side, tick).sides[side as int].current_override
            matches Some(current) && current.source is LastStand && current.posture is Defensive),
{
    lemma_overrides_evolved(state, country_to_side, tick, state.sides.len());
    let evolved = overrides_evolved(state, country_to_side, tick, state.sides.len());
    assert(override_stands(
        evolved.sides[side as int].current_override,
        desired_override(state, country_to_side, side as int as usize, tick),
    ));
}

/// Bringing the overrides up to date twice changes them once.
pub proof fn settled_overrides_stay(
    state: OperationsModel,
    country_to_side: Map<u16, usize>,
    tick: u64,
)
    requires
        state.sides.len() <= usize::MAX,
        forall|i: int|
            0 <= i < state.sides.len() ==> override_stands(
                (#[trigger] state.sides[i]).current_override,
                desired_override(state, country_to_side, i as usize, tick),
            ),
        state.override_events.len() <= OPERATIONAL_OVERRIDE_HISTORY_LIMIT,
    ensures
        evolved_operations(state, country_to_side, tick) == state,
{
    lemma_settled(state, country_to_side, tick, state.sides.len());
}

proof fn lemma_settled(
    state: OperationsModel,
    country_to_side: Map<u16, usize>,
    tick: u64,
    count: nat,
)
    requires
        count <= state.sides.len() <= usize::MAX,
        forall|i: int|
            0 <= i < state.sides.len() ==> override_stands(
                (#[trigger] state.sides[i]).current_override,
                desired_override(state, country_to_side, i as usize, tick),
            ),
    ensures
        overrides_evolved(state, country_to_side, tick, count) == state,
    decreases count,
{
    if count > 0 {
        lemma_settled(state, country_to_side, tick, (count - 1) as nat);
        assert(override_stands(
            state.sides[count - 1].current_override,
            desired_override(state, country_to_side, (count - 1) as usize, tick),
        ));
    }
}

proof fn lemma_forces_scope(
    forces: Seq<ForceModel>,
    from: int,
    left: OperationsScope,
    right: OperationsScope,
)
    requires
        0 <= from,
        left.side_count == right.side_count,
        left.live_units == right.live_units,
        left.tick == right.tick,
    ensures
        forces_fault(forces, from, left) == forces_fault(forces, from, right),
    decreases forces.len() - from,
{
    if from < forces.len() {
        lemma_forces_scope(forces, from + 1, left, right);
        let before = claimed(forces, from as nat);
        assert forall|m: int| 0 <= m < forces[from].members.len() implies #[trigger] member_valid(
            forces[from],
            m,
            before,
            left,
        ) == member_valid(forces[from], m, before, right) by {}
        assert(members_valid(forces[from], before, left) == members_valid(
            forces[from],
            before,
            right,
        )) by {
            if members_valid(forces[from], before, left) {
                assert forall|m: int|
                    0 <= m < forces[from].members.len() implies #[trigger] member_valid(
                    forces[from],
                    m,
                    before,
                    right,
                ) by {
                    assert(member_valid(forces[from], m, before, left));
                }
            }
            if members_valid(forces[from], before, right) {
                assert forall|m: int|
                    0 <= m < forces[from].members.len() implies #[trigger] member_valid(
                    forces[from],
                    m,
                    before,
                    left,
                ) by {
                    assert(member_valid(forces[from], m, before, right));
                }
            }
        }
    }
}

/// The scope with another sequence number.
pub open spec fn with_sequence(scope: OperationsScope, next_sequence: u64) -> OperationsScope {
    OperationsScope { next_sequence, ..scope }
}

proof fn lemma_evolved_events(
    state: OperationsModel,
    country_to_side: Map<u16, usize>,
    tick: u64,
    count: nat,
    scope: OperationsScope,
)
    requires
        count <= state.sides.len(),
        state.sides.len() == scope.side_count,
        scope.tick == tick,
        0 < state.next_override_sequence,
        state.next_override_sequence + state.sides.len() < u64::MAX,
        forall|i: int|
            0 <= i < state.override_events.len() ==> #[trigger] event_valid(
                state.override_events,
                i,
                with_sequence(scope, state.next_override_sequence),
            ),
        forall|i: int|
            0 <= i < state.sides.len() ==> ((#[trigger] state.sides[i]).current_override matches
                Some(current) ==> override_valid(
                current,
                with_sequence(scope, state.next_override_sequence),
            )),
    ensures
        ({
            let evolved = overrides_evolved(state, country_to_side, tick, count);
            let later = with_sequence(scope, evolved.next_override_sequence);
            &&& forall|i: int|
                0 <= i < evolved.override_events.len() ==> #[trigger] event_valid(
                    evolved.override_events,
                    i,
                    later,
                )
            &&& forall|i: int|
                0 <= i < evolved.sides.len() ==> ((#[trigger] evolved.sides[i]).current_override
                    matches Some(current) ==> override_valid(current, later))
        }),
    decreases count,
{
    if count > 0 {
        lemma_evolved_events(state, country_to_side, tick, (count - 1) as nat, scope);
        lemma_overrides_evolved(state, country_to_side, tick, (count - 1) as nat);
        lemma_overrides_evolved(state, country_to_side, tick, count);
        let rest = overrides_evolved(state, country_to_side, tick, (count - 1) as nat);
        let evolved = overrides_evolved(state, country_to_side, tick, count);
        let earlier = with_sequence(scope, rest.next_override_sequence);
        let later = with_sequence(scope, evolved.next_override_sequence);
        assert forall|i: int| 0 <= i < evolved.override_events.len() implies #[trigger] event_valid(
            evolved.override_events,
            i,
            later,
        ) by {
            if i < rest.override_events.len() {
                assert(event_valid(rest.override_events, i, earlier));
                assert(evolved.override_events[i] == rest.override_events[i]);
                if i > 0 {
                    assert(evolved.override_events[i - 1] == rest.override_events[i - 1]);
                }
            } else if i > 0 {
                assert(event_valid(rest.override_events, i - 1, earlier));
                assert(evolved.override_events[i - 1] == rest.override_events[i - 1]);
            }
        }
        assert forall|i: int| 0 <= i < evolved.sides.len() implies ((
        #[trigger] evolved.sides[i]).current_override matches Some(current) ==> override_valid(
            current,
            later,
        )) by {
            assert(rest.sides[i].current_override matches Some(current) ==> override_valid(
                current,
                earlier,
            ));
        }
    }
}

/// A valid state stays valid when its overrides are brought up to date, as long as sequence
/// numbers last.
pub proof fn evolving_keeps_operations_valid(
    state: OperationsModel,
    country_to_side: Map<u16, usize>,
    scope: OperationsScope,
)
    requires
        scope.next_sequence == state.next_override_sequence,
        operations_fault(state, scope) is None,
        state.next_override_sequence + state.sides.len() < u64::MAX,
    ensures
        ({
            let evolved = evolved_operations(state, country_to_side, scope.tick);
            operations_fault(
                evolved,
                with_sequence(scope, evolved.next_override_sequence),
            ) is None
        }),
{
    let tick = scope.tick;
    let count = state.sides.len();
    lemma_sides_fault(state.sides, 0, scope);
    assert forall|i: int| 0 <= i < state.sides.len() implies ((
    #[trigger] state.sides[i]).current_override matches Some(current) ==> override_valid(
        current,
        with_sequence(scope, state.next_override_sequence),
    )) by {
        assert(side_fault(state.sides[i], i, scope) is None);
    }
    assert(with_sequence(scope, state.next_override_sequence) == scope);
    lemma_evolved_events(state, country_to_side, tick, count, scope);
    lemma_overrides_evolved(state, country_to_side, tick, count);
    let folded = overrides_evolved(state, country_to_side, tick, count);
    let evolved = evolved_operations(state, country_to_side, tick);
    let later = with_sequence(scope, evolved.next_override_sequence);
    assert forall|i: int| 0 <= i < evolved.sides.len() implies #[trigger] side_fault(
        evolved.sides[i],
        i,
        later,
    ) is None by {
        assert(side_fault(state.sides[i], i, scope) is None);
        let side = evolved.sides[i];
        assert(folded.sides[i] == side);
        assert(observer_valid(side, i, later));
        assert forall|at: int| 0 <= at < side.intel.contacts.len() implies #[trigger] contact_valid(
            side,
            at,
            later,
        ) by {
            assert(contact_valid(state.sides[i], at, scope));
        }
    }
    lemma_sides_fault(evolved.sides, 0, later);
    lemma_forces_scope(evolved.task_forces, 0, scope, later);
    assert forall|at: int|
        0 <= at < evolved.country_desperation.len() implies #[trigger] desperation_valid(
        evolved.country_desperation,
        at,
        later,
    ) by {
        assert(desperation_valid(state.country_desperation, at, scope));
    }
    assert forall|at: int| 0 <= at < evolved.override_events.len() implies #[trigger] event_valid(
        evolved.override_events,
        at,
        later,
    ) by {
        let dropped = folded.override_events.len() - evolved.override_events.len();
        assert(event_valid(folded.override_events, at + dropped, later));
        assert(evolved.override_events[at] == folded.override_events[at + dropped]);
        if at > 0 {
            assert(evolved.override_events[at - 1] == folded.override_events[at - 1 + dropped]);
        }
    }
}

proof fn lemma_aged_contacts(
    results: Map<Operation, u64>,
    contacts: Seq<ContactModel>,
    config: OperationalIntelConfig,
    tick: u64,
    count: nat,
)
    requires
        count <= contacts.len(),
    ensures
        forall|i: int|
            0 <= i < aged_contacts(results, contacts, config, tick, count).len() ==> {
                let contact = #[trigger] aged_contacts(results, contacts, config, tick, count)[i];
                &&& contact.age_ticks == gap(tick, contact.observed_tick)
                &&& contact.age_ticks <= config.expire_ticks
                &&& contact.status == intel_status(contact.age_ticks, config)
            },
    decreases count,
{
    if count > 0 {
        lemma_aged_contacts(results, contacts, config, tick, (count - 1) as nat);
    }
}

pub proof fn lemma_text_order()
    ensures
        forall|a: ContactModel, b: ContactModel| #[trigger]
            contact_order()(a, b) ==> !contact_order()(b, a),
        forall|a: ContactModel, b: ContactModel, c: ContactModel|
            #![trigger contact_order()(b, a), contact_order()(c, b)]
            !contact_order()(b, a) && !contact_order()(c, b) ==> !contact_order()(c, a),
{
    assert forall|a: ContactModel, b: ContactModel| #[trigger]
        contact_order()(a, b) implies !contact_order()(b, a) by {
        text_order_is_strict_and_total(a.key, b.key, a.key);
        text_order_is_strict_and_total(a.key, b.key, b.key);
    }
    assert forall|a: ContactModel, b: ContactModel, c: ContactModel|
        #![trigger contact_order()(b, a), contact_order()(c, b)]
        !contact_order()(b, a) && !contact_order()(c, b) implies !contact_order()(c, a) by {
        text_order_is_strict_and_total(a.key, b.key, c.key);
        text_order_is_strict_and_total(b.key, c.key, a.key);
        text_order_is_strict_and_total(c.key, a.key, b.key);
        text_order_is_strict_and_total(c.key, b.key, a.key);
    }
}

/// What is left of a side's knowledge after a tick has not expired, bears its exact age and
/// status, and stands in the order of its keys.
pub proof fn aged_contacts_are_current(
    results: Map<Operation, u64>,
    side: SideModel,
    tick: u64,
)
    ensures
        ({
            let contacts = aged_side(results, side, tick).intel.contacts;
            &&& in_order(contacts, contact_order())
            &&& forall|i: int|
                0 <= i < contacts.len() ==> {
                    let contact = #[trigger] contacts[i];
                    &&& contact.age_ticks == gap(tick, contact.observed_tick)
                    &&& contact.age_ticks <= side.intel.config.expire_ticks
                    &&& contact.status == intel_status(contact.age_ticks, side.intel.config)
                }
        }),
{
    let config = side.intel.config;
    let kept = aged_contacts(
        results,
        side.intel.contacts,
        config,
        tick,
        side.intel.contacts.len(),
    );
    lemma_aged_contacts(results, side.intel.contacts, config, tick, side.intel.contacts.len());
    lemma_text_order();
    stable_sort_orders(kept, contact_order());
    let contacts = aged_side(results, side, tick).intel.contacts;
    assert forall|i: int| 0 <= i < contacts.len() implies {
        let contact = #[trigger] contacts[i];
        &&& contact.age_ticks == gap(tick, contact.observed_tick)
        &&& contact.age_ticks <= config.expire_ticks
        &&& contact.status == intel_status(contact.age_ticks, config)
    } by {
        lemma_permutation_contains(contacts, kept);
        assert(contacts.contains(contacts[i]));
        assert(kept.contains(contacts[i]));
        let k = choose|k: int| 0 <= k < kept.len() && kept[k] == contacts[i];
        assert(kept[k] == contacts[i]);
    }
}

/// Contacts of different formations have different keys.
pub proof fn contact_keys_identify(
    first_enemy: usize,
    first_unit: u64,
    second_enemy: usize,
    second_unit: u64,
)
    requires
        contact_key(first_enemy, first_unit) == contact_key(second_enemy, second_unit),
    ensures
        first_enemy == second_enemy,
        first_unit == second_unit,
{
    reveal_strlit("native:");
    reveal_strlit(":");
    let prefix = "native:"@;
    let a = decimal(first_enemy as nat);
    let b = decimal(second_enemy as nat);
    let c = decimal(first_unit as nat);
    let d = decimal(second_unit as nat);
    lemma_decimal_digits(first_enemy as nat);
    lemma_decimal_digits(second_enemy as nat);
    let first = contact_key(first_enemy, first_unit);
    let second = contact_key(second_enemy, second_unit);
    assert(first[prefix.len() + a.len() as int] == ':');
    assert(second[prefix.len() + b.len() as int] == ':');
    if a.len() < b.len() {
        assert(second[prefix.len() + a.len() as int] == b[a.len() as int]);
        assert(is_digit(b[a.len() as int]));
    }
    if b.len() < a.len() {
        assert(first[prefix.len() + b.len() as int] == a[b.len() as int]);
        assert(is_digit(a[b.len() as int]));
    }
    assert(a.len() == b.len());
    assert(first.subrange(prefix.len() as int, (prefix.len() + a.len()) as int) =~= a);
    assert(second.subrange(prefix.len() as int, (prefix.len() + a.len()) as int) =~= b);
    decimals_are_distinct(first_enemy as nat, second_enemy as nat);
    assert(first.skip((prefix.len() + a.len() + 1) as int) =~= c);
    assert(second.skip((prefix.len() + a.len() + 1) as int) =~= d);
    decimals_are_distinct(first_unit as nat, second_unit as nat);
}

} // verus!
