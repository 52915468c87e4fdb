//! Policies of formations: how they move, fight, obey and spread influence.

use std::collections::{BTreeMap, BTreeSet};
use vstd::prelude::*;
use crate::economy::CommandBand;
use crate::numbers::{N_0_003, N_0_04, N_0_45};
use crate::runtime::error::RuntimeError;
use crate::runtime::world::{StrategicState, TerritoryControl};
use crate::scalar::{real_of, Real, ONE_BITS};
use crate::scenario::positive;
use crate::tables::{country_members, ordered_countries};
use crate::units::{ResolvedCombatOrder, SimulationUnit};

verus! {

#[derive(Clone, Copy, Debug, PartialEq, Eq, Structural)]
pub struct ResolvedMovementModifiers {
    pub terrain_speed_multiplier: Real,
    pub speed_multiplier: Real,
    pub plan_speed_multiplier: Real,
    pub neutral_penalty: Real,
    pub push_readiness: Real,
}

/// Nothing helps or hinders movement.
pub open spec fn plain_movement() -> ResolvedMovementModifiers {
    ResolvedMovementModifiers {
        terrain_speed_multiplier: real_of(ONE_BITS),
        speed_multiplier: real_of(ONE_BITS),
        plan_speed_multiplier: real_of(ONE_BITS),
        neutral_penalty: real_of(ONE_BITS),
        push_readiness: real_of(ONE_BITS),
    }
}

impl Default for ResolvedMovementModifiers {
    fn default() -> (modifiers: Self)
        ensures
            modifiers == plain_movement(),
    {
        ResolvedMovementModifiers {
            terrain_speed_multiplier: Real::one(),
            speed_multiplier: Real::one(),
            plan_speed_multiplier: Real::one(),
            neutral_penalty: Real::one(),
            push_readiness: Real::one(),
        }
    }
}

/// What the planner is told of a formation that the combat kernel does not own.
#[derive(Clone, Copy, Debug, PartialEq, Eq, Structural)]
pub struct UnitAiPolicy {
    pub base_speed: Real,
    pub movement: ResolvedMovementModifiers,
    pub combat: ResolvedCombatOrder,
    pub is_reserve: bool,
    pub reinforcement_eligible: bool,
    pub encircled: bool,
    /// Until this tick the formation deploys and takes no place in a front.
    pub deploy_until_tick: u64,
    pub garrison_excluded: bool,
}

pub open spec fn standard_ai_policy() -> UnitAiPolicy {
    UnitAiPolicy {
        base_speed: real_of(N_0_003),
        movement: plain_movement(),
        combat: crate::units::neutral_combat_order(),
        is_reserve: false,
        reinforcement_eligible: false,
        encircled: false,
        deploy_until_tick: 0,
        garrison_excluded: false,
    }
}

impl Default for UnitAiPolicy {
    fn default() -> (policy: Self)
        ensures
            policy == standard_ai_policy(),
    {
        UnitAiPolicy {
            base_speed: Real::from_bits(N_0_003),
            movement: ResolvedMovementModifiers::default(),
            combat: ResolvedCombatOrder::default(),
            is_reserve: false,
            reinforcement_eligible: false,
            encircled: false,
            deploy_until_tick: 0,
            garrison_excluded: false,
        }
    }
}

/// Where a formation goes home to.
#[derive(Clone, Copy, Debug, PartialEq, Eq, Structural)]
pub struct CommandHomeTarget {
    pub cell: usize,
    pub lat: Real,
    pub lng: Real,
}

/// How far a formation obeys. It changes only with a pay cycle.
#[derive(Clone, Copy, Debug, PartialEq, Eq, Structural)]
pub struct UnitCommandPolicy {
    pub band: CommandBand,
    pub discipline: Real,
    pub refuses_offense: bool,
    pub return_home: bool,
    pub self_defense_only: bool,
    pub home_target: Option<CommandHomeTarget>,
    pub transition_cycle: u64,
}

pub open spec fn paid_command(discipline: Real) -> UnitCommandPolicy {
    UnitCommandPolicy {
        band: CommandBand::Paid,
        discipline,
        refuses_offense: false,
        return_home: false,
        self_defense_only: false,
        home_target: None,
        transition_cycle: 0,
    }
}

impl UnitCommandPolicy {
    /// A formation that is paid and obeys. The discipline comes from the command kernel.
    pub fn paid(discipline: Real) -> (policy: UnitCommandPolicy)
        ensures
            policy == paid_command(discipline),
    {
        UnitCommandPolicy {
            band: CommandBand::Paid,
            discipline,
            refuses_offense: false,
            return_home: false,
            self_defense_only: false,
            home_target: None,
            transition_cycle: 0,
        }
    }
}

/// How a formation spreads influence.
#[derive(Debug)]
pub struct UnitInfluencePolicy {
    pub radius: Real,
    pub delta: Real,
    pub concentration_bonus: Real,
    /// Seed of the noise over time. Without one, radius and delta stay as they are.
    pub browser_temporal_seed: Option<Real>,
    /// Whoever benefits; without one, the sovereign does.
    pub beneficiary: Option<u16>,
    pub owner_ally_country_ids: BTreeSet<u16>,
    pub protected_owner_ids: BTreeSet<u16>,
    pub rebel_de_jure: Option<u16>,
    pub credit_de_jure: Option<u16>,
    pub credit_de_jure_by_country: BTreeMap<u16, u16>,
    pub refuses_offense: bool,
}

/// What a [`UnitInfluencePolicy`] says.
pub ghost struct InfluenceModel {
    pub radius: Real,
    pub delta: Real,
    pub concentration_bonus: Real,
    pub browser_temporal_seed: Option<Real>,
    pub beneficiary: Option<u16>,
    pub owner_ally_country_ids: Set<u16>,
    pub protected_owner_ids: Set<u16>,
    pub rebel_de_jure: Option<u16>,
    pub credit_de_jure: Option<u16>,
    pub credit_de_jure_by_country: Map<u16, u16>,
    pub refuses_offense: bool,
}

impl View for UnitInfluencePolicy {
    type V = InfluenceModel;

    open spec fn view(&self) -> InfluenceModel {
        InfluenceModel {
            radius: self.radius,
            delta: self.delta,
            concentration_bonus: self.concentration_bonus,
            browser_temporal_seed: self.browser_temporal_seed,
            beneficiary: self.beneficiary,
            owner_ally_country_ids: self.owner_ally_country_ids@,
            protected_owner_ids: self.protected_owner_ids@,
            rebel_de_jure: self.rebel_de_jure,
            credit_de_jure: self.credit_de_jure,
            credit_de_jure_by_country: self.credit_de_jure_by_country@,
            refuses_offense: self.refuses_offense,
        }
    }
}

pub open spec fn standard_influence() -> InfluenceModel {
    InfluenceModel {
        radius: real_of(N_0_45),
        delta: real_of(N_0_04),
        concentration_bonus: real_of(ONE_BITS),
        browser_temporal_seed: None,
        beneficiary: None,
        owner_ally_country_ids: Set::empty(),
        protected_owner_ids: Set::empty(),
        rebel_de_jure: None,
        credit_de_jure: None,
        credit_de_jure_by_country: Map::empty(),
        refuses_offense: false,
    }
}

impl Default for UnitInfluencePolicy {
    fn default() -> (policy: Self)
        ensures
            policy@ == standard_influence(),
    {
        UnitInfluencePolicy {
            radius: Real::from_bits(N_0_45),
            delta: Real::from_bits(N_0_04),
            concentration_bonus: Real::one(),
            browser_temporal_seed: None,
            beneficiary: None,
            owner_ally_country_ids: BTreeSet::new(),
            protected_owner_ids: BTreeSet::new(),
            rebel_de_jure: None,
            credit_de_jure: None,
            credit_de_jure_by_country: BTreeMap::new(),
            refuses_offense: false,
        }
    }
}

impl Clone for UnitInfluencePolicy {
    fn clone(&self) -> (copy: Self)
        ensures
            copy@ == self@,
    {
        UnitInfluencePolicy {
            radius: self.radius,
            delta: self.delta,
            concentration_bonus: self.concentration_bonus,
            browser_temporal_seed: self.browser_temporal_seed,
            beneficiary: self.beneficiary,
            owner_ally_country_ids: self.owner_ally_country_ids.clone(),
            protected_owner_ids: self.protected_owner_ids.clone(),
            rebel_de_jure: self.rebel_de_jure,
            credit_de_jure: self.credit_de_jure,
            credit_de_jure_by_country: self.credit_de_jure_by_country.clone(),
            refuses_offense: self.refuses_offense,
        }
    }
}

/// Everything that the runtime knows of a formation beyond combat.
#[derive(Debug)]
pub struct RuntimeUnitPolicy {
    pub unit_id: u64,
    pub ai: UnitAiPolicy,
    pub command: UnitCommandPolicy,
    /// Without one, the formation never spreads influence.
    pub influence: Option<UnitInfluencePolicy>,
}

/// What a [`RuntimeUnitPolicy`] says.
pub ghost struct PolicyModel {
    pub unit_id: u64,
    pub ai: UnitAiPolicy,
    pub command: UnitCommandPolicy,
    pub influence: Option<InfluenceModel>,
}

impl View for RuntimeUnitPolicy {
    type V = PolicyModel;

    open spec fn view(&self) -> PolicyModel {
        PolicyModel {
            unit_id: self.unit_id,
            ai: self.ai,
            command: self.command,
            influence: match self.influence {
                Some(influence) => Some(influence@),
                None => None,
            },
        }
    }
}

impl Clone for RuntimeUnitPolicy {
    fn clone(&self) -> (copy: Self)
        ensures
            copy@ == self@,
    {
        RuntimeUnitPolicy {
            unit_id: self.unit_id,
            ai: self.ai,
            command: self.command,
            influence: match &self.influence {
                Some(influence) => Some(influence.clone()),
                None => None,
            },
        }
    }
}

/// The policy of a formation that nothing else is known of.
pub open spec fn standard_policy(unit_id: u64, sovereign: u16, discipline: Real) -> PolicyModel {
    PolicyModel {
        unit_id,
        ai: standard_ai_policy(),
        command: paid_command(discipline),
        influence: Some(
            InfluenceModel {
                owner_ally_country_ids: Set::empty().insert(sovereign),
                ..standard_influence()
            },
        ),
    }
}

impl RuntimeUnitPolicy {
    pub fn standard(unit_id: u64, sovereign: u16, discipline: Real) -> (policy: RuntimeUnitPolicy)
        ensures
            policy@ == standard_policy(unit_id, sovereign, discipline),
            policy.influence is Some,
    {
        broadcast use vstd::std_specs::btree::group_btree_axioms;

        let mut influence = UnitInfluencePolicy::default();
        influence.owner_ally_country_ids.insert(sovereign);
        RuntimeUnitPolicy {
            unit_id,
            ai: UnitAiPolicy::default(),
            command: UnitCommandPolicy::paid(discipline),
            influence: Some(influence),
        }
    }
}

/// Whether a formation is still deploying.
pub open spec fn deploying(policy: PolicyModel, tick: u64) -> bool {
    policy.ai.deploy_until_tick > 0 && tick <= policy.ai.deploy_until_tick
}

pub fn unit_deploying(policy: &RuntimeUnitPolicy, tick: u64) -> (answer: bool)
    ensures
        answer == deploying(policy@, tick),
{
    policy.ai.deploy_until_tick > 0 && tick <= policy.ai.deploy_until_tick
}

/// The policies of all formations.
pub type Policies = Map<u64, PolicyModel>;

/// What a table of policies says.
pub open spec fn policies_view(policies: Map<u64, RuntimeUnitPolicy>) -> Policies {
    policies.map_values(|policy: RuntimeUnitPolicy| policy@)
}

/// A copy of every policy.
pub fn copy_policies(policies: &BTreeMap<u64, RuntimeUnitPolicy>) -> (copy: BTreeMap<
    u64,
    RuntimeUnitPolicy,
>)
    ensures
        policies_view(copy@) == policies_view(policies@),
{
    broadcast use vstd::std_specs::btree::group_btree_axioms;

    let keys = crate::tables::formation_keys(policies);
    let mut copy: BTreeMap<u64, RuntimeUnitPolicy> = BTreeMap::new();
    let mut at: usize = 0;
    while at < keys.len()
        invariant
            at <= keys@.len(),
            keys@.to_set() == policies@.dom(),
            forall|key: u64|
                #[trigger] copy@.contains_key(key) == keys@.take(at as int).contains(key),
            forall|key: u64|
                #[trigger] copy@.contains_key(key) ==> policies@.contains_key(key) && copy@[key]@
                    == policies@[key]@,
        decreases keys@.len() - at,
    {
        broadcast use vstd::std_specs::btree::group_btree_axioms;

        let key: u64 = keys[at];
        assert(keys@.to_set().contains(key));
        let policy = policies.get(&key).unwrap().clone();
        let ghost before = copy@;
        copy.insert(key, policy);
        proof {
            assert(keys@.take(at + 1) =~= keys@.take(at as int).push(key));
            assert forall|other: u64| #[trigger] copy@.contains_key(other) == keys@.take(
                at + 1,
            ).contains(other) by {
                crate::order::lemma_push_contains(keys@.take(at as int), key, other);
                assert(before.contains_key(other) == keys@.take(at as int).contains(other));
            }
            assert forall|other: u64| #[trigger] copy@.contains_key(other) implies policies@
                .contains_key(other) && copy@[other]@ == policies@[other]@ by {
                if other != key {
                    assert(before.contains_key(other));
                }
            }
        }
        at = at + 1;
    }
    proof {
        assert(keys@.take(keys@.len() as int) =~= keys@);
        assert forall|key: u64| policies_view(copy@).contains_key(key) == policies_view(
            policies@,
        ).contains_key(key) by {
            assert(copy@.contains_key(key) == keys@.contains(key));
            assert(keys@.to_set().contains(key) == policies@.dom().contains(key));
        }
        assert(policies_view(copy@) =~= policies_view(policies@));
    }
    copy
}

/// The share of formations that refuse to attack, by how they are paid.
#[derive(Clone, Copy, Debug, PartialEq, Eq, Structural)]
pub struct RefusalShares {
    pub paid: Real,
    pub unpaid: Real,
    pub breakdown: Real,
    pub mutiny: Real,
}

impl RefusalShares {
    pub open spec fn of_band(self, band: CommandBand) -> Real {
        match band {
            CommandBand::Paid => self.paid,
            CommandBand::Unpaid => self.unpaid,
            CommandBand::Breakdown => self.breakdown,
            CommandBand::Mutiny => self.mutiny,
        }
    }

    pub fn share(self, band: CommandBand) -> (share: Real)
        ensures
            share == self.of_band(band),
    {
        match band {
            CommandBand::Paid => self.paid,
            CommandBand::Unpaid => self.unpaid,
            CommandBand::Breakdown => self.breakdown,
            CommandBand::Mutiny => self.mutiny,
        }
    }
}

pub open spec fn ai_policy_valid(ai: UnitAiPolicy) -> bool {
    &&& ai.base_speed.finite_nonnegative()
    &&& ai.movement.terrain_speed_multiplier.finite_nonnegative()
    &&& ai.movement.speed_multiplier.finite_nonnegative()
    &&& ai.movement.plan_speed_multiplier.finite_nonnegative()
    &&& ai.movement.neutral_penalty.finite_nonnegative()
    &&& ai.movement.push_readiness.finite_nonnegative()
    &&& ai.combat.dealt_multiplier.finite_nonnegative()
    &&& ai.combat.taken_multiplier.finite_nonnegative()
    &&& ai.combat.defense_bonus.finite_nonnegative()
    &&& ai.combat.long_war_defense.finite_nonnegative()
}

/// A command policy that follows from its band and discipline.
pub open spec fn command_policy_valid(
    command: UnitCommandPolicy,
    cells: int,
    shares: RefusalShares,
) -> bool {
    &&& command.discipline.finite()
    &&& real_of(0).le(command.discipline)
    &&& command.discipline.lt(real_of(ONE_BITS))
    &&& command.refuses_offense == command.discipline.lt(shares.of_band(command.band))
    &&& command.return_home == (command.band is Breakdown || command.band is Mutiny)
    &&& command.self_defense_only == (command.band is Mutiny)
    &&& command.home_target matches Some(target) ==> command.return_home && target.cell < cells
        && target.lat.finite() && target.lng.finite()
}

pub open spec fn known_country(country: u16, country_to_side: Map<u16, usize>) -> bool {
    country != 0 && country_to_side.contains_key(country)
}

pub open spec fn optional_country_known(
    country: Option<u16>,
    country_to_side: Map<u16, usize>,
) -> bool {
    country matches Some(id) ==> known_country(id, country_to_side)
}

pub open spec fn all_known(countries: Set<u16>, country_to_side: Map<u16, usize>) -> bool {
    forall|country: u16| #[trigger]
        countries.contains(country) ==> known_country(country, country_to_side)
}

pub open spec fn table_known(table: Map<u16, u16>, country_to_side: Map<u16, usize>) -> bool {
    forall|country: u16| #[trigger]
        table.contains_key(country) ==> known_country(country, country_to_side) && known_country(
            table[country],
            country_to_side,
        )
}

pub open spec fn influence_policy_valid(
    influence: InfluenceModel,
    command: UnitCommandPolicy,
    country_to_side: Map<u16, usize>,
) -> bool {
    &&& positive(influence.radius)
    &&& influence.delta.finite_nonnegative()
    &&& influence.concentration_bonus.finite_nonnegative()
    &&& influence.browser_temporal_seed matches Some(seed) ==> seed.finite()
    &&& influence.refuses_offense == command.refuses_offense
    &&& optional_country_known(influence.beneficiary, country_to_side)
    &&& all_known(influence.owner_ally_country_ids, country_to_side)
    &&& all_known(influence.protected_owner_ids, country_to_side)
    &&& optional_country_known(influence.rebel_de_jure, country_to_side)
    &&& optional_country_known(influence.credit_de_jure, country_to_side)
    &&& table_known(influence.credit_de_jure_by_country, country_to_side)
}

/// A policy that a formation can act on.
pub open spec fn policy_valid(
    policy: PolicyModel,
    territory: TerritoryControl,
    shares: RefusalShares,
) -> bool {
    &&& ai_policy_valid(policy.ai)
    &&& command_policy_valid(policy.command, territory.grid.area(), shares)
    &&& policy.influence matches Some(influence) ==> influence_policy_valid(
        influence,
        policy.command,
        territory.country_to_side@,
    )
}

fn is_known_country(country: u16, country_to_side: &BTreeMap<u16, usize>) -> (answer: bool)
    ensures
        answer == known_country(country, country_to_side@),
{
    broadcast use vstd::std_specs::btree::group_btree_axioms;

    country != 0 && country_to_side.contains_key(&country)
}

fn is_optional_country_known(
    country: Option<u16>,
    country_to_side: &BTreeMap<u16, usize>,
) -> (answer: bool)
    ensures
        answer == optional_country_known(country, country_to_side@),
{
    match country {
        Some(id) => is_known_country(id, country_to_side),
        None => true,
    }
}

fn are_all_known(countries: &Vec<u16>, country_to_side: &BTreeMap<u16, usize>) -> (answer: bool)
    ensures
        answer == (forall|i: int|
            0 <= i < countries@.len() ==> known_country(
                #[trigger] countries@[i],
                country_to_side@,
            )),
{
    let mut at: usize = 0;
    while at < countries.len()
        invariant
            at <= countries@.len(),
            forall|i: int|
                0 <= i < at ==> known_country(#[trigger] countries@[i], country_to_side@),
        decreases countries@.len() - at,
    {
        if !is_known_country(countries[at], country_to_side) {
            assert(!known_country(countries@[at as int], country_to_side@));
            return false;
        }
        at = at + 1;
    }
    true
}

fn is_known_set(countries: &BTreeSet<u16>, country_to_side: &BTreeMap<u16, usize>) -> (answer:
    bool)
    ensures
        answer == all_known(countries@, country_to_side@),
{
    let members = country_members(countries);
    let answer = are_all_known(&members, country_to_side);
    proof {
        if answer {
            assert forall|country: u16| #[trigger] countries@.contains(country) implies
                known_country(country, country_to_side@) by {
                assert(members@.contains(country));
                let i = choose|i: int| 0 <= i < members@.len() && members@[i] == country;
                assert(known_country(members@[i], country_to_side@));
            }
        } else {
            let i = choose|i: int|
                0 <= i < members@.len() && !known_country(
                    #[trigger] members@[i],
                    country_to_side@,
                );
            assert(members@.contains(members@[i]));
            assert(countries@.contains(members@[i]));
        }
    }
    answer
}

fn is_known_table(table: &BTreeMap<u16, u16>, country_to_side: &BTreeMap<u16, usize>) -> (answer:
    bool)
    ensures
        answer == table_known(table@, country_to_side@),
{
    broadcast use vstd::std_specs::btree::group_btree_axioms;

    let keys = ordered_countries(table);
    let mut at: usize = 0;
    while at < keys.len()
        invariant
            at <= keys@.len(),
            forall|i: int| 0 <= i < keys@.len() ==> table@.contains_key(#[trigger] keys@[i]),
            forall|key: u16| #[trigger] table@.contains_key(key) ==> keys@.contains(key),
            forall|i: int|
                0 <= i < at ==> known_country(#[trigger] keys@[i], country_to_side@)
                    && known_country(table@[keys@[i]], country_to_side@),
        decreases keys@.len() - at,
    {
        broadcast use vstd::std_specs::btree::group_btree_axioms;

        let key: u16 = keys[at];
        let value: u16 = *table.get(&key).unwrap();
        if !is_known_country(key, country_to_side) || !is_known_country(value, country_to_side) {
            assert(table@.contains_key(key));
            return false;
        }
        at = at + 1;
    }
    proof {
        assert forall|country: u16| #[trigger] table@.contains_key(country) implies known_country(
            country,
            country_to_side@,
        ) && known_country(table@[country], country_to_side@) by {
            assert(keys@.contains(country));
            let i = choose|i: int| 0 <= i < keys@.len() && keys@[i] == country;
            assert(known_country(keys@[i], country_to_side@));
        }
    }
    true
}

fn is_command_valid(command: UnitCommandPolicy, cells: usize, shares: RefusalShares) -> (answer:
    bool)
    ensures
        answer == command_policy_valid(command, cells as int, shares),
{
    let refusal = command.discipline.less(shares.share(command.band));
    let homeward = command.band == CommandBand::Breakdown || command.band == CommandBand::Mutiny;
    if !command.discipline.is_finite() || !Real::zero().at_most(command.discipline)
        || !command.discipline.less(Real::one()) || command.refuses_offense != refusal
        || command.return_home != homeward || command.self_defense_only != (command.band
        == CommandBand::Mutiny) {
        return false;
    }
    match command.home_target {
        Some(target) => command.return_home && target.cell < cells && target.lat.is_finite()
            && target.lng.is_finite(),
        None => true,
    }
}

fn is_influence_valid(
    influence: &UnitInfluencePolicy,
    command: UnitCommandPolicy,
    country_to_side: &BTreeMap<u16, usize>,
) -> (answer: bool)
    ensures
        answer == influence_policy_valid(influence@, command, country_to_side@),
{
    let seeded = match influence.browser_temporal_seed {
        Some(seed) => seed.is_finite(),
        None => true,
    };
    crate::scenario::is_positive(influence.radius) && influence.delta.is_finite_nonnegative()
        && influence.concentration_bonus.is_finite_nonnegative() && seeded
        && influence.refuses_offense == command.refuses_offense && is_optional_country_known(
        influence.beneficiary,
        country_to_side,
    ) && is_known_set(&influence.owner_ally_country_ids, country_to_side) && is_known_set(
        &influence.protected_owner_ids,
        country_to_side,
    ) && is_optional_country_known(influence.rebel_de_jure, country_to_side)
        && is_optional_country_known(influence.credit_de_jure, country_to_side) && is_known_table(
        &influence.credit_de_jure_by_country,
        country_to_side,
    )
}

pub fn validate_unit_policy(
    policy: &RuntimeUnitPolicy,
    territory: &TerritoryControl,
    shares: RefusalShares,
) -> (verdict: Result<(), RuntimeError>)
    requires
        territory.well_formed(),
    ensures
        verdict is Ok <==> policy_valid(policy@, *territory, shares),
        verdict matches Err(error) ==> error == RuntimeError::InvalidUnitPolicy(policy.unit_id),
{
    let ai = policy.ai;
    if !ai.base_speed.is_finite_nonnegative()
        || !ai.movement.terrain_speed_multiplier.is_finite_nonnegative()
        || !ai.movement.speed_multiplier.is_finite_nonnegative()
        || !ai.movement.plan_speed_multiplier.is_finite_nonnegative()
        || !ai.movement.neutral_penalty.is_finite_nonnegative()
        || !ai.movement.push_readiness.is_finite_nonnegative()
        || !ai.combat.dealt_multiplier.is_finite_nonnegative()
        || !ai.combat.taken_multiplier.is_finite_nonnegative()
        || !ai.combat.defense_bonus.is_finite_nonnegative()
        || !ai.combat.long_war_defense.is_finite_nonnegative() {
        return Err(RuntimeError::InvalidUnitPolicy(policy.unit_id));
    }
    if !is_command_valid(policy.command, territory.total_cells(), shares) {
        return Err(RuntimeError::InvalidUnitPolicy(policy.unit_id));
    }
    if let Some(influence) = &policy.influence {
        if !is_influence_valid(influence, policy.command, &territory.country_to_side) {
            return Err(RuntimeError::InvalidUnitPolicy(policy.unit_id));
        }
    }
    Ok(())
}

/// The last policy for each formation among the first ones.
pub open spec fn policy_table(policies: Seq<PolicyModel>, count: nat) -> Policies
    decreases count,
{
    if count == 0 {
        Map::empty()
    } else {
        policy_table(policies, (count - 1) as nat).insert(
            policies[count - 1].unit_id,
            policies[count - 1],
        )
    }
}

/// The first formation that has two policies.
pub open spec fn repeated_policy(policies: Seq<PolicyModel>, from: int) -> Option<u64>
    decreases policies.len() - from,
{
    if from < 0 || from >= policies.len() {
        None
    } else if policy_table(policies, from as nat).contains_key(policies[from].unit_id) {
        Some(policies[from].unit_id)
    } else {
        repeated_policy(policies, from + 1)
    }
}

/// What is wrong with the policy of one formation.
pub open spec fn formation_policy_fault(
    unit: SimulationUnit,
    policies: Policies,
    territory: TerritoryControl,
    shares: RefusalShares,
) -> Option<RuntimeError> {
    let country = unit.combat.sovereign as u16;
    if !policies.contains_key(unit.combat.id) {
        Some(RuntimeError::InvalidUnitPolicy(unit.combat.id))
    } else if unit.combat.sovereign == 0 || unit.combat.sovereign > u16::MAX {
        Some(RuntimeError::InvalidCheckpoint("invalid unit sovereign"))
    } else if !territory.country_to_side@.contains_key(country)
        || territory.country_to_side@[country] != unit.combat.side {
        Some(RuntimeError::InvalidCheckpoint("unit sovereign and side mapping disagree"))
    } else if !policy_valid(policies[unit.combat.id], territory, shares) {
        Some(RuntimeError::InvalidUnitPolicy(policies[unit.combat.id].unit_id))
    } else {
        None
    }
}

/// What is wrong with the policy of the first faulty formation.
pub open spec fn formation_policies_fault(
    units: Seq<SimulationUnit>,
    policies: Policies,
    territory: TerritoryControl,
    shares: RefusalShares,
    from: int,
) -> Option<RuntimeError>
    decreases units.len() - from,
{
    if from < 0 || from >= units.len() {
        None
    } else if formation_policy_fault(units[from], policies, territory, shares) is Some {
        formation_policy_fault(units[from], policies, territory, shares)
    } else {
        formation_policies_fault(units, policies, territory, shares, from + 1)
    }
}

/// What is wrong with a set of policies: one each, one for every formation, and all valid.
pub open spec fn policies_fault(
    units: Seq<SimulationUnit>,
    policies: Seq<PolicyModel>,
    territory: TerritoryControl,
    shares: RefusalShares,
) -> Option<RuntimeError> {
    let table = policy_table(policies, policies.len());
    if repeated_policy(policies, 0) is Some {
        Some(RuntimeError::InvalidUnitPolicy(repeated_policy(policies, 0)->Some_0))
    } else if policies.len() != units.len() {
        Some(RuntimeError::InvalidCheckpoint("unit policy count differs from live unit count"))
    } else {
        formation_policies_fault(units, table, territory, shares, 0)
    }
}

/// Gather the policies of all formations.
pub fn collect_unit_policies(
    units: &Vec<SimulationUnit>,
    policies: Vec<RuntimeUnitPolicy>,
    territory: &TerritoryControl,
    shares: RefusalShares,
) -> (outcome: Result<BTreeMap<u64, RuntimeUnitPolicy>, RuntimeError>)
    requires
        territory.well_formed(),
    ensures
        match outcome {
            Ok(table) => policies_fault(
                units@,
                crate::views::views(policies@),
                *territory,
                shares,
            ) is None && policies_view(table@) == policy_table(
                crate::views::views(policies@),
                policies@.len(),
            ),
            Err(error) => policies_fault(
                units@,
                crate::views::views(policies@),
                *territory,
                shares,
            ) == Some(error),
        },
{
    broadcast use vstd::std_specs::btree::group_btree_axioms;

    let ghost whole = policies@;
    let ghost models = crate::views::views(policies@);
    let count: usize = policies.len();
    let mut table: BTreeMap<u64, RuntimeUnitPolicy> = BTreeMap::new();
    proof {
        assert(policies_view(table@) =~= policy_table(models, 0));
    }
    for policy in it: policies
        invariant
            it.seq() == whole,
            whole.len() == models.len(),
            models == crate::views::views(whole),
            policies_view(table@) == policy_table(models, it.index() as nat),
            repeated_policy(models, 0) == repeated_policy(models, it.index()),
    {
        broadcast use vstd::std_specs::btree::group_btree_axioms;

        let ghost at = it.index();
        let id: u64 = policy.unit_id;
        assert(models[at] == policy@);
        assert(policies_view(table@).contains_key(id) == table@.contains_key(id));
        if table.contains_key(&id) {
            return Err(RuntimeError::InvalidUnitPolicy(id));
        }
        let ghost before = table@;
        table.insert(id, policy);
        assert(policies_view(table@) =~= policies_view(before).insert(id, models[at]));
    }
    if count != units.len() {
        return Err(
            RuntimeError::InvalidCheckpoint("unit policy count differs from live unit count"),
        );
    }
    let ghost shown = policies_view(table@);
    let mut at: usize = 0;
    while at < units.len()
        invariant
            at <= units@.len(),
            territory.well_formed(),
            shown == policies_view(table@),
            models == crate::views::views(whole),
            whole == policies@,
            whole.len() == models.len(),
            models.len() == units@.len(),
            shown == policy_table(models, models.len()),
            repeated_policy(models, 0) is None,
            formation_policies_fault(units@, shown, *territory, shares, 0)
                == formation_policies_fault(units@, shown, *territory, shares, at as int),
        decreases units@.len() - at,
    {
        broadcast use vstd::std_specs::btree::group_btree_axioms;

        let unit = units[at];
        assert(shown.contains_key(unit.combat.id) == table@.contains_key(unit.combat.id));
        let policy = match table.get(&unit.combat.id) {
            Some(policy) => policy,
            None => {
                return Err(RuntimeError::InvalidUnitPolicy(unit.combat.id));
            },
        };
        if unit.combat.sovereign == 0 || unit.combat.sovereign > 0xffff {
            return Err(RuntimeError::InvalidCheckpoint("invalid unit sovereign"));
        }
        let country: u16 = unit.combat.sovereign as u16;
        let agrees = match territory.country_to_side.get(&country) {
            Some(side) => *side as u64 == unit.combat.side,
            None => false,
        };
        if !agrees {
            return Err(
                RuntimeError::InvalidCheckpoint("unit sovereign and side mapping disagree"),
            );
        }
        if let Err(error) = validate_unit_policy(policy, territory, shares) {
            return Err(error);
        }
        at = at + 1;
    }
    Ok(table)
}

/// What is wrong with the first formation whose policy is out of step with its economy.
pub open spec fn command_fault(
    units: Seq<SimulationUnit>,
    policies: Policies,
    strategic: StrategicState,
    from: int,
) -> Option<RuntimeError>
    decreases units.len() - from,
{
    if from < 0 || from >= units.len() {
        None
    } else {
        let unit = units[from];
        let country = unit.combat.sovereign as u16;
        if unit.combat.sovereign > u16::MAX {
            Some(RuntimeError::InvalidCheckpoint("invalid unit sovereign"))
        } else if !policies.contains_key(unit.combat.id) {
            Some(RuntimeError::InvalidUnitPolicy(unit.combat.id))
        } else if !strategic.economies@.contains_key(country) {
            Some(RuntimeError::InvalidCheckpoint("unit country has no strategic economy"))
        } else if policies[unit.combat.id].command.band
            != strategic.economies@[country].command_band
            || policies[unit.combat.id].command.transition_cycle > strategic.cycle {
            Some(RuntimeError::InvalidUnitPolicy(unit.combat.id))
        } else {
            command_fault(units, policies, strategic, from + 1)
        }
    }
}

pub fn validate_command_checkpoint(
    units: &Vec<SimulationUnit>,
    policies: &BTreeMap<u64, RuntimeUnitPolicy>,
    strategic: &StrategicState,
) -> (verdict: Result<(), RuntimeError>)
    ensures
        verdict is Ok <==> command_fault(
            units@,
            policies_view(policies@),
            *strategic,
            0,
        ) is None,
        verdict matches Err(error) ==> command_fault(
            units@,
            policies_view(policies@),
            *strategic,
            0,
        ) == Some(error),
{
    broadcast use vstd::std_specs::btree::group_btree_axioms;

    let ghost shown = policies_view(policies@);
    let mut at: usize = 0;
    while at < units.len()
        invariant
            at <= units@.len(),
            shown == policies_view(policies@),
            command_fault(units@, shown, *strategic, 0) == command_fault(
                units@,
                shown,
                *strategic,
                at as int,
            ),
        decreases units@.len() - at,
    {
        broadcast use vstd::std_specs::btree::group_btree_axioms;

        let unit = units[at];
        if unit.combat.sovereign > 0xffff {
            return Err(RuntimeError::InvalidCheckpoint("invalid unit sovereign"));
        }
        let country: u16 = unit.combat.sovereign as u16;
        assert(shown.contains_key(unit.combat.id) == policies@.contains_key(unit.combat.id));
        let policy = match policies.get(&unit.combat.id) {
            Some(policy) => policy,
            None => {
                return Err(RuntimeError::InvalidUnitPolicy(unit.combat.id));
            },
        };
        let economy = match strategic.economies.get(&country) {
            Some(economy) => economy,
            None => {
                return Err(
                    RuntimeError::InvalidCheckpoint("unit country has no strategic economy"),
                );
            },
        };
        if policy.command.band != economy.command_band || policy.command.transition_cycle
            > strategic.cycle {
            return Err(RuntimeError::InvalidUnitPolicy(unit.combat.id));
        }
        at = at + 1;
    }
    Ok(())
}

} // verus!
