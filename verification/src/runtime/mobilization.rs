//! Mobilization: what newly raised armor is told when it enters the field.

use std::collections::{BTreeMap, BTreeSet};
use vstd::prelude::*;
use crate::economy::EconomyState;
use crate::numbers::N_1000;
use crate::order::strictly_sorted;
use crate::paycycle::MaterialPayCycleOutcome;
use crate::runtime::battlefield::{blank_memory, BattlefieldUnitState};
use crate::runtime::enlistment::{list_side_countries, side_countries};
use crate::runtime::error::RuntimeError;
use crate::runtime::planning::{
    band_changes, changed_commands, command_from, resolved_command, ResolvedCommandPolicy,
};
use crate::runtime::policy::{
    policies_view, standard_policy, InfluenceModel, Policies, PolicyModel, RuntimeUnitPolicy,
    UnitAiPolicy, UnitCommandPolicy,
};
use crate::runtime::recruitment::RECRUIT_DEPLOY_TICKS;
use crate::scalar::{real_of, Real};
use crate::tables::{ascending, ordered_countries};
use crate::units::SimulationUnit;
use crate::views::{lemma_views_push, views};
use crate::worksheet::{difference, integer, quotient, Operation, Reader};

verus! {

/// Command policies that a strategic cycle resolved.
#[derive(Debug)]
pub struct StagedCommandPolicies {
    pub cycle: u64,
    pub policies: BTreeMap<u64, ResolvedCommandPolicy>,
    pub changed_unit_ids: Vec<u64>,
}

/// Newly raised formations and what they are told.
#[derive(Debug)]
pub struct Mobilization {
    pub units: Vec<SimulationUnit>,
    pub policies: Vec<RuntimeUnitPolicy>,
    pub battlefield_units: BTreeMap<u64, BattlefieldUnitState>,
}

/// What a [`Mobilization`] says.
pub ghost struct MobilizationModel {
    pub units: Seq<SimulationUnit>,
    pub policies: Seq<PolicyModel>,
    pub battlefield_units: Map<u64, BattlefieldUnitState>,
}

impl View for Mobilization {
    type V = MobilizationModel;

    open spec fn view(&self) -> MobilizationModel {
        MobilizationModel {
            units: self.units@,
            policies: views(self.policies@),
            battlefield_units: self.battlefield_units@,
        }
    }
}

/// What [`StagedCommandPolicies`] resolve.
pub ghost struct CommandsModel {
    pub cycle: u64,
    pub resolved: Map<u64, ResolvedCommandPolicy>,
}

/// Everything that mobilization depends on.
pub ghost struct MobilizationScope {
    pub results: Map<Operation, u64>,
    pub tick: u64,
    pub created: Set<u64>,
    pub previous: Seq<SimulationUnit>,
    pub policies: Policies,
    pub country_to_side: Map<u16, usize>,
    pub disciplines: Map<u64, Real>,
    pub commands: Option<CommandsModel>,
}

/// The first formation of a country from a place on.
pub open spec fn first_of_country(
    units: Seq<SimulationUnit>,
    sovereign: u64,
    from: int,
) -> Option<u64>
    decreases units.len() - from,
{
    if from < 0 || from >= units.len() {
        None
    } else if units[from].combat.sovereign == sovereign {
        Some(units[from].combat.id)
    } else {
        first_of_country(units, sovereign, from + 1)
    }
}

/// How a new formation obeys: as the first formation of its country does or will, else as one that
/// is paid.
pub open spec fn inherited_command(
    scope: MobilizationScope,
    unit: SimulationUnit,
    paid: UnitCommandPolicy,
) -> UnitCommandPolicy {
    match first_of_country(scope.previous, unit.combat.sovereign, 0) {
        Some(source) => if !scope.policies.contains_key(source) {
            paid
        } else if scope.commands matches Some(staged) && staged.resolved.contains_key(source) {
            resolved_command(scope.commands->Some_0.resolved[source], scope.commands->Some_0.cycle)
        } else {
            scope.policies[source].command
        },
        None => paid,
    }
}

/// The policy of newly raised armor.
pub open spec fn armor_policy(scope: MobilizationScope, unit: SimulationUnit) -> PolicyModel {
    let id = unit.combat.id;
    let standard = standard_policy(id, unit.combat.sovereign as u16, scope.disciplines[id]);
    PolicyModel {
        unit_id: id,
        ai: UnitAiPolicy {
            deploy_until_tick: (scope.tick + RECRUIT_DEPLOY_TICKS) as u64,
            ..standard.ai
        },
        command: inherited_command(scope, unit, standard.command),
        influence: Some(
            InfluenceModel {
                browser_temporal_seed: Some(integer(scope.results, id)),
                owner_ally_country_ids: side_countries(
                    scope.country_to_side,
                    unit.combat.side as usize,
                ),
                ..standard.influence->0
            },
        ),
    }
}

/// The new ones among the first formations are told what they need.
pub open spec fn mobilized(
    scope: MobilizationScope,
    units: Seq<SimulationUnit>,
    count: nat,
) -> Result<MobilizationModel, RuntimeError>
    decreases count,
{
    if count == 0 {
        Ok(
            MobilizationModel {
                units: Seq::empty(),
                policies: Seq::empty(),
                battlefield_units: Map::empty(),
            },
        )
    } else {
        match mobilized(scope, units, (count - 1) as nat) {
            Err(error) => Err(error),
            Ok(rest) => {
                let unit = units[count - 1];
                let id = unit.combat.id;
                if !scope.created.contains(id) {
                    Ok(rest)
                } else if unit.combat.sovereign > u16::MAX {
                    Err(RuntimeError::InvalidCheckpoint("material unit sovereign exceeds u16"))
                } else if scope.tick + RECRUIT_DEPLOY_TICKS > u64::MAX {
                    Err(RuntimeError::ClockOverflow)
                } else {
                    Ok(
                        MobilizationModel {
                            units: rest.units.push(unit),
                            policies: rest.policies.push(armor_policy(scope, unit)),
                            battlefield_units: rest.battlefield_units.insert(
                                id,
                                BattlefieldUnitState {
                                    cohesion_seed: quotient(
                                        scope.results,
                                        integer(scope.results, (id % 4) as u64),
                                        real_of(N_1000),
                                    ),
                                    ..blank_memory()
                                },
                            ),
                        },
                    )
                }
            },
        }
    }
}

proof fn lemma_mobilized_fail(
    scope: MobilizationScope,
    units: Seq<SimulationUnit>,
    count: nat,
    whole: nat,
)
    requires
        count <= whole,
        mobilized(scope, units, count) is Err,
    ensures
        mobilized(scope, units, whole) == mobilized(scope, units, count),
    decreases whole,
{
    if count < whole {
        lemma_mobilized_fail(scope, units, count, (whole - 1) as nat);
    }
}

pub open spec fn commands_view(commands: Option<&StagedCommandPolicies>) -> Option<CommandsModel> {
    match commands {
        Some(staged) => Some(CommandsModel { cycle: staged.cycle, resolved: staged.policies@ }),
        None => None,
    }
}

fn find_first_of_country(units: &Vec<SimulationUnit>, sovereign: u64) -> (found: Option<u64>)
    ensures
        found == first_of_country(units@, sovereign, 0),
{
    let mut at: usize = 0;
    while at < units.len()
        invariant
            at <= units@.len(),
            first_of_country(units@, sovereign, 0) == first_of_country(
                units@,
                sovereign,
                at as int,
            ),
        decreases units@.len() - at,
    {
        if units[at].combat.sovereign == sovereign {
            return Some(units[at].combat.id);
        }
        at = at + 1;
    }
    None
}

/// Whether a worksheet holds all that mobilizing armor takes.
pub open spec fn mobilization_supplied(
    results: Map<Operation, u64>,
    units: Seq<SimulationUnit>,
    created: Set<u64>,
) -> bool {
    forall|k: int|
        0 <= k < units.len() && created.contains((#[trigger] units[k]).combat.id) ==> ({
            let id = units[k].combat.id;
            &&& results.contains_key(Operation::Integer(id))
            &&& results.contains_key(Operation::Integer(id % 4))
            &&& results.contains_key(
                Operation::Quotient(integer(results, id % 4), real_of(N_1000)),
            )
        })
}

/// Tells newly raised armor what it needs. Its discipline is the command kernel's; the formations
/// before the raising show how their country obeys.
pub fn mobilize_armor(
    units: &Vec<SimulationUnit>,
    created: &BTreeSet<u64>,
    previous: &Vec<SimulationUnit>,
    policies: &BTreeMap<u64, RuntimeUnitPolicy>,
    country_to_side: &BTreeMap<u16, usize>,
    disciplines: &BTreeMap<u64, Real>,
    commands: Option<&StagedCommandPolicies>,
    tick: u64,
    reader: &mut Reader<'_>,
) -> (outcome: Result<Mobilization, RuntimeError>)
    requires
        old(reader).sound(),
        forall|id: u64| #[trigger] created@.contains(id) ==> disciplines@.contains_key(id),
    ensures
        final(reader)@ == old(reader)@,
        final(reader).sound(),
        final(reader).complete() ==> old(reader).complete() && ({
            let expected = mobilized(
                MobilizationScope {
                    results: old(reader)@,
                    tick,
                    created: created@,
                    previous: previous@,
                    policies: policies_view(policies@),
                    country_to_side: country_to_side@,
                    disciplines: disciplines@,
                    commands: commands_view(commands),
                },
                units@,
                units@.len(),
            );
            match outcome {
                Ok(mobilization) => expected == Ok::<MobilizationModel, RuntimeError>(
                    mobilization@,
                ),
                Err(error) => expected == Err::<MobilizationModel, RuntimeError>(error),
            }
        }),
        old(reader).complete() && mobilization_supplied(old(reader)@, units@, created@) ==>
            final(reader).complete(),
{
    broadcast use vstd::std_specs::btree::group_btree_axioms;

    let ghost untouched = reader.complete();
    let ghost scope = MobilizationScope {
        results: reader@,
        tick,
        created: created@,
        previous: previous@,
        policies: policies_view(policies@),
        country_to_side: country_to_side@,
        disciplines: disciplines@,
        commands: commands_view(commands),
    };
    let mut mobilization = Mobilization {
        units: Vec::new(),
        policies: Vec::new(),
        battlefield_units: BTreeMap::new(),
    };
    assert(mobilization.units@ =~= Seq::<SimulationUnit>::empty());
    assert(views(mobilization.policies@) =~= Seq::<PolicyModel>::empty());
    let mut at: usize = 0;
    while at < units.len()
        invariant
            at <= units@.len(),
            forall|id: u64| #[trigger] created@.contains(id) ==> disciplines@.contains_key(id),
            untouched == old(reader).complete(),
            scope == (MobilizationScope {
                results: old(reader)@,
                tick,
                created: created@,
                previous: previous@,
                policies: policies_view(policies@),
                country_to_side: country_to_side@,
                disciplines: disciplines@,
                commands: commands_view(commands),
            }),
            reader@ == scope.results,
            reader.sound(),
            reader.complete() ==> untouched && mobilized(scope, units@, at as nat) == Ok::<
                MobilizationModel,
                RuntimeError,
            >(mobilization@),
            untouched && mobilization_supplied(scope.results, units@, created@) ==>
                reader.complete(),
        decreases units@.len() - at,
    {
        broadcast use vstd::std_specs::btree::group_btree_axioms;

        let unit = units[at];
        let id: u64 = unit.combat.id;
        if created.contains(&id) {
            if unit.combat.sovereign > 0xffff {
                proof {
                    if reader.complete() {
                        lemma_mobilized_fail(scope, units@, (at + 1) as nat, units@.len());
                    }
                }
                return Err(
                    RuntimeError::InvalidCheckpoint("material unit sovereign exceeds u16"),
                );
            }
            let deploy_until_tick: u64 = match tick.checked_add(RECRUIT_DEPLOY_TICKS) {
                Some(tick) => tick,
                None => {
                    proof {
                        if reader.complete() {
                            lemma_mobilized_fail(scope, units@, (at + 1) as nat, units@.len());
                        }
                    }
                    return Err(RuntimeError::ClockOverflow);
                },
            };
            let country: u16 = unit.combat.sovereign as u16;
            let discipline = *disciplines.get(&id).unwrap();
            let mut policy = RuntimeUnitPolicy::standard(id, country, discipline);
            policy.ai.deploy_until_tick = deploy_until_tick;
            let seed = reader.integer(id);
            let members = list_side_countries(country_to_side, unit.combat.side as usize);
            if let Some(influence) = &mut policy.influence {
                influence.browser_temporal_seed = Some(seed);
                influence.owner_ally_country_ids = members;
            }
            if let Some(source) = find_first_of_country(previous, unit.combat.sovereign) {
                assert(scope.policies.contains_key(source) == policies@.contains_key(source));
                if let Some(standing) = policies.get(&source) {
                    assert(scope.policies[source] == standing@);
                    policy.command = standing.command;
                    if let Some(staged) = commands {
                        if let Some(resolved) = staged.policies.get(&source) {
                            policy.command = command_from(*resolved, staged.cycle);
                        }
                    }
                }
            }
            let share = reader.integer(id % 4);
            let cohesion = reader.quotient(share, Real::from_bits(N_1000));
            let mut memory = BattlefieldUnitState::default();
            memory.cohesion_seed = cohesion;
            mobilization.battlefield_units.insert(id, memory);
            proof {
                lemma_views_push(mobilization.policies@, policy);
                if reader.complete() {
                    assert(policy@ == armor_policy(scope, unit));
                }
            }
            mobilization.policies.push(policy);
            mobilization.units.push(unit);
        }
        at = at + 1;
    }
    Ok(mobilization)
}

/// What was spent on maintenance by the first countries, as far as anything was.
pub open spec fn maintenance_of(
    results: Map<Operation, u64>,
    before: Map<u16, Real>,
    after: Map<u16, EconomyState>,
    keys: Seq<u16>,
    count: nat,
) -> Seq<(u16, Real)>
    decreases count,
{
    if count == 0 {
        Seq::empty()
    } else {
        let rest = maintenance_of(results, before, after, keys, (count - 1) as nat);
        let country = keys[count - 1];
        let spent = difference(
            results,
            before[country],
            after[country].treasury,
        );
        if real_of(0).lt(spent) {
            rest.push((country, spent))
        } else {
            rest
        }
    }
}

/// Whether a worksheet holds all that the costs of maintenance takes.
pub open spec fn maintenance_supplied(
    results: Map<Operation, u64>,
    before: Map<u16, Real>,
    after: Map<u16, EconomyState>,
    keys: Seq<u16>,
) -> bool {
    forall|k: int|
        0 <= k < keys.len() ==> results.contains_key(
            Operation::Difference(before[#[trigger] keys[k]], after[keys[k]].treasury),
        )
}

/// What was spent on maintenance, by country.
pub fn maintenance_costs(
    before: &BTreeMap<u16, Real>,
    after: &BTreeMap<u16, EconomyState>,
    reader: &mut Reader<'_>,
) -> (costs: Vec<(u16, Real)>)
    requires
        old(reader).sound(),
        forall|country: u16| #[trigger] after@.contains_key(country) ==> before@.contains_key(
            country,
        ),
    ensures
        final(reader)@ == old(reader)@,
        final(reader).sound(),
        final(reader).complete() ==> old(reader).complete() && ({
            let keys = ascending(after@.dom());
            costs@ == maintenance_of(old(reader)@, before@, after@, keys, keys.len())
        }),
        old(reader).complete() && maintenance_supplied(
            old(reader)@,
            before@,
            after@,
            ascending(after@.dom()),
        ) ==> final(reader).complete(),
{
    broadcast use vstd::std_specs::btree::group_btree_axioms;

    let ghost results = reader@;
    let ghost untouched = reader.complete();
    let keys = ordered_countries(after);
    let mut costs: Vec<(u16, Real)> = Vec::new();
    let mut at: usize = 0;
    while at < keys.len()
        invariant
            at <= keys@.len(),
            forall|i: int| 0 <= i < keys@.len() ==> after@.contains_key(#[trigger] keys@[i]),
            forall|country: u16| #[trigger] after@.contains_key(country) ==> before@.contains_key(
                country,
            ),
            reader@ == results,
            reader.sound(),
            reader.complete() ==> untouched && costs@ == maintenance_of(
                results,
                before@,
                after@,
                keys@,
                at as nat,
            ),
            untouched && maintenance_supplied(results, before@, after@, keys@) ==>
                reader.complete(),
        decreases keys@.len() - at,
    {
        broadcast use vstd::std_specs::btree::group_btree_axioms;

        let country: u16 = keys[at];
        assert(after@.contains_key(country));
        let had = *before.get(&country).unwrap();
        let has = after.get(&country).unwrap().treasury;
        let spent = reader.difference(had, has);
        if Real::zero().less(spent) {
            costs.push((country, spent));
        }
        at = at + 1;
    }
    costs
}

/// Whether a pay cycle raised an armored formation under an id.
pub open spec fn raised(outcome: MaterialPayCycleOutcome, id: u64) -> bool {
    exists|i: int|
        0 <= i < outcome.countries@.len() && (#[trigger] outcome.countries@[i])
            .armor_creation.created_unit_id == Some(id)
}

/// The armored formations that a pay cycle raised.
pub fn created_formations(outcome: &MaterialPayCycleOutcome) -> (created: BTreeSet<u64>)
    ensures
        forall|id: u64| #[trigger] created@.contains(id) <==> raised(*outcome, id),
{
    broadcast use vstd::std_specs::btree::group_btree_axioms;

    let mut created: BTreeSet<u64> = BTreeSet::new();
    let mut at: usize = 0;
    while at < outcome.countries.len()
        invariant
            at <= outcome.countries@.len(),
            forall|id: u64| #[trigger]
                created@.contains(id) <==> exists|i: int|
                    0 <= i < at && (#[trigger] outcome.countries@[i])
                        .armor_creation.created_unit_id == Some(id),
        decreases outcome.countries@.len() - at,
    {
        broadcast use vstd::std_specs::btree::group_btree_axioms;

        let ghost before = created@;
        let raised = outcome.countries[at].armor_creation.created_unit_id;
        if let Some(id) = raised {
            created.insert(id);
        }
        proof {
            assert forall|id: u64| #[trigger] created@.contains(id) <==> exists|i: int|
                0 <= i < at + 1 && (#[trigger] outcome.countries@[i])
                    .armor_creation.created_unit_id == Some(id) by {
                if before.contains(id) {
                    let i = choose|i: int|
                        0 <= i < at && (#[trigger] outcome.countries@[i])
                            .armor_creation.created_unit_id == Some(id);
                    assert(i < at + 1);
                }
                if raised == Some(id) {
                    assert(outcome.countries@[at as int].armor_creation.created_unit_id == Some(
                        id,
                    ));
                }
            }
        }
        at = at + 1;
    }
    created
}

/// Stages what a strategic cycle resolved: formations whose band changes are told at the commit.
pub fn stage_command_policies(
    cycle: u64,
    policies: &BTreeMap<u64, RuntimeUnitPolicy>,
    resolved: BTreeMap<u64, ResolvedCommandPolicy>,
) -> (staged: StagedCommandPolicies)
    ensures
        staged.cycle == cycle,
        staged.policies@ == resolved@,
        strictly_sorted(staged.changed_unit_ids@),
        forall|id: u64|
            #[trigger] staged.changed_unit_ids@.contains(id) == band_changes(
                policies_view(policies@),
                resolved@,
                id,
            ),
{
    let changed_unit_ids = changed_commands(policies, &resolved);
    StagedCommandPolicies { cycle, policies: resolved, changed_unit_ids }
}

} // verus!
