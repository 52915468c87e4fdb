//! Command: what the command kernel is told of formations and capitals, and where formations that
//! refuse to fight go home to.

use std::collections::BTreeMap;
use vstd::prelude::*;
use crate::economy::{CommandBand, EconomyState};
use crate::order::{collected, lemma_collected_fail};
use crate::production::ProductionCity;
use crate::runtime::error::RuntimeError;
use crate::runtime::planning::ResolvedCommandPolicy;
use crate::runtime::policy::{
    policies_view, CommandHomeTarget, Policies, PolicyModel, RuntimeUnitPolicy, UnitCommandPolicy,
};
use crate::runtime::world::TerritoryControl;
use crate::scalar::Real;
use crate::tables::{formation_keys, ordered_countries};
use crate::units::SimulationUnit;

verus! {

/// A formation as the command kernel sees it.
#[derive(Clone, Copy, Debug, PartialEq, Eq, Structural)]
pub struct CommandUnitState {
    pub id: u64,
    pub sovereign_id: u16,
    pub side: usize,
    pub discipline: Real,
}

pub open spec fn command_unit(
    units: Seq<SimulationUnit>,
    policies: Policies,
    at: int,
) -> Option<Result<CommandUnitState, RuntimeError>> {
    let unit = units[at].combat;
    if !policies.contains_key(unit.id) {
        Some(Err(RuntimeError::InvalidUnitPolicy(unit.id)))
    } else if unit.sovereign > u16::MAX {
        Some(Err(RuntimeError::InvalidCheckpoint("invalid unit sovereign")))
    } else {
        Some(
            Ok(
                CommandUnitState {
                    id: unit.id,
                    sovereign_id: unit.sovereign as u16,
                    side: unit.side as usize,
                    discipline: policies[unit.id].command.discipline,
                },
            ),
        )
    }
}

pub open spec fn command_units(units: Seq<SimulationUnit>, policies: Policies) -> spec_fn(
    int,
) -> Option<Result<CommandUnitState, RuntimeError>> {
    |at: int| command_unit(units, policies, at)
}

/// The formations as the command kernel sees them.
pub fn command_unit_states(
    units: &Vec<SimulationUnit>,
    policies: &BTreeMap<u64, RuntimeUnitPolicy>,
) -> (outcome: Result<Vec<CommandUnitState>, RuntimeError>)
    ensures
        ({
            let expected = collected(
                command_units(units@, policies_view(policies@)),
                units@.len(),
            );
            match outcome {
                Ok(states) => expected == Ok::<Seq<CommandUnitState>, RuntimeError>(states@),
                Err(error) => expected == Err::<Seq<CommandUnitState>, RuntimeError>(error),
            }
        }),
{
    broadcast use vstd::std_specs::btree::group_btree_axioms;

    let ghost known = policies_view(policies@);
    let ghost entry = command_units(units@, known);
    let mut states: Vec<CommandUnitState> = Vec::new();
    let mut at: usize = 0;
    while at < units.len()
        invariant
            at <= units@.len(),
            known == policies_view(policies@),
            entry == command_units(units@, known),
            collected(entry, at as nat) == Ok::<Seq<CommandUnitState>, RuntimeError>(states@),
        decreases units@.len() - at,
    {
        broadcast use vstd::std_specs::btree::group_btree_axioms;

        let unit = units[at].combat;
        let id: u64 = unit.id;
        assert(known.contains_key(id) == policies@.contains_key(id));
        assert(entry(at as int) == command_unit(units@, known, at as int));
        let discipline = match policies.get(&id) {
            None => {
                proof {
                    lemma_collected_fail(entry, (at + 1) as nat, units@.len());
                }
                return Err(RuntimeError::InvalidUnitPolicy(id));
            },
            Some(policy) => {
                assert(known[id] == policy@);
                policy.command.discipline
            },
        };
        if unit.sovereign > 0xffff {
            proof {
                lemma_collected_fail(entry, (at + 1) as nat, units@.len());
            }
            return Err(RuntimeError::InvalidCheckpoint("invalid unit sovereign"));
        }
        states.push(
            CommandUnitState {
                id,
                sovereign_id: unit.sovereign as u16,
                side: unit.side as usize,
                discipline,
            },
        );
        at = at + 1;
    }
    Ok(states)
}

/// Whether formations can go home to a city.
pub open spec fn homing_capital(
    city: ProductionCity,
    cells: nat,
    country_to_side: Map<u16, usize>,
    finite_only: bool,
) -> bool {
    &&& city.capital
    &&& city.owner_id > 0
    &&& city.cell < cells
    &&& (finite_only ==> city.lat.finite() && city.lng.finite())
    &&& country_to_side.contains_key(city.owner_id)
}

/// Where the formations of each country go home to, by the first cities. The last capital counts.
pub open spec fn capital_targets_of(
    cities: Seq<ProductionCity>,
    cells: nat,
    country_to_side: Map<u16, usize>,
    finite_only: bool,
    count: nat,
) -> Map<u16, CommandHomeTarget>
    decreases count,
{
    if count == 0 {
        Map::empty()
    } else {
        let rest = capital_targets_of(
            cities,
            cells,
            country_to_side,
            finite_only,
            (count - 1) as nat,
        );
        let city = cities[count - 1];
        if homing_capital(city, cells, country_to_side, finite_only) {
            rest.insert(
                city.owner_id,
                CommandHomeTarget { cell: city.cell, lat: city.lat, lng: city.lng },
            )
        } else {
            rest
        }
    }
}

/// Where the formations of each country go home to. For standing formations only places on the
/// globe count; recruits are not asked that.
pub fn capital_targets(
    cities: &Vec<ProductionCity>,
    territory: &TerritoryControl,
    finite_only: bool,
) -> (targets: BTreeMap<u16, CommandHomeTarget>)
    requires
        territory.well_formed(),
    ensures
        targets@ == capital_targets_of(
            cities@,
            territory.grid.area() as nat,
            territory.country_to_side@,
            finite_only,
            cities@.len(),
        ),
{
    broadcast use vstd::std_specs::btree::group_btree_axioms;

    let cells: usize = territory.total_cells();
    let mut targets: BTreeMap<u16, CommandHomeTarget> = BTreeMap::new();
    let mut at: usize = 0;
    while at < cities.len()
        invariant
            at <= cities@.len(),
            cells == territory.grid.area(),
            targets@ == capital_targets_of(
                cities@,
                cells as nat,
                territory.country_to_side@,
                finite_only,
                at as nat,
            ),
        decreases cities@.len() - at,
    {
        broadcast use vstd::std_specs::btree::group_btree_axioms;

        let city = &cities[at];
        if city.capital && city.owner_id > 0 && city.cell < cells && (!finite_only || (
        city.lat.is_finite() && city.lng.is_finite())) && territory.country_to_side.contains_key(
            &city.owner_id,
        ) {
            targets.insert(
                city.owner_id,
                CommandHomeTarget { cell: city.cell, lat: city.lat, lng: city.lng },
            );
        }
        at = at + 1;
    }
    targets
}

/// Whether a formation goes home without knowing where that is.
pub open spec fn lacks_home(policy: PolicyModel) -> bool {
    policy.command.return_home && policy.command.home_target is None
}

/// A policy with the home that the command kernel found, where it lacked one.
pub open spec fn with_home(
    policy: PolicyModel,
    unit_id: u64,
    resolved: Map<u64, ResolvedCommandPolicy>,
) -> PolicyModel {
    if lacks_home(policy) {
        PolicyModel {
            command: UnitCommandPolicy {
                home_target: if resolved.contains_key(unit_id) {
                    resolved[unit_id].home_target
                } else {
                    None
                },
                ..policy.command
            },
            ..policy
        }
    } else {
        policy
    }
}

/// All policies with their homes.
pub open spec fn hydrated(
    policies: Policies,
    resolved: Map<u64, ResolvedCommandPolicy>,
) -> Policies {
    policies.map_entries(|unit_id: u64, policy: PolicyModel| with_home(policy, unit_id, resolved))
}

/// Whether some formation goes home without knowing where that is.
pub fn homes_missing(policies: &BTreeMap<u64, RuntimeUnitPolicy>) -> (answer: bool)
    ensures
        answer == exists|unit_id: u64|
            policies@.contains_key(unit_id) && lacks_home(#[trigger] policies@[unit_id]@),
{
    broadcast use vstd::std_specs::btree::group_btree_axioms;

    let keys = formation_keys(policies);
    let mut at: usize = 0;
    while at < keys.len()
        invariant
            at <= keys@.len(),
            keys@.to_set() == policies@.dom(),
            forall|i: int| 0 <= i < at ==> !lacks_home(policies@[#[trigger] keys@[i]]@),
        decreases keys@.len() - at,
    {
        broadcast use vstd::std_specs::btree::group_btree_axioms;

        let id: u64 = keys[at];
        assert(keys@.to_set().contains(id));
        let policy = policies.get(&id).unwrap();
        if policy.command.return_home && policy.command.home_target.is_none() {
            assert(lacks_home(policies@[id]@));
            return true;
        }
        at = at + 1;
    }
    proof {
        assert forall|unit_id: u64| policies@.contains_key(unit_id) implies !lacks_home(
            #[trigger] policies@[unit_id]@,
        ) by {
            assert(keys@.to_set().contains(unit_id));
            let i = choose|i: int| 0 <= i < keys@.len() && keys@[i] == unit_id;
            assert(!lacks_home(policies@[keys@[i]]@));
        }
    }
    false
}

/// Gives formations that go home the home that the command kernel found for them.
pub fn hydrate_missing_command_home_targets(
    policies: &mut BTreeMap<u64, RuntimeUnitPolicy>,
    resolved: &BTreeMap<u64, ResolvedCommandPolicy>,
)
    ensures
        policies_view(final(policies)@) == hydrated(policies_view(old(policies)@), resolved@),
{
    broadcast use vstd::std_specs::btree::group_btree_axioms;

    let ghost before = policies_view(policies@);
    let keys = formation_keys(policies);
    let mut at: usize = 0;
    while at < keys.len()
        invariant
            at <= keys@.len(),
            crate::order::strictly_sorted(keys@),
            keys@.to_set() == before.dom(),
            policies_view(policies@).dom() =~= before.dom(),
            forall|i: int|
                0 <= i < keys@.len() ==> policies_view(policies@)[#[trigger] keys@[i]] == (if i < at {
                    with_home(before[keys@[i]], keys@[i], resolved@)
                } else {
                    before[keys@[i]]
                }),
        decreases keys@.len() - at,
    {
        broadcast use vstd::std_specs::btree::group_btree_axioms;

        let id: u64 = keys[at];
        let ghost earlier = policies_view(policies@);
        assert(keys@.to_set().contains(id));
        assert(earlier.contains_key(id) == policies@.contains_key(id));
        let mut policy = policies.get(&id).unwrap().clone();
        assert(earlier[id] == policy@);
        if policy.command.return_home && policy.command.home_target.is_none() {
            policy.command.home_target = match resolved.get(&id) {
                Some(answer) => answer.home_target,
                None => None,
            };
            let ghost changed = policy@;
            let ghost table = policies@;
            policies.insert(id, policy);
            assert(policies_view(policies@) =~= earlier.insert(id, changed));
        }
        proof {
            assert forall|i: int| 0 <= i < keys@.len() implies policies_view(
                policies@,
            )[#[trigger] keys@[i]] == (if i < at + 1 {
                with_home(before[keys@[i]], keys@[i], resolved@)
            } else {
                before[keys@[i]]
            }) by {
                if i != at {
                    assert(keys@[i] != keys@[at as int]);
                }
            }
        }
        at = at + 1;
    }
    proof {
        let after = policies_view(policies@);
        let wanted = hydrated(before, resolved@);
        assert forall|unit_id: u64| #[trigger] after.contains_key(unit_id) implies after[unit_id]
            == wanted[unit_id] by {
            assert(keys@.to_set().contains(unit_id));
            let i = choose|i: int| 0 <= i < keys@.len() && keys@[i] == unit_id;
            assert(after[keys@[i]] == with_home(before[keys@[i]], keys@[i], resolved@));
        }
        assert(after.dom() =~= wanted.dom());
        assert(after =~= wanted);
    }
}

/// The bands of the economies.
pub open spec fn bands_by_country(economies: Map<u16, EconomyState>) -> Map<u16, CommandBand> {
    economies.map_values(|economy: EconomyState| economy.command_band)
}

pub fn country_bands(economies: &BTreeMap<u16, EconomyState>) -> (bands: BTreeMap<u16, CommandBand>)
    ensures
        bands@ == bands_by_country(economies@),
{
    broadcast use vstd::std_specs::btree::group_btree_axioms;

    let keys = ordered_countries(economies);
    let mut bands: BTreeMap<u16, CommandBand> = BTreeMap::new();
    let mut at: usize = 0;
    while at < keys.len()
        invariant
            at <= keys@.len(),
            forall|i: int| 0 <= i < keys@.len() ==> economies@.contains_key(#[trigger] keys@[i]),
            forall|country: u16|
                #[trigger] bands@.contains_key(country) <==> keys@.take(at as int).contains(
                    country,
                ),
            forall|country: u16| #[trigger]
                bands@.contains_key(country) ==> bands@[country]
                    == economies@[country].command_band,
        decreases keys@.len() - at,
    {
        broadcast use vstd::std_specs::btree::group_btree_axioms;

        let country: u16 = keys[at];
        let ghost before = bands@;
        let band = economies.get(&country).unwrap().command_band;
        bands.insert(country, band);
        proof {
            assert(keys@.take(at + 1) =~= keys@.take(at as int).push(country));
            assert forall|other: u16| #[trigger]
                bands@.contains_key(other) <==> keys@.take(at + 1).contains(other) by {
                crate::order::lemma_push_contains(keys@.take(at as int), country, other);
                assert(before.contains_key(other) <==> keys@.take(at as int).contains(other));
            }
            assert forall|other: u16| #[trigger] bands@.contains_key(other) implies bands@[other]
                == economies@[other].command_band by {
                if other != country {
                    assert(before.contains_key(other));
                }
            }
        }
        at = at + 1;
    }
    proof {
        assert(keys@.take(keys@.len() as int) =~= keys@);
        assert forall|country: u16| #[trigger] bands@.contains_key(country)
            <==> economies@.contains_key(country) by {
            if economies@.contains_key(country) {
                assert(keys@.contains(country));
            }
        }
        assert(bands@ =~= bands_by_country(economies@));
    }
    bands
}

} // verus!
