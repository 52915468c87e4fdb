//! Orders of a tick: contacts that planners report, and orders that override a plan.

use std::collections::{BTreeMap, BTreeSet};
use vstd::prelude::*;
use crate::operations::{CountryOperationalInput, OperationalPoint, TacticalContactObservation};
use crate::order::{rank_order, retain_with, sort_stable, stable_sorted};
use crate::production::ProductionCountry;
use crate::runtime::counters::{capped, AiPlanningCounters};
use crate::runtime::error::RuntimeError;
use crate::runtime::execution::{engaged, engaged_units};
use crate::runtime::planning::{
    AiPlanningResult, AssignmentReason, FrontAssignmentRecord, PlanningContact,
};
use crate::scalar::{real_of, Real};
use crate::strategic::CountryAggregate;
use crate::taskforce::{units_by_id, OperationalUnitInput};
use crate::units::{ResolvedUnitOrder, SimulationUnit, UnitKind};
use crate::views::{lemma_views_push, lemma_views_update, views};
use crate::worksheet::{integer, sum, Operation, Reader};

verus! {

/// What a [`TacticalContactObservation`] says.
pub ghost struct ObservationModel {
    pub observer_side: usize,
    pub enemy_side: usize,
    pub target_unit_id: u64,
    pub target_country_id: u16,
    pub target_position: OperationalPoint,
    pub observed_power: Real,
    pub kind: Seq<char>,
}

impl View for TacticalContactObservation {
    type V = ObservationModel;

    open spec fn view(&self) -> ObservationModel {
        ObservationModel {
            observer_side: self.observer_side,
            enemy_side: self.enemy_side,
            target_unit_id: self.target_unit_id,
            target_country_id: self.target_country_id,
            target_position: self.target_position,
            observed_power: self.observed_power,
            kind: self.kind@,
        }
    }
}

/// The kind of a formation in words.
pub open spec fn kind_text(kind: UnitKind) -> Seq<char> {
    match kind {
        UnitKind::Army => "army"@,
        UnitKind::Armor => "armor"@,
    }
}

/// The kind of the last formation with an identifier; an army where there is none.
pub open spec fn kind_of(units: Seq<SimulationUnit>, unit_id: u64, count: nat) -> UnitKind
    decreases count,
{
    if count == 0 {
        UnitKind::Army
    } else if units[count - 1].combat.id == unit_id {
        units[count - 1].combat.kind
    } else {
        kind_of(units, unit_id, (count - 1) as nat)
    }
}

pub open spec fn same_sighting(left: ObservationModel, right: ObservationModel) -> bool {
    left.observer_side == right.observer_side && left.target_unit_id == right.target_unit_id
}

pub open spec fn sighted_before(left: ObservationModel, right: ObservationModel) -> bool {
    left.observer_side < right.observer_side || (left.observer_side == right.observer_side
        && left.target_unit_id < right.target_unit_id)
}

/// Sightings with one more, in its place; it replaces an earlier one of the same formation.
pub open spec fn with_sighting(
    list: Seq<ObservationModel>,
    item: ObservationModel,
    from: int,
) -> Seq<ObservationModel>
    decreases list.len() - from,
{
    if from < 0 || from >= list.len() {
        list.push(item)
    } else if same_sighting(list[from], item) {
        list.update(from, item)
    } else if sighted_before(item, list[from]) {
        list.insert(from, item)
    } else {
        with_sighting(list, item, from + 1)
    }
}

/// What one contact shows to the observer's side.
pub open spec fn sighting(
    contact: PlanningContact,
    by_id: Map<u64, OperationalUnitInput>,
    units: Seq<SimulationUnit>,
) -> Option<ObservationModel> {
    match contact.target_unit_id {
        None => None,
        Some(target_id) => if by_id.contains_key(contact.unit_id) && by_id.contains_key(target_id) {
            let target = by_id[target_id];
            Some(
                ObservationModel {
                    observer_side: by_id[contact.unit_id].side_index,
                    enemy_side: target.side_index,
                    target_unit_id: target_id,
                    target_country_id: target.country_id,
                    target_position: target.position,
                    observed_power: target.power,
                    kind: kind_text(kind_of(units, target_id, units.len())),
                },
            )
        } else {
            None
        },
    }
}

/// What the first contacts show, by observer side and target.
pub open spec fn sightings(
    contacts: Seq<PlanningContact>,
    by_id: Map<u64, OperationalUnitInput>,
    units: Seq<SimulationUnit>,
    count: nat,
) -> Seq<ObservationModel>
    decreases count,
{
    if count == 0 {
        Seq::empty()
    } else {
        let rest = sightings(contacts, by_id, units, (count - 1) as nat);
        match sighting(contacts[count - 1], by_id, units) {
            Some(item) => with_sighting(rest, item, 0),
            None => rest,
        }
    }
}

fn note_sighting(list: &mut Vec<TacticalContactObservation>, item: TacticalContactObservation)
    ensures
        views(final(list)@) == with_sighting(views(old(list)@), item@, 0),
{
    let ghost before = list@;
    let ghost shown = views(list@);
    let mut at: usize = 0;
    while at < list.len()
        invariant
            at <= list@.len(),
            list@ == before,
            before == old(list)@,
            shown == views(before),
            with_sighting(shown, item@, 0) == with_sighting(shown, item@, at as int),
        decreases list@.len() - at,
    {
        assert(shown[at as int] == list@[at as int]@);
        let side: usize = list[at].observer_side;
        let target: u64 = list[at].target_unit_id;
        if side == item.observer_side && target == item.target_unit_id {
            proof {
                lemma_views_update(before, at as int, item);
            }
            list.set(at, item);
            return ;
        }
        if item.observer_side < side || (item.observer_side == side && item.target_unit_id
            < target) {
            proof {
                assert(views(before.insert(at as int, item)) =~= shown.insert(at as int, item@));
            }
            list.insert(at, item);
            return ;
        }
        at = at + 1;
    }
    proof {
        lemma_views_push(before, item);
    }
    list.push(item);
}

/// What the planners' contacts show to the sides.
pub fn tactical_contact_observations(
    contacts: &Vec<PlanningContact>,
    inputs: &Vec<OperationalUnitInput>,
    units: &Vec<SimulationUnit>,
) -> (observations: Vec<TacticalContactObservation>)
    ensures
        views(observations@) == sightings(
            contacts@,
            units_by_id(inputs@, inputs@.len()),
            units@,
            contacts@.len(),
        ),
{
    broadcast use vstd::std_specs::btree::group_btree_axioms;

    let by_id = crate::taskforce::index_units(inputs.as_slice());
    let mut kinds: BTreeMap<u64, UnitKind> = BTreeMap::new();
    let mut index: usize = 0;
    while index < units.len()
        invariant
            index <= units@.len(),
            forall|id: u64|
                #![trigger kinds@.contains_key(id)]
                kind_of(units@, id, index as nat) == (if kinds@.contains_key(id) {
                    kinds@[id]
                } else {
                    UnitKind::Army
                }),
        decreases units@.len() - index,
    {
        broadcast use vstd::std_specs::btree::group_btree_axioms;

        kinds.insert(units[index].combat.id, units[index].combat.kind);
        index = index + 1;
    }
    let mut observations: Vec<TacticalContactObservation> = Vec::new();
    assert(views(observations@) =~= Seq::<ObservationModel>::empty());
    let mut at: usize = 0;
    while at < contacts.len()
        invariant
            at <= contacts@.len(),
            by_id@ == units_by_id(inputs@, inputs@.len()),
            forall|id: u64|
                #![trigger kinds@.contains_key(id)]
                kind_of(units@, id, units@.len()) == (if kinds@.contains_key(id) {
                    kinds@[id]
                } else {
                    UnitKind::Army
                }),
            views(observations@) == sightings(contacts@, by_id@, units@, at as nat),
        decreases contacts@.len() - at,
    {
        broadcast use vstd::std_specs::btree::group_btree_axioms;

        let contact = contacts[at];
        if let Some(target_id) = contact.target_unit_id {
            if let Some(observer) = by_id.get(&contact.unit_id) {
                if let Some(target) = by_id.get(&target_id) {
                    let kind = match kinds.get(&target_id) {
                        Some(kind) => *kind,
                        None => UnitKind::Army,
                    };
                    assert(kind == kind_of(units@, target_id, units@.len())) by {
                        assert(kinds@.contains_key(target_id) == kinds@.contains_key(target_id));
                    }
                    let item = TacticalContactObservation {
                        observer_side: observer.side_index,
                        enemy_side: target.side_index,
                        target_unit_id: target_id,
                        target_country_id: target.country_id,
                        target_position: target.position,
                        observed_power: target.power,
                        kind: match kind {
                            UnitKind::Army => "army".to_owned(),
                            UnitKind::Armor => "armor".to_owned(),
                        },
                    };
                    note_sighting(&mut observations, item);
                }
            }
        }
        at = at + 1;
    }
    observations
}

/// People of each country over the first formations.
pub open spec fn people_by_country(
    results: Map<Operation, u64>,
    units: Seq<SimulationUnit>,
    crew: u64,
    count: nat,
) -> Result<Map<u16, Real>, RuntimeError>
    decreases count,
{
    if count == 0 {
        Ok(Map::empty())
    } else {
        match people_by_country(results, units, crew, (count - 1) as nat) {
            Err(error) => Err(error),
            Ok(rest) => {
                let unit = units[count - 1];
                let country = unit.combat.sovereign as u16;
                let people = if unit.combat.kind is Armor {
                    capped(unit.combat.equipment * crew)
                } else {
                    unit.combat.personnel
                };
                if unit.combat.sovereign > u16::MAX {
                    Err(RuntimeError::InvalidCheckpoint("invalid unit sovereign"))
                } else {
                    Ok(
                        rest.insert(
                            country,
                            sum(
                                results,
                                if rest.contains_key(country) {
                                    rest[country]
                                } else {
                                    real_of(0)
                                },
                                integer(results, people),
                            ),
                        ),
                    )
                }
            },
        }
    }
}

proof fn lemma_people_fail(
    results: Map<Operation, u64>,
    units: Seq<SimulationUnit>,
    crew: u64,
    count: nat,
    whole: nat,
)
    requires
        count <= whole,
        people_by_country(results, units, crew, count) is Err,
    ensures
        people_by_country(results, units, crew, whole) == people_by_country(
            results,
            units,
            crew,
            count,
        ),
    decreases whole - count,
{
    if count < whole {
        lemma_people_fail(results, units, crew, count, (whole - 1) as nat);
    }
}

/// The last count of a country.
pub open spec fn last_aggregate(
    aggregates: Seq<CountryAggregate>,
    country_id: u16,
    count: nat,
) -> Option<CountryAggregate>
    decreases count,
{
    if count == 0 {
        None
    } else if aggregates[count - 1].country_id == country_id {
        Some(aggregates[count - 1])
    } else {
        last_aggregate(aggregates, country_id, (count - 1) as nat)
    }
}

/// A country as its judgement sees it. Every country counts as able to attack; whether it has the
/// means is judged elsewhere.
pub open spec fn country_input(
    people: Map<u16, Real>,
    aggregates: Seq<CountryAggregate>,
    country: ProductionCountry,
) -> CountryOperationalInput {
    let current = last_aggregate(aggregates, country.country_id, aggregates.len());
    CountryOperationalInput {
        country_id: country.country_id,
        initial_land: if country.initial_core_cells == 0 {
            1
        } else {
            country.initial_core_cells as u64
        },
        controlled: match current {
            Some(aggregate) => aggregate.controlled,
            None => 0,
        },
        cities_controlled: match current {
            Some(aggregate) => aggregate.cities_controlled,
            None => 0,
        },
        current_personnel: if people.contains_key(country.country_id) {
            people[country.country_id]
        } else {
            real_of(0)
        },
        offensive_role: true,
    }
}

pub open spec fn country_inputs_of(
    results: Map<Operation, u64>,
    units: Seq<SimulationUnit>,
    crew: u64,
    countries: Seq<ProductionCountry>,
    aggregates: Seq<CountryAggregate>,
) -> Result<Seq<CountryOperationalInput>, RuntimeError> {
    match people_by_country(results, units, crew, units.len()) {
        Err(error) => Err(error),
        Ok(people) => Ok(
            Seq::new(
                countries.len(),
                |i: int| country_input(people, aggregates, countries[i]),
            ),
        ),
    }
}

pub(crate) fn find_aggregate(aggregates: &Vec<CountryAggregate>, country_id: u16) -> (found: Option<usize>)
    ensures
        match found {
            Some(at) => at < aggregates@.len() && last_aggregate(
                aggregates@,
                country_id,
                aggregates@.len(),
            ) == Some(aggregates@[at as int]),
            None => last_aggregate(aggregates@, country_id, aggregates@.len()) is None,
        },
{
    let mut at: usize = aggregates.len();
    while at > 0
        invariant
            at <= aggregates@.len(),
            last_aggregate(aggregates@, country_id, aggregates@.len()) == last_aggregate(
                aggregates@,
                country_id,
                at as nat,
            ),
        decreases at,
    {
        if aggregates[at - 1].country_id == country_id {
            return Some(at - 1);
        }
        at = at - 1;
    }
    None
}

/// Whether a worksheet holds all that counting people takes.
pub open spec fn people_supplied(
    results: Map<Operation, u64>,
    units: Seq<SimulationUnit>,
    crew: u64,
) -> bool {
    forall|k: int|
        0 <= k < units.len() ==> (people_by_country(results, units, crew, k as nat) matches Ok(
            rest,
        ) ==> ({
            let unit = #[trigger] units[k];
            let country = unit.combat.sovereign as u16;
            let people = if unit.combat.kind is Armor {
                capped(unit.combat.equipment * crew)
            } else {
                unit.combat.personnel
            };
            let present = if rest.contains_key(country) {
                rest[country]
            } else {
                real_of(0)
            };
            &&& results.contains_key(Operation::Integer(people))
            &&& results.contains_key(Operation::Sum(present, integer(results, people)))
        }))
}

/// The countries as their judgement sees them.
pub fn operational_country_inputs(
    units: &Vec<SimulationUnit>,
    crew_per_vehicle: u64,
    countries: &Vec<ProductionCountry>,
    aggregates: &Vec<CountryAggregate>,
    reader: &mut Reader<'_>,
) -> (outcome: Result<Vec<CountryOperationalInput>, RuntimeError>)
    requires
        old(reader).sound(),
    ensures
        final(reader)@ == old(reader)@,
        final(reader).sound(),
        final(reader).complete() ==> old(reader).complete() && (match outcome {
            Ok(inputs) => country_inputs_of(
                old(reader)@,
                units@,
                crew_per_vehicle,
                countries@,
                aggregates@,
            ) == Ok::<Seq<CountryOperationalInput>, RuntimeError>(inputs@),
            Err(error) => country_inputs_of(
                old(reader)@,
                units@,
                crew_per_vehicle,
                countries@,
                aggregates@,
            ) == Err::<Seq<CountryOperationalInput>, RuntimeError>(error),
        }),
        old(reader).complete() && people_supplied(old(reader)@, units@, crew_per_vehicle) ==>
            final(reader).complete(),
{
    broadcast use vstd::std_specs::btree::group_btree_axioms;

    let ghost results = reader@;
    let ghost untouched = reader.complete();
    let mut people: BTreeMap<u16, Real> = BTreeMap::new();
    let mut at: usize = 0;
    while at < units.len()
        invariant
            at <= units@.len(),
            results == old(reader)@,
            untouched == old(reader).complete(),
            reader@ == results,
            reader.sound(),
            reader.complete() ==> untouched && people_by_country(
                results,
                units@,
                crew_per_vehicle,
                at as nat,
            ) == Ok::<Map<u16, Real>, RuntimeError>(people@),
            untouched && people_supplied(results, units@, crew_per_vehicle) ==> reader.complete(),
        decreases units@.len() - at,
    {
        broadcast use vstd::std_specs::btree::group_btree_axioms;

        let unit = units[at];
        if unit.combat.sovereign > 0xffff {
            proof {
                if reader.complete() {
                    lemma_people_fail(
                        results,
                        units@,
                        crew_per_vehicle,
                        (at + 1) as nat,
                        units@.len(),
                    );
                }
            }
            return Err(RuntimeError::InvalidCheckpoint("invalid unit sovereign"));
        }
        let country: u16 = unit.combat.sovereign as u16;
        let heads: u64 = if unit.combat.kind == UnitKind::Armor {
            crate::runtime::dynamics::capped_product(unit.combat.equipment, crew_per_vehicle)
        } else {
            unit.combat.personnel
        };
        let present = match people.get(&country) {
            Some(amount) => *amount,
            None => Real::zero(),
        };
        let more = reader.integer(heads);
        let total = reader.sum(present, more);
        people.insert(country, total);
        at = at + 1;
    }
    let mut inputs: Vec<CountryOperationalInput> = Vec::new();
    let mut index: usize = 0;
    while index < countries.len()
        invariant
            index <= countries@.len(),
            inputs@.len() == index,
            forall|i: int|
                0 <= i < index ==> #[trigger] inputs@[i] == country_input(
                    people@,
                    aggregates@,
                    countries@[i],
                ),
        decreases countries@.len() - index,
    {
        broadcast use vstd::std_specs::btree::group_btree_axioms;

        let country = &countries[index];
        let (controlled, cities): (u64, u64) = match find_aggregate(
            aggregates,
            country.country_id,
        ) {
            Some(place) => (aggregates[place].controlled, aggregates[place].cities_controlled),
            None => (0, 0),
        };
        let current_personnel = match people.get(&country.country_id) {
            Some(amount) => *amount,
            None => Real::zero(),
        };
        inputs.push(
            CountryOperationalInput {
                country_id: country.country_id,
                initial_land: if country.initial_core_cells == 0 {
                    1
                } else {
                    country.initial_core_cells as u64
                },
                controlled,
                cities_controlled: cities,
                current_personnel,
                offensive_role: true,
            },
        );
        index = index + 1;
    }
    assert(inputs@ =~= Seq::new(
        countries@.len(),
        |i: int| country_input(people@, aggregates@, countries@[i]),
    ));
    Ok(inputs)
}

pub open spec fn unengaged(assignments: Seq<FrontAssignmentRecord>) -> spec_fn(
    ResolvedUnitOrder,
) -> bool {
    |order: ResolvedUnitOrder| !engaged(assignments, order.unit_id)
}

pub open spec fn ordered(orders: Seq<ResolvedUnitOrder>, unit_id: u64) -> bool {
    exists|i: int| 0 <= i < orders.len() && (#[trigger] orders[i]).unit_id == unit_id
}

pub open spec fn order_stands(overrides: Seq<ResolvedUnitOrder>) -> spec_fn(
    ResolvedUnitOrder,
) -> bool {
    |order: ResolvedUnitOrder| !ordered(overrides, order.unit_id)
}

pub open spec fn assignment_stands(overrides: Seq<ResolvedUnitOrder>) -> spec_fn(
    FrontAssignmentRecord,
) -> bool {
    |record: FrontAssignmentRecord| !ordered(overrides, record.unit_id)
}

pub open spec fn hold_record(order: ResolvedUnitOrder) -> FrontAssignmentRecord {
    FrontAssignmentRecord {
        unit_id: order.unit_id,
        objective_id: None,
        reason: AssignmentReason::Hold,
    }
}

pub open spec fn one_less(count: usize) -> usize {
    if count == 0 {
        0
    } else {
        (count - 1) as usize
    }
}

/// Counters after an assignment was taken back.
pub open spec fn taken_back(
    counters: AiPlanningCounters,
    record: FrontAssignmentRecord,
    priors: Map<u64, u64>,
) -> AiPlanningCounters {
    match record.reason {
        AssignmentReason::Front => if record.objective_id matches Some(objective)
            && priors.contains_key(record.unit_id) && priors[record.unit_id] == objective {
            AiPlanningCounters {
                sticky_assignments: one_less(counters.sticky_assignments),
                ..counters
            }
        } else {
            AiPlanningCounters {
                front_assignments: one_less(counters.front_assignments),
                ..counters
            }
        },
        AssignmentReason::Reinforce => AiPlanningCounters {
            reinforcement_assignments: one_less(counters.reinforcement_assignments),
            ..counters
        },
        AssignmentReason::Field => AiPlanningCounters {
            field_orders: one_less(counters.field_orders),
            ..counters
        },
        AssignmentReason::Hold => AiPlanningCounters {
            hold_orders: one_less(counters.hold_orders),
            ..counters
        },
        _ => counters,
    }
}

/// Counters after the overridden ones among the first assignments were taken back.
pub open spec fn all_taken_back(
    counters: AiPlanningCounters,
    assignments: Seq<FrontAssignmentRecord>,
    priors: Map<u64, u64>,
    overrides: Seq<ResolvedUnitOrder>,
    count: nat,
) -> AiPlanningCounters
    decreases count,
{
    if count == 0 {
        counters
    } else {
        let rest = all_taken_back(counters, assignments, priors, overrides, (count - 1) as nat);
        if ordered(overrides, assignments[count - 1].unit_id) {
            taken_back(rest, assignments[count - 1], priors)
        } else {
            rest
        }
    }
}

/// What overrides leave of a plan.
pub ghost struct MergedPlan {
    pub overrides: Seq<ResolvedUnitOrder>,
    pub orders: Seq<ResolvedUnitOrder>,
    pub assignments: Seq<FrontAssignmentRecord>,
    pub counters: AiPlanningCounters,
}

/// A plan after garrisons hold and formations go home. Those that fight or flee do not go.
pub open spec fn merged_plan(
    orders: Seq<ResolvedUnitOrder>,
    assignments: Seq<FrontAssignmentRecord>,
    counters: AiPlanningCounters,
    garrisons: Seq<ResolvedUnitOrder>,
    commands: Seq<ResolvedUnitOrder>,
    priors: Map<u64, u64>,
) -> MergedPlan {
    let overrides = commands.filter(unengaged(assignments));
    let settled = all_taken_back(counters, assignments, priors, overrides, assignments.len());
    MergedPlan {
        overrides,
        orders: stable_sorted(
            (orders + garrisons).filter(order_stands(overrides)) + overrides,
            rank_order::<ResolvedUnitOrder>(),
        ),
        assignments: stable_sorted(
            assignments.filter(assignment_stands(overrides)) + Seq::new(
                overrides.len(),
                |i: int| hold_record(overrides[i]),
            ),
            rank_order::<FrontAssignmentRecord>(),
        ),
        counters: AiPlanningCounters {
            hold_orders: (settled.hold_orders + overrides.len()) as usize,
            ..settled
        },
    }
}

fn ordered_ids(orders: &Vec<ResolvedUnitOrder>) -> (ids: BTreeSet<u64>)
    ensures
        forall|id: u64| #[trigger] ids@.contains(id) == ordered(orders@, id),
{
    broadcast use vstd::std_specs::btree::group_btree_axioms;

    let mut ids: BTreeSet<u64> = BTreeSet::new();
    let mut at: usize = 0;
    while at < orders.len()
        invariant
            at <= orders@.len(),
            forall|id: u64|
                #[trigger] ids@.contains(id) <==> exists|i: int|
                    0 <= i < at && (#[trigger] orders@[i]).unit_id == id,
        decreases orders@.len() - at,
    {
        broadcast use vstd::std_specs::btree::group_btree_axioms;

        let own: u64 = orders[at].unit_id;
        let ghost before = ids@;
        ids.insert(own);
        proof {
            assert forall|id: u64| #[trigger] ids@.contains(id) <==> exists|i: int|
                0 <= i < at + 1 && (#[trigger] orders@[i]).unit_id == id by {
                assert(before.contains(id) <==> exists|i: int|
                    0 <= i < at && (#[trigger] orders@[i]).unit_id == id);
                assert(orders@[at as int].unit_id == own);
            }
        }
        at = at + 1;
    }
    ids
}

fn take_back(
    counters: AiPlanningCounters,
    record: FrontAssignmentRecord,
    priors: &BTreeMap<u64, u64>,
) -> (next: AiPlanningCounters)
    ensures
        next == taken_back(counters, record, priors@),
{
    broadcast use vstd::std_specs::btree::group_btree_axioms;

    let mut next = counters;
    match record.reason {
        AssignmentReason::Front => {
            let sticky = match record.objective_id {
                Some(objective) => match priors.get(&record.unit_id) {
                    Some(prior) => *prior == objective,
                    None => false,
                },
                None => false,
            };
            if sticky {
                next.sticky_assignments = counters.sticky_assignments.saturating_sub(1);
            } else {
                next.front_assignments = counters.front_assignments.saturating_sub(1);
            }
        },
        AssignmentReason::Reinforce => {
            next.reinforcement_assignments = counters.reinforcement_assignments.saturating_sub(1);
        },
        AssignmentReason::Field => {
            next.field_orders = counters.field_orders.saturating_sub(1);
        },
        AssignmentReason::Hold => {
            next.hold_orders = counters.hold_orders.saturating_sub(1);
        },
        _ => {},
    }
    next
}

/// Let garrisons hold and formations go home, whatever the plan said of them. Gives the units
/// whose orders were overridden.
pub fn merge_command_orders(
    planning: AiPlanningResult,
    garrisons: Vec<ResolvedUnitOrder>,
    commands: Vec<ResolvedUnitOrder>,
    priors: &BTreeMap<u64, u64>,
) -> (merged: (AiPlanningResult, BTreeSet<u64>))
    requires
        planning.counters.hold_orders + commands@.len() <= usize::MAX,
    ensures
        ({
            let plan = merged_plan(
                planning.orders@,
                planning.assignments@,
                planning.counters,
                garrisons@,
                commands@,
                priors@,
            );
            &&& merged.0.orders@ == plan.orders
            &&& merged.0.assignments@ == plan.assignments
            &&& merged.0.counters == plan.counters
            &&& merged.0.contacts@ == planning.contacts@
            &&& forall|id: u64| #[trigger] merged.1@.contains(id) == ordered(plan.overrides, id)
        }),
{
    broadcast use vstd::std_specs::btree::group_btree_axioms;

    let ghost plan = merged_plan(
        planning.orders@,
        planning.assignments@,
        planning.counters,
        garrisons@,
        commands@,
        priors@,
    );
    let fighting = engaged_units(&planning.assignments);
    let ghost assigned = planning.assignments@;
    let free = |order: &ResolvedUnitOrder| -> (keep: bool)
        ensures
            keep == !fighting@.contains(order.unit_id),
        {
            broadcast use vstd::std_specs::btree::group_btree_axioms;

            !fighting.contains(&order.unit_id)
        };
    proof {
        lemma_filter_length(commands@, unengaged(assigned));
    }
    let mut overrides = retain_with(commands, free, Ghost(unengaged(assigned)));
    let ids = ordered_ids(&overrides);
    let ghost chosen = overrides@;
    let mut counters = planning.counters;
    let mut at: usize = 0;
    while at < planning.assignments.len()
        invariant
            at <= planning.assignments@.len(),
            forall|id: u64| #[trigger] ids@.contains(id) == ordered(chosen, id),
            counters.hold_orders <= planning.counters.hold_orders,
            counters == all_taken_back(
                planning.counters,
                planning.assignments@,
                priors@,
                chosen,
                at as nat,
            ),
        decreases planning.assignments@.len() - at,
    {
        broadcast use vstd::std_specs::btree::group_btree_axioms;

        let record = planning.assignments[at];
        if ids.contains(&record.unit_id) {
            counters = take_back(counters, record, priors);
        }
        at = at + 1;
    }
    counters.hold_orders = counters.hold_orders + overrides.len();
    let mut orders = planning.orders;
    let mut holding = garrisons;
    orders.append(&mut holding);
    let standing = |order: &ResolvedUnitOrder| -> (keep: bool)
        ensures
            keep == !ids@.contains(order.unit_id),
        {
            broadcast use vstd::std_specs::btree::group_btree_axioms;

            !ids.contains(&order.unit_id)
        };
    let mut kept = retain_with(orders, standing, Ghost(order_stands(chosen)));
    let remaining = |record: &FrontAssignmentRecord| -> (keep: bool)
        ensures
            keep == !ids@.contains(record.unit_id),
        {
            broadcast use vstd::std_specs::btree::group_btree_axioms;

            !ids.contains(&record.unit_id)
        };
    let mut assignments = retain_with(
        planning.assignments,
        remaining,
        Ghost(assignment_stands(chosen)),
    );
    let mut records: Vec<FrontAssignmentRecord> = Vec::new();
    let mut index: usize = 0;
    while index < overrides.len()
        invariant
            index <= overrides@.len(),
            overrides@ == chosen,
            records@.len() == index,
            forall|i: int| 0 <= i < index ==> #[trigger] records@[i] == hold_record(chosen[i]),
        decreases overrides@.len() - index,
    {
        records.push(
            FrontAssignmentRecord {
                unit_id: overrides[index].unit_id,
                objective_id: None,
                reason: AssignmentReason::Hold,
            },
        );
        index = index + 1;
    }
    assert(records@ =~= Seq::new(chosen.len(), |i: int| hold_record(chosen[i])));
    kept.append(&mut overrides);
    assignments.append(&mut records);
    (
        AiPlanningResult {
            orders: sort_stable(kept),
            assignments: sort_stable(assignments),
            contacts: planning.contacts,
            counters,
        },
        ids,
    )
}

proof fn lemma_filter_length<T>(items: Seq<T>, wanted: spec_fn(T) -> bool)
    ensures
        items.filter(wanted).len() <= items.len(),
    decreases items.len(),
{
    reveal(Seq::filter);
    if items.len() > 0 {
        lemma_filter_length(items.drop_last(), wanted);
    }
}

} // verus!
