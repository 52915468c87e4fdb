//! Enlistment: the attempts of every country to raise formations, in a fixed order and within the
//! means of its treasury, its side's reserves and the limits of the scenario.

use std::collections::{BTreeMap, BTreeSet};
use vstd::prelude::*;
use crate::casualties::{charge_supplied, charged, toll_of};
use crate::economy::{CommandBand, EconomyState};
use crate::numbers::{N_0_4, N_50};
use crate::order::{rank_order, sort_stable, stable_sorted, Ranked};
use crate::production::{ProductionCity, ProductionConfig, ProductionCountry};
use crate::reinforcement::ReinforcementError;
use crate::runtime::battlefield::{blank_memory, BattlefieldUnitState, SideDynamics, WarPhase};
use crate::runtime::dynamics::side_amount;
use crate::runtime::error::RuntimeError;
use crate::runtime::orders::{find_aggregate, last_aggregate};
use crate::runtime::planning::{command_from, resolved_command, ResolvedCommandPolicy};
use crate::runtime::policy::{
    standard_policy, InfluenceModel, PolicyModel, RuntimeUnitPolicy, UnitAiPolicy,
};
use crate::runtime::recruitment::{
    plan_recruitment, plan_supplied, recruitment_plan, recruitment_spawn_cell, spawn_search,
    spawn_supplied, RecruitSite, RecruitmentCase, RecruitmentRules, SideManpower,
    RECRUIT_DEPLOY_TICKS,
};
use crate::runtime::world::{StrategicState, TerritoryControl};
use crate::scalar::{real_of, Real, ONE_BITS};
use crate::strategic::CountryAggregate;
use crate::tables::{ascending, ordered_countries};
use crate::units::{CombatUnit, KernelFault, SimulationUnit, UnitKind};
use crate::views::{lemma_views_push, views};
use crate::worksheet::{
    all_missing, difference, integer, product, sum, Operation, Reader, Stop, Worksheet,
};

verus! {

/// From this intensity on a cell lies in mountains: the number of single precision nearest to
/// 0.35.
pub const MOUNTAIN_BITS: u64 = 0x3fd6_6666_6000_0000;

/// What the command kernel must say of a recruit.
#[derive(Clone, Copy, Debug, PartialEq, Eq, Structural)]
pub struct RecruitCommand {
    pub unit_id: u64,
    pub sovereign_id: u16,
    pub side: usize,
    /// The draw from which the recruit's discipline follows.
    pub seed: Real,
    pub band: CommandBand,
}

/// Why recruitment could not be finished.
#[derive(Clone, Copy, Debug, PartialEq, Eq)]
pub enum RecruitmentHalt {
    Failed(RuntimeError),
    /// More random draws are needed.
    Draws,
    /// The command kernel must be asked first.
    Command(RecruitCommand),
}

/// What recruitment reads.
#[derive(Clone, Copy, Debug)]
pub struct RecruitmentInput<'a> {
    pub tick: u64,
    pub frame: u64,
    pub units: &'a Vec<SimulationUnit>,
    /// Strength of each formation.
    pub strengths: &'a Vec<Real>,
    pub countries: &'a Vec<ProductionCountry>,
    pub cities: &'a Vec<ProductionCity>,
    pub territory: &'a TerritoryControl,
    pub aggregates: &'a Vec<CountryAggregate>,
    pub strategic: &'a StrategicState,
    pub dynamics: Option<&'a BTreeMap<usize, SideDynamics>>,
    /// How mountainous each cell is, where mountains count.
    pub mountains: Option<&'a Vec<Real>>,
    pub config: ProductionConfig,
    pub rules: RecruitmentRules,
    /// Random draws, in the order in which they are used.
    pub draws: &'a Vec<Real>,
    /// What the command kernel said of recruits so far.
    pub commands: &'a BTreeMap<u64, Result<ResolvedCommandPolicy, KernelFault>>,
}

impl<'a> RecruitmentInput<'a> {
    pub open spec fn well_formed(self) -> bool {
        self.territory.well_formed() && self.strengths@.len() == self.units@.len()
    }
}

/// Recruits and means while countries recruit.
#[derive(Debug)]
pub struct RecruitmentStaging {
    pub units: Vec<SimulationUnit>,
    pub policies: Vec<RuntimeUnitPolicy>,
    pub battlefield_units: BTreeMap<u64, BattlefieldUnitState>,
    pub treasury_costs: BTreeMap<u16, Real>,
    pub treasuries: BTreeMap<u16, Real>,
    pub reserves: BTreeMap<usize, Real>,
    pub side_units: BTreeMap<usize, usize>,
    pub next_unit_id: u64,
    pub draws_used: usize,
    pub recruited_personnel: u64,
}

/// What a [`RecruitmentStaging`] says.
pub ghost struct RecruitmentModel {
    pub units: Seq<SimulationUnit>,
    pub policies: Seq<PolicyModel>,
    pub battlefield_units: Map<u64, BattlefieldUnitState>,
    pub treasury_costs: Map<u16, Real>,
    pub treasuries: Map<u16, Real>,
    pub reserves: Map<usize, Real>,
    pub side_units: Map<usize, usize>,
    pub next_unit_id: u64,
    pub draws_used: nat,
    pub recruited_personnel: u64,
}

impl View for RecruitmentStaging {
    type V = RecruitmentModel;

    open spec fn view(&self) -> RecruitmentModel {
        RecruitmentModel {
            units: self.units@,
            policies: views(self.policies@),
            battlefield_units: self.battlefield_units@,
            treasury_costs: self.treasury_costs@,
            treasuries: self.treasuries@,
            reserves: self.reserves@,
            side_units: self.side_units@,
            next_unit_id: self.next_unit_id,
            draws_used: self.draws_used as nat,
            recruited_personnel: self.recruited_personnel,
        }
    }
}

/// One country's turn to recruit.
#[derive(Clone, Copy, Debug, PartialEq, Eq, Structural)]
pub struct RecruitmentTurn {
    pub country_id: u16,
    pub side: usize,
    pub economy: EconomyState,
    pub chance: Real,
}

/// How many people one recruit takes.
pub open spec fn recruit_people(turn: RecruitmentTurn) -> u64 {
    if turn.economy.capital_held {
        1_000
    } else {
        400
    }
}

pub open spec fn units_of(side_units: Map<usize, usize>, side: usize) -> usize {
    if side_units.contains_key(side) {
        side_units[side]
    } else {
        0
    }
}

/// Whether a country has the means for another formation.
pub open spec fn affordable(
    results: Map<Operation, u64>,
    source: RecruitmentInput<'_>,
    model: RecruitmentModel,
    turn: RecruitmentTurn,
) -> bool {
    &&& !real_of(ONE_BITS).le(turn.economy.arrears_cycles)
    &&& !toll_of(model.treasuries, turn.country_id).lt(source.rules.cost)
    &&& !side_amount(model.reserves, turn.side).lt(integer(results, recruit_people(turn)))
    &&& units_of(model.side_units, turn.side) < source.config.max_units_per_side
}

/// Whether a cell lies in mountains.
pub open spec fn mountainous(source: RecruitmentInput<'_>, cell: usize) -> bool {
    match source.mountains {
        Some(terrain) => cell < terrain@.len() && real_of(MOUNTAIN_BITS).lt(terrain@[cell as int]),
        None => false,
    }
}

/// The countries of a side.
pub open spec fn side_countries(country_to_side: Map<u16, usize>, side: usize) -> Set<u16> {
    Set::new(|country: u16| country_to_side.contains_key(country) && country_to_side[country]
        == side)
}

/// A new formation.
pub open spec fn recruit_unit(
    results: Map<Operation, u64>,
    source: RecruitmentInput<'_>,
    turn: RecruitmentTurn,
    site: RecruitSite,
    unit_id: u64,
) -> SimulationUnit {
    SimulationUnit {
        combat: CombatUnit {
            id: unit_id,
            side: turn.side as u64,
            sovereign: turn.country_id as u64,
            kind: UnitKind::Army,
            lat: site.lat,
            lng: site.lng,
            health: if turn.economy.capital_held {
                source.rules.unit_health
            } else {
                product(results, source.rules.unit_health, real_of(N_0_4))
            },
            max_health: source.rules.unit_health,
            personnel: recruit_people(turn),
            personnel_capacity: 1_000,
            equipment: 0,
            max_equipment: 0,
            quality: real_of(N_50),
            transport: false,
            armor_supported: false,
            landing_penalty_active: false,
            at_sea: false,
            last_combat_tick: 0,
            victory_boost_ticks: 0,
        },
        dir_lat: real_of(0),
        dir_lng: real_of(0),
        coast_stuck_ticks: 0,
        armor_landing_penalty_until_tick: 0,
        is_support: false,
        ally_weight: real_of(ONE_BITS),
    }
}

/// The policy of a new formation.
pub open spec fn recruit_policy(
    source: RecruitmentInput<'_>,
    turn: RecruitmentTurn,
    unit_id: u64,
    seed: Real,
    resolved: ResolvedCommandPolicy,
) -> PolicyModel {
    let standard = standard_policy(unit_id, turn.country_id, real_of(0));
    PolicyModel {
        unit_id,
        ai: UnitAiPolicy {
            deploy_until_tick: (source.tick + RECRUIT_DEPLOY_TICKS) as u64,
            ..standard.ai
        },
        command: resolved_command(resolved, source.strategic.cycle),
        influence: Some(
            InfluenceModel {
                browser_temporal_seed: Some(seed),
                owner_ally_country_ids: side_countries(
                    source.territory.country_to_side@,
                    turn.side,
                ),
                ..standard.influence->0
            },
        ),
    }
}

/// A formation is raised at a place.
pub open spec fn enlisted(
    results: Map<Operation, u64>,
    source: RecruitmentInput<'_>,
    model: RecruitmentModel,
    turn: RecruitmentTurn,
    site: RecruitSite,
) -> Result<RecruitmentModel, RecruitmentHalt> {
    let draws = source.draws@;
    let mountain = mountainous(source, site.cell);
    let needed: nat = if mountain {
        2
    } else {
        1
    };
    if model.draws_used + needed > draws.len() {
        Err(RecruitmentHalt::Draws)
    } else {
        let alpine = mountain && draws[model.draws_used as int].lt(real_of(N_0_4));
        let seed = draws[model.draws_used + needed - 1];
        let unit_id = model.next_unit_id;
        if unit_id == u64::MAX {
            Err(
                RecruitmentHalt::Failed(
                    RuntimeError::Reinforcement(ReinforcementError::Overflow("land unit ID")),
                ),
            )
        } else if !source.commands@.contains_key(unit_id) {
            Err(
                RecruitmentHalt::Command(
                    RecruitCommand {
                        unit_id,
                        sovereign_id: turn.country_id,
                        side: turn.side,
                        seed,
                        band: turn.economy.command_band,
                    },
                ),
            )
        } else {
            match source.commands@[unit_id] {
                Err(fault) => Err(RecruitmentHalt::Failed(RuntimeError::Command(fault))),
                Ok(resolved) => if source.tick + RECRUIT_DEPLOY_TICKS > u64::MAX {
                    Err(RecruitmentHalt::Failed(RuntimeError::ClockOverflow))
                } else {
                    let people = recruit_people(turn);
                    Ok(
                        RecruitmentModel {
                            units: model.units.push(
                                recruit_unit(results, source, turn, site, unit_id),
                            ),
                            policies: model.policies.push(
                                recruit_policy(source, turn, unit_id, seed, resolved),
                            ),
                            battlefield_units: model.battlefield_units.insert(
                                unit_id,
                                BattlefieldUnitState {
                                    is_alpenjager: alpine,
                                    cohesion_seed: seed,
                                    ..blank_memory()
                                },
                            ),
                            treasury_costs: charged(
                                results,
                                model.treasury_costs,
                                turn.country_id,
                                source.rules.cost,
                            ),
                            treasuries: model.treasuries.insert(
                                turn.country_id,
                                difference(
                                    results,
                                    toll_of(model.treasuries, turn.country_id),
                                    source.rules.cost,
                                ),
                            ),
                            reserves: model.reserves.insert(
                                turn.side,
                                difference(
                                    results,
                                    side_amount(model.reserves, turn.side),
                                    integer(results, people),
                                ),
                            ),
                            side_units: model.side_units.insert(
                                turn.side,
                                (units_of(model.side_units, turn.side) + 1) as usize,
                            ),
                            next_unit_id: (unit_id + 1) as u64,
                            draws_used: model.draws_used + needed,
                            recruited_personnel: if model.recruited_personnel + people > u64::MAX {
                                u64::MAX
                            } else {
                                (model.recruited_personnel + people) as u64
                            },
                        },
                    )
                },
            }
        }
    }
}

/// One attempt of a country to raise a formation.
pub open spec fn attempted(
    results: Map<Operation, u64>,
    source: RecruitmentInput<'_>,
    model: RecruitmentModel,
    turn: RecruitmentTurn,
) -> Result<RecruitmentModel, RecruitmentHalt> {
    if model.draws_used >= source.draws@.len() {
        Err(RecruitmentHalt::Draws)
    } else {
        let drawn = RecruitmentModel { draws_used: model.draws_used + 1, ..model };
        if turn.chance.le(source.draws@[model.draws_used as int]) || !affordable(
            results,
            source,
            model,
            turn,
        ) {
            Ok(drawn)
        } else {
            let search = spawn_search(
                results,
                *source.territory,
                source.cities@,
                turn.country_id,
                turn.side,
                !turn.economy.capital_held,
                source.draws@,
                drawn.draws_used,
            );
            match search.used {
                None => Err(RecruitmentHalt::Draws),
                Some(used) => {
                    let searched = RecruitmentModel { draws_used: used, ..model };
                    match search.site {
                        None => Ok(searched),
                        Some(site) => enlisted(results, source, searched, turn, site),
                    }
                },
            }
        }
    }
}

/// Several attempts in a row.
pub open spec fn attempts_made(
    results: Map<Operation, u64>,
    source: RecruitmentInput<'_>,
    model: RecruitmentModel,
    turn: RecruitmentTurn,
    count: nat,
) -> Result<RecruitmentModel, RecruitmentHalt>
    decreases count,
{
    if count == 0 {
        Ok(model)
    } else {
        match attempts_made(results, source, model, turn, (count - 1) as nat) {
            Err(halt) => Err(halt),
            Ok(reached) => attempted(results, source, reached, turn),
        }
    }
}

proof fn lemma_attempts_halt(
    results: Map<Operation, u64>,
    source: RecruitmentInput<'_>,
    model: RecruitmentModel,
    turn: RecruitmentTurn,
    count: nat,
    whole: nat,
)
    requires
        count <= whole,
        attempts_made(results, source, model, turn, count) is Err,
    ensures
        attempts_made(results, source, model, turn, whole) == attempts_made(
            results,
            source,
            model,
            turn,
            count,
        ),
    decreases whole,
{
    if count < whole {
        lemma_attempts_halt(results, source, model, turn, count, (whole - 1) as nat);
    }
}

/// Whether a worksheet holds all that raising a recruit takes.
pub open spec fn enlistment_supplied(
    results: Map<Operation, u64>,
    source: RecruitmentInput<'_>,
    model: RecruitmentModel,
    turn: RecruitmentTurn,
) -> bool {
    let cost = source.rules.cost;
    let people = recruit_people(turn);
    &&& !turn.economy.capital_held ==> results.contains_key(
        Operation::Product(source.rules.unit_health, real_of(N_0_4)),
    )
    &&& charge_supplied(results, model.treasury_costs, turn.country_id, cost)
    &&& results.contains_key(
        Operation::Difference(toll_of(model.treasuries, turn.country_id), cost),
    )
    &&& results.contains_key(Operation::Integer(people))
    &&& results.contains_key(
        Operation::Difference(side_amount(model.reserves, turn.side), integer(results, people)),
    )
}

/// Whether a worksheet holds all that one attempt takes.
pub open spec fn attempt_supplied(
    results: Map<Operation, u64>,
    source: RecruitmentInput<'_>,
    model: RecruitmentModel,
    turn: RecruitmentTurn,
) -> bool {
    model.draws_used < source.draws@.len() && !turn.chance.le(
        source.draws@[model.draws_used as int],
    ) ==> {
        &&& results.contains_key(Operation::Integer(recruit_people(turn)))
        &&& affordable(results, source, model, turn) ==> {
            let used = model.draws_used + 1;
            let search = spawn_search(
                results,
                *source.territory,
                source.cities@,
                turn.country_id,
                turn.side,
                !turn.economy.capital_held,
                source.draws@,
                used,
            );
            &&& spawn_supplied(
                results,
                *source.territory,
                source.cities@,
                turn.country_id,
                turn.side,
                !turn.economy.capital_held,
                source.draws@,
                used,
            )
            &&& search.site is Some ==> enlistment_supplied(results, source, model, turn)
        }
    }
}

/// Whether a worksheet holds all that several attempts takes.
pub open spec fn attempts_supplied(
    results: Map<Operation, u64>,
    source: RecruitmentInput<'_>,
    model: RecruitmentModel,
    turn: RecruitmentTurn,
    count: nat,
) -> bool {
    forall|k: nat|
        k < count ==> (#[trigger] attempts_made(results, source, model, turn, k) matches Ok(reached)
            ==> attempt_supplied(results, source, reached, turn))
}

/// Whether a worksheet holds all that the recruitment of one country takes.
pub open spec fn slot_supplied(
    results: Map<Operation, u64>,
    source: RecruitmentInput<'_>,
    strengths: Map<u16, Real>,
    model: RecruitmentModel,
    slot: RecruitmentSlot,
) -> bool {
    let economies = source.strategic.economies@;
    let economy = economies[slot.country_id];
    last_aggregate(source.aggregates@, slot.country_id, source.aggregates@.len()) matches Some(
        aggregate,
    ) ==> (first_entry(source.countries@, slot.country_id, 0) matches Some(country) ==> (
    economies.contains_key(slot.country_id) && !economy.capitulated ==> {
        let case = recruitment_case(
            source,
            country,
            aggregate.controlled,
            economy,
            slot.side,
            toll_of(strengths, slot.country_id),
            side_amount(model.reserves, slot.side),
        );
        &&& plan_supplied(results, case, source.config, source.frame)
        &&& recruitment_plan(results, case, source.config, source.frame) matches Some(plan)
            ==> attempts_supplied(
                results,
                source,
                model,
                RecruitmentTurn {
                    country_id: slot.country_id,
                    side: slot.side,
                    economy,
                    chance: plan.chance,
                },
                plan.attempts as nat,
            )
    }))
}

/// Whether a worksheet holds all that weighing countries takes.
pub open spec fn weights_supplied(
    results: Map<Operation, u64>,
    units: Seq<SimulationUnit>,
    strengths: Seq<Real>,
) -> bool {
    forall|k: int|
        0 <= k < units.len() ==> charge_supplied(
            results,
            country_strengths(results, units, strengths, k as nat),
            (#[trigger] units[k]).combat.sovereign as u16,
            strengths[k],
        )
}

/// Whether a worksheet holds all that the recruitment of all countries takes.
pub open spec fn recruitment_supplied(
    results: Map<Operation, u64>,
    source: RecruitmentInput<'_>,
    next_unit_id: u64,
    reserves: Map<usize, Real>,
) -> bool {
    let slots = recruitment_order(source.territory.country_to_side@);
    let strengths = country_strengths(
        results,
        source.units@,
        source.strengths@,
        source.units@.len(),
    );
    let start = recruitment_start(source, next_unit_id, reserves);
    next_unit_id > largest_id(source.units@, source.units@.len()) && sovereigns_fit(source.units@)
        ==> {
        &&& weights_supplied(results, source.units@, source.strengths@)
        &&& slots_supplied(results, source, strengths, start, slots)
    }
}

/// Whether a worksheet holds all that the recruitment of countries in turn takes.
pub open spec fn slots_supplied(
    results: Map<Operation, u64>,
    source: RecruitmentInput<'_>,
    strengths: Map<u16, Real>,
    model: RecruitmentModel,
    slots: Seq<RecruitmentSlot>,
) -> bool {
    forall|k: int|
        0 <= k < slots.len() ==> (slots_recruited(
            results,
            source,
            strengths,
            model,
            slots,
            k as nat,
        ) matches Ok(reached) ==> slot_supplied(
            results,
            source,
            strengths,
            reached,
            #[trigger] slots[k],
        ))
}

fn has_means(
    source: &RecruitmentInput<'_>,
    staging: &RecruitmentStaging,
    turn: RecruitmentTurn,
    people: u64,
    reader: &mut Reader<'_>,
) -> (answer: bool)
    requires
        old(reader).sound(),
        people == recruit_people(turn),
    ensures
        final(reader)@ == old(reader)@,
        final(reader).sound(),
        answer ==> units_of(staging.side_units@, turn.side) < source.config.max_units_per_side,
        final(reader).complete() ==> old(reader).complete() && answer == affordable(
            old(reader)@,
            *source,
            staging@,
            turn,
        ),
        old(reader).complete() && old(reader)@.contains_key(Operation::Integer(people)) ==>
            final(reader).complete(),
{
    broadcast use vstd::std_specs::btree::group_btree_axioms;

    let treasury = match staging.treasuries.get(&turn.country_id) {
        Some(amount) => *amount,
        None => Real::zero(),
    };
    let reserve = match staging.reserves.get(&turn.side) {
        Some(amount) => *amount,
        None => Real::zero(),
    };
    let present: usize = match staging.side_units.get(&turn.side) {
        Some(count) => *count,
        None => 0,
    };
    let wanted = reader.integer(people);
    !Real::one().at_most(turn.economy.arrears_cycles) && !treasury.less(source.rules.cost)
        && !reserve.less(wanted) && present < source.config.max_units_per_side as usize
}

/// The countries of a side.
pub fn list_side_countries(country_to_side: &BTreeMap<u16, usize>, side: usize) -> (members:
    BTreeSet<u16>)
    ensures
        members@ == side_countries(country_to_side@, side),
{
    broadcast use vstd::std_specs::btree::group_btree_axioms;

    let keys = ordered_countries(country_to_side);
    let mut members: BTreeSet<u16> = BTreeSet::new();
    let mut at: usize = 0;
    while at < keys.len()
        invariant
            at <= keys@.len(),
            forall|i: int|
                0 <= i < keys@.len() ==> country_to_side@.contains_key(#[trigger] keys@[i]),
            forall|country: u16|
                #[trigger] members@.contains(country) <==> keys@.take(at as int).contains(country)
                    && country_to_side@[country] == side,
        decreases keys@.len() - at,
    {
        broadcast use vstd::std_specs::btree::group_btree_axioms;

        let country: u16 = keys[at];
        let ghost before = members@;
        if *country_to_side.get(&country).unwrap() == side {
            members.insert(country);
        }
        proof {
            assert(keys@.take(at + 1) =~= keys@.take(at as int).push(country));
            assert forall|other: u16| #[trigger] members@.contains(other) <==> keys@.take(
                at + 1,
            ).contains(other) && country_to_side@[other] == side by {
                crate::order::lemma_push_contains(keys@.take(at as int), country, other);
                assert(before.contains(other) <==> keys@.take(at as int).contains(other)
                    && country_to_side@[other] == side);
            }
        }
        at = at + 1;
    }
    proof {
        assert(keys@.take(keys@.len() as int) =~= keys@);
        assert forall|country: u16| members@.contains(country) == side_countries(
            country_to_side@,
            side,
        ).contains(country) by {
            assert(members@.contains(country) <==> keys@.contains(country)
                && country_to_side@[country] == side);
            if country_to_side@.contains_key(country) {
                assert(keys@.contains(country));
            }
        }
        assert(members@ =~= side_countries(country_to_side@, side));
    }
    members
}

fn is_mountainous(source: &RecruitmentInput<'_>, cell: usize) -> (answer: bool)
    ensures
        answer == mountainous(*source, cell),
{
    match source.mountains {
        Some(terrain) => cell < terrain.len() && Real::from_bits(MOUNTAIN_BITS).less(terrain[cell]),
        None => false,
    }
}

fn make_recruit(
    source: &RecruitmentInput<'_>,
    turn: RecruitmentTurn,
    site: RecruitSite,
    unit_id: u64,
    reader: &mut Reader<'_>,
) -> (unit: SimulationUnit)
    requires
        old(reader).sound(),
    ensures
        final(reader)@ == old(reader)@,
        final(reader).sound(),
        final(reader).complete() ==> old(reader).complete() && unit == recruit_unit(
            old(reader)@,
            *source,
            turn,
            site,
            unit_id,
        ),
        old(reader).complete() && (!turn.economy.capital_held ==> old(reader)@.contains_key(
            Operation::Product(source.rules.unit_health, real_of(N_0_4)),
        )) ==> final(reader).complete(),
{
    let fresh = source.rules.unit_health;
    let health = if turn.economy.capital_held {
        fresh
    } else {
        reader.product(fresh, Real::from_bits(N_0_4))
    };
    SimulationUnit {
        combat: CombatUnit {
            id: unit_id,
            side: turn.side as u64,
            sovereign: turn.country_id as u64,
            kind: UnitKind::Army,
            lat: site.lat,
            lng: site.lng,
            health,
            max_health: fresh,
            personnel: if turn.economy.capital_held {
                1_000
            } else {
                400
            },
            personnel_capacity: 1_000,
            equipment: 0,
            max_equipment: 0,
            quality: Real::from_bits(N_50),
            transport: false,
            armor_supported: false,
            landing_penalty_active: false,
            at_sea: false,
            last_combat_tick: 0,
            victory_boost_ticks: 0,
        },
        dir_lat: Real::zero(),
        dir_lng: Real::zero(),
        coast_stuck_ticks: 0,
        armor_landing_penalty_until_tick: 0,
        is_support: false,
        ally_weight: Real::one(),
    }
}

fn make_recruit_policy(
    source: &RecruitmentInput<'_>,
    turn: RecruitmentTurn,
    unit_id: u64,
    seed: Real,
    resolved: ResolvedCommandPolicy,
    deploy_until_tick: u64,
) -> (policy: RuntimeUnitPolicy)
    requires
        deploy_until_tick == source.tick + RECRUIT_DEPLOY_TICKS,
    ensures
        policy@ == recruit_policy(*source, turn, unit_id, seed, resolved),
{
    let mut policy = RuntimeUnitPolicy::standard(unit_id, turn.country_id, Real::zero());
    policy.ai.deploy_until_tick = deploy_until_tick;
    policy.command = command_from(resolved, source.strategic.cycle);
    let members = list_side_countries(&source.territory.country_to_side, turn.side);
    if let Some(influence) = &mut policy.influence {
        influence.browser_temporal_seed = Some(seed);
        influence.owner_ally_country_ids = members;
    }
    policy
}

fn enlist(
    source: &RecruitmentInput<'_>,
    staging: &mut RecruitmentStaging,
    turn: RecruitmentTurn,
    people: u64,
    site: RecruitSite,
    reader: &mut Reader<'_>,
) -> (outcome: Result<(), RecruitmentHalt>)
    requires
        old(reader).sound(),
        people == recruit_people(turn),
        old(staging).draws_used <= source.draws@.len(),
        units_of(old(staging).side_units@, turn.side) < usize::MAX,
    ensures
        final(reader)@ == old(reader)@,
        final(reader).sound(),
        final(staging).draws_used <= source.draws@.len(),
        final(reader).complete() ==> old(reader).complete() && (match outcome {
            Ok(_) => enlisted(old(reader)@, *source, old(staging)@, turn, site) == Ok::<
                RecruitmentModel,
                RecruitmentHalt,
            >(final(staging)@),
            Err(halt) => enlisted(old(reader)@, *source, old(staging)@, turn, site) == Err::<
                RecruitmentModel,
                RecruitmentHalt,
            >(halt),
        }),
        old(reader).complete() && enlistment_supplied(old(reader)@, *source, old(staging)@, turn) ==>
            final(reader).complete(),
{
    broadcast use vstd::std_specs::btree::group_btree_axioms;

    let ghost before = staging@;
    let ghost old_policies = staging.policies@;
    let mountain = is_mountainous(source, site.cell);
    let needed: usize = if mountain {
        2
    } else {
        1
    };
    let used: usize = staging.draws_used;
    if source.draws.len() - used < needed {
        return Err(RecruitmentHalt::Draws);
    }
    let alpine = mountain && source.draws[used].less(Real::from_bits(N_0_4));
    let seed = source.draws[used + needed - 1];
    let unit_id: u64 = staging.next_unit_id;
    if unit_id == 0xffff_ffff_ffff_ffff {
        return Err(
            RecruitmentHalt::Failed(
                RuntimeError::Reinforcement(ReinforcementError::Overflow("land unit ID")),
            ),
        );
    }
    let resolved: ResolvedCommandPolicy = match source.commands.get(&unit_id) {
        None => {
            return Err(
                RecruitmentHalt::Command(
                    RecruitCommand {
                        unit_id,
                        sovereign_id: turn.country_id,
                        side: turn.side,
                        seed,
                        band: turn.economy.command_band,
                    },
                ),
            );
        },
        Some(Err(fault)) => {
            return Err(RecruitmentHalt::Failed(RuntimeError::Command(*fault)));
        },
        Some(Ok(resolved)) => *resolved,
    };
    let deploy_until_tick: u64 = match source.tick.checked_add(RECRUIT_DEPLOY_TICKS) {
        Some(tick) => tick,
        None => {
            return Err(RecruitmentHalt::Failed(RuntimeError::ClockOverflow));
        },
    };
    let unit = make_recruit(source, turn, site, unit_id, reader);
    staging.units.push(unit);
    let policy = make_recruit_policy(source, turn, unit_id, seed, resolved, deploy_until_tick);
    proof {
        lemma_views_push(old_policies, policy);
    }
    staging.policies.push(policy);
    let mut memory = BattlefieldUnitState::default();
    memory.is_alpenjager = alpine;
    memory.cohesion_seed = seed;
    staging.battlefield_units.insert(unit_id, memory);
    let cost = source.rules.cost;
    let spent = match staging.treasury_costs.get(&turn.country_id) {
        Some(amount) => *amount,
        None => Real::zero(),
    };
    let spent_more = reader.sum(spent, cost);
    staging.treasury_costs.insert(turn.country_id, spent_more);
    let treasury = match staging.treasuries.get(&turn.country_id) {
        Some(amount) => *amount,
        None => Real::zero(),
    };
    let left = reader.difference(treasury, cost);
    staging.treasuries.insert(turn.country_id, left);
    let reserve = match staging.reserves.get(&turn.side) {
        Some(amount) => *amount,
        None => Real::zero(),
    };
    let heads = reader.integer(people);
    let remaining = reader.difference(reserve, heads);
    staging.reserves.insert(turn.side, remaining);
    let present: usize = match staging.side_units.get(&turn.side) {
        Some(count) => *count,
        None => 0,
    };
    staging.side_units.insert(turn.side, present + 1);
    staging.next_unit_id = unit_id + 1;
    staging.draws_used = used + needed;
    staging.recruited_personnel = staging.recruited_personnel.saturating_add(people);
    Ok(())
}

fn attempt(
    source: &RecruitmentInput<'_>,
    staging: &mut RecruitmentStaging,
    turn: RecruitmentTurn,
    reader: &mut Reader<'_>,
) -> (outcome: Result<(), RecruitmentHalt>)
    requires
        old(reader).sound(),
        source.well_formed(),
        old(staging).draws_used <= source.draws@.len(),
    ensures
        final(reader)@ == old(reader)@,
        final(reader).sound(),
        final(staging).draws_used <= source.draws@.len(),
        final(reader).complete() ==> old(reader).complete() && (match outcome {
            Ok(_) => attempted(old(reader)@, *source, old(staging)@, turn) == Ok::<
                RecruitmentModel,
                RecruitmentHalt,
            >(final(staging)@),
            Err(halt) => attempted(old(reader)@, *source, old(staging)@, turn) == Err::<
                RecruitmentModel,
                RecruitmentHalt,
            >(halt),
        }),
        old(reader).complete() && attempt_supplied(old(reader)@, *source, old(staging)@, turn) ==>
            final(reader).complete(),
{
    let used: usize = staging.draws_used;
    if used >= source.draws.len() {
        return Err(RecruitmentHalt::Draws);
    }
    if turn.chance.at_most(source.draws[used]) {
        staging.draws_used = used + 1;
        return Ok(());
    }
    let people: u64 = if turn.economy.capital_held {
        1_000
    } else {
        400
    };
    if !has_means(source, staging, turn, people, reader) {
        staging.draws_used = used + 1;
        return Ok(());
    }
    match recruitment_spawn_cell(
        turn.country_id,
        turn.side,
        !turn.economy.capital_held,
        source.cities,
        source.territory,
        source.draws,
        used + 1,
        reader,
    ) {
        None => Err(RecruitmentHalt::Draws),
        Some((site, after)) => {
            staging.draws_used = after;
            match site {
                None => Ok(()),
                Some(place) => enlist(source, staging, turn, people, place, reader),
            }
        },
    }
}

/// How many of the first cities a country owns.
pub open spec fn owned_cities(cities: Seq<ProductionCity>, country_id: u16, count: nat) -> nat
    decreases count,
{
    if count == 0 {
        0
    } else {
        owned_cities(cities, country_id, (count - 1) as nat) + if cities[count - 1].owner_id
            == country_id {
            1nat
        } else {
            0nat
        }
    }
}

fn count_cities(cities: &Vec<ProductionCity>, country_id: u16) -> (owned: usize)
    ensures
        owned == owned_cities(cities@, country_id, cities@.len()),
{
    let mut owned: usize = 0;
    let mut at: usize = 0;
    while at < cities.len()
        invariant
            owned <= at <= cities@.len(),
            owned == owned_cities(cities@, country_id, at as nat),
        decreases cities@.len() - at,
    {
        if cities[at].owner_id == country_id {
            owned = owned + 1;
        }
        at = at + 1;
    }
    owned
}

/// The first entry of a country from a place on.
pub open spec fn first_entry(
    countries: Seq<ProductionCountry>,
    country_id: u16,
    from: int,
) -> Option<ProductionCountry>
    decreases countries.len() - from,
{
    if from < 0 || from >= countries.len() {
        None
    } else if countries[from].country_id == country_id {
        Some(countries[from])
    } else {
        first_entry(countries, country_id, from + 1)
    }
}

pub(crate) fn find_entry(countries: &Vec<ProductionCountry>, country_id: u16) -> (found: Option<
    usize,
>)
    ensures
        match found {
            Some(at) => at < countries@.len() && first_entry(countries@, country_id, 0) == Some(
                countries@[at as int],
            ),
            None => first_entry(countries@, country_id, 0) is None,
        },
{
    let mut at: usize = 0;
    while at < countries.len()
        invariant
            at <= countries@.len(),
            first_entry(countries@, country_id, 0) == first_entry(
                countries@,
                country_id,
                at as int,
            ),
        decreases countries@.len() - at,
    {
        if countries[at].country_id == country_id {
            return Some(at);
        }
        at = at + 1;
    }
    None
}

/// What a country's recruitment starts from.
pub open spec fn recruitment_case(
    source: RecruitmentInput<'_>,
    country: ProductionCountry,
    controlled: u64,
    economy: EconomyState,
    side: usize,
    strength: Real,
    reserve: Real,
) -> RecruitmentCase {
    let dynamics = match source.dynamics {
        Some(table) => if table@.contains_key(side) {
            Some(table@[side])
        } else {
            None
        },
        None => None,
    };
    RecruitmentCase {
        current_units: strength,
        controlled,
        initial_core_cells: country.initial_core_cells,
        cities: owned_cities(source.cities@, country.country_id, source.cities@.len()) as u64,
        capital_held: economy.capital_held,
        reserve,
        phase: match dynamics {
            Some(state) => state.phase,
            None => WarPhase::Stalemate,
        },
        manpower: match dynamics {
            Some(state) => Some(
                SideManpower { initial: state.initial_personnel, current: state.current_personnel },
            ),
            None => None,
        },
    }
}

/// A country and the side on which it recruits.
#[derive(Clone, Copy, Debug, PartialEq, Eq, Structural)]
pub struct RecruitmentSlot {
    pub side: usize,
    pub country_id: u16,
}

impl Ranked for RecruitmentSlot {
    open spec fn ranks_before(self, other: Self) -> bool {
        self.side < other.side || (self.side == other.side && self.country_id < other.country_id)
    }

    fn is_before(&self, other: &Self) -> (answer: bool) {
        self.side < other.side || (self.side == other.side && self.country_id < other.country_id)
    }
}

/// The order in which countries recruit: by side, then by country.
pub open spec fn recruitment_order(country_to_side: Map<u16, usize>) -> Seq<RecruitmentSlot> {
    let keys = ascending(country_to_side.dom());
    stable_sorted(
        Seq::new(
            keys.len(),
            |i: int| RecruitmentSlot { side: country_to_side[keys[i]], country_id: keys[i] },
        ),
        rank_order::<RecruitmentSlot>(),
    )
}

fn order_recruitment(country_to_side: &BTreeMap<u16, usize>) -> (slots: Vec<RecruitmentSlot>)
    ensures
        slots@ == recruitment_order(country_to_side@),
{
    broadcast use vstd::std_specs::btree::group_btree_axioms;

    let keys = ordered_countries(country_to_side);
    let mut slots: Vec<RecruitmentSlot> = Vec::new();
    let mut at: usize = 0;
    while at < keys.len()
        invariant
            at <= keys@.len(),
            forall|i: int|
                0 <= i < keys@.len() ==> country_to_side@.contains_key(#[trigger] keys@[i]),
            slots@.len() == at,
            forall|i: int|
                0 <= i < at ==> #[trigger] slots@[i] == (RecruitmentSlot {
                    side: country_to_side@[keys@[i]],
                    country_id: keys@[i],
                }),
        decreases keys@.len() - at,
    {
        broadcast use vstd::std_specs::btree::group_btree_axioms;

        let country: u16 = keys[at];
        let side: usize = *country_to_side.get(&country).unwrap();
        slots.push(RecruitmentSlot { side, country_id: country });
        at = at + 1;
    }
    assert(slots@ =~= Seq::new(
        keys@.len(),
        |i: int| RecruitmentSlot { side: country_to_side@[keys@[i]], country_id: keys@[i] },
    ));
    sort_stable(slots)
}

/// One country recruits.
pub open spec fn slot_recruited(
    results: Map<Operation, u64>,
    source: RecruitmentInput<'_>,
    strengths: Map<u16, Real>,
    model: RecruitmentModel,
    slot: RecruitmentSlot,
) -> Result<RecruitmentModel, RecruitmentHalt> {
    let economies = source.strategic.economies@;
    match last_aggregate(source.aggregates@, slot.country_id, source.aggregates@.len()) {
        None => Ok(model),
        Some(aggregate) => match first_entry(source.countries@, slot.country_id, 0) {
            None => Err(
                RecruitmentHalt::Failed(
                    RuntimeError::InvalidCheckpoint("recruitment country is absent from production"),
                ),
            ),
            Some(country) => if !economies.contains_key(slot.country_id) {
                Err(
                    RecruitmentHalt::Failed(
                        RuntimeError::InvalidCheckpoint("recruitment country has no economy"),
                    ),
                )
            } else if economies[slot.country_id].capitulated {
                Ok(model)
            } else {
                let economy = economies[slot.country_id];
                match recruitment_plan(
                    results,
                    recruitment_case(
                        source,
                        country,
                        aggregate.controlled,
                        economy,
                        slot.side,
                        toll_of(strengths, slot.country_id),
                        side_amount(model.reserves, slot.side),
                    ),
                    source.config,
                    source.frame,
                ) {
                    None => Ok(model),
                    Some(plan) => attempts_made(
                        results,
                        source,
                        model,
                        RecruitmentTurn {
                            country_id: slot.country_id,
                            side: slot.side,
                            economy,
                            chance: plan.chance,
                        },
                        plan.attempts as nat,
                    ),
                }
            },
        },
    }
}

/// The first countries recruit.
pub open spec fn slots_recruited(
    results: Map<Operation, u64>,
    source: RecruitmentInput<'_>,
    strengths: Map<u16, Real>,
    model: RecruitmentModel,
    slots: Seq<RecruitmentSlot>,
    count: nat,
) -> Result<RecruitmentModel, RecruitmentHalt>
    decreases count,
{
    if count == 0 {
        Ok(model)
    } else {
        match slots_recruited(results, source, strengths, model, slots, (count - 1) as nat) {
            Err(halt) => Err(halt),
            Ok(reached) => slot_recruited(results, source, strengths, reached, slots[count - 1]),
        }
    }
}

proof fn lemma_slots_halt(
    results: Map<Operation, u64>,
    source: RecruitmentInput<'_>,
    strengths: Map<u16, Real>,
    model: RecruitmentModel,
    slots: Seq<RecruitmentSlot>,
    count: nat,
    whole: nat,
)
    requires
        count <= whole,
        slots_recruited(results, source, strengths, model, slots, count) is Err,
    ensures
        slots_recruited(results, source, strengths, model, slots, whole) == slots_recruited(
            results,
            source,
            strengths,
            model,
            slots,
            count,
        ),
    decreases whole,
{
    if count < whole {
        lemma_slots_halt(results, source, strengths, model, slots, count, (whole - 1) as nat);
    }
}

fn try_repeatedly(
    source: &RecruitmentInput<'_>,
    staging: &mut RecruitmentStaging,
    turn: RecruitmentTurn,
    attempts: u32,
    reader: &mut Reader<'_>,
) -> (outcome: Result<(), RecruitmentHalt>)
    requires
        old(reader).sound(),
        source.well_formed(),
        old(staging).draws_used <= source.draws@.len(),
    ensures
        final(reader)@ == old(reader)@,
        final(reader).sound(),
        final(staging).draws_used <= source.draws@.len(),
        final(reader).complete() ==> old(reader).complete() && (match outcome {
            Ok(_) => attempts_made(
                old(reader)@,
                *source,
                old(staging)@,
                turn,
                attempts as nat,
            ) == Ok::<RecruitmentModel, RecruitmentHalt>(final(staging)@),
            Err(halt) => attempts_made(
                old(reader)@,
                *source,
                old(staging)@,
                turn,
                attempts as nat,
            ) == Err::<RecruitmentModel, RecruitmentHalt>(halt),
        }),
        old(reader).complete() && attempts_supplied(
            old(reader)@,
            *source,
            old(staging)@,
            turn,
            attempts as nat,
        ) ==> final(reader).complete(),
{
    let ghost results = reader@;
    let ghost untouched = reader.complete();
    let ghost before = staging@;
    let mut made: u32 = 0;
    while made < attempts
        invariant
            made <= attempts,
            source.well_formed(),
            staging.draws_used <= source.draws@.len(),
            results == old(reader)@,
            untouched == old(reader).complete(),
            before == old(staging)@,
            reader@ == results,
            reader.sound(),
            reader.complete() ==> untouched && attempts_made(
                results,
                *source,
                before,
                turn,
                made as nat,
            ) == Ok::<RecruitmentModel, RecruitmentHalt>(staging@),
            untouched && attempts_supplied(results, *source, before, turn, attempts as nat)
                ==> reader.complete(),
        decreases attempts - made,
    {
        match attempt(source, staging, turn, reader) {
            Ok(_) => {},
            Err(halt) => {
                proof {
                    if reader.complete() {
                        lemma_attempts_halt(
                            results,
                            *source,
                            before,
                            turn,
                            (made + 1) as nat,
                            attempts as nat,
                        );
                    }
                }
                return Err(halt);
            },
        }
        made = made + 1;
    }
    Ok(())
}

fn recruit_slot(
    source: &RecruitmentInput<'_>,
    strengths: &BTreeMap<u16, Real>,
    staging: &mut RecruitmentStaging,
    slot: RecruitmentSlot,
    reader: &mut Reader<'_>,
) -> (outcome: Result<(), RecruitmentHalt>)
    requires
        old(reader).sound(),
        source.well_formed(),
        old(staging).draws_used <= source.draws@.len(),
    ensures
        final(reader)@ == old(reader)@,
        final(reader).sound(),
        final(staging).draws_used <= source.draws@.len(),
        final(reader).complete() ==> old(reader).complete() && (match outcome {
            Ok(_) => slot_recruited(
                old(reader)@,
                *source,
                strengths@,
                old(staging)@,
                slot,
            ) == Ok::<RecruitmentModel, RecruitmentHalt>(final(staging)@),
            Err(halt) => slot_recruited(
                old(reader)@,
                *source,
                strengths@,
                old(staging)@,
                slot,
            ) == Err::<RecruitmentModel, RecruitmentHalt>(halt),
        }),
        old(reader).complete() && slot_supplied(
            old(reader)@,
            *source,
            strengths@,
            old(staging)@,
            slot,
        ) ==> final(reader).complete(),
{
    broadcast use vstd::std_specs::btree::group_btree_axioms;

    let country_id: u16 = slot.country_id;
    let controlled: u64 = match find_aggregate(source.aggregates, country_id) {
        None => {
            return Ok(());
        },
        Some(place) => source.aggregates[place].controlled,
    };
    let place: usize = match find_entry(source.countries, country_id) {
        None => {
            return Err(
                RecruitmentHalt::Failed(
                    RuntimeError::InvalidCheckpoint("recruitment country is absent from production"),
                ),
            );
        },
        Some(place) => place,
    };
    proof {
        lemma_entry_named(source.countries@, country_id, 0);
    }
    let economy: EconomyState = match source.strategic.economies.get(&country_id) {
        None => {
            return Err(
                RecruitmentHalt::Failed(
                    RuntimeError::InvalidCheckpoint("recruitment country has no economy"),
                ),
            );
        },
        Some(economy) => *economy,
    };
    if economy.capitulated {
        return Ok(());
    }
    let current_units = match strengths.get(&country_id) {
        Some(strength) => *strength,
        None => Real::zero(),
    };
    let reserve = match staging.reserves.get(&slot.side) {
        Some(amount) => *amount,
        None => Real::zero(),
    };
    let dynamics: Option<SideDynamics> = match source.dynamics {
        Some(table) => match table.get(&slot.side) {
            Some(state) => Some(*state),
            None => None,
        },
        None => None,
    };
    let case = RecruitmentCase {
        current_units,
        controlled,
        initial_core_cells: source.countries[place].initial_core_cells,
        cities: count_cities(source.cities, country_id) as u64,
        capital_held: economy.capital_held,
        reserve,
        phase: match dynamics {
            Some(state) => state.phase,
            None => WarPhase::Stalemate,
        },
        manpower: match dynamics {
            Some(state) => Some(
                SideManpower { initial: state.initial_personnel, current: state.current_personnel },
            ),
            None => None,
        },
    };
    match plan_recruitment(case, &source.config, source.frame, reader) {
        None => Ok(()),
        Some(plan) => {
            // Without the true odds the draws would not be the country's own.
            if !reader.is_complete() {
                return Ok(());
            }
            try_repeatedly(
                source,
                staging,
                RecruitmentTurn { country_id, side: slot.side, economy, chance: plan.chance },
                plan.attempts,
                reader,
            )
        },
    }
}

proof fn lemma_entry_named(countries: Seq<ProductionCountry>, country_id: u16, from: int)
    requires
        0 <= from,
    ensures
        first_entry(countries, country_id, from) matches Some(country) ==> country.country_id
            == country_id,
    decreases countries.len() - from,
{
    if from < countries.len() && countries[from].country_id != country_id {
        lemma_entry_named(countries, country_id, from + 1);
    }
}

/// The largest id among the first formations, or zero.
pub open spec fn largest_id(units: Seq<SimulationUnit>, count: nat) -> u64
    decreases count,
{
    if count == 0 {
        0
    } else {
        let rest = largest_id(units, (count - 1) as nat);
        if units[count - 1].combat.id > rest {
            units[count - 1].combat.id
        } else {
            rest
        }
    }
}

pub(crate) fn find_largest_id(units: &Vec<SimulationUnit>) -> (largest: u64)
    ensures
        largest == largest_id(units@, units@.len()),
{
    let mut largest: u64 = 0;
    let mut at: usize = 0;
    while at < units.len()
        invariant
            at <= units@.len(),
            largest == largest_id(units@, at as nat),
        decreases units@.len() - at,
    {
        if units[at].combat.id > largest {
            largest = units[at].combat.id;
        }
        at = at + 1;
    }
    largest
}

/// Whether every formation belongs to a country that can have an economy.
pub open spec fn sovereigns_fit(units: Seq<SimulationUnit>) -> bool {
    forall|i: int| 0 <= i < units.len() ==> (#[trigger] units[i]).combat.sovereign <= u16::MAX
}

/// Strength of each country's formations among the first.
pub open spec fn country_strengths(
    results: Map<Operation, u64>,
    units: Seq<SimulationUnit>,
    strengths: Seq<Real>,
    count: nat,
) -> Map<u16, Real>
    decreases count,
{
    if count == 0 {
        Map::empty()
    } else {
        charged(
            results,
            country_strengths(results, units, strengths, (count - 1) as nat),
            units[count - 1].combat.sovereign as u16,
            strengths[count - 1],
        )
    }
}

/// How many of the first formations each side has.
pub open spec fn side_unit_counts(units: Seq<SimulationUnit>, count: nat) -> Map<usize, usize>
    decreases count,
{
    if count == 0 {
        Map::empty()
    } else {
        let rest = side_unit_counts(units, (count - 1) as nat);
        let side = units[count - 1].combat.side as usize;
        rest.insert(side, (units_of(rest, side) + 1) as usize)
    }
}

fn weigh_countries(
    units: &Vec<SimulationUnit>,
    strengths: &Vec<Real>,
    reader: &mut Reader<'_>,
) -> (weights: BTreeMap<u16, Real>)
    requires
        old(reader).sound(),
        strengths@.len() == units@.len(),
    ensures
        final(reader)@ == old(reader)@,
        final(reader).sound(),
        final(reader).complete() ==> old(reader).complete() && weights@ == country_strengths(
            old(reader)@,
            units@,
            strengths@,
            units@.len(),
        ),
        old(reader).complete() && weights_supplied(old(reader)@, units@, strengths@) ==>
            final(reader).complete(),
{
    broadcast use vstd::std_specs::btree::group_btree_axioms;

    let ghost results = reader@;
    let ghost untouched = reader.complete();
    let mut weights: BTreeMap<u16, Real> = BTreeMap::new();
    let mut at: usize = 0;
    while at < units.len()
        invariant
            at <= units@.len(),
            strengths@.len() == units@.len(),
            reader@ == results,
            reader.sound(),
            reader.complete() ==> untouched && weights@ == country_strengths(
                results,
                units@,
                strengths@,
                at as nat,
            ),
            untouched && weights_supplied(results, units@, strengths@) ==> reader.complete(),
        decreases units@.len() - at,
    {
        broadcast use vstd::std_specs::btree::group_btree_axioms;

        let country: u16 = units[at].combat.sovereign as u16;
        let present = match weights.get(&country) {
            Some(amount) => *amount,
            None => Real::zero(),
        };
        let total = reader.sum(present, strengths[at]);
        weights.insert(country, total);
        at = at + 1;
    }
    weights
}

fn count_side_units(units: &Vec<SimulationUnit>) -> (counts: BTreeMap<usize, usize>)
    ensures
        counts@ == side_unit_counts(units@, units@.len()),
{
    broadcast use vstd::std_specs::btree::group_btree_axioms;

    let mut counts: BTreeMap<usize, usize> = BTreeMap::new();
    let mut at: usize = 0;
    while at < units.len()
        invariant
            at <= units@.len(),
            counts@ == side_unit_counts(units@, at as nat),
            forall|side: usize|
                #[trigger] counts@.contains_key(side) ==> counts@[side] <= at,
        decreases units@.len() - at,
    {
        broadcast use vstd::std_specs::btree::group_btree_axioms;

        let side: usize = units[at].combat.side as usize;
        let ghost before = counts@;
        let present: usize = match counts.get(&side) {
            Some(count) => *count,
            None => 0,
        };
        counts.insert(side, present + 1);
        assert forall|other: usize| #[trigger] counts@.contains_key(other) implies counts@[other]
            <= at + 1 by {
            if other != side {
                assert(before.contains_key(other));
            }
        }
        at = at + 1;
    }
    counts
}

/// The treasuries of the economies.
pub open spec fn treasuries_of(economies: Map<u16, EconomyState>) -> Map<u16, Real> {
    economies.map_values(|economy: EconomyState| economy.treasury)
}

fn list_treasuries(economies: &BTreeMap<u16, EconomyState>) -> (treasuries: BTreeMap<u16, Real>)
    ensures
        treasuries@ == treasuries_of(economies@),
{
    broadcast use vstd::std_specs::btree::group_btree_axioms;

    let keys = ordered_countries(economies);
    let mut treasuries: BTreeMap<u16, Real> = BTreeMap::new();
    let mut at: usize = 0;
    while at < keys.len()
        invariant
            at <= keys@.len(),
            forall|i: int| 0 <= i < keys@.len() ==> economies@.contains_key(#[trigger] keys@[i]),
            forall|country: u16|
                #[trigger] treasuries@.contains_key(country) <==> keys@.take(at as int).contains(
                    country,
                ),
            forall|country: u16| #[trigger]
                treasuries@.contains_key(country) ==> treasuries@[country]
                    == economies@[country].treasury,
        decreases keys@.len() - at,
    {
        broadcast use vstd::std_specs::btree::group_btree_axioms;

        let country: u16 = keys[at];
        let ghost before = treasuries@;
        let treasury = economies.get(&country).unwrap().treasury;
        treasuries.insert(country, treasury);
        proof {
            assert(keys@.take(at + 1) =~= keys@.take(at as int).push(country));
            assert forall|other: u16| #[trigger]
                treasuries@.contains_key(other) <==> keys@.take(at + 1).contains(other) by {
                crate::order::lemma_push_contains(keys@.take(at as int), country, other);
                assert(before.contains_key(other) <==> keys@.take(at as int).contains(other));
            }
            assert forall|other: u16| #[trigger] treasuries@.contains_key(other) implies
                treasuries@[other] == economies@[other].treasury by {
                if other != country {
                    assert(before.contains_key(other));
                }
            }
        }
        at = at + 1;
    }
    proof {
        assert(keys@.take(keys@.len() as int) =~= keys@);
        assert forall|country: u16| #[trigger] treasuries@.contains_key(country) <==> economies@.contains_key(
            country,
        ) by {
            if economies@.contains_key(country) {
                assert(keys@.contains(country));
            }
        }
        assert(treasuries@ =~= treasuries_of(economies@));
    }
    treasuries
}

/// How recruitment starts.
pub open spec fn recruitment_start(
    source: RecruitmentInput<'_>,
    next_unit_id: u64,
    reserves: Map<usize, Real>,
) -> RecruitmentModel {
    RecruitmentModel {
        units: Seq::empty(),
        policies: Seq::empty(),
        battlefield_units: Map::empty(),
        treasury_costs: Map::empty(),
        treasuries: treasuries_of(source.strategic.economies@),
        reserves,
        side_units: side_unit_counts(source.units@, source.units@.len()),
        next_unit_id,
        draws_used: 0,
        recruited_personnel: 0,
    }
}

/// What recruitment comes to.
pub open spec fn recruited(
    results: Map<Operation, u64>,
    source: RecruitmentInput<'_>,
    next_unit_id: u64,
    reserves: Map<usize, Real>,
) -> Result<RecruitmentModel, RecruitmentHalt> {
    let slots = recruitment_order(source.territory.country_to_side@);
    if next_unit_id <= largest_id(source.units@, source.units@.len()) {
        Err(
            RecruitmentHalt::Failed(
                RuntimeError::InvalidCheckpoint(
                    "reinforcement next unit ID does not exceed live units",
                ),
            ),
        )
    } else if !sovereigns_fit(source.units@) {
        Err(RecruitmentHalt::Failed(RuntimeError::InvalidCheckpoint("invalid unit sovereign")))
    } else {
        slots_recruited(
            results,
            source,
            country_strengths(results, source.units@, source.strengths@, source.units@.len()),
            recruitment_start(source, next_unit_id, reserves),
            slots,
            slots.len(),
        )
    }
}

fn check_sovereigns(units: &Vec<SimulationUnit>) -> (answer: bool)
    ensures
        answer == sovereigns_fit(units@),
{
    let mut at: usize = 0;
    while at < units.len()
        invariant
            at <= units@.len(),
            forall|i: int| 0 <= i < at ==> (#[trigger] units@[i]).combat.sovereign <= u16::MAX,
        decreases units@.len() - at,
    {
        if units[at].combat.sovereign > 0xffff {
            return false;
        }
        at = at + 1;
    }
    true
}

/// Lets every country recruit. The result holds the recruits, what they cost, what is left of the
/// reserves, and the next free id; nothing is changed until the caller commits it.
pub fn stage_recruitment(
    source: &RecruitmentInput<'_>,
    next_unit_id: u64,
    reserves: &BTreeMap<usize, Real>,
    sheet: &Worksheet,
) -> (outcome: Result<RecruitmentStaging, Stop<RecruitmentHalt>>)
    requires
        source.well_formed(),
    ensures
        match outcome {
            Ok(staging) => recruited(sheet@, *source, next_unit_id, reserves@) == Ok::<
                RecruitmentModel,
                RecruitmentHalt,
            >(staging@),
            Err(Stop::Failed(halt)) => recruited(sheet@, *source, next_unit_id, reserves@)
                == Err::<RecruitmentModel, RecruitmentHalt>(halt),
            Err(Stop::Missing(missing)) => {
            &&& missing@.len() > 0
            &&& all_missing(missing@, sheet@)
            &&& !recruitment_supplied(sheet@, *source, next_unit_id, reserves@)
        },
        },
{
    if next_unit_id <= find_largest_id(source.units) {
        return Err(
            Stop::Failed(
                RecruitmentHalt::Failed(
                    RuntimeError::InvalidCheckpoint(
                        "reinforcement next unit ID does not exceed live units",
                    ),
                ),
            ),
        );
    }
    if !check_sovereigns(source.units) {
        return Err(
            Stop::Failed(
                RecruitmentHalt::Failed(RuntimeError::InvalidCheckpoint("invalid unit sovereign")),
            ),
        );
    }
    let mut reader = sheet.reader();
    let ghost results = sheet@;
    let strengths = weigh_countries(source.units, source.strengths, &mut reader);
    let slots = order_recruitment(&source.territory.country_to_side);
    let mut staging = RecruitmentStaging {
        units: Vec::new(),
        policies: Vec::new(),
        battlefield_units: BTreeMap::new(),
        treasury_costs: BTreeMap::new(),
        treasuries: list_treasuries(&source.strategic.economies),
        reserves: reserves.clone(),
        side_units: count_side_units(source.units),
        next_unit_id,
        draws_used: 0,
        recruited_personnel: 0,
    };
    let ghost start = recruitment_start(*source, next_unit_id, reserves@);
    assert(views(staging.policies@) =~= Seq::<PolicyModel>::empty());
    assert(staging.units@ =~= Seq::<SimulationUnit>::empty());
    assert(staging@ == start);
    let mut at: usize = 0;
    while at < slots.len()
        invariant
            at <= slots@.len(),
            source.well_formed(),
            staging.draws_used <= source.draws@.len(),
            results == sheet@,
            reader@ == results,
            reader.sound(),
            next_unit_id > largest_id(source.units@, source.units@.len()),
            sovereigns_fit(source.units@),
            slots@ == recruitment_order(source.territory.country_to_side@),
            start == recruitment_start(*source, next_unit_id, reserves@),
            reader.complete() ==> strengths@ == country_strengths(
                results,
                source.units@,
                source.strengths@,
                source.units@.len(),
            ) && slots_recruited(results, *source, strengths@, start, slots@, at as nat) == Ok::<
                RecruitmentModel,
                RecruitmentHalt,
            >(staging@),
            recruitment_supplied(results, *source, next_unit_id, reserves@)
                ==> reader.complete() && slots_supplied(results, *source, strengths@, start, slots@),
        decreases slots@.len() - at,
    {
        match recruit_slot(source, &strengths, &mut staging, slots[at], &mut reader) {
            Ok(_) => {},
            Err(halt) => {
                if reader.is_complete() {
                    proof {
                        lemma_slots_halt(
                            results,
                            *source,
                            strengths@,
                            start,
                            slots@,
                            (at + 1) as nat,
                            slots@.len(),
                        );
                    }
                    return Err(Stop::Failed(halt));
                }
            },
        }
        at = at + 1;
    }
    if !reader.is_complete() {
        return Err(Stop::Missing(reader.into_missing()));
    }
    Ok(staging)
}

/// What holds of the recruits at any time.
pub open spec fn recruits_in_line(model: RecruitmentModel, first_id: u64) -> bool {
    &&& model.policies.len() == model.units.len()
    &&& model.next_unit_id == first_id + model.units.len()
    &&& forall|i: int|
        0 <= i < model.units.len() ==> (#[trigger] model.units[i]).combat.id == first_id + i
            && model.policies[i].unit_id == first_id + i && model.battlefield_units.contains_key(
            (first_id + i) as u64,
        )
    &&& forall|id: u64| #[trigger]
        model.battlefield_units.contains_key(id) ==> first_id <= id < first_id + model.units.len()
}

proof fn lemma_attempt_in_line(
    results: Map<Operation, u64>,
    source: RecruitmentInput<'_>,
    model: RecruitmentModel,
    turn: RecruitmentTurn,
    first_id: u64,
)
    requires
        recruits_in_line(model, first_id),
    ensures
        attempted(results, source, model, turn) matches Ok(after) ==> recruits_in_line(
            after,
            first_id,
        ) && (forall|side: usize|
            units_of(model.side_units, side) <= source.config.max_units_per_side ==> #[trigger]
                units_of(after.side_units, side) <= source.config.max_units_per_side),
{
}

proof fn lemma_attempts_in_line(
    results: Map<Operation, u64>,
    source: RecruitmentInput<'_>,
    model: RecruitmentModel,
    turn: RecruitmentTurn,
    count: nat,
    first_id: u64,
)
    requires
        recruits_in_line(model, first_id),
    ensures
        attempts_made(results, source, model, turn, count) matches Ok(after) ==> recruits_in_line(
            after,
            first_id,
        ) && (forall|side: usize|
            units_of(model.side_units, side) <= source.config.max_units_per_side ==> #[trigger]
                units_of(after.side_units, side) <= source.config.max_units_per_side),
    decreases count,
{
    if count > 0 {
        lemma_attempts_in_line(results, source, model, turn, (count - 1) as nat, first_id);
        if let Ok(reached) = attempts_made(results, source, model, turn, (count - 1) as nat) {
            lemma_attempt_in_line(results, source, reached, turn, first_id);
        }
    }
}

proof fn lemma_slots_in_line(
    results: Map<Operation, u64>,
    source: RecruitmentInput<'_>,
    strengths: Map<u16, Real>,
    model: RecruitmentModel,
    slots: Seq<RecruitmentSlot>,
    count: nat,
    first_id: u64,
)
    requires
        recruits_in_line(model, first_id),
    ensures
        slots_recruited(results, source, strengths, model, slots, count) matches Ok(after)
            ==> recruits_in_line(after, first_id) && (forall|side: usize|
            units_of(model.side_units, side) <= source.config.max_units_per_side ==> #[trigger]
                units_of(after.side_units, side) <= source.config.max_units_per_side),
    decreases count,
{
    if count > 0 {
        lemma_slots_in_line(
            results,
            source,
            strengths,
            model,
            slots,
            (count - 1) as nat,
            first_id,
        );
        if let Ok(reached) = slots_recruited(
            results,
            source,
            strengths,
            model,
            slots,
            (count - 1) as nat,
        ) {
            let slot = slots[count - 1];
            let economy = source.strategic.economies@[slot.country_id];
            let case = recruitment_case(
                source,
                first_entry(source.countries@, slot.country_id, 0)->0,
                last_aggregate(
                    source.aggregates@,
                    slot.country_id,
                    source.aggregates@.len(),
                )->0.controlled,
                economy,
                slot.side,
                toll_of(strengths, slot.country_id),
                side_amount(reached.reserves, slot.side),
            );
            let plan = recruitment_plan(results, case, source.config, source.frame);
            if plan is Some {
                lemma_attempts_in_line(
                    results,
                    source,
                    reached,
                    RecruitmentTurn {
                        country_id: slot.country_id,
                        side: slot.side,
                        economy,
                        chance: plan->0.chance,
                    },
                    plan->0.attempts as nat,
                    first_id,
                );
            }
        }
    }
}

/// Recruits get consecutive ids that no formation has had, each with its own policy and memory;
/// and no side that kept to its limit exceeds it.
pub proof fn recruits_are_new_and_within_limits(
    results: Map<Operation, u64>,
    source: RecruitmentInput<'_>,
    next_unit_id: u64,
    reserves: Map<usize, Real>,
)
    ensures
        recruited(results, source, next_unit_id, reserves) matches Ok(after) ==> {
            &&& recruits_in_line(after, next_unit_id)
            &&& forall|i: int, j: int|
                0 <= i < source.units@.len() && 0 <= j < after.units.len()
                    ==> #[trigger] source.units@[i].combat.id < #[trigger] after.units[j].combat.id
            &&& forall|side: usize|
                units_of(side_unit_counts(source.units@, source.units@.len()), side)
                    <= source.config.max_units_per_side ==> #[trigger] units_of(
                    after.side_units,
                    side,
                ) <= source.config.max_units_per_side
        },
{
    let slots = recruitment_order(source.territory.country_to_side@);
    let start = recruitment_start(source, next_unit_id, reserves);
    assert(recruits_in_line(start, next_unit_id));
    lemma_slots_in_line(
        results,
        source,
        country_strengths(results, source.units@, source.strengths@, source.units@.len()),
        start,
        slots,
        slots.len(),
        next_unit_id,
    );
    assert forall|i: int| 0 <= i < source.units@.len() implies #[trigger] source.units@[i].combat.id
        <= largest_id(source.units@, source.units@.len()) by {
        lemma_largest(source.units@, source.units@.len(), i);
    }
}

pub proof fn lemma_largest(units: Seq<SimulationUnit>, count: nat, at: int)
    requires
        0 <= at < count <= units.len(),
    ensures
        units[at].combat.id <= largest_id(units, count),
    decreases count,
{
    if at < count - 1 {
        lemma_largest(units, (count - 1) as nat, at);
    }
}

/// What one attempt to raise a formation may do to the means of a side: nothing, or one formation
/// is raised for people that the side has and money that the country has.
pub open spec fn means_used(
    results: Map<Operation, u64>,
    source: RecruitmentInput<'_>,
    before: RecruitmentModel,
    turn: RecruitmentTurn,
    after: RecruitmentModel,
) -> bool {
    let people = recruit_people(turn);
    if after.units == before.units {
        &&& after == (RecruitmentModel { draws_used: after.draws_used, ..before })
    } else {
        &&& affordable(results, source, before, turn)
        &&& after.units.len() == before.units.len() + 1
        &&& after.policies.len() == before.policies.len() + 1
        &&& after.units.drop_last() == before.units
        &&& after.units.last().combat.sovereign == turn.country_id
        &&& after.reserves == before.reserves.insert(
            turn.side,
            difference(
                results,
                side_amount(before.reserves, turn.side),
                integer(results, people),
            ),
        )
        &&& after.recruited_personnel == (if before.recruited_personnel + people > u64::MAX {
            u64::MAX as int
        } else {
            before.recruited_personnel + people
        })
    }
}

/// An attempt takes from the reserve of its side exactly the people that it raises, and only if the
/// side has them; other sides keep theirs.
pub proof fn an_attempt_takes_what_it_raises(
    results: Map<Operation, u64>,
    source: RecruitmentInput<'_>,
    model: RecruitmentModel,
    turn: RecruitmentTurn,
)
    ensures
        attempted(results, source, model, turn) matches Ok(after) ==> means_used(
            results,
            source,
            model,
            turn,
            after,
        ),
        attempted(results, source, model, turn) matches Ok(after) ==> forall|side: usize|
            side != turn.side ==> #[trigger] side_amount(after.reserves, side) == side_amount(
                model.reserves,
                side,
            ),
{
    if let Ok(after) = attempted(results, source, model, turn) {
        if after.units.len() == model.units.len() + 1 {
            assert(after.units.drop_last() =~= model.units);
        }
    }
}

/// A country that owes its men a cycle of pay raises nothing, however often it tries.
pub proof fn unpaid_countries_raise_nothing(
    results: Map<Operation, u64>,
    source: RecruitmentInput<'_>,
    model: RecruitmentModel,
    turn: RecruitmentTurn,
    count: nat,
)
    requires
        real_of(ONE_BITS).le(turn.economy.arrears_cycles),
    ensures
        attempts_made(results, source, model, turn, count) matches Ok(after) ==> after == (
        RecruitmentModel { draws_used: after.draws_used, ..model }),
    decreases count,
{
    if count > 0 {
        unpaid_countries_raise_nothing(results, source, model, turn, (count - 1) as nat);
    }
}

/// A country that capitulated raises nothing.
pub proof fn capitulated_countries_raise_nothing(
    results: Map<Operation, u64>,
    source: RecruitmentInput<'_>,
    strengths: Map<u16, Real>,
    model: RecruitmentModel,
    slot: RecruitmentSlot,
)
    requires
        source.strategic.economies@.contains_key(slot.country_id),
        source.strategic.economies@[slot.country_id].capitulated,
    ensures
        slot_recruited(results, source, strengths, model, slot) matches Ok(after) ==> after
            == model,
{
}

/// What is left of a side's reserve after the first recruits, one by one.
pub open spec fn reserve_left(
    results: Map<Operation, u64>,
    reserve: Real,
    recruits: Seq<SimulationUnit>,
    side: usize,
    count: nat,
) -> Real
    decreases count,
{
    if count == 0 {
        reserve
    } else {
        let left = reserve_left(results, reserve, recruits, side, (count - 1) as nat);
        if recruits[count - 1].combat.side == side {
            difference(results, left, integer(results, recruits[count - 1].combat.personnel))
        } else {
            left
        }
    }
}

/// Whether a country may raise formations: it still fights, and owes its men less than a cycle of
/// pay.
pub open spec fn may_recruit(source: RecruitmentInput<'_>, country: u64) -> bool {
    &&& country <= u16::MAX
    &&& source.strategic.economies@.contains_key(country as u16)
    &&& !source.strategic.economies@[country as u16].capitulated
    &&& !real_of(ONE_BITS).le(source.strategic.economies@[country as u16].arrears_cycles)
}

/// What recruits cost: every side's reserve falls by the men of its recruits, and every recruit
/// belongs to a country that may recruit.
pub open spec fn recruits_paid_for(
    results: Map<Operation, u64>,
    source: RecruitmentInput<'_>,
    reserves: Map<usize, Real>,
    model: RecruitmentModel,
) -> bool {
    &&& forall|side: usize| #[trigger]
        side_amount(model.reserves, side) == reserve_left(
            results,
            side_amount(reserves, side),
            model.units,
            side,
            model.units.len(),
        )
    &&& forall|i: int|
        0 <= i < model.units.len() ==> may_recruit(
            source,
            (#[trigger] model.units[i]).combat.sovereign,
        )
}

proof fn lemma_left_prefix(
    results: Map<Operation, u64>,
    reserve: Real,
    recruits: Seq<SimulationUnit>,
    recruit: SimulationUnit,
    side: usize,
    count: nat,
)
    requires
        count <= recruits.len(),
    ensures
        reserve_left(results, reserve, recruits.push(recruit), side, count) == reserve_left(
            results,
            reserve,
            recruits,
            side,
            count,
        ),
    decreases count,
{
    if count > 0 {
        lemma_left_prefix(results, reserve, recruits, recruit, side, (count - 1) as nat);
        assert(recruits.push(recruit)[count - 1] == recruits[count - 1]);
    }
}

proof fn lemma_attempt_paid(
    results: Map<Operation, u64>,
    source: RecruitmentInput<'_>,
    reserves: Map<usize, Real>,
    model: RecruitmentModel,
    turn: RecruitmentTurn,
)
    requires
        recruits_paid_for(results, source, reserves, model),
        source.strategic.economies@.contains_key(turn.country_id),
        source.strategic.economies@[turn.country_id] == turn.economy,
        !turn.economy.capitulated,
    ensures
        attempted(results, source, model, turn) matches Ok(after) ==> recruits_paid_for(
            results,
            source,
            reserves,
            after,
        ),
{
    if let Ok(after) = attempted(results, source, model, turn) {
        if after.units != model.units {
            let recruit = after.units.last();
            assert(after.units =~= model.units.push(recruit));
            assert(after.reserves =~= model.reserves.insert(
                turn.side,
                difference(
                    results,
                    side_amount(model.reserves, turn.side),
                    integer(results, recruit_people(turn)),
                ),
            ));
            assert forall|side: usize| #[trigger]
                side_amount(after.reserves, side) == reserve_left(
                    results,
                    side_amount(reserves, side),
                    after.units,
                    side,
                    after.units.len(),
                ) by {
                lemma_left_prefix(
                    results,
                    side_amount(reserves, side),
                    model.units,
                    recruit,
                    side,
                    model.units.len(),
                );
                assert(side_amount(model.reserves, side) == reserve_left(
                    results,
                    side_amount(reserves, side),
                    model.units,
                    side,
                    model.units.len(),
                ));
            }
            assert forall|i: int| 0 <= i < after.units.len() implies may_recruit(
                source,
                (#[trigger] after.units[i]).combat.sovereign,
            ) by {
                if i < model.units.len() {
                    assert(after.units[i] == model.units[i]);
                }
            }
        }
    }
}

proof fn lemma_attempts_paid(
    results: Map<Operation, u64>,
    source: RecruitmentInput<'_>,
    reserves: Map<usize, Real>,
    model: RecruitmentModel,
    turn: RecruitmentTurn,
    count: nat,
)
    requires
        recruits_paid_for(results, source, reserves, model),
        source.strategic.economies@.contains_key(turn.country_id),
        source.strategic.economies@[turn.country_id] == turn.economy,
        !turn.economy.capitulated,
    ensures
        attempts_made(results, source, model, turn, count) matches Ok(after) ==> recruits_paid_for(
            results,
            source,
            reserves,
            after,
        ),
    decreases count,
{
    if count > 0 {
        lemma_attempts_paid(results, source, reserves, model, turn, (count - 1) as nat);
        if let Ok(reached) = attempts_made(results, source, model, turn, (count - 1) as nat) {
            lemma_attempt_paid(results, source, reserves, reached, turn);
        }
    }
}

proof fn lemma_slots_paid(
    results: Map<Operation, u64>,
    source: RecruitmentInput<'_>,
    reserves: Map<usize, Real>,
    strengths: Map<u16, Real>,
    model: RecruitmentModel,
    slots: Seq<RecruitmentSlot>,
    count: nat,
)
    requires
        recruits_paid_for(results, source, reserves, model),
    ensures
        slots_recruited(results, source, strengths, model, slots, count) matches Ok(after)
            ==> recruits_paid_for(results, source, reserves, after),
    decreases count,
{
    if count > 0 {
        lemma_slots_paid(results, source, reserves, strengths, model, slots, (count - 1) as nat);
        if let Ok(reached) = slots_recruited(
            results,
            source,
            strengths,
            model,
            slots,
            (count - 1) as nat,
        ) {
            let slot = slots[count - 1];
            let economy = source.strategic.economies@[slot.country_id];
            let case = recruitment_case(
                source,
                first_entry(source.countries@, slot.country_id, 0)->0,
                last_aggregate(
                    source.aggregates@,
                    slot.country_id,
                    source.aggregates@.len(),
                )->0.controlled,
                economy,
                slot.side,
                toll_of(strengths, slot.country_id),
                side_amount(reached.reserves, slot.side),
            );
            let plan = recruitment_plan(results, case, source.config, source.frame);
            if plan is Some && source.strategic.economies@.contains_key(slot.country_id)
                && !economy.capitulated {
                lemma_attempts_paid(
                    results,
                    source,
                    reserves,
                    reached,
                    RecruitmentTurn {
                        country_id: slot.country_id,
                        side: slot.side,
                        economy,
                        chance: plan->0.chance,
                    },
                    plan->0.attempts as nat,
                );
            }
        }
    }
}

/// Over the whole stage every side's reserve falls by exactly the men of its recruits, taken off one
/// recruit after the other, and no recruit belongs to a country that capitulated or owes its men a
/// cycle of pay.
pub proof fn recruits_are_paid_for(
    results: Map<Operation, u64>,
    source: RecruitmentInput<'_>,
    next_unit_id: u64,
    reserves: Map<usize, Real>,
)
    ensures
        recruited(results, source, next_unit_id, reserves) matches Ok(after) ==> recruits_paid_for(
            results,
            source,
            reserves,
            after,
        ),
{
    let slots = recruitment_order(source.territory.country_to_side@);
    lemma_slots_paid(
        results,
        source,
        reserves,
        country_strengths(results, source.units@, source.strengths@, source.units@.len()),
        recruitment_start(source, next_unit_id, reserves),
        slots,
        slots.len(),
    );
}

} // verus!
