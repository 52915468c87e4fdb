//! What recruitment comes to: how likely an attempt is, who may try, and what a recruit is.

use vstd::prelude::*;
use crate::casualties::toll_of;
use crate::numbers::{
    MINUS_N_180, MINUS_N_90, N_0_012, N_0_1, N_0_12, N_0_15, N_0_3, N_0_35, N_0_4, N_0_5, N_0_6,
    N_0_8, N_1000, N_15, N_1800, N_1_5, N_2, N_2000, N_2_3, N_3, N_4, N_4000, N_5, N_50, N_8,
};
use crate::production::{ProductionCity, ProductionConfig, ProductionCountry};
use crate::runtime::battlefield::WarPhase;
use crate::runtime::dynamics::side_amount;
use crate::runtime::enlistment::{
    attempted, enlisted, owned_cities, recruitment_case, slot_recruited, RecruitmentHalt,
    RecruitmentInput, RecruitmentModel, RecruitmentSlot, RecruitmentTurn,
};
use crate::runtime::recruitment::{
    chance_supplied, city_sites, held_cells, recruitment_attempts, recruitment_cap,
    recruitment_chance, recruitment_plan, sample_count, sample_step, spawn_search, RecruitSite,
    RecruitmentCase,
};
use crate::runtime::world::TerritoryControl;
use crate::scalar::{real_of, Real, ONE_BITS};
use crate::worksheet::{difference, integer, number_at, product, quotient, sum, Operation};

verus! {

/// Whether the results on a worksheet leave a number as it is that is multiplied by one, or to
/// which nothing is added.
pub open spec fn neutral(results: Map<Operation, u64>) -> bool {
    &&& forall|value: Real| #[trigger]
        results.contains_key(Operation::Product(value, real_of(ONE_BITS))) && !value.nan()
            ==> product(results, value, real_of(ONE_BITS)) == value
    &&& forall|value: Real| #[trigger]
        results.contains_key(Operation::Sum(value, real_of(0))) && !value.nan() && value.rank() > 0
            ==> sum(results, value, real_of(0)) == value
}

/// The share of its first land that a country still holds.
pub open spec fn land_share(results: Map<Operation, u64>, case: RecruitmentCase) -> Real {
    quotient(
        results,
        integer(results, case.controlled),
        integer(results, if case.initial_core_cells > 0 { case.initial_core_cells as u64 } else { 1 }),
    )
}

/// No attempt to recruit is more likely to succeed than four in five.
pub proof fn recruiting_is_never_certain(
    results: Map<Operation, u64>,
    case: RecruitmentCase,
    config: ProductionConfig,
    cap: Real,
    frame: u64,
)
    ensures
        recruitment_chance(results, case, cap, frame).le(real_of(N_0_8)),
        recruitment_plan(results, case, config, frame) matches Some(plan) ==> plan.chance.le(
            real_of(N_0_8),
        ),
{
}

/// Late in a war that goes neither way, a country with its capital and at least three fifths of its
/// land recruits with its base chance alone: a hundredth and a fifth of one, times its scale, times
/// its share of land and its cities, times how empty its ranks are.
pub proof fn settled_countries_recruit_slowly(
    results: Map<Operation, u64>,
    case: RecruitmentCase,
    cap: Real,
    frame: u64,
    scale: Real,
    weight: Real,
    fill: Real,
)
    requires
        neutral(results),
        chance_supplied(results, case, cap, frame),
        case.capital_held,
        case.phase is Stalemate || case.phase is Advancing,
        frame >= 1_800,
        !land_share(results, case).lt(real_of(N_0_6)),
        !land_share(results, case).lt(real_of(N_0_4)),
        scale == number_at(
            results,
            Operation::Power(
                quotient(results, integer(results, case.controlled), real_of(N_2000)),
                real_of(N_0_4),
            ),
        ).max_of(real_of(N_0_8)),
        weight == sum(
            results,
            land_share(results, case),
            sum(
                results,
                real_of(N_0_5),
                product(results, integer(results, case.cities), real_of(N_0_5)),
            ),
        ),
        !weight.nan() && weight.rank() > 0,
        fill == sum(
            results,
            real_of(ONE_BITS),
            product(
                results,
                difference(
                    results,
                    real_of(ONE_BITS),
                    quotient(results, case.current_units, cap.max_of(real_of(ONE_BITS))).min_of(
                        real_of(ONE_BITS),
                    ),
                ),
                real_of(N_3),
            ),
        ),
    ensures
        ({
            let base = product(results, product(results, real_of(N_0_012), scale), weight);
            let chance = product(results, base, fill);
            !base.nan() && !chance.nan() ==> recruitment_chance(results, case, cap, frame)
                == chance.min_of(real_of(N_0_8)) && recruitment_chance(
                results,
                case,
                cap,
                frame,
            ).le(chance)
        }),
{
    let base = product(results, product(results, real_of(N_0_012), scale), weight);
    let chance = product(results, base, fill);
    let one = real_of(ONE_BITS);
    if !base.nan() && !chance.nan() {
        assert(sum(results, weight, real_of(0)) == weight);
        assert(product(results, base, one) == base);
        assert(results.contains_key(Operation::Product(chance, one)));
        assert(product(results, chance, one) == chance);
    }
}

/// A collapsing side recruits five times as hard as one at a stalemate, a retreating side three
/// times, and an advancing one no harder.
pub proof fn desperate_sides_recruit_harder(
    results: Map<Operation, u64>,
    case: RecruitmentCase,
    cap: Real,
    frame: u64,
)
    ensures
        exists|base: Real, men: Real|
            #![trigger product(results, base, men)]
            {
                let chance = |phase: WarPhase|
                    recruitment_chance(results, RecruitmentCase { phase, ..case }, cap, frame);
                let times = |factor: Real|
                    product(results, product(results, base, factor), men).min_of(real_of(N_0_8));
                &&& chance(WarPhase::Collapsing) == times(real_of(N_5))
                &&& chance(WarPhase::Retreating) == times(real_of(N_3))
                &&& chance(WarPhase::Stalemate) == times(real_of(ONE_BITS))
                &&& chance(WarPhase::Advancing) == times(real_of(ONE_BITS))
            },
{
    let land = integer(results, case.controlled);
    let control = land_share(results, case);
    let one = real_of(ONE_BITS);
    let bonus = sum(
        results,
        real_of(N_0_5),
        product(results, integer(results, case.cities), real_of(N_0_5)),
    );
    let scale = number_at(
        results,
        Operation::Power(quotient(results, land, real_of(N_2000)), real_of(N_0_4)),
    ).max_of(real_of(N_0_8));
    let underdog = if control.lt(real_of(N_0_4)) {
        product(results, difference(results, real_of(N_0_4), control), real_of(N_2))
    } else {
        real_of(0)
    };
    let annexed = if control.lt(real_of(N_0_6)) {
        sum(
            results,
            one,
            product(results, difference(results, real_of(N_0_6), control), real_of(N_4)),
        )
    } else {
        one
    };
    let early = if frame < 1_800 {
        sum(
            results,
            one,
            product(
                results,
                difference(results, real_of(N_2_3), one),
                difference(
                    results,
                    one,
                    quotient(results, integer(results, frame), real_of(N_1800)),
                ),
            ),
        )
    } else {
        one
    };
    let fill = sum(
        results,
        one,
        product(
            results,
            difference(
                results,
                one,
                quotient(results, case.current_units, cap.max_of(one)).min_of(one),
            ),
            real_of(N_3),
        ),
    );
    let men = if case.capital_held {
        one
    } else {
        product(
            results,
            real_of(N_0_1),
            match case.manpower {
                Some(people) => if real_of(0).lt(people.initial) {
                    product(
                        results,
                        quotient(results, people.current, people.initial),
                        real_of(N_2),
                    ).clamp_of(real_of(0), one)
                } else {
                    one
                },
                None => one,
            },
        )
    };
    let weight = sum(results, sum(results, control, bonus), underdog);
    let c2 = product(results, product(results, real_of(N_0_012), scale), weight);
    let base = product(results, product(results, product(results, c2, annexed), early), fill);
    let shown = product(results, base, men);
    let chance = |phase: WarPhase|
        recruitment_chance(results, RecruitmentCase { phase, ..case }, cap, frame);
    let times = |factor: Real|
        product(results, product(results, base, factor), men).min_of(real_of(N_0_8));
    assert(chance(WarPhase::Collapsing) == times(real_of(N_5)));
    assert(chance(WarPhase::Retreating) == times(real_of(N_3)));
    assert(chance(WarPhase::Stalemate) == times(one));
    assert(chance(WarPhase::Advancing) == times(one));
}

/// What makes recruiting likelier or less likely: a country that lost much land fights harder for
/// the rest, the first ticks of a war count for more, empty ranks fill faster, and without its
/// capital a country raises a tenth of what its people still allow.
pub proof fn a_chance_has_its_reasons(
    results: Map<Operation, u64>,
    case: RecruitmentCase,
    cap: Real,
    frame: u64,
    weight: Real,
    annexed: Real,
    early: Real,
    phase: Real,
    men: Real,
)
    requires
        ({
            let control = land_share(results, case);
            let held = sum(
                results,
                control,
                sum(
                    results,
                    real_of(N_0_5),
                    product(results, integer(results, case.cities), real_of(N_0_5)),
                ),
            );
            let lost = difference(results, real_of(N_0_4), control);
            &&& control.lt(real_of(N_0_4)) ==> weight == sum(
                results,
                held,
                product(results, lost, real_of(N_2)),
            )
            &&& !control.lt(real_of(N_0_4)) ==> weight == sum(results, held, real_of(0))
            &&& control.lt(real_of(N_0_6)) ==> annexed == sum(
                results,
                real_of(ONE_BITS),
                product(results, difference(results, real_of(N_0_6), control), real_of(N_4)),
            )
            &&& !control.lt(real_of(N_0_6)) ==> annexed == real_of(ONE_BITS)
        }),
        frame < 1_800 ==> early == sum(
            results,
            real_of(ONE_BITS),
            product(
                results,
                difference(results, real_of(N_2_3), real_of(ONE_BITS)),
                difference(
                    results,
                    real_of(ONE_BITS),
                    quotient(results, integer(results, frame), real_of(N_1800)),
                ),
            ),
        ),
        frame >= 1_800 ==> early == real_of(ONE_BITS),
        case.phase is Collapsing ==> phase == real_of(N_5),
        case.phase is Retreating ==> phase == real_of(N_3),
        case.phase is Stalemate || case.phase is Advancing ==> phase == real_of(ONE_BITS),
        case.capital_held ==> men == real_of(ONE_BITS),
        !case.capital_held ==> match case.manpower {
            Some(people) if real_of(0).lt(people.initial) => men == product(
                results,
                real_of(N_0_1),
                product(
                    results,
                    quotient(results, people.current, people.initial),
                    real_of(N_2),
                ).clamp_of(real_of(0), real_of(ONE_BITS)),
            ),
            _ => men == product(results, real_of(N_0_1), real_of(ONE_BITS)),
        },
    ensures
        exists|base: Real, fill: Real|
            #![trigger product(results, base, fill)]
            {
                &&& base == product(
                    results,
                    product(
                        results,
                        product(
                            results,
                            product(
                                results,
                                real_of(N_0_012),
                                number_at(
                                    results,
                                    Operation::Power(
                                        quotient(
                                            results,
                                            integer(results, case.controlled),
                                            real_of(N_2000),
                                        ),
                                        real_of(N_0_4),
                                    ),
                                ).max_of(real_of(N_0_8)),
                            ),
                            weight,
                        ),
                        annexed,
                    ),
                    early,
                )
                &&& fill == sum(
                    results,
                    real_of(ONE_BITS),
                    product(
                        results,
                        difference(
                            results,
                            real_of(ONE_BITS),
                            quotient(
                                results,
                                case.current_units,
                                cap.max_of(real_of(ONE_BITS)),
                            ).min_of(real_of(ONE_BITS)),
                        ),
                        real_of(N_3),
                    ),
                )
                &&& recruitment_chance(results, case, cap, frame) == product(
                    results,
                    product(results, product(results, base, fill), phase),
                    men,
                ).min_of(real_of(N_0_8))
            },
{
    let scale = number_at(
        results,
        Operation::Power(
            quotient(results, integer(results, case.controlled), real_of(N_2000)),
            real_of(N_0_4),
        ),
    ).max_of(real_of(N_0_8));
    let c2 = product(results, product(results, real_of(N_0_012), scale), weight);
    let base = product(results, product(results, c2, annexed), early);
    let fill = sum(
        results,
        real_of(ONE_BITS),
        product(
            results,
            difference(
                results,
                real_of(ONE_BITS),
                quotient(results, case.current_units, cap.max_of(real_of(ONE_BITS))).min_of(
                    real_of(ONE_BITS),
                ),
            ),
            real_of(N_3),
        ),
    );
    let chance = product(
        results,
        product(results, product(results, base, fill), phase),
        men,
    ).min_of(real_of(N_0_8));
    assert(recruitment_chance(results, case, cap, frame) == chance);
}

/// A country tries once, and only where its side gives way and its ranks are thin more often: five
/// times below three tenths of its cap in a collapse, three times below half of it on a retreat.
pub proof fn thin_ranks_try_again(results: Map<Operation, u64>, case: RecruitmentCase, cap: Real)
    ensures
        ({
            let tries = recruitment_attempts(results, case, cap);
            let thin = case.current_units.lt(product(results, cap, real_of(N_0_3)));
            let half = case.current_units.lt(product(results, cap, real_of(N_0_5)));
            &&& tries == 5 <==> case.phase is Collapsing && thin
            &&& tries == 3 <==> case.phase is Retreating && half
            &&& tries == 1 || tries == 3 || tries == 5
        }),
{
}

/// Caps on formations: nobody without reserves raises any, nobody raises more than one formation
/// for every thousand men begun, and what the land and the cities carry is the limit where the
/// capital stands.
pub proof fn formations_are_capped(
    results: Map<Operation, u64>,
    case: RecruitmentCase,
    config: ProductionConfig,
    carried: Real,
    allowed: Real,
    men: Real,
)
    requires
        carried == number_at(
            results,
            Operation::Floor(
                product(
                    results,
                    product(
                        results,
                        product(
                            results,
                            product(
                                results,
                                integer(results, case.controlled),
                                config.unit_density_factor,
                            ),
                            real_of(N_1_5),
                        ),
                        quotient(
                            results,
                            real_of(ONE_BITS),
                            number_at(
                                results,
                                Operation::Power(
                                    quotient(
                                        results,
                                        integer(results, case.controlled),
                                        real_of(N_2000),
                                    ).max_of(real_of(ONE_BITS)),
                                    real_of(N_0_35),
                                ),
                            ),
                        ),
                    ),
                    sum(
                        results,
                        real_of(ONE_BITS),
                        product(results, integer(results, case.cities), real_of(N_0_12)),
                    ),
                ),
            ),
        ),
        allowed == product(
            results,
            integer(results, config.max_units_per_side as u64),
            sum(
                results,
                real_of(ONE_BITS),
                sum(
                    results,
                    quotient(results, integer(results, case.controlled), real_of(N_4000)),
                    product(results, integer(results, case.cities), real_of(N_0_15)),
                ).min_of(real_of(N_3)),
            ),
        ),
        men == number_at(
            results,
            Operation::Ceiling(quotient(results, case.reserve, real_of(N_1000))),
        ),
        !carried.nan() && !allowed.nan(),
    ensures
        ({
            let cap = recruitment_cap(results, case, config);
            let raised = sum(results, case.current_units, men);
            let least = number_at(
                results,
                Operation::Floor(
                    product(results, carried.max_of(real_of(N_8)).min_of(allowed), real_of(N_0_3)),
                ),
            );
            &&& !real_of(0).lt(case.reserve) ==> cap == real_of(0)
            &&& real_of(0).lt(case.reserve) && men.same(real_of(0)) ==> cap == real_of(0)
            &&& real_of(0).lt(case.reserve) && !men.same(real_of(0)) && !raised.nan() ==> {
                &&& cap.le(raised)
                &&& case.capital_held ==> cap.le(allowed) && (cap.le(carried) || cap.le(
                    real_of(N_8),
                ))
                &&& case.capital_held ==> cap == raised || cap == allowed || cap == carried || cap
                    == real_of(N_8)
                &&& case.capital_held && real_of(N_8).le(carried) && carried.le(allowed)
                    && carried.lt(raised) ==> cap == carried
                &&& !case.capital_held && real_of(N_15).le(least) && least.lt(raised) ==> cap
                    == least
                &&& !case.capital_held && (least.nan() || least.lt(real_of(N_15))) && real_of(
                    N_15,
                ).lt(raised) ==> cap == real_of(N_15)
            }
        }),
{
}

/// A country with as many formations as it may have does not recruit; any other one does.
pub proof fn full_ranks_do_not_recruit(
    results: Map<Operation, u64>,
    case: RecruitmentCase,
    config: ProductionConfig,
    frame: u64,
)
    ensures
        ({
            let cap = recruitment_cap(results, case, config);
            let plan = recruitment_plan(results, case, config, frame);
            &&& cap.le(case.current_units) <==> plan is None
            &&& plan matches Some(plan) ==> {
                &&& plan.chance == recruitment_chance(results, case, cap, frame)
                &&& plan.attempts == recruitment_attempts(results, case, cap)
            }
        }),
{
}

/// A draw at or above the chance raises nobody and uses up that draw alone; so does one below it
/// where the country cannot pay, has too few men, owes its men a cycle of pay, or its side is full.
pub proof fn a_missed_draw_raises_nobody(
    results: Map<Operation, u64>,
    source: RecruitmentInput<'_>,
    model: RecruitmentModel,
    turn: RecruitmentTurn,
)
    requires
        model.draws_used < source.draws@.len(),
    ensures
        ({
            let people = integer(results, if turn.economy.capital_held { 1_000 } else { 400 });
            let missed = turn.chance.le(source.draws@[model.draws_used as int]);
            let owing = real_of(ONE_BITS).le(turn.economy.arrears_cycles);
            let poor = toll_of(model.treasuries, turn.country_id).lt(source.rules.cost);
            let empty = side_amount(model.reserves, turn.side).lt(people);
            let full = model.side_units.contains_key(turn.side) && model.side_units[turn.side]
                >= source.config.max_units_per_side;
            missed || owing || poor || empty || full ==> attempted(results, source, model, turn)
                == Ok::<RecruitmentModel, RecruitmentHalt>(
                RecruitmentModel { draws_used: model.draws_used + 1, ..model },
            )
        }),
{
}

/// What a recruit is: a foot formation of its country and side, at the place that was found, with
/// a thousand men and full health where the capital stands, and four hundred men and two fifths of
/// the health where it does not.
pub proof fn recruits_are_foot_formations(
    results: Map<Operation, u64>,
    source: RecruitmentInput<'_>,
    model: RecruitmentModel,
    turn: RecruitmentTurn,
    site: RecruitSite,
)
    ensures
        enlisted(results, source, model, turn, site) matches Ok(after) ==> {
            let unit = after.units.last();
            &&& after.units.len() == model.units.len() + 1
            &&& after.units.drop_last() == model.units
            &&& unit.combat.id == model.next_unit_id
            &&& after.next_unit_id == model.next_unit_id + 1
            &&& unit.combat.side == turn.side
            &&& unit.combat.sovereign == turn.country_id
            &&& unit.combat.kind is Army
            &&& unit.combat.lat == site.lat && unit.combat.lng == site.lng
            &&& unit.combat.max_health == source.rules.unit_health
            &&& turn.economy.capital_held ==> unit.combat.personnel == 1_000 && unit.combat.health
                == source.rules.unit_health
            &&& !turn.economy.capital_held ==> unit.combat.personnel == 400 && unit.combat.health
                == product(results, source.rules.unit_health, real_of(N_0_4))
            &&& unit.combat.personnel_capacity == 1_000
            &&& unit.combat.equipment == 0 && unit.combat.max_equipment == 0
            &&& unit.combat.quality == real_of(N_50)
            &&& !unit.combat.at_sea && !unit.combat.transport && !unit.combat.armor_supported
            &&& !unit.combat.landing_penalty_active && !unit.is_support
            &&& unit.combat.last_combat_tick == 0 && unit.combat.victory_boost_ticks == 0
            &&& unit.ally_weight == real_of(ONE_BITS)
            &&& unit.dir_lat == real_of(0) && unit.dir_lng == real_of(0)
            &&& unit.coast_stuck_ticks == 0 && unit.armor_landing_penalty_until_tick == 0
        },
{
    if let Ok(after) = enlisted(results, source, model, turn, site) {
        assert(after.units.drop_last() =~= model.units);
    }
}

/// What raising a formation costs: its price out of the treasury of its country, its men out of the
/// reserve of its side, and one place among the formations of its side. Nobody else pays.
pub proof fn recruits_have_a_price(
    results: Map<Operation, u64>,
    source: RecruitmentInput<'_>,
    model: RecruitmentModel,
    turn: RecruitmentTurn,
    site: RecruitSite,
)
    ensures
        enlisted(results, source, model, turn, site) matches Ok(after) ==> {
            let people: u64 = if turn.economy.capital_held { 1_000 } else { 400 };
            &&& toll_of(after.treasuries, turn.country_id) == difference(
                results,
                toll_of(model.treasuries, turn.country_id),
                source.rules.cost,
            )
            &&& toll_of(after.treasury_costs, turn.country_id) == sum(
                results,
                toll_of(model.treasury_costs, turn.country_id),
                source.rules.cost,
            )
            &&& side_amount(after.reserves, turn.side) == difference(
                results,
                side_amount(model.reserves, turn.side),
                integer(results, people),
            )
            &&& after.side_units.contains_key(turn.side)
            &&& model.recruited_personnel + people <= u64::MAX ==> after.recruited_personnel
                == model.recruited_personnel + people
            &&& forall|country: u16|
                country != turn.country_id ==> #[trigger] toll_of(after.treasuries, country)
                    == toll_of(model.treasuries, country)
            &&& forall|side: usize|
                side != turn.side ==> #[trigger] side_amount(after.reserves, side) == side_amount(
                    model.reserves,
                    side,
                )
        },
{
}

/// A recruit waits thirty ticks before it may be used, obeys as the command kernel resolved, and is
/// told by the draw that seeds it; its influence is shared with the countries of its side.
pub proof fn recruits_deploy_first(
    results: Map<Operation, u64>,
    source: RecruitmentInput<'_>,
    model: RecruitmentModel,
    turn: RecruitmentTurn,
    site: RecruitSite,
)
    ensures
        enlisted(results, source, model, turn, site) matches Ok(after) ==> {
            let policy = after.policies.last();
            let seed = source.draws@[after.draws_used - 1];
            let memory = after.battlefield_units[model.next_unit_id];
            &&& policy.unit_id == model.next_unit_id
            &&& policy.ai.deploy_until_tick == source.tick + 30
            &&& source.commands@[model.next_unit_id] matches Ok(resolved)
            &&& policy.command.band == source.commands@[model.next_unit_id]->Ok_0.band
            &&& policy.command.home_target
                == source.commands@[model.next_unit_id]->Ok_0.home_target
            &&& policy.command.transition_cycle == source.strategic.cycle
            &&& policy.influence matches Some(influence) && {
                &&& influence.browser_temporal_seed == Some(seed)
                &&& forall|country: u16| #[trigger]
                    influence.owner_ally_country_ids.contains(country)
                        == (source.territory.country_to_side@.contains_key(country)
                        && source.territory.country_to_side@[country] == turn.side)
            }
            &&& memory.cohesion_seed == seed
            &&& memory.encircled_ticks == 0
        },
{
}

/// A country that gave up, or whose land nobody counted, recruits nobody and uses no draws.
pub proof fn defeated_countries_do_not_recruit(
    results: Map<Operation, u64>,
    source: RecruitmentInput<'_>,
    strengths: Map<u16, Real>,
    model: RecruitmentModel,
    slot: RecruitmentSlot,
)
    requires
        source.strategic.economies@.contains_key(slot.country_id),
        source.strategic.economies@[slot.country_id].capitulated,
    ensures
        slot_recruited(results, source, strengths, model, slot) matches Ok(after) ==> after
            == model,
{
}

/// What recruitment knows of a country: its strength and land as they are counted, its own cities,
/// its first land, its capital, the reserve of its side, and how the war goes for its side. A side
/// of which nothing is known stands at a stalemate.
pub proof fn recruitment_knows_the_country(
    source: RecruitmentInput<'_>,
    country: ProductionCountry,
    controlled: u64,
    economy: crate::economy::EconomyState,
    side: usize,
    strength: Real,
    reserve: Real,
)
    ensures
        ({
            let case = recruitment_case(
                source,
                country,
                controlled,
                economy,
                side,
                strength,
                reserve,
            );
            let known = source.dynamics matches Some(table) && table@.contains_key(side);
            let state = source.dynamics->Some_0@[side];
            &&& case.current_units == strength
            &&& case.controlled == controlled
            &&& case.initial_core_cells == country.initial_core_cells
            &&& case.capital_held == economy.capital_held
            &&& case.reserve == reserve
            &&& !known ==> case.phase is Stalemate && case.manpower is None
            &&& known ==> case.phase == state.phase && (case.manpower matches Some(men)
                && men.initial == state.initial_personnel && men.current
                == state.current_personnel)
            &&& case.cities == source.cities@.filter(
                |city: ProductionCity| city.owner_id == country.country_id,
            ).len() as u64
        }),
{
    lemma_owned_cities(source.cities@, country.country_id, source.cities@.len());
    assert(source.cities@.take(source.cities@.len() as int) =~= source.cities@);
}

proof fn lemma_owned_cities(cities: Seq<ProductionCity>, country_id: u16, count: nat)
    requires
        count <= cities.len(),
    ensures
        owned_cities(cities, country_id, count) == cities.take(count as int).filter(
            |city: ProductionCity| city.owner_id == country_id,
        ).len(),
    decreases count,
{
    reveal(Seq::filter);
    if count > 0 {
        lemma_owned_cities(cities, country_id, (count - 1) as nat);
        assert(cities.take(count as int).drop_last() =~= cities.take(count - 1));
    }
}

// ---------------------------------------------------------------------------------------------
// Places
// ---------------------------------------------------------------------------------------------

/// Whether a country can recruit around a city: it owns the city, and its side dominates the land
/// there.
pub open spec fn recruits_there(
    territory: TerritoryControl,
    city: ProductionCity,
    country_id: u16,
    side: usize,
) -> bool {
    &&& city.owner_id == country_id
    &&& city.cell < territory.land@.len()
    &&& territory.land@[city.cell as int] > 0
    &&& territory.dominant_side@[city.cell as int] == side
}

proof fn lemma_city_sites(
    territory: TerritoryControl,
    cities: Seq<ProductionCity>,
    country_id: u16,
    side: usize,
    front: bool,
    count: nat,
)
    requires
        count <= cities.len(),
    ensures
        forall|k: int|
            0 <= k < city_sites(territory, cities, country_id, side, front, count).len() ==> exists|
                i: int,
            |
                0 <= i < count && recruits_there(
                    territory,
                    #[trigger] cities[i],
                    country_id,
                    side,
                ) && cities[i].lat == (#[trigger] city_sites(
                    territory,
                    cities,
                    country_id,
                    side,
                    front,
                    count,
                )[k]).lat && cities[i].lng == city_sites(
                    territory,
                    cities,
                    country_id,
                    side,
                    front,
                    count,
                )[k].lng && cities[i].cell == city_sites(
                    territory,
                    cities,
                    country_id,
                    side,
                    front,
                    count,
                )[k].cell,
        !front ==> forall|i: int|
            0 <= i < count && recruits_there(territory, #[trigger] cities[i], country_id, side)
                ==> city_sites(territory, cities, country_id, side, front, count).len() > 0,
    decreases count,
{
    if count > 0 {
        let before = (count - 1) as nat;
        lemma_city_sites(territory, cities, country_id, side, front, before);
        let rest = city_sites(territory, cities, country_id, side, front, before);
        let all = city_sites(territory, cities, country_id, side, front, count);
        assert forall|k: int| 0 <= k < all.len() implies exists|i: int|
            0 <= i < count && recruits_there(territory, #[trigger] cities[i], country_id, side)
                && cities[i].lat == (#[trigger] all[k]).lat && cities[i].lng == all[k].lng
                && cities[i].cell == all[k].cell by {
            if k < rest.len() {
                assert(all[k] == rest[k]);
                let i = choose|i: int|
                    0 <= i < before && recruits_there(
                        territory,
                        #[trigger] cities[i],
                        country_id,
                        side,
                    ) && cities[i].lat == rest[k].lat && cities[i].lng == rest[k].lng
                        && cities[i].cell == rest[k].cell;
                assert(recruits_there(territory, cities[i], country_id, side));
            } else {
                assert(recruits_there(territory, cities[before as int], country_id, side));
            }
        }
        assert forall|i: int|
            !front && 0 <= i < count && recruits_there(
                territory,
                #[trigger] cities[i],
                country_id,
                side,
            ) implies all.len() > 0 by {
            if i < before {
                assert(rest.len() > 0);
            }
        }
    }
}

proof fn lemma_held_cells(
    territory: TerritoryControl,
    country_id: u16,
    side: usize,
    step: nat,
    samples: nat,
)
    ensures
        forall|k: int|
            0 <= k < held_cells(territory, country_id, side, step, samples).len() ==> {
                let cell = #[trigger] held_cells(territory, country_id, side, step, samples)[k];
                exists|i: int|
                    0 <= i < samples && cell == (#[trigger] (i * step)) as usize
                        && territory.land@[i * step] == 2 && territory.world_control@[i * step]
                        == country_id && territory.dominant_side@[i * step] == side
            },
    decreases samples,
{
    if samples > 0 {
        let before = (samples - 1) as nat;
        lemma_held_cells(territory, country_id, side, step, before);
        let rest = held_cells(territory, country_id, side, step, before);
        let all = held_cells(territory, country_id, side, step, samples);
        assert forall|k: int| 0 <= k < all.len() implies ({
            let cell = #[trigger] all[k];
            exists|i: int|
                0 <= i < samples && cell == (#[trigger] (i * step)) as usize
                    && territory.land@[i * step] == 2 && territory.world_control@[i * step]
                    == country_id && territory.dominant_side@[i * step] == side
        }) by {
            if k < rest.len() {
                assert(all[k] == rest[k]);
            } else {
                assert(all[k] == (before * step) as usize);
            }
        }
    }
}

/// A recruit appears near a city of its country where its side dominates the land: moved by two
/// draws where that is still its country's own ground, otherwise in the city itself. Only a
/// country without such a city looks for other ground, and one without any ground finds none.
pub proof fn recruits_appear_on_their_own_ground(
    results: Map<Operation, u64>,
    territory: TerritoryControl,
    cities: Seq<ProductionCity>,
    country_id: u16,
    side: usize,
    supply_failed: bool,
    draws: Seq<Real>,
    used: nat,
)
    ensures
        ({
            let search = spawn_search(
                results,
                territory,
                cities,
                country_id,
                side,
                supply_failed,
                draws,
                used,
            );
            let urban = exists|i: int|
                0 <= i < cities.len() && recruits_there(
                    territory,
                    #[trigger] cities[i],
                    country_id,
                    side,
                );
            &&& urban ==> (search.used is Some <==> used + 3 <= draws.len())
            &&& urban && search.used is Some ==> search.used == Some(used + 3)
            &&& search.used is None ==> search.site is None
            &&& urban ==> (search.site matches Some(site) ==> {
                ||| territory.world_control@[site.cell as int] == country_id
                    && territory.dominant_side@[site.cell as int] == side
                ||| exists|i: int|
                    0 <= i < cities.len() && recruits_there(
                        territory,
                        #[trigger] cities[i],
                        country_id,
                        side,
                    ) && site.lat == cities[i].lat && site.lng == cities[i].lng
            })
            &&& !urban ==> (search.site matches Some(site) ==> {
                &&& search.used == Some(used + 1)
                &&& exists|i: int| #[trigger]
                    (i * sample_step(territory.land@.len())) as usize == site.cell
                        && territory.land@[i * sample_step(territory.land@.len())] == 2
                        && territory.world_control@[i * sample_step(territory.land@.len())]
                        == country_id
                        && territory.dominant_side@[i * sample_step(territory.land@.len())] == side
                &&& site.lat == sum(
                    results,
                    real_of(MINUS_N_90),
                    product(
                        results,
                        sum(
                            results,
                            integer(results, (site.cell / territory.grid.width) as u64),
                            real_of(N_0_5),
                        ),
                        territory.grid.grid_res,
                    ),
                )
                &&& site.lng == sum(
                    results,
                    real_of(MINUS_N_180),
                    product(
                        results,
                        sum(
                            results,
                            integer(results, (site.cell % territory.grid.width) as u64),
                            real_of(N_0_5),
                        ),
                        territory.grid.grid_res,
                    ),
                )
            })
            &&& !urban && search.site is None && search.used is Some ==> search.used == Some(used)
        }),
{
    let count = cities.len();
    let cells = territory.land@.len();
    lemma_city_sites(territory, cities, country_id, side, false, count);
    lemma_city_sites(territory, cities, country_id, side, true, count);
    lemma_held_cells(territory, country_id, side, sample_step(cells), sample_count(cells));
    let friendly = city_sites(territory, cities, country_id, side, false, count);
    let front = city_sites(territory, cities, country_id, side, true, count);
    if friendly.len() > 0 {
        let first = friendly[0];
    }
    let search = spawn_search(
        results,
        territory,
        cities,
        country_id,
        side,
        supply_failed,
        draws,
        used,
    );
    if friendly.len() > 0 && search.site is Some {
        let candidates = if !supply_failed && front.len() > 0 {
            front
        } else {
            friendly
        };
        let place = crate::runtime::recruitment::picked(
            results,
            draws[used as int],
            candidates.len(),
        );
        let city = candidates[place];
        let i = choose|i: int|
            0 <= i < count && recruits_there(territory, #[trigger] cities[i], country_id, side)
                && cities[i].lat == city.lat && cities[i].lng == city.lng && cities[i].cell
                == city.cell;
        assert(recruits_there(territory, cities[i], country_id, side));
    }
    if friendly.len() == 0 && search.site is Some {
        let held = held_cells(territory, country_id, side, sample_step(cells), sample_count(cells));
        let place = crate::runtime::recruitment::picked(results, draws[used as int], held.len());
        let cell = held[place];
    }
}

/// With supplies a country recruits at the front where it has a city there.
pub proof fn supplied_countries_recruit_at_the_front(
    results: Map<Operation, u64>,
    territory: TerritoryControl,
    cities: Seq<ProductionCity>,
    country_id: u16,
    side: usize,
    draws: Seq<Real>,
    used: nat,
)
    requires
        used + 3 <= draws.len(),
        city_sites(territory, cities, country_id, side, true, cities.len()).len() > 0,
        city_sites(territory, cities, country_id, side, false, cities.len()).len() > 0,
    ensures
        spawn_search(
            results,
            territory,
            cities,
            country_id,
            side,
            false,
            draws,
            used,
        ).site matches Some(site) ==> ({
            ||| territory.world_control@[site.cell as int] == country_id
            ||| exists|k: int|
                0 <= k < city_sites(
                    territory,
                    cities,
                    country_id,
                    side,
                    true,
                    cities.len(),
                ).len() && (#[trigger] city_sites(
                    territory,
                    cities,
                    country_id,
                    side,
                    true,
                    cities.len(),
                )[k]).lat == site.lat && city_sites(
                    territory,
                    cities,
                    country_id,
                    side,
                    true,
                    cities.len(),
                )[k].lng == site.lng
        }),
{
    let front = city_sites(territory, cities, country_id, side, true, cities.len());
    let place = crate::runtime::recruitment::picked(results, draws[used as int], front.len());
    let city = front[place];
}

} // verus!
