//! Recruitment: how many formations a country may raise, where they appear and what they cost.

use vstd::prelude::*;
use crate::numbers::{
    MINUS_N_180, MINUS_N_90, N_0_012, N_0_1, N_0_12, N_0_15, N_0_3, N_0_35, N_0_4, N_0_5, N_0_6,
    N_0_8, N_1000, N_15, N_1800, N_1_5, N_2, N_2000, N_2_3, N_3, N_4, N_4000, N_5, N_8,
};
use crate::production::{
    cell_at, cell_supplied, grid_index, CityModel, ProductionCity, ProductionConfig,
};
use crate::runtime::battlefield::WarPhase;
use crate::runtime::world::TerritoryControl;
use crate::scalar::{real_of, Real, ONE_BITS};
use crate::scenario::GridSpec;
use crate::strategic::{lemma_square, table_hostile};
use crate::worksheet::{difference, integer, number_at, product, quotient, sum, Operation, Reader};

verus! {

/// During these first frames recruitment is easier.
pub const EARLY_RECRUIT_TICKS: u64 = 1_800;

/// How long a new formation deploys.
pub const RECRUIT_DEPLOY_TICKS: u64 = 30;

/// Figures that other kernels set.
#[derive(Clone, Copy, Debug, PartialEq, Eq, Structural)]
pub struct RecruitmentRules {
    /// What one formation costs.
    pub cost: Real,
    /// The health of a fresh formation.
    pub unit_health: Real,
}

/// What a country's recruitment starts from.
#[derive(Clone, Copy, Debug, PartialEq, Eq, Structural)]
pub struct RecruitmentCase {
    /// Strength of the country's formations.
    pub current_units: Real,
    pub controlled: u64,
    pub initial_core_cells: u32,
    pub cities: u64,
    pub capital_held: bool,
    /// People whom the side can still call up.
    pub reserve: Real,
    pub phase: WarPhase,
    /// People of the side, where they are known.
    pub manpower: Option<SideManpower>,
}

/// People of a side at the outbreak of war and now.
#[derive(Clone, Copy, Debug, PartialEq, Eq, Structural)]
pub struct SideManpower {
    pub initial: Real,
    pub current: Real,
}

/// How many formations a country may have at most.
pub open spec fn recruitment_cap(
    results: Map<Operation, u64>,
    case: RecruitmentCase,
    config: ProductionConfig,
) -> Real {
    let land = integer(results, case.controlled);
    let cities = integer(results, case.cities);
    let size = quotient(results, land, real_of(N_2000)).max_of(real_of(ONE_BITS));
    let density = quotient(
        results,
        real_of(ONE_BITS),
        number_at(results, Operation::Power(size, real_of(N_0_35))),
    );
    let city_factor = sum(
        results,
        real_of(ONE_BITS),
        product(results, cities, real_of(N_0_12)),
    );
    let by_land = number_at(
        results,
        Operation::Floor(
            product(
                results,
                product(
                    results,
                    product(
                        results,
                        product(results, land, config.unit_density_factor),
                        real_of(N_1_5),
                    ),
                    density,
                ),
                city_factor,
            ),
        ),
    ).max_of(real_of(N_8));
    let flexible = product(
        results,
        integer(results, config.max_units_per_side as u64),
        sum(
            results,
            real_of(ONE_BITS),
            sum(
                results,
                quotient(results, land, real_of(N_4000)),
                product(results, cities, real_of(N_0_15)),
            ).min_of(real_of(N_3)),
        ),
    );
    let open = by_land.min_of(flexible);
    let supplied = if case.capital_held {
        open
    } else {
        number_at(results, Operation::Floor(product(results, open, real_of(N_0_3)))).max_of(
            real_of(N_15),
        )
    };
    let equivalents = if real_of(0).lt(case.reserve) {
        number_at(
            results,
            Operation::Ceiling(quotient(results, case.reserve, real_of(N_1000))),
        )
    } else {
        real_of(0)
    };
    if equivalents.same(real_of(0)) {
        real_of(0)
    } else {
        supplied.min_of(sum(results, case.current_units, equivalents))
    }
}

/// How likely one attempt to recruit is to succeed.
pub open spec fn recruitment_chance(
    results: Map<Operation, u64>,
    case: RecruitmentCase,
    cap: Real,
    frame: u64,
) -> Real {
    let land = integer(results, case.controlled);
    let cities = integer(results, case.cities);
    let initial = integer(
        results,
        if case.initial_core_cells == 0 {
            1
        } else {
            case.initial_core_cells as u64
        },
    );
    let control = quotient(results, land, initial);
    let city_bonus = sum(
        results,
        real_of(N_0_5),
        product(results, cities, real_of(N_0_5)),
    );
    let scale = number_at(
        results,
        Operation::Power(quotient(results, land, real_of(N_2000)), real_of(N_0_4)),
    ).max_of(real_of(N_0_8));
    let underdog = if control.lt(real_of(N_0_4)) {
        product(results, difference(results, real_of(N_0_4), control), real_of(N_2))
    } else {
        real_of(0)
    };
    let annexation = if control.lt(real_of(N_0_6)) {
        sum(
            results,
            real_of(ONE_BITS),
            product(results, difference(results, real_of(N_0_6), control), real_of(N_4)),
        )
    } else {
        real_of(ONE_BITS)
    };
    let early = if frame < EARLY_RECRUIT_TICKS {
        sum(
            results,
            real_of(ONE_BITS),
            product(
                results,
                difference(results, real_of(N_2_3), real_of(ONE_BITS)),
                difference(
                    results,
                    real_of(ONE_BITS),
                    quotient(results, integer(results, frame), real_of(N_1800)),
                ),
            ),
        )
    } else {
        real_of(ONE_BITS)
    };
    let fill = sum(
        results,
        real_of(ONE_BITS),
        product(
            results,
            difference(
                results,
                real_of(ONE_BITS),
                quotient(results, case.current_units, cap.max_of(real_of(ONE_BITS))).min_of(
                    real_of(ONE_BITS),
                ),
            ),
            real_of(N_3),
        ),
    );
    let phase = match case.phase {
        WarPhase::Collapsing => real_of(N_5),
        WarPhase::Retreating => real_of(N_3),
        _ => real_of(ONE_BITS),
    };
    let manpower = if case.capital_held {
        real_of(ONE_BITS)
    } else {
        let ratio = match case.manpower {
            Some(people) => if real_of(0).lt(people.initial) {
                product(
                    results,
                    quotient(results, people.current, people.initial),
                    real_of(N_2),
                ).clamp_of(real_of(0), real_of(ONE_BITS))
            } else {
                real_of(ONE_BITS)
            },
            None => real_of(ONE_BITS),
        };
        product(results, real_of(N_0_1), ratio)
    };
    let weight = sum(results, sum(results, control, city_bonus), underdog);
    let c1 = product(results, real_of(N_0_012), scale);
    let c2 = product(results, c1, weight);
    let c3 = product(results, c2, annexation);
    let c4 = product(results, c3, early);
    let c5 = product(results, c4, fill);
    let c6 = product(results, c5, phase);
    product(results, c6, manpower).min_of(real_of(N_0_8))
}

/// How often a country tries: more often when its war goes badly and it is short of formations.
pub open spec fn recruitment_attempts(
    results: Map<Operation, u64>,
    case: RecruitmentCase,
    cap: Real,
) -> nat {
    if case.phase is Collapsing && case.current_units.lt(product(results, cap, real_of(N_0_3))) {
        5
    } else if case.phase is Retreating && case.current_units.lt(
        product(results, cap, real_of(N_0_5)),
    ) {
        3
    } else {
        1
    }
}

/// How a country recruits.
#[derive(Clone, Copy, Debug, PartialEq, Eq, Structural)]
pub struct RecruitmentPlan {
    pub chance: Real,
    pub attempts: u32,
}

/// How a country recruits, if it may.
pub open spec fn recruitment_plan(
    results: Map<Operation, u64>,
    case: RecruitmentCase,
    config: ProductionConfig,
    frame: u64,
) -> Option<RecruitmentPlan> {
    let cap = recruitment_cap(results, case, config);
    if cap.le(case.current_units) {
        None
    } else {
        Some(
            RecruitmentPlan {
                chance: recruitment_chance(results, case, cap, frame),
                attempts: recruitment_attempts(results, case, cap) as u32,
            },
        )
    }
}

/// Whether a worksheet holds all that a cap on recruitment takes.
pub open spec fn cap_supplied(
    results: Map<Operation, u64>,
    case: RecruitmentCase,
    config: ProductionConfig,
) -> bool {
    let land = integer(results, case.controlled);
    let cities = integer(results, case.cities);
    let ratio = quotient(results, land, real_of(N_2000));
    let size = ratio.max_of(real_of(ONE_BITS));
    let power = number_at(results, Operation::Power(size, real_of(N_0_35)));
    let density = quotient(results, real_of(ONE_BITS), power);
    let city_part = product(results, cities, real_of(N_0_12));
    let city_factor = sum(results, real_of(ONE_BITS), city_part);
    let l1 = product(results, land, config.unit_density_factor);
    let l2 = product(results, l1, real_of(N_1_5));
    let l3 = product(results, l2, density);
    let l4 = product(results, l3, city_factor);
    let by_land = number_at(results, Operation::Floor(l4)).max_of(real_of(N_8));
    let most = integer(results, config.max_units_per_side as u64);
    let f1 = quotient(results, land, real_of(N_4000));
    let f2 = product(results, cities, real_of(N_0_15));
    let f3 = sum(results, f1, f2);
    let f4 = sum(results, real_of(ONE_BITS), f3.min_of(real_of(N_3)));
    let flexible = product(results, most, f4);
    let open = by_land.min_of(flexible);
    let part = product(results, open, real_of(N_0_3));
    let formations = quotient(results, case.reserve, real_of(N_1000));
    let equivalents = if real_of(0).lt(case.reserve) {
        number_at(results, Operation::Ceiling(formations))
    } else {
        real_of(0)
    };
    &&& results.contains_key(Operation::Integer(case.controlled))
    &&& results.contains_key(Operation::Integer(case.cities))
    &&& results.contains_key(Operation::Quotient(land, real_of(N_2000)))
    &&& results.contains_key(Operation::Power(size, real_of(N_0_35)))
    &&& results.contains_key(Operation::Quotient(real_of(ONE_BITS), power))
    &&& results.contains_key(Operation::Product(cities, real_of(N_0_12)))
    &&& results.contains_key(Operation::Sum(real_of(ONE_BITS), city_part))
    &&& results.contains_key(Operation::Product(land, config.unit_density_factor))
    &&& results.contains_key(Operation::Product(l1, real_of(N_1_5)))
    &&& results.contains_key(Operation::Product(l2, density))
    &&& results.contains_key(Operation::Product(l3, city_factor))
    &&& results.contains_key(Operation::Floor(l4))
    &&& results.contains_key(Operation::Integer(config.max_units_per_side as u64))
    &&& results.contains_key(Operation::Quotient(land, real_of(N_4000)))
    &&& results.contains_key(Operation::Product(cities, real_of(N_0_15)))
    &&& results.contains_key(Operation::Sum(f1, f2))
    &&& results.contains_key(Operation::Sum(real_of(ONE_BITS), f3.min_of(real_of(N_3))))
    &&& results.contains_key(Operation::Product(most, f4))
    &&& !case.capital_held ==> results.contains_key(Operation::Product(open, real_of(N_0_3)))
        && results.contains_key(Operation::Floor(part))
    &&& real_of(0).lt(case.reserve) ==> results.contains_key(
        Operation::Quotient(case.reserve, real_of(N_1000)),
    ) && results.contains_key(Operation::Ceiling(formations))
    &&& !equivalents.same(real_of(0)) ==> results.contains_key(
        Operation::Sum(case.current_units, equivalents),
    )
}

fn cap_recruitment(
    case: RecruitmentCase,
    config: &ProductionConfig,
    reader: &mut Reader<'_>,
) -> (cap: Real)
    requires
        old(reader).sound(),
    ensures
        final(reader)@ == old(reader)@,
        final(reader).sound(),
        final(reader).complete() ==> old(reader).complete() && cap == recruitment_cap(
            old(reader)@,
            case,
            *config,
        ),
        old(reader).complete() && cap_supplied(old(reader)@, case, *config) ==>
            final(reader).complete(),
{
    let land = reader.integer(case.controlled);
    let cities = reader.integer(case.cities);
    let ratio = reader.quotient(land, Real::from_bits(N_2000));
    let size = ratio.larger(Real::one());
    let power = reader.gather_number(Operation::Power(size, Real::from_bits(N_0_35)));
    let density = reader.quotient(Real::one(), power);
    let city_part = reader.product(cities, Real::from_bits(N_0_12));
    let city_factor = reader.sum(Real::one(), city_part);
    let l1 = reader.product(land, config.unit_density_factor);
    let l2 = reader.product(l1, Real::from_bits(N_1_5));
    let l3 = reader.product(l2, density);
    let l4 = reader.product(l3, city_factor);
    let by_land = reader.gather_number(Operation::Floor(l4)).larger(Real::from_bits(N_8));
    let most = reader.integer(config.max_units_per_side as u64);
    let f1 = reader.quotient(land, Real::from_bits(N_4000));
    let f2 = reader.product(cities, Real::from_bits(N_0_15));
    let f3 = reader.sum(f1, f2);
    let f4 = reader.sum(Real::one(), f3.smaller(Real::from_bits(N_3)));
    let flexible = reader.product(most, f4);
    let open = by_land.smaller(flexible);
    let supplied = if case.capital_held {
        open
    } else {
        let part = reader.product(open, Real::from_bits(N_0_3));
        reader.gather_number(Operation::Floor(part)).larger(Real::from_bits(N_15))
    };
    let equivalents = if Real::zero().less(case.reserve) {
        let formations = reader.quotient(case.reserve, Real::from_bits(N_1000));
        reader.gather_number(Operation::Ceiling(formations))
    } else {
        Real::zero()
    };
    if equivalents.equals(Real::zero()) {
        Real::zero()
    } else {
        let reach = reader.sum(case.current_units, equivalents);
        supplied.smaller(reach)
    }
}

/// Whether a worksheet holds all that a chance of recruitment takes.
pub open spec fn chance_supplied(
    results: Map<Operation, u64>,
    case: RecruitmentCase,
    cap: Real,
    frame: u64,
) -> bool {
    let land = integer(results, case.controlled);
    let cities = integer(results, case.cities);
    let core = if case.initial_core_cells == 0 {
        1
    } else {
        case.initial_core_cells as u64
    };
    let initial = integer(results, core);
    let control = quotient(results, land, initial);
    let city_part = product(results, cities, real_of(N_0_5));
    let city_bonus = sum(results, real_of(N_0_5), city_part);
    let ratio = quotient(results, land, real_of(N_2000));
    let power = number_at(results, Operation::Power(ratio, real_of(N_0_4)));
    let scale = power.max_of(real_of(N_0_8));
    let weak = difference(results, real_of(N_0_4), control);
    let underdog = if control.lt(real_of(N_0_4)) {
        product(results, weak, real_of(N_2))
    } else {
        real_of(0)
    };
    let lack = difference(results, real_of(N_0_6), control);
    let share = product(results, lack, real_of(N_4));
    let annexation = if control.lt(real_of(N_0_6)) {
        sum(results, real_of(ONE_BITS), share)
    } else {
        real_of(ONE_BITS)
    };
    let bonus = difference(results, real_of(N_2_3), real_of(ONE_BITS));
    let passed = quotient(results, integer(results, frame), real_of(N_1800));
    let left = difference(results, real_of(ONE_BITS), passed);
    let early_part = product(results, bonus, left);
    let early = if frame < EARLY_RECRUIT_TICKS {
        sum(results, real_of(ONE_BITS), early_part)
    } else {
        real_of(ONE_BITS)
    };
    let filled = quotient(results, case.current_units, cap.max_of(real_of(ONE_BITS)));
    let empty = difference(results, real_of(ONE_BITS), filled.min_of(real_of(ONE_BITS)));
    let fill_part = product(results, empty, real_of(N_3));
    let fill = sum(results, real_of(ONE_BITS), fill_part);
    let phase = match case.phase {
        WarPhase::Collapsing => real_of(N_5),
        WarPhase::Retreating => real_of(N_3),
        _ => real_of(ONE_BITS),
    };
    let people = case.manpower->Some_0;
    let remaining = quotient(results, people.current, people.initial);
    let counted = case.manpower is Some && real_of(0).lt(people.initial);
    let morale = if counted {
        product(results, remaining, real_of(N_2)).clamp_of(real_of(0), real_of(ONE_BITS))
    } else {
        real_of(ONE_BITS)
    };
    let manpower = if case.capital_held {
        real_of(ONE_BITS)
    } else {
        product(results, real_of(N_0_1), morale)
    };
    let w1 = sum(results, control, city_bonus);
    let weight = sum(results, w1, underdog);
    let c1 = product(results, real_of(N_0_012), scale);
    let c2 = product(results, c1, weight);
    let c3 = product(results, c2, annexation);
    let c4 = product(results, c3, early);
    let c5 = product(results, c4, fill);
    let c6 = product(results, c5, phase);
    &&& results.contains_key(Operation::Integer(case.controlled))
    &&& results.contains_key(Operation::Integer(case.cities))
    &&& results.contains_key(Operation::Integer(core))
    &&& results.contains_key(Operation::Quotient(land, initial))
    &&& results.contains_key(Operation::Product(cities, real_of(N_0_5)))
    &&& results.contains_key(Operation::Sum(real_of(N_0_5), city_part))
    &&& results.contains_key(Operation::Quotient(land, real_of(N_2000)))
    &&& results.contains_key(Operation::Power(ratio, real_of(N_0_4)))
    &&& results.contains_key(Operation::Quotient(case.current_units, cap.max_of(real_of(ONE_BITS))))
    &&& results.contains_key(Operation::Difference(real_of(ONE_BITS), filled.min_of(real_of(ONE_BITS))))
    &&& results.contains_key(Operation::Product(empty, real_of(N_3)))
    &&& results.contains_key(Operation::Sum(real_of(ONE_BITS), fill_part))
    &&& results.contains_key(Operation::Sum(control, city_bonus))
    &&& results.contains_key(Operation::Sum(w1, underdog))
    &&& results.contains_key(Operation::Product(real_of(N_0_012), scale))
    &&& results.contains_key(Operation::Product(c1, weight))
    &&& results.contains_key(Operation::Product(c2, annexation))
    &&& results.contains_key(Operation::Product(c3, early))
    &&& results.contains_key(Operation::Product(c4, fill))
    &&& results.contains_key(Operation::Product(c5, phase))
    &&& results.contains_key(Operation::Product(c6, manpower))
    &&& control.lt(real_of(N_0_4)) ==> results.contains_key(
        Operation::Difference(real_of(N_0_4), control),
    ) && results.contains_key(Operation::Product(weak, real_of(N_2)))
    &&& control.lt(real_of(N_0_6)) ==> {
        &&& results.contains_key(Operation::Difference(real_of(N_0_6), control))
        &&& results.contains_key(Operation::Product(lack, real_of(N_4)))
        &&& results.contains_key(Operation::Sum(real_of(ONE_BITS), share))
    }
    &&& frame < EARLY_RECRUIT_TICKS ==> {
        &&& results.contains_key(Operation::Difference(real_of(N_2_3), real_of(ONE_BITS)))
        &&& results.contains_key(Operation::Integer(frame))
        &&& results.contains_key(
            Operation::Quotient(integer(results, frame), real_of(N_1800)),
        )
        &&& results.contains_key(Operation::Difference(real_of(ONE_BITS), passed))
        &&& results.contains_key(Operation::Product(bonus, left))
        &&& results.contains_key(Operation::Sum(real_of(ONE_BITS), early_part))
    }
    &&& !case.capital_held ==> {
        &&& counted ==> results.contains_key(
            Operation::Quotient(people.current, people.initial),
        ) && results.contains_key(Operation::Product(remaining, real_of(N_2)))
        &&& results.contains_key(Operation::Product(real_of(N_0_1), morale))
    }
}

fn weigh_chance(case: RecruitmentCase, cap: Real, frame: u64, reader: &mut Reader<'_>) -> (chance:
    Real)
    requires
        old(reader).sound(),
    ensures
        final(reader)@ == old(reader)@,
        final(reader).sound(),
        final(reader).complete() ==> old(reader).complete() && chance == recruitment_chance(
            old(reader)@,
            case,
            cap,
            frame,
        ),
        old(reader).complete() && chance_supplied(old(reader)@, case, cap, frame) ==>
            final(reader).complete(),
{
    let land = reader.integer(case.controlled);
    let cities = reader.integer(case.cities);
    let initial = reader.integer(
        if case.initial_core_cells == 0 {
            1
        } else {
            case.initial_core_cells as u64
        },
    );
    let control = reader.quotient(land, initial);
    let city_part = reader.product(cities, Real::from_bits(N_0_5));
    let city_bonus = reader.sum(Real::from_bits(N_0_5), city_part);
    let ratio = reader.quotient(land, Real::from_bits(N_2000));
    let power = reader.gather_number(Operation::Power(ratio, Real::from_bits(N_0_4)));
    let scale = power.larger(Real::from_bits(N_0_8));
    let underdog = if control.less(Real::from_bits(N_0_4)) {
        let lack = reader.difference(Real::from_bits(N_0_4), control);
        reader.product(lack, Real::from_bits(N_2))
    } else {
        Real::zero()
    };
    let annexation = if control.less(Real::from_bits(N_0_6)) {
        let lack = reader.difference(Real::from_bits(N_0_6), control);
        let part = reader.product(lack, Real::from_bits(N_4));
        reader.sum(Real::one(), part)
    } else {
        Real::one()
    };
    let early = if frame < EARLY_RECRUIT_TICKS {
        let bonus = reader.difference(Real::from_bits(N_2_3), Real::one());
        let time = reader.integer(frame);
        let passed = reader.quotient(time, Real::from_bits(N_1800));
        let left = reader.difference(Real::one(), passed);
        let part = reader.product(bonus, left);
        reader.sum(Real::one(), part)
    } else {
        Real::one()
    };
    let filled = reader.quotient(case.current_units, cap.larger(Real::one()));
    let empty = reader.difference(Real::one(), filled.smaller(Real::one()));
    let fill_part = reader.product(empty, Real::from_bits(N_3));
    let fill = reader.sum(Real::one(), fill_part);
    let phase = match case.phase {
        WarPhase::Collapsing => Real::from_bits(N_5),
        WarPhase::Retreating => Real::from_bits(N_3),
        _ => Real::one(),
    };
    let manpower = if case.capital_held {
        Real::one()
    } else {
        let ratio = match case.manpower {
            Some(people) => {
                if Real::zero().less(people.initial) {
                    let left = reader.quotient(people.current, people.initial);
                    let doubled = reader.product(left, Real::from_bits(N_2));
                    doubled.clamped(Real::zero(), Real::one())
                } else {
                    Real::one()
                }
            },
            None => Real::one(),
        };
        reader.product(Real::from_bits(N_0_1), ratio)
    };
    let w1 = reader.sum(control, city_bonus);
    let weight = reader.sum(w1, underdog);
    let c1 = reader.product(Real::from_bits(N_0_012), scale);
    let c2 = reader.product(c1, weight);
    let c3 = reader.product(c2, annexation);
    let c4 = reader.product(c3, early);
    let c5 = reader.product(c4, fill);
    let c6 = reader.product(c5, phase);
    reader.product(c6, manpower).smaller(Real::from_bits(N_0_8))
}

/// Whether a worksheet holds all that planning recruitment takes.
pub open spec fn plan_supplied(
    results: Map<Operation, u64>,
    case: RecruitmentCase,
    config: ProductionConfig,
    frame: u64,
) -> bool {
    let cap = recruitment_cap(results, case, config);
    &&& cap_supplied(results, case, config)
    &&& !cap.le(case.current_units) ==> {
        &&& chance_supplied(results, case, cap, frame)
        &&& case.phase is Collapsing ==> results.contains_key(
            Operation::Product(cap, real_of(N_0_3)),
        )
        &&& case.phase is Retreating ==> results.contains_key(
            Operation::Product(cap, real_of(N_0_5)),
        )
    }
}

/// How a country recruits, if it may.
pub fn plan_recruitment(
    case: RecruitmentCase,
    config: &ProductionConfig,
    frame: u64,
    reader: &mut Reader<'_>,
) -> (plan: Option<RecruitmentPlan>)
    requires
        old(reader).sound(),
    ensures
        final(reader)@ == old(reader)@,
        final(reader).sound(),
        plan matches Some(given) ==> given.attempts <= 5,
        final(reader).complete() ==> old(reader).complete() && plan == recruitment_plan(
            old(reader)@,
            case,
            *config,
            frame,
        ),
        old(reader).complete() && plan_supplied(old(reader)@, case, *config, frame) ==>
            final(reader).complete(),
{
    let cap = cap_recruitment(case, config, reader);
    if cap.at_most(case.current_units) {
        return None;
    }
    let chance = weigh_chance(case, cap, frame, reader);
    let attempts: u32 = match case.phase {
        WarPhase::Collapsing => {
            let low = reader.product(cap, Real::from_bits(N_0_3));
            if case.current_units.less(low) {
                5
            } else {
                1
            }
        },
        WarPhase::Retreating => {
            let low = reader.product(cap, Real::from_bits(N_0_5));
            if case.current_units.less(low) {
                3
            } else {
                1
            }
        },
        _ => 1,
    };
    Some(RecruitmentPlan { chance, attempts })
}

/// The middle of a cell.
pub open spec fn cell_center(results: Map<Operation, u64>, cell: usize, grid: GridSpec) -> (
    Real,
    Real,
) {
    let x = integer(results, (cell % grid.width) as u64);
    let y = integer(results, (cell / grid.width) as u64);
    (
        sum(
            results,
            real_of(MINUS_N_90),
            product(results, sum(results, y, real_of(N_0_5)), grid.grid_res),
        ),
        sum(
            results,
            real_of(MINUS_N_180),
            product(results, sum(results, x, real_of(N_0_5)), grid.grid_res),
        ),
    )
}

/// Whether a worksheet holds all that the center of a cell takes.
pub open spec fn center_supplied(
    results: Map<Operation, u64>,
    cell: usize,
    grid: GridSpec,
) -> bool {
    let x = integer(results, (cell % grid.width) as u64);
    let y = integer(results, (cell / grid.width) as u64);
    let y_mid = sum(results, y, real_of(N_0_5));
    let y_degrees = product(results, y_mid, grid.grid_res);
    let x_mid = sum(results, x, real_of(N_0_5));
    let x_degrees = product(results, x_mid, grid.grid_res);
    &&& results.contains_key(Operation::Integer((cell % grid.width) as u64))
    &&& results.contains_key(Operation::Integer((cell / grid.width) as u64))
    &&& results.contains_key(Operation::Sum(y, real_of(N_0_5)))
    &&& results.contains_key(Operation::Product(y_mid, grid.grid_res))
    &&& results.contains_key(Operation::Sum(real_of(MINUS_N_90), y_degrees))
    &&& results.contains_key(Operation::Sum(x, real_of(N_0_5)))
    &&& results.contains_key(Operation::Product(x_mid, grid.grid_res))
    &&& results.contains_key(Operation::Sum(real_of(MINUS_N_180), x_degrees))
}

pub fn recruit_cell_center(cell: usize, grid: GridSpec, reader: &mut Reader<'_>) -> (center: (
    Real,
    Real,
))
    requires
        old(reader).sound(),
        grid.width > 0,
    ensures
        final(reader)@ == old(reader)@,
        final(reader).sound(),
        final(reader).complete() ==> old(reader).complete() && center == cell_center(
            old(reader)@,
            cell,
            grid,
        ),
        old(reader).complete() && center_supplied(old(reader)@, cell, grid) ==>
            final(reader).complete(),
{
    let x = reader.integer((cell % grid.width) as u64);
    let y = reader.integer((cell / grid.width) as u64);
    let y_mid = reader.sum(y, Real::from_bits(N_0_5));
    let y_degrees = reader.product(y_mid, grid.grid_res);
    let lat = reader.sum(Real::from_bits(MINUS_N_90), y_degrees);
    let x_mid = reader.sum(x, Real::from_bits(N_0_5));
    let x_degrees = reader.product(x_mid, grid.grid_res);
    let lng = reader.sum(Real::from_bits(MINUS_N_180), x_degrees);
    (lat, lng)
}

/// A place where a formation can appear.
#[derive(Clone, Copy, Debug, PartialEq, Eq, Structural)]
pub struct RecruitSite {
    pub lat: Real,
    pub lng: Real,
    pub cell: usize,
}

/// Whether a side dominates a cell.
pub open spec fn dominated(territory: TerritoryControl, cell: int, side: usize) -> bool {
    territory.dominant_side@[cell] == side
}

/// Whether an enemy of the side dominates a cell.
pub open spec fn enemy_held(territory: TerritoryControl, cell: int, side: usize) -> bool {
    &&& 0 <= cell < territory.dominant_side@.len()
    &&& 0 <= territory.dominant_side@[cell] < territory.max_sides
    &&& side < territory.max_sides
    &&& table_hostile(
        territory.hostility@,
        territory.max_sides as int,
        side as int,
        territory.dominant_side@[cell] as int,
    )
}

/// Whether a neighbour of a cell is held by an enemy. A neighbour before the first cell counts as
/// the first one.
pub open spec fn at_front(territory: TerritoryControl, cell: usize, side: usize) -> bool {
    let width = territory.grid.width;
    ||| enemy_held(territory, cell + 1, side)
    ||| enemy_held(territory, if cell > 0 { cell - 1 } else { 0 }, side)
    ||| enemy_held(territory, cell + width, side)
    ||| enemy_held(territory, if cell > width { cell - width } else { 0 }, side)
}

/// Whether a country can recruit in a city.
pub open spec fn friendly_city(
    territory: TerritoryControl,
    city: CityModel,
    country_id: u16,
    side: usize,
) -> bool {
    &&& city.owner_id == country_id
    &&& city.cell < territory.land@.len()
    &&& territory.land@[city.cell as int] > 0
    &&& dominated(territory, city.cell as int, side)
}

/// The cities among the first in which a country can recruit, all or those at the front.
pub open spec fn city_sites(
    territory: TerritoryControl,
    cities: Seq<ProductionCity>,
    country_id: u16,
    side: usize,
    front: bool,
    count: nat,
) -> Seq<RecruitSite>
    decreases count,
{
    if count == 0 {
        Seq::empty()
    } else {
        let rest = city_sites(territory, cities, country_id, side, front, (count - 1) as nat);
        let city = cities[count - 1]@;
        if friendly_city(territory, city, country_id, side) && (front ==> at_front(
            territory,
            city.cell,
            side,
        )) {
            rest.push(RecruitSite { lat: city.lat, lng: city.lng, cell: city.cell })
        } else {
            rest
        }
    }
}

/// How many cells the search for a place without cities skips at a time.
pub open spec fn sample_step(cells: nat) -> nat {
    if cells / 500_000 == 0 {
        1
    } else {
        cells / 500_000
    }
}

/// The sampled cells before the given one that a country holds.
pub open spec fn held_cells(
    territory: TerritoryControl,
    country_id: u16,
    side: usize,
    step: nat,
    samples: nat,
) -> Seq<usize>
    decreases samples,
{
    if samples == 0 {
        Seq::empty()
    } else {
        let rest = held_cells(territory, country_id, side, step, (samples - 1) as nat);
        let cell = (samples - 1) * step;
        if territory.land@[cell] == 2 && territory.world_control@[cell] == country_id
            && dominated(territory, cell, side) {
            rest.push(cell as usize)
        } else {
            rest
        }
    }
}

/// How many cells are sampled.
pub open spec fn sample_count(cells: nat) -> nat {
    (cells + sample_step(cells) - 1) as nat / sample_step(cells)
}

/// Which of several things a draw picks.
pub open spec fn picked(results: Map<Operation, u64>, draw: Real, among: nat) -> int {
    let place = results[Operation::Whole(
        number_at(
            results,
            Operation::Floor(product(results, draw, integer(results, among as u64))),
        ),
    )];
    if place < among {
        place as int
    } else {
        among - 1
    }
}

/// A coordinate of a city, moved a little by a draw.
pub open spec fn jittered(
    results: Map<Operation, u64>,
    at: Real,
    draw: Real,
    grid: GridSpec,
) -> Real {
    sum(
        results,
        at,
        product(
            results,
            product(results, difference(results, draw, real_of(N_0_5)), grid.grid_res),
            real_of(N_0_8),
        ),
    )
}

/// What the search for a place came to.
pub ghost struct SpawnSearch {
    /// How many draws are used up afterwards; nothing if there were too few.
    pub used: Option<nat>,
    pub site: Option<RecruitSite>,
}

/// Where a new formation of a country appears: near one of its cities, at the front if its supply
/// holds; without cities, in any of its sampled cells.
pub open spec fn spawn_search(
    results: Map<Operation, u64>,
    territory: TerritoryControl,
    cities: Seq<ProductionCity>,
    country_id: u16,
    side: usize,
    supply_failed: bool,
    draws: Seq<Real>,
    used: nat,
) -> SpawnSearch {
    let friendly = city_sites(territory, cities, country_id, side, false, cities.len());
    let front = city_sites(territory, cities, country_id, side, true, cities.len());
    let cells = territory.land@.len();
    let held = held_cells(territory, country_id, side, sample_step(cells), sample_count(cells));
    if friendly.len() > 0 {
        let candidates = if !supply_failed && front.len() > 0 {
            front
        } else {
            friendly
        };
        if used + 3 > draws.len() {
            SpawnSearch { used: None, site: None }
        } else {
            let city = candidates[picked(results, draws[used as int], candidates.len())];
            let lat = jittered(results, city.lat, draws[used as int + 1], territory.grid);
            let lng = jittered(results, city.lng, draws[used as int + 2], territory.grid);
            let near = cell_at(results, territory.grid, lat, lng);
            let site = if near is Some && territory.world_control@[near->0] == country_id
                && dominated(territory, near->0, side) {
                Some(RecruitSite { lat, lng, cell: near->0 as usize })
            } else {
                match cell_at(results, territory.grid, city.lat, city.lng) {
                    Some(cell) => Some(
                        RecruitSite { lat: city.lat, lng: city.lng, cell: cell as usize },
                    ),
                    None => None,
                }
            };
            SpawnSearch { used: Some(used + 3), site }
        }
    } else if held.len() == 0 {
        SpawnSearch { used: Some(used), site: None }
    } else if used + 1 > draws.len() {
        SpawnSearch { used: None, site: None }
    } else {
        let cell = held[picked(results, draws[used as int], held.len())];
        let center = cell_center(results, cell, territory.grid);
        SpawnSearch {
            used: Some(used + 1),
            site: Some(RecruitSite { lat: center.0, lng: center.1, cell }),
        }
    }
}

pub(crate) fn is_dominated(territory: &TerritoryControl, cell: usize, side: usize) -> (answer: bool)
    requires
        territory.well_formed(),
        cell < territory.land@.len(),
    ensures
        answer == dominated(*territory, cell as int, side),
{
    let holder: i16 = territory.dominant_side[cell];
    holder >= 0 && holder as usize == side
}

fn is_enemy_held(territory: &TerritoryControl, cell: Option<usize>, side: usize) -> (answer: bool)
    requires
        territory.well_formed(),
    ensures
        cell matches Some(at) ==> answer == enemy_held(*territory, at as int, side),
        cell is None ==> !answer,
{
    match cell {
        None => false,
        Some(at) => {
            if at >= territory.dominant_side.len() {
                return false;
            }
            let holder: i16 = territory.dominant_side[at];
            if holder < 0 || side >= territory.max_sides {
                return false;
            }
            let other: usize = holder as usize;
            if other >= territory.max_sides {
                return false;
            }
            proof {
                lemma_square(side as int, other as int, territory.max_sides as int);
                assert(0 <= side * territory.max_sides) by (nonlinear_arith)
                    requires
                        0 <= side,
                        0 <= territory.max_sides,
                ;
                assert(territory.hostility.len() == territory.hostility@.len());
            }
            territory.hostility[side * territory.max_sides + other] == 1
        },
    }
}

fn is_at_front(territory: &TerritoryControl, cell: usize, side: usize) -> (answer: bool)
    requires
        territory.well_formed(),
        cell < territory.land@.len(),
    ensures
        answer == at_front(*territory, cell, side),
{
    let width: usize = territory.grid.width;
    proof {
        assert(territory.dominant_side.len() == territory.dominant_side@.len());
    }
    is_enemy_held(territory, cell.checked_add(1), side) || is_enemy_held(
        territory,
        Some(cell.saturating_sub(1)),
        side,
    ) || is_enemy_held(territory, cell.checked_add(width), side) || is_enemy_held(
        territory,
        Some(cell.saturating_sub(width)),
        side,
    )
}

fn list_city_sites(
    territory: &TerritoryControl,
    cities: &Vec<ProductionCity>,
    country_id: u16,
    side: usize,
    front: bool,
) -> (sites: Vec<RecruitSite>)
    requires
        territory.well_formed(),
    ensures
        sites@ == city_sites(*territory, cities@, country_id, side, front, cities@.len()),
{
    let mut sites: Vec<RecruitSite> = Vec::new();
    let mut at: usize = 0;
    while at < cities.len()
        invariant
            at <= cities@.len(),
            territory.well_formed(),
            sites@ == city_sites(*territory, cities@, country_id, side, front, at as nat),
        decreases cities@.len() - at,
    {
        let city = &cities[at];
        if city.owner_id == country_id && city.cell < territory.land.len()
            && territory.land[city.cell] > 0 && is_dominated(territory, city.cell, side) && (!front
            || is_at_front(territory, city.cell, side)) {
            sites.push(RecruitSite { lat: city.lat, lng: city.lng, cell: city.cell });
        }
        at = at + 1;
    }
    sites
}

proof fn lemma_samples(cells: nat, sample: nat)
    ensures
        sample_step(cells) > 0,
        sample < sample_count(cells) <==> sample * sample_step(cells) < cells,
{
    let step = sample_step(cells);
    let count = sample_count(cells);
    vstd::arithmetic::div_mod::lemma_fundamental_div_mod(cells + step - 1, step as int);
    vstd::arithmetic::div_mod::lemma_mod_bound(cells + step - 1, step as int);
    assert(sample < count <==> sample * step < cells) by (nonlinear_arith)
        requires
            step > 0,
            cells + step - 1 == step * count + (cells + step - 1) % (step as int),
            0 <= (cells + step - 1) % (step as int) < step,
    ;
}

fn list_held_cells(territory: &TerritoryControl, country_id: u16, side: usize) -> (held: Vec<usize>)
    requires
        territory.well_formed(),
    ensures
        held@ == held_cells(
            *territory,
            country_id,
            side,
            sample_step(territory.land@.len()),
            sample_count(territory.land@.len()),
        ),
        forall|i: int| 0 <= i < held@.len() ==> #[trigger] held@[i] < territory.land@.len(),
{
    let cells: usize = territory.land.len();
    let mut step: usize = cells / 500_000;
    if step == 0 {
        step = 1;
    }
    let mut held: Vec<usize> = Vec::new();
    let mut at: usize = 0;
    let mut done = cells == 0;
    let ghost mut samples: nat = 0;
    proof {
        lemma_samples(cells as nat, 0);
        if cells == 0 {
            assert(sample_count(0) == 0);
        }
    }
    while !done
        invariant
            territory.well_formed(),
            cells == territory.land@.len(),
            step == sample_step(cells as nat),
            step > 0,
            samples <= sample_count(cells as nat),
            done ==> samples == sample_count(cells as nat),
            !done ==> at == samples * step && at < cells && samples < sample_count(cells as nat),
            held@ == held_cells(*territory, country_id, side, step as nat, samples),
            forall|i: int| 0 <= i < held@.len() ==> #[trigger] held@[i] < territory.land@.len(),
        decreases sample_count(cells as nat) - samples,
    {
        if territory.land[at] == 2 && territory.world_control[at] == country_id && is_dominated(
            territory,
            at,
            side,
        ) {
            held.push(at);
        }
        proof {
            lemma_samples(cells as nat, samples + 1);
            assert((samples + 1) * step == samples * step + step) by (nonlinear_arith);
            samples = samples + 1;
        }
        if cells - at <= step {
            done = true;
        } else {
            at = at + step;
        }
    }
    held
}

/// Whether a worksheet holds all that a pick takes.
pub open spec fn pick_supplied(results: Map<Operation, u64>, draw: Real, among: nat) -> bool {
    let amount = integer(results, among as u64);
    let scaled = product(results, draw, amount);
    let floor = number_at(results, Operation::Floor(scaled));
    &&& results.contains_key(Operation::Integer(among as u64))
    &&& results.contains_key(Operation::Product(draw, amount))
    &&& results.contains_key(Operation::Floor(scaled))
    &&& results.contains_key(Operation::Whole(floor))
}

fn pick(draw: Real, among: usize, reader: &mut Reader<'_>) -> (place: usize)
    requires
        old(reader).sound(),
        among > 0,
    ensures
        final(reader)@ == old(reader)@,
        final(reader).sound(),
        place < among,
        final(reader).complete() ==> old(reader).complete() && place == picked(
            old(reader)@,
            draw,
            among as nat,
        ),
        old(reader).complete() && pick_supplied(old(reader)@, draw, among as nat) ==>
            final(reader).complete(),
{
    let amount = reader.integer(among as u64);
    let scaled = reader.product(draw, amount);
    let floor = reader.gather_number(Operation::Floor(scaled));
    let place: u64 = reader.gather(Operation::Whole(floor));
    if place < among as u64 {
        place as usize
    } else {
        among - 1
    }
}

/// Whether a worksheet holds all that moving a coordinate a little takes.
pub open spec fn jitter_supplied(
    results: Map<Operation, u64>,
    at: Real,
    draw: Real,
    grid: GridSpec,
) -> bool {
    let centred = difference(results, draw, real_of(N_0_5));
    let degrees = product(results, centred, grid.grid_res);
    let offset = product(results, degrees, real_of(N_0_8));
    &&& results.contains_key(Operation::Difference(draw, real_of(N_0_5)))
    &&& results.contains_key(Operation::Product(centred, grid.grid_res))
    &&& results.contains_key(Operation::Product(degrees, real_of(N_0_8)))
    &&& results.contains_key(Operation::Sum(at, offset))
}

fn jitter(at: Real, draw: Real, grid: GridSpec, reader: &mut Reader<'_>) -> (moved: Real)
    requires
        old(reader).sound(),
    ensures
        final(reader)@ == old(reader)@,
        final(reader).sound(),
        final(reader).complete() ==> old(reader).complete() && moved == jittered(
            old(reader)@,
            at,
            draw,
            grid,
        ),
        old(reader).complete() && jitter_supplied(old(reader)@, at, draw, grid) ==>
            final(reader).complete(),
{
    let centred = reader.difference(draw, Real::from_bits(N_0_5));
    let degrees = reader.product(centred, grid.grid_res);
    let offset = reader.product(degrees, Real::from_bits(N_0_8));
    reader.sum(at, offset)
}

/// Whether a worksheet holds all that the search for a place takes.
pub open spec fn spawn_supplied(
    results: Map<Operation, u64>,
    territory: TerritoryControl,
    cities: Seq<ProductionCity>,
    country_id: u16,
    side: usize,
    supply_failed: bool,
    draws: Seq<Real>,
    used: nat,
) -> bool {
    let friendly = city_sites(territory, cities, country_id, side, false, cities.len());
    let front = city_sites(territory, cities, country_id, side, true, cities.len());
    let cells = territory.land@.len();
    let held = held_cells(territory, country_id, side, sample_step(cells), sample_count(cells));
    let grid = territory.grid;
    if friendly.len() > 0 {
        let candidates = if !supply_failed && front.len() > 0 {
            front
        } else {
            friendly
        };
        let city = candidates[picked(results, draws[used as int], candidates.len())];
        let lat = jittered(results, city.lat, draws[used as int + 1], grid);
        let lng = jittered(results, city.lng, draws[used as int + 2], grid);
        used + 3 <= draws.len() ==> {
            &&& pick_supplied(results, draws[used as int], candidates.len())
            &&& jitter_supplied(results, city.lat, draws[used as int + 1], grid)
            &&& jitter_supplied(results, city.lng, draws[used as int + 2], grid)
            &&& cell_supplied(results, grid, lat, lng)
            &&& cell_supplied(results, grid, city.lat, city.lng)
        }
    } else {
        let cell = held[picked(results, draws[used as int], held.len())];
        held.len() > 0 && used + 1 <= draws.len() ==> {
            &&& pick_supplied(results, draws[used as int], held.len())
            &&& center_supplied(results, cell, grid)
        }
    }
}

/// Looks for a place where a new formation of a country appears. Gives the place, if there is one,
/// and how many draws are used up; nothing if there were too few.
pub fn recruitment_spawn_cell(
    country_id: u16,
    side: usize,
    supply_failed: bool,
    cities: &Vec<ProductionCity>,
    territory: &TerritoryControl,
    draws: &Vec<Real>,
    used: usize,
    reader: &mut Reader<'_>,
) -> (found: Option<(Option<RecruitSite>, usize)>)
    requires
        old(reader).sound(),
        territory.well_formed(),
        used <= draws@.len(),
    ensures
        final(reader)@ == old(reader)@,
        final(reader).sound(),
        found matches Some((_, after)) ==> after <= draws@.len(),
        final(reader).complete() ==> old(reader).complete() && ({
            let search = spawn_search(
                old(reader)@,
                *territory,
                cities@,
                country_id,
                side,
                supply_failed,
                draws@,
                used as nat,
            );
            match found {
                Some((site, after)) => search.used == Some(after as nat) && search.site == site,
                None => search.used is None,
            }
        }),
        old(reader).complete() && spawn_supplied(
            old(reader)@,
            *territory,
            cities@,
            country_id,
            side,
            supply_failed,
            draws@,
            used as nat,
        ) ==> final(reader).complete(),
{
    let friendly = list_city_sites(territory, cities, country_id, side, false);
    if friendly.len() > 0 {
        let front = list_city_sites(territory, cities, country_id, side, true);
        if draws.len() - used < 3 {
            return None;
        }
        let city: RecruitSite = if !supply_failed && front.len() > 0 {
            let place: usize = pick(draws[used], front.len(), reader);
            front[place]
        } else {
            let place: usize = pick(draws[used], friendly.len(), reader);
            friendly[place]
        };
        let lat = jitter(city.lat, draws[used + 1], territory.grid, reader);
        let lng = jitter(city.lng, draws[used + 2], territory.grid, reader);
        let near = grid_index(territory.grid, lat, lng, reader);
        if let Some(cell) = near {
            if territory.world_control[cell] == country_id && is_dominated(territory, cell, side) {
                return Some((Some(RecruitSite { lat, lng, cell }), used + 3));
            }
        }
        let site = match grid_index(territory.grid, city.lat, city.lng, reader) {
            Some(cell) => Some(RecruitSite { lat: city.lat, lng: city.lng, cell }),
            None => None,
        };
        return Some((site, used + 3));
    }
    let held = list_held_cells(territory, country_id, side);
    if held.len() == 0 {
        return Some((None, used));
    }
    if draws.len() - used < 1 {
        return None;
    }
    let place: usize = pick(draws[used], held.len(), reader);
    let cell: usize = held[place];
    proof {
        assert(territory.grid.width > 0) by {
            if territory.grid.width == 0 {
                assert(territory.grid.area() == 0) by (nonlinear_arith)
                    requires
                        territory.grid.width == 0,
                        territory.grid.area() == territory.grid.width * territory.grid.height,
                ;
            }
        }
    }
    let (lat, lng) = recruit_cell_center(cell, territory.grid, reader);
    Some((Some(RecruitSite { lat, lng, cell }), used + 1))
}

} // verus!
