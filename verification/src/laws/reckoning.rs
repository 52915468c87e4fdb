//! How things are added up, measured and read: musters, tolls, cells, corridors and identifiers.

use vstd::prelude::*;
use crate::casualties::{DamageOutcome, DamageResult};
use crate::catalogue::{city_identity, named_owner};
use crate::numbers::{
    MINUS_N_180, MINUS_N_90, N_0_25, N_0_5, N_0_6, N_0_8, N_0_96, N_100, N_1000, N_3,
};
use crate::operations::OperationalPoint;
use crate::paycycle::{dissolve_country, CycleModel};
use crate::production::ProductionError;
use crate::runtime::battlefield::SideDynamics;
use crate::runtime::counters::{equipment_lost, missile_totals, people_lost};
use crate::runtime::enlistment::reserve_left;
use crate::runtime::execution::{units_near, ExecutionUnitInput};
use crate::runtime::influence::source_of;
use crate::json::FieldModel;
use crate::runtime::policy::InfluenceModel;
use crate::runtime::recruitment::{at_front, cell_center, enemy_held};
use crate::runtime::tactics::defensive_speed;
use crate::runtime::world::TerritoryControl;
use crate::scalar::{real_of, Real, ONE_BITS};
use crate::scenario::{painted, GridSpec, Maps};
use crate::simulation::UnitSnapshot;
use crate::strategic::{
    enrolled, mustered, occurs_before, pairs_of, unit_due, Muster, StrategicDerivationInput,
};
use crate::taskforce::{distance_squared, nearest_on_legs};
use crate::units::SimulationUnit;
use crate::worksheet::{difference, integer, longitude_delta, product, quotient, sum, Operation};

verus! {

/// A live formation adds its pay to what its country owes and to no other country's bill, counts
/// once as a paid one, and counts as a formation of its country unless it is armor without a
/// vehicle.
pub proof fn enrolling_pays_one_country(
    results: Map<Operation, u64>,
    muster: Muster,
    unit: UnitSnapshot,
    other: u16,
)
    requires
        enrolled(results, muster, unit) is Ok,
        unit.sovereign <= u16::MAX,
    ensures
        ({
            let after = enrolled(results, muster, unit)->Ok_0;
            let country = unit.sovereign as u16;
            &&& after.payroll.contains_key(country)
            &&& !muster.payroll.contains_key(country) ==> after.payroll[country] == sum(
                results,
                real_of(0),
                unit_due(results, unit),
            )
            &&& muster.payroll.contains_key(country) ==> after.payroll[country] == sum(
                results,
                muster.payroll[country],
                unit_due(results, unit),
            )
            &&& other != country ==> after.payroll.contains_key(other)
                == muster.payroll.contains_key(other)
            &&& other != country && muster.payroll.contains_key(other) ==> after.payroll[other]
                == muster.payroll[other]
            &&& after.payroll_units == muster.payroll_units + 1
            &&& after.garrisons == muster.garrisons
            &&& unit.kind is Armor && unit.equipment == 0 ==> after.unit_counts
                == muster.unit_counts
            &&& unit.kind is Army || unit.equipment > 0 ==> after.unit_counts.contains_key(country)
                && after.unit_counts[country] == (if muster.unit_counts.contains_key(country) {
                muster.unit_counts[country] + 1
            } else {
                1
            })
        }),
{
}

/// Armor is paid three for every hundred vehicles it has, foot one for every thousand people that
/// it has room for.
pub proof fn pay_goes_by_size(results: Map<Operation, u64>, unit: UnitSnapshot)
    ensures
        unit.kind is Army ==> unit_due(results, unit) == quotient(
            results,
            integer(results, unit.personnel_capacity),
            real_of(N_1000),
        ),
        unit.kind is Armor ==> unit_due(results, unit) == product(
            results,
            quotient(results, integer(results, unit.equipment), real_of(N_100)),
            real_of(N_3),
        ),
{
}

/// A formation without health is neither paid nor counted, and neither an unknown nor a repeated
/// one passes.
pub proof fn the_dead_are_not_mustered(
    results: Map<Operation, u64>,
    source: StrategicDerivationInput<'_>,
    count: nat,
)
    requires
        0 < count <= source.frame.units@.len(),
        mustered(results, source, count) is Ok,
    ensures
        mustered(results, source, (count - 1) as nat) is Ok,
        source.frame.units@[count - 1].health.le(real_of(0)) ==> mustered(results, source, count)
            == mustered(results, source, (count - 1) as nat),
        !source.frame.units@[count - 1].health.le(real_of(0)) ==> mustered(
            results,
            source,
            count,
        )->Ok_0.payroll_units == mustered(results, source, (count - 1) as nat)->Ok_0.payroll_units
            + 1,
        source.country_to_side@.contains_key(source.frame.units@[count - 1].sovereign as u16),
        forall|i: int|
            0 <= i < count - 1 ==> (#[trigger] source.frame.units@[i]).id
                != source.frame.units@[count - 1].id,
{
    let unit = source.frame.units@[count - 1];
    assert(!occurs_before(source.frame.units@, unit.id, count - 1));
}

/// Sides of a pair were both active, come in their order, and one is hostile to the other.
pub proof fn pairs_are_of_enemies(
    matrix: Seq<u8>,
    side_count: int,
    active: Seq<u16>,
    at: int,
    count: int,
    which: int,
)
    requires
        0 <= at,
        count <= active.len(),
        0 <= which < pairs_of(matrix, side_count, active, at, count).len(),
    ensures
        ({
            let pair = pairs_of(matrix, side_count, active, at, count)[which];
            &&& pair.0 == active[at]
            &&& exists|i: int| at < i < count && pair.1 == #[trigger] active[i]
            &&& matrix[pair.0 * side_count + pair.1] == 1 || matrix[pair.1 * side_count + pair.0]
                == 1
        }),
    decreases count - at,
{
    let rest = pairs_of(matrix, side_count, active, at, count - 1);
    if which < rest.len() {
        pairs_are_of_enemies(matrix, side_count, active, at, count - 1, which);
    } else {
        assert(pairs_of(matrix, side_count, active, at, count)[which].1 == active[count - 1]);
    }
}

/// Every enemy behind an active side makes a pair with it.
pub proof fn enemies_make_pairs(
    matrix: Seq<u8>,
    side_count: int,
    active: Seq<u16>,
    at: int,
    count: int,
    other: int,
)
    requires
        0 <= at < other < count <= active.len(),
        matrix[active[at] * side_count + active[other]] == 1 || matrix[active[other] * side_count
            + active[at]] == 1,
    ensures
        pairs_of(matrix, side_count, active, at, count).contains((active[at], active[other])),
    decreases count,
{
    let rest = pairs_of(matrix, side_count, active, at, count - 1);
    let all = pairs_of(matrix, side_count, active, at, count);
    let pair = (active[at], active[other]);
    if other == count - 1 {
        assert(all == rest.push(pair));
        assert(all[rest.len() as int] == pair);
    } else {
        enemies_make_pairs(matrix, side_count, active, at, count - 1, other);
        let k = choose|k: int| 0 <= k < rest.len() && rest[k] == pair;
        assert(all[k] == pair);
    }
}

/// Impacts add up: each adds those whom it hurt, those whom it removed, and what they lost.
pub proof fn impacts_add_up(damages: Seq<DamageOutcome>, count: nat)
    requires
        0 < count <= damages.len(),
    ensures
        ({
            let before = missile_totals(damages, (count - 1) as nat);
            let after = missile_totals(damages, count);
            let last = damages[count - 1];
            &&& after.damaged == before.damaged + last.results@.len()
            &&& after.removed == before.removed + last.removed_ids@.len()
            &&& last.results@.len() == 0 ==> after.people == before.people && after.equipment
                == before.equipment
            &&& last.results@.len() == 1 ==> after.people == before.people
                + last.results@[0].personnel_loss && after.equipment == before.equipment
                + last.results@[0].equipment_loss
        }),
{
    reveal_with_fuel(people_lost, 2);
    reveal_with_fuel(equipment_lost, 2);
}

/// No impact hurts nobody, and totals never go down.
pub proof fn impacts_never_heal(damages: Seq<DamageOutcome>, count: nat)
    requires
        count <= damages.len(),
    ensures
        missile_totals(damages, 0).damaged == 0,
        missile_totals(damages, 0).removed == 0,
        missile_totals(damages, 0).people == 0,
        missile_totals(damages, 0).equipment == 0,
        missile_totals(damages, count).people >= 0,
        missile_totals(damages, count).equipment >= 0,
    decreases count,
{
    if count > 0 {
        impacts_never_heal(damages, (count - 1) as nat);
        let told = damages[count - 1].results@;
        lemma_losses_are_no_gains(told, told.len());
    }
}

proof fn lemma_losses_are_no_gains(results: Seq<DamageResult>, count: nat)
    requires
        count <= results.len(),
    ensures
        people_lost(results, count) >= 0,
        equipment_lost(results, count) >= 0,
    decreases count,
{
    if count > 0 {
        lemma_losses_are_no_gains(results, (count - 1) as nat);
    }
}

/// Recruits are taken out of the reserve of their own side one by one, and of no other.
pub proof fn reserves_pay_for_their_own(
    results: Map<Operation, u64>,
    reserve: Real,
    recruits: Seq<SimulationUnit>,
    side: usize,
    count: nat,
)
    requires
        0 < count <= recruits.len(),
    ensures
        ({
            let before = reserve_left(results, reserve, recruits, side, (count - 1) as nat);
            let after = reserve_left(results, reserve, recruits, side, count);
            let last = recruits[count - 1];
            &&& last.combat.side != side ==> after == before
            &&& last.combat.side == side ==> after == difference(
                results,
                before,
                integer(results, last.combat.personnel),
            )
        }),
        reserve_left(results, reserve, recruits, side, 0) == reserve,
{
}

/// Side by side, a formation near a place adds one, any other adds none.
pub proof fn near_units_are_counted_once(
    results: Map<Operation, u64>,
    units: Seq<ExecutionUnitInput>,
    side: usize,
    target: OperationalPoint,
    limit: Real,
    count: nat,
)
    requires
        0 < count <= units.len(),
    ensures
        ({
            let before = units_near(results, units, side, target, limit, (count - 1) as nat);
            let after = units_near(results, units, side, target, limit, count);
            let last = units[count - 1];
            &&& last.side != side ==> after == before
            &&& !distance_squared(results, last.position, target).lt(limit) ==> after == before
            &&& last.side == side && distance_squared(results, last.position, target).lt(limit)
                ==> after == before + 1
        }),
        units_near(results, units, side, target, limit, 0) == 0,
{
}

/// A cell is at the front where an enemy dominates the cell beside it, or the cell above or below
/// it; an enemy elsewhere makes no front.
pub proof fn fronts_lie_beside_enemies(territory: TerritoryControl, cell: usize, side: usize)
    requires
        cell > territory.grid.width,
    ensures
        enemy_held(territory, cell + 1, side) ==> at_front(territory, cell, side),
        enemy_held(territory, cell - 1, side) ==> at_front(territory, cell, side),
        enemy_held(territory, cell + territory.grid.width, side) ==> at_front(
            territory,
            cell,
            side,
        ),
        enemy_held(territory, cell - territory.grid.width, side) ==> at_front(
            territory,
            cell,
            side,
        ),
        at_front(territory, cell, side) ==> enemy_held(territory, cell + 1, side) || enemy_held(
            territory,
            cell - 1,
            side,
        ) || enemy_held(territory, cell + territory.grid.width, side) || enemy_held(
            territory,
            cell - territory.grid.width,
            side,
        ),
{
}

/// An enemy holds a cell of the map where it dominates it, and never its own side.
pub proof fn enemies_hold_what_they_dominate(territory: TerritoryControl, cell: int, side: usize)
    ensures
        enemy_held(territory, cell, side) ==> 0 <= cell < territory.dominant_side@.len()
            && territory.dominant_side@[cell] >= 0 && territory.hostility@[side
            * territory.max_sides + territory.dominant_side@[cell]] == 1,
        0 <= cell < territory.dominant_side@.len() && territory.dominant_side@[cell] < 0
            ==> !enemy_held(territory, cell, side),
{
}

/// The middle of a cell lies half a cell north and east of its corner, counted in rows of the
/// width of the grid from the south-west.
pub proof fn cells_have_a_middle(results: Map<Operation, u64>, cell: usize, grid: GridSpec)
    requires
        grid.width > 0,
    ensures
        cell_center(results, cell, grid).0 == sum(
            results,
            real_of(MINUS_N_90),
            product(
                results,
                sum(results, integer(results, (cell / grid.width) as u64), real_of(N_0_5)),
                grid.grid_res,
            ),
        ),
        cell_center(results, cell, grid).1 == sum(
            results,
            real_of(MINUS_N_180),
            product(
                results,
                sum(results, integer(results, (cell % grid.width) as u64), real_of(N_0_5)),
                grid.grid_res,
            ),
        ),
{
}

/// A defending side moves slower in steps as its people dwindle: at full pace with half of them,
/// at four fifths of it below, at three fifths below a quarter or where there never were any.
pub proof fn the_depleted_defend_slowly(results: Map<Operation, u64>, dynamics: SideDynamics)
    ensures
        ({
            let speed = defensive_speed(results, dynamics);
            let ratio = quotient(results, dynamics.current_personnel, dynamics.initial_personnel);
            let known = real_of(0).lt(dynamics.initial_personnel);
            &&& known && real_of(N_0_5).le(ratio) ==> speed == product(
                results,
                real_of(N_0_96),
                real_of(ONE_BITS),
            )
            &&& known && real_of(N_0_25).le(ratio) && ratio.lt(real_of(N_0_5)) ==> speed
                == product(results, real_of(N_0_96), real_of(N_0_8))
            &&& known && ratio.lt(real_of(N_0_25)) ==> speed == product(
                results,
                real_of(N_0_96),
                real_of(N_0_6),
            )
            &&& !known ==> speed == product(results, real_of(N_0_96), real_of(N_0_6))
        }),
{
}

/// Going on along a corridor never leads to a farther place, and of places equally far the later
/// one counts.
pub proof fn the_nearest_place_stays_nearest(
    results: Map<Operation, u64>,
    points: Seq<OperationalPoint>,
    position: OperationalPoint,
    legs: nat,
)
    requires
        0 < legs < points.len(),
    ensures
        ({
            let before = nearest_on_legs(results, points, position, (legs - 1) as nat);
            let after = nearest_on_legs(results, points, position, legs);
            &&& !before.distance.lt(after.distance)
            &&& after.distance.same(before.distance) ==> !after.progress.lt(before.progress)
        }),
{
}

/// A corridor place that is newly the nearest lies on the last leg, and counts the legs behind it.
pub proof fn a_nearer_place_lies_on_the_last_leg(
    results: Map<Operation, u64>,
    points: Seq<OperationalPoint>,
    position: OperationalPoint,
    legs: nat,
)
    requires
        0 < legs < points.len(),
        nearest_on_legs(results, points, position, legs) != nearest_on_legs(
            results,
            points,
            position,
            (legs - 1) as nat,
        ),
    ensures
        exists|share: Real|
            on_leg(
                results,
                points[legs - 1],
                points[legs as int],
                position,
                share,
                nearest_on_legs(results, points, position, legs).distance,
            ) && nearest_on_legs(results, points, position, legs).progress == quotient(
                results,
                #[trigger] sum(results, integer(results, (legs - 1) as u64), share),
                integer(results, (points.len() - 1) as u64),
            ),
{
    let left = points[legs - 1];
    let right = points[legs as int];
    let delta_lat = difference(results, right.lat, left.lat);
    let delta_lng = longitude_delta(results, left.lng, right.lng);
    let from_lat = difference(results, position.lat, left.lat);
    let from_lng = longitude_delta(results, left.lng, position.lng);
    let length = sum(
        results,
        product(results, delta_lat, delta_lat),
        product(results, delta_lng, delta_lng),
    );
    let along = quotient(
        results,
        sum(
            results,
            product(results, from_lat, delta_lat),
            product(results, from_lng, delta_lng),
        ),
        length,
    );
    let share = if real_of(0).lt(length) {
        along.clamp_of(real_of(0), real_of(ONE_BITS))
    } else {
        real_of(0)
    };
    assert(nearest_on_legs(results, points, position, legs).progress == quotient(
        results,
        sum(results, integer(results, (legs - 1) as u64), share),
        integer(results, (points.len() - 1) as u64),
    ));
}

/// Whether a share of a leg between nothing and all of it lies at a distance from a position.
pub open spec fn on_leg(
    results: Map<Operation, u64>,
    left: OperationalPoint,
    right: OperationalPoint,
    position: OperationalPoint,
    share: Real,
    distance: Real,
) -> bool {
    &&& share.nan() || real_of(0).le(share) && share.le(real_of(ONE_BITS))
    &&& distance == distance_squared(
        results,
        position,
        OperationalPoint {
            lat: sum(
                results,
                left.lat,
                product(results, difference(results, right.lat, left.lat), share),
            ),
            lng: sum(
                results,
                left.lng,
                product(results, longitude_delta(results, left.lng, right.lng), share),
            ),
        },
    )
}

/// A painted cell is land of its owner by right and in fact; a cell that was not hit stays.
pub proof fn painting_changes_what_it_hits(
    before: Maps,
    hit: spec_fn(int) -> bool,
    owner: u16,
    biome: Option<u8>,
    cell: int,
)
    requires
        0 <= cell < before.world_control.len(),
        before.de_jure.len() == before.world_control.len(),
        before.land.len() == before.world_control.len(),
        before.biome.len() == before.world_control.len(),
    ensures
        ({
            let after = painted(before, hit, owner, biome);
            &&& after.world_control.len() == before.world_control.len()
            &&& hit(cell) ==> after.world_control[cell] == owner && after.de_jure[cell] == owner
                && after.land[cell] == 1
            &&& hit(cell) && biome is Some ==> after.biome[cell] == biome->Some_0
            &&& !hit(cell) || biome is None ==> after.biome[cell] == before.biome[cell]
            &&& !hit(cell) ==> after.world_control[cell] == before.world_control[cell]
                && after.de_jure[cell] == before.de_jure[cell] && after.land[cell]
                == before.land[cell]
        }),
{
}

/// A city's own positive number is its identifier; one that is named, or only listed, gets an
/// identifier that is never zero; nothing else identifies a city.
pub proof fn cities_have_an_identity(id: FieldModel, index: usize)
    ensures
        id matches FieldModel::Number { unsigned, value } ==> {
            &&& unsigned is Some && unsigned->Some_0 > 0 ==> city_identity(id, index) == Ok::<
                u64,
                ProductionError,
            >(unsigned->Some_0)
            &&& unsigned is None || unsigned->Some_0 == 0 ==> city_identity(id, index) is Err
        },
        id matches FieldModel::Text(text) ==> (city_identity(id, index) is Ok <==> text.len() > 0),
        id is Absent || id is Null ==> city_identity(id, index) is Ok,
        city_identity(id, index) matches Ok(known) ==> known > 0,
        city_identity(FieldModel::Absent, index) == city_identity(FieldModel::Null, index),
{
}

/// A named owner is the first one named, is a positive number of sixteen bits, and may be missing.
pub proof fn owners_are_the_first_named(first: FieldModel, second: FieldModel)
    ensures
        first.missing() ==> named_owner(first, second) == named_owner(second, second),
        !first.missing() ==> named_owner(first, second) == named_owner(first, first),
        first.missing() && second.missing() ==> named_owner(first, second) == Ok::<
            Option<u16>,
            &'static str,
        >(None),
        named_owner(first, second) matches Ok(Some(owner)) ==> owner > 0,
        !first.missing() && first.whole() is None ==> named_owner(first, second) is Err,
        !first.missing() && first.whole() == Some(0u64) ==> named_owner(first, second) is Err,
{
}

/// Influence of a formation is spread where the formation stands, for its own country unless its
/// policy names another.
pub proof fn influence_speaks_for_a_country(
    influence: InfluenceModel,
    id: u64,
    side: usize,
    sovereign: u16,
    lat: Real,
    lng: Real,
    radius: Real,
    delta: Real,
)
    ensures
        ({
            let source = source_of(influence, id, side, sovereign, lat, lng, radius, delta);
            &&& source.id == id && source.side == side && source.sovereign == sovereign
            &&& source.lat == lat && source.lng == lng
            &&& source.radius == radius && source.delta == delta
            &&& influence.beneficiary is None ==> source.beneficiary == sovereign
            &&& influence.beneficiary matches Some(country) ==> source.beneficiary == country
            &&& source.refuses_offense == influence.refuses_offense
            &&& source.protected_owner_ids == influence.protected_owner_ids
            &&& source.owner_ally_country_ids == influence.owner_ally_country_ids
        }),
{
}

/// A defeated country repairs, buys and raises nothing; its reserves are gone; other countries'
/// records and stocks stay; and every aircraft it had escaped or was lost.
pub proof fn the_defeated_are_dissolved(
    results: Map<Operation, u64>,
    air_accepted: bool,
    model: CycleModel,
    index: int,
    side: usize,
    other: int,
)
    requires
        0 <= index < model.records.len(),
        model.stocks.len() == model.records.len(),
        dissolve_country(results, air_accepted, model, index, side) is Ok,
    ensures
        ({
            let (after, report) = dissolve_country(results, air_accepted, model, index, side)->Ok_0;
            &&& air_accepted
            &&& report.country_id == model.records[index].country_id
            &&& report.airfields_repaired == 0 && report.armor_purchased == 0
                && report.armor_reinforced == 0
            &&& report.armor_creation.created_unit_id is None
            &&& report.armor_creation.formations_after == report.armor_creation.formations_before
            &&& report.air.fighters_purchased == 0 && report.air.strike_purchased == 0
            &&& report.air.wing_creation.len() == 0
            &&& after.records.len() == model.records.len()
            &&& after.records[index].country_id == model.records[index].country_id
            &&& after.records[index].reserve_fighters == 0
            &&& after.records[index].reserve_strike == 0
            &&& 0 <= other < model.records.len() && other != index ==> after.records[other]
                == model.records[other] && after.stocks[other] == model.stocks[other]
            &&& after.units == model.units
            &&& after.reserves == model.reserves
            &&& after.economies == model.economies
        }),
{
}

} // verus!
