//! What follows combat in a tick: losses are counted, a strategic cycle is prepared, and what it
//! decided takes effect.

use std::collections::BTreeMap;
use vstd::prelude::*;
use crate::casualties::{
    air_ledger, combat_ledger, ledger_view, AirAdvanceOutcome, DamageOutcome, Ledger, Toll,
};
use crate::production::{ProductionConfig, ProductionError, ScenarioProduction};
use crate::runtime::assembly::{
    census_after_surrender, record_removals, removed_somewhere, show_consequences,
};
use crate::runtime::counters::RuntimeCensusCounters;
use crate::runtime::dynamics::{casualties_by_side, losses_by_side, losses_supplied};
use crate::runtime::effects::{
    allowed_pair, allowed_side, restrict_to_explicit_active_sides, restricted_country,
    retain_standing, side_stands, StrategicCountry,
};
use crate::runtime::stages::{
    count_losses, counting_supplied, derive_production_input, owned, production_derived,
    production_source, recount, tick_toll,
};
use crate::runtime::world::{RuntimeDiplomacy, StrategicState, TerritoryControl};
use crate::order::strictly_sorted;
use crate::scalar::Real;
use crate::simulation::{FrameSnapshot, TickCounters, UnitSnapshot};
use crate::strategic::{
    cycle_supplied, derived_cycle, embattled, CycleModel, StrategicDerivationCounters,
    StrategicDerivationInput, StrategicDerivationOutput, TerritorySnapshot,
};
use crate::tables::ascending;
use crate::worksheet::{all_missing, Operation, Reader, Stop, Worksheet};

verus! {

// ---------------------------------------------------------------------------------------------
// Losses
// ---------------------------------------------------------------------------------------------

/// What hurt formations in a tick besides combat on land.
#[derive(Clone, Copy, Debug)]
pub struct TickDamage<'a> {
    pub air: Option<&'a AirAdvanceOutcome>,
    pub air_damage: Option<&'a DamageOutcome>,
    /// Formations that went into exile, if any did.
    pub exiled: Option<&'a Vec<u64>>,
    pub attrition: Option<&'a DamageOutcome>,
    pub impacts: &'a Vec<DamageOutcome>,
}

impl<'a> TickDamage<'a> {
    /// Whether anything but combat may have removed formations.
    pub open spec fn struck(self) -> bool {
        self.air_damage is Some || self.exiled is Some || self.attrition is Some
            || self.impacts@.len() > 0
    }

    /// Whether a formation was removed by anything but combat.
    pub open spec fn removed(self, id: u64) -> bool {
        ||| (self.air_damage matches Some(damage) && damage.removed_ids@.contains(id))
        ||| (self.exiled matches Some(ids) && ids@.contains(id))
        ||| (self.attrition matches Some(damage) && damage.removed_ids@.contains(id))
        ||| exists|i: int|
            0 <= i < self.impacts@.len() && (
            #[trigger] self.impacts@[i]).removed_ids@.contains(id)
    }
}

/// A tick after its losses are counted.
#[derive(Debug)]
pub struct CountedTick {
    pub frame: FrameSnapshot,
    pub counters: TickCounters,
    pub casualties: BTreeMap<u16, Real>,
    pub casualties_by_victim: BTreeMap<u16, BTreeMap<u16, Real>>,
    /// People whom each side lost in this tick.
    pub losses_by_side: BTreeMap<usize, Real>,
}

/// Whether a worksheet holds all that closing combat takes.
pub open spec fn closing_supplied(
    results: Map<Operation, u64>,
    damage: TickDamage<'_>,
    previous: Toll,
    ledger: Ledger,
    owners: Map<u64, u16>,
    wing_owners: Map<u64, u16>,
    frame: FrameSnapshot,
    country_to_side: Map<u16, usize>,
) -> bool {
    let toll = tick_toll(
        results,
        previous,
        owners,
        wing_owners,
        frame.events@,
        owned(damage.air),
        owned(damage.air_damage),
        owned(damage.attrition),
        damage.impacts@,
    );
    &&& counting_supplied(
        results,
        previous,
        ledger,
        owners,
        wing_owners,
        frame.events@,
        damage.air,
        damage.air_damage,
        damage.attrition,
        damage.impacts@,
    )
    &&& losses_supplied(results, previous, toll, country_to_side, ascending(toll.dom()))
}

/// Whether one of several lists names a formation.
pub open spec fn named_by(parts: Seq<Vec<u64>>, id: u64) -> bool {
    exists|i: int| 0 <= i < parts.len() && (#[trigger] parts[i])@.contains(id)
}

fn list_removed(damage: TickDamage<'_>) -> (parts: Vec<Vec<u64>>)
    ensures
        parts@.len() > 0 <==> damage.struck(),
        forall|id: u64|
            #![trigger damage.removed(id)]
            damage.removed(id) <==> named_by(parts@, id),
{
    let mut parts: Vec<Vec<u64>> = Vec::new();
    if let Some(dealt) = damage.air_damage {
        parts.push(crate::order::copy_all(&dealt.removed_ids));
    }
    let ghost bombed = parts@;
    if let Some(ids) = damage.exiled {
        parts.push(crate::order::copy_all(ids));
    }
    let ghost exiled = parts@;
    if let Some(dealt) = damage.attrition {
        parts.push(crate::order::copy_all(&dealt.removed_ids));
    }
    let ghost worn = parts@;
    proof {
        assert forall|id: u64| #[trigger] named_by(worn, id) <==> ((
        damage.air_damage matches Some(dealt) && dealt.removed_ids@.contains(id)) || (
        damage.exiled matches Some(ids) && ids@.contains(id)) || (
        damage.attrition matches Some(dealt) && dealt.removed_ids@.contains(id))) by {
            if damage.air_damage is Some {
                assert(worn[0] == bombed[0]);
            }
            if damage.exiled is Some {
                assert(worn[bombed.len() as int] == exiled[bombed.len() as int]);
            }
            if damage.attrition is Some {
                assert(worn[exiled.len() as int]@ == (damage.attrition->0).removed_ids@);
            }
        }
    }
    let mut at: usize = 0;
    while at < damage.impacts.len()
        invariant
            at <= damage.impacts@.len(),
            parts@.len() == worn.len() + at,
            forall|i: int| 0 <= i < worn.len() ==> parts@[i] == #[trigger] worn[i],
            forall|i: int|
                0 <= i < at ==> (#[trigger] parts@[worn.len() + i])@
                    == damage.impacts@[i].removed_ids@,
        decreases damage.impacts@.len() - at,
    {
        let ghost before = parts@;
        parts.push(crate::order::copy_all(&damage.impacts[at].removed_ids));
        proof {
            assert forall|i: int| 0 <= i < at + 1 implies (#[trigger] parts@[worn.len() + i])@
                == damage.impacts@[i].removed_ids@ by {
                if i < at {
                    assert(parts@[worn.len() + i] == before[worn.len() + i]);
                }
            }
        }
        at = at + 1;
    }
    proof {
        assert forall|id: u64| #![trigger damage.removed(id)] damage.removed(id) <==> named_by(
            parts@,
            id,
        ) by {
            if damage.removed(id) {
                if exists|i: int|
                    0 <= i < damage.impacts@.len() && (
                    #[trigger] damage.impacts@[i]).removed_ids@.contains(id) {
                    let i = choose|i: int|
                        0 <= i < damage.impacts@.len() && (
                        #[trigger] damage.impacts@[i]).removed_ids@.contains(id);
                    assert(parts@[worn.len() + i]@.contains(id));
                } else {
                    assert(named_by(worn, id));
                    let i = choose|i: int|
                        0 <= i < worn.len() && (#[trigger] worn[i])@.contains(id);
                    assert(parts@[i]@.contains(id));
                }
            }
            if named_by(parts@, id) {
                let i = choose|i: int| 0 <= i < parts@.len() && (#[trigger] parts@[i])@.contains(id);
                if i < worn.len() {
                    assert(worn[i]@.contains(id));
                    assert(named_by(worn, id));
                } else {
                    assert(parts@[worn.len() + (i - worn.len())]@.contains(id));
                    assert(damage.impacts@[i - worn.len()].removed_ids@.contains(id));
                }
            }
        }
    }
    parts
}

/// Closes the combat of a tick: the frame reports every formation that is gone, and the losses of
/// the tick are added to what was lost before.
pub fn close_combat(
    frame: FrameSnapshot,
    counters: TickCounters,
    input_units: usize,
    damage: TickDamage<'_>,
    previous: &BTreeMap<u16, Real>,
    previous_ledger: &BTreeMap<u16, BTreeMap<u16, Real>>,
    owners: &BTreeMap<u64, u16>,
    wing_owners: &BTreeMap<u64, u16>,
    country_to_side: &BTreeMap<u16, usize>,
    reader: &mut Reader<'_>,
) -> (counted: CountedTick)
    requires
        old(reader).sound(),
    ensures
        final(reader)@ == old(reader)@,
        final(reader).sound(),
        !damage.struck() ==> counted.frame == frame && counted.counters == counters,
        damage.struck() ==> {
            &&& counted.frame.schema_version == frame.schema_version
            &&& counted.frame.tick == frame.tick
            &&& counted.frame.frame == frame.frame
            &&& counted.frame.units == frame.units
            &&& counted.frame.events == frame.events
            &&& counted.frame.abandoned_ids == frame.abandoned_ids
            &&& strictly_sorted(counted.frame.removed_ids@)
            &&& forall|id: u64| #[trigger]
                counted.frame.removed_ids@.contains(id) <==> (frame.removed_ids@.contains(id)
                    || damage.removed(id))
            &&& counted.counters == (TickCounters {
                input_units,
                removed_units: counted.frame.removed_ids@.len() as usize,
                ..counters
            })
        },
        final(reader).complete() ==> {
            let toll = tick_toll(
                old(reader)@,
                previous@,
                owners@,
                wing_owners@,
                frame.events@,
                owned(damage.air),
                owned(damage.air_damage),
                owned(damage.attrition),
                damage.impacts@,
            );
            &&& old(reader).complete()
            &&& counted.casualties@ == toll
            &&& ledger_view(counted.casualties_by_victim@) == air_ledger(
                old(reader)@,
                combat_ledger(
                    old(reader)@,
                    ledger_view(previous_ledger@),
                    owners@,
                    frame.events@,
                    frame.events@.len(),
                ),
                owners@,
                wing_owners@,
                damage.air,
                damage.air_damage,
            )
            &&& counted.losses_by_side@ == losses_by_side(
                old(reader)@,
                previous@,
                toll,
                country_to_side@,
                ascending(toll.dom()),
                ascending(toll.dom()).len(),
            )
        },
        old(reader).complete() && closing_supplied(
            old(reader)@,
            damage,
            previous@,
            ledger_view(previous_ledger@),
            owners@,
            wing_owners@,
            frame,
            country_to_side@,
        ) ==> final(reader).complete(),
{
    let (casualties, casualties_by_victim) = count_losses(
        previous,
        previous_ledger,
        owners,
        wing_owners,
        &frame.events,
        damage.air,
        damage.air_damage,
        damage.attrition,
        damage.impacts,
        reader,
    );
    let losses_by_side = casualties_by_side(previous, &casualties, country_to_side, reader);
    let removed = list_removed(damage);
    let ghost parts = removed@;
    let ghost given = frame;
    let (shown, counted) = record_removals(frame, counters, input_units, removed);
    proof {
        if damage.struck() {
            assert forall|id: u64| #[trigger] shown.removed_ids@.contains(id) <==> (
            given.removed_ids@.contains(id) || damage.removed(id)) by {
                assert(shown.removed_ids@.contains(id) <==> removed_somewhere(given, parts, id));
                assert(damage.removed(id) <==> named_by(parts, id));
            }
        }
    }
    CountedTick { frame: shown, counters: counted, casualties, casualties_by_victim, losses_by_side }
}

// ---------------------------------------------------------------------------------------------
// The strategic cycle
// ---------------------------------------------------------------------------------------------

/// The input of a cycle after sides that were not declared active are left out.
pub open spec fn prepared_cycle(
    output: StrategicDerivationOutput,
    model: CycleModel,
    source: StrategicDerivationInput<'_>,
    explicit: Seq<u16>,
) -> bool {
    let input = output.input;
    &&& input.tick == source.tick
    &&& input.force == source.force
    &&& input.territory_generation == source.territory.generation
    &&& input.territory_commit_sequence == source.territory.commit_sequence
    &&& input.territory_fresh
    &&& input.occupations@ == model.occupations
    &&& input.active_sides@ == model.active_sides.filter(allowed_side(explicit))
    &&& input.active_hostile_pairs@ == model.hostile_pairs.filter(allowed_pair(explicit))
    &&& (input.capitulation_active_sides matches Some(sides) && sides@
        == input.active_sides@.filter(
        embattled(source.hostility_matrix@, source.side_count as int, input.active_sides@),
    ))
    &&& input.countries@.len() == model.countries.len()
    &&& forall|i: int|
        0 <= i < input.countries@.len() ==> #[trigger] input.countries@[i] == restricted_country(
            model.countries[i],
            explicit,
        )
    &&& output.counters == (StrategicDerivationCounters {
        countries: model.countries.len() as usize,
        units: source.frame.units@.len() as usize,
        payroll_units: model.payroll_units as usize,
        garrison_units: model.garrison_units as usize,
        occupations: model.occupations.len() as usize,
        active_sides: input.active_sides@.len() as usize,
        hostile_pairs: input.active_hostile_pairs@.len() as usize,
    })
}

/// Prepares the input of a strategic cycle from the world as a tick leaves it. Only sides that were
/// declared active take part.
pub fn prepare_cycle(
    tick: u64,
    scenario: &ScenarioProduction,
    territory: &TerritoryControl,
    snapshot: &TerritorySnapshot,
    schema: &str,
    frame: &FrameSnapshot,
    diplomacy: &RuntimeDiplomacy,
    strategic: &StrategicState,
    casualties: &BTreeMap<u16, Real>,
    config: &ProductionConfig,
    sheet: &Worksheet,
) -> (outcome: Result<StrategicDerivationOutput, Stop<ProductionError>>)
    ensures
        match outcome {
            Ok(output) => exists|source: StrategicDerivationInput<'_>|
                #[trigger] production_source(
                    source,
                    tick,
                    *scenario,
                    *territory,
                    *snapshot,
                    schema@,
                    *frame,
                    diplomacy.hostility@,
                    strategic@,
                    casualties@,
                ) && derived_cycle(sheet@, source, *config) is Ok && prepared_cycle(
                    output,
                    derived_cycle(sheet@, source, *config)->Ok_0,
                    source,
                    diplomacy.active_sides@,
                ),
            Err(Stop::Failed(error)) => production_derived(
                sheet@,
                tick,
                *scenario,
                *territory,
                *snapshot,
                schema@,
                *frame,
                diplomacy.hostility@,
                strategic@,
                casualties@,
                *config,
                Err(error),
            ),
            Err(Stop::Missing(missing)) => {
                &&& missing@.len() > 0
                &&& all_missing(missing@, sheet@)
                &&& exists|source: StrategicDerivationInput<'_>|
                    #[trigger] production_source(
                        source,
                        tick,
                        *scenario,
                        *territory,
                        *snapshot,
                        schema@,
                        *frame,
                        diplomacy.hostility@,
                        strategic@,
                        casualties@,
                    ) && !cycle_supplied(sheet@, source, *config)
            },
        },
{
    let derived = match derive_production_input(
        tick,
        scenario,
        territory,
        snapshot,
        schema,
        frame,
        diplomacy,
        strategic,
        casualties,
        config,
        sheet,
    ) {
        Err(stop) => {
            return Err(stop);
        },
        Ok(derived) => derived,
    };
    let ghost source = choose|source: StrategicDerivationInput<'_>|
        #[trigger] production_source(
            source,
            tick,
            *scenario,
            *territory,
            *snapshot,
            schema@,
            *frame,
            diplomacy.hostility@,
            strategic@,
            casualties@,
        ) && derived_cycle(sheet@, source, *config) is Ok && derived.says(
            derived_cycle(sheet@, source, *config)->Ok_0,
            source,
        ) && crate::strategic::sides_within(
            derived.input.active_sides@,
            source.side_count as int,
        );
    let mut input = derived.input;
    restrict_to_explicit_active_sides(
        &mut input,
        &diplomacy.active_sides,
        &diplomacy.hostility,
        territory.max_sides,
    );
    let counters = recount(derived.counters, &input);
    let output = StrategicDerivationOutput { input, counters };
    proof {
        let model = derived_cycle(sheet@, source, *config)->Ok_0;
        assert(prepared_cycle(output, model, source, diplomacy.active_sides@));
    }
    Ok(output)
}

/// A tick after a strategic cycle took effect.
#[derive(Debug)]
pub struct SettledCycle {
    pub frame: FrameSnapshot,
    pub counters: TickCounters,
    pub census: RuntimeCensusCounters,
    pub active_sides: Vec<u16>,
}

/// Works the effects of a strategic cycle into what a tick publishes. `units` are the formations
/// as they are shown afterwards, if the cycle changed any; `surrendered` is the territory after a
/// surrender, if there was one.
pub fn settle_cycle(
    frame: FrameSnapshot,
    counters: TickCounters,
    census: RuntimeCensusCounters,
    active_sides: Vec<u16>,
    published: &Vec<StrategicCountry>,
    units: Option<Vec<UnitSnapshot>>,
    removed_ids: Vec<u64>,
    surrendered: Option<&TerritorySnapshot>,
) -> (settled: SettledCycle)
    ensures
        settled.active_sides@ == active_sides@.filter(side_stands(published@)),
        settled.census == (match surrendered {
            Some(snapshot) => RuntimeCensusCounters {
                committed: true,
                flushed_for_strategic_cycle: true,
                territory_generation: snapshot.generation,
                territory_commit_sequence: snapshot.commit_sequence,
                ..census
            },
            None => census,
        }),
        units is None ==> settled.frame == frame && settled.counters == counters,
        units matches Some(left) ==> {
            &&& settled.frame.schema_version == frame.schema_version
            &&& settled.frame.tick == frame.tick
            &&& settled.frame.frame == frame.frame
            &&& settled.frame.units == left
            &&& settled.frame.events == frame.events
            &&& settled.frame.abandoned_ids == frame.abandoned_ids
            &&& strictly_sorted(settled.frame.removed_ids@)
            &&& forall|id: u64| #[trigger]
                settled.frame.removed_ids@.contains(id) <==> (frame.removed_ids@.contains(id)
                    || removed_ids@.contains(id))
            &&& settled.counters == (TickCounters {
                removed_units: settled.frame.removed_ids@.len() as usize,
                ..counters
            })
        },
{
    let standing = retain_standing(active_sides, published);
    let counted = match surrendered {
        Some(snapshot) => census_after_surrender(census, snapshot),
        None => census,
    };
    match units {
        None => SettledCycle { frame, counters, census: counted, active_sides: standing },
        Some(left) => {
            let (shown, told) = show_consequences(frame, counters, left, removed_ids);
            SettledCycle { frame: shown, counters: told, census: counted, active_sides: standing }
        },
    }
}

} // verus!
