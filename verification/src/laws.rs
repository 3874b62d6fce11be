//! What holds of the signal field whatever is done to it.

use crate::decay::{decayed, decayed_times};
use crate::diffusion::{
    diffused, inflow, inflow_from, lemma_no_outflow, lemma_outflow_bounded, lemma_six_shares,
    outflow, share, strength_in,
};
use crate::geometry::{MapGeometry, TilePos};
use crate::kinds::SignalType;
use crate::signal_map::SignalMap;
use crate::signals::Signals;
use crate::strength::{clamped, max_units, SignalStrength};
use vstd::arithmetic::power::{lemma_pow_positive, pow};
use vstd::prelude::*;

verus! {

/// No strength is ever below zero, and none is above the largest strength:
/// neither a strength by itself, nor one that a map holds, nor one that a
/// registry holds, whatever was done to them before.
pub proof fn law_strengths_stay_in_range(
    strength: SignalStrength,
    map: SignalMap,
    signals: Signals,
    signal_type: SignalType,
    tile_pos: TilePos,
)
    requires
        signals.wf(),
    ensures
        0 <= strength@ <= max_units(),
        0 <= map.strength_at(tile_pos) <= max_units(),
        0 <= signals.strength_at(signal_type, tile_pos) <= max_units(),
{
    strength.lemma_bounded();
    map.lemma_bounded();
    signals.lemma_bounded();
}

/// Taking one strength from another never leads below zero.
pub proof fn law_subtraction_stops_at_zero(minuend: nat, subtrahend: nat)
    ensures
        clamped(minuend - subtrahend) >= 0,
        minuend <= subtrahend ==> clamped(minuend - subtrahend) == 0,
{
}

/// A signal type and position that have no entry read as zero.
pub proof fn law_unwritten_reads_zero(signals: Signals, signal_type: SignalType, tile_pos: TilePos)
    requires
        !signals.has(signal_type, tile_pos),
    ensures
        signals.strength_at(signal_type, tile_pos) == 0,
{
}

/// Adding a strength and then another at the same place adds their sum: if
/// `once` is `start` after the first addition and `twice` is `once` after the
/// second, then `twice` holds what `start` held and both strengths, up to
/// the largest strength.
pub proof fn law_additions_add_up(
    start: Signals,
    once: Signals,
    twice: Signals,
    signal_type: SignalType,
    tile_pos: TilePos,
    first: SignalStrength,
    second: SignalStrength,
)
    requires
        once@ == start@.insert(
            signal_type,
            start.map_of(signal_type).insert(
                tile_pos,
                clamped((start.strength_at(signal_type, tile_pos) + first@) as int),
            ),
        ),
        twice@ == once@.insert(
            signal_type,
            once.map_of(signal_type).insert(
                tile_pos,
                clamped((once.strength_at(signal_type, tile_pos) + second@) as int),
            ),
        ),
    ensures
        twice.strength_at(signal_type, tile_pos) == clamped(
            (start.strength_at(signal_type, tile_pos) + first@ + second@) as int,
        ),
        !start.has(signal_type, tile_pos) && first@ + second@ <= max_units()
            ==> twice.strength_at(signal_type, tile_pos) == first@ + second@,
{
}

/// A pass of diffusion takes from a tile one share for each of its
/// unoccupied neighbors, of which there are at most six, and never more than
/// the tile holds.
pub proof fn law_tile_keeps_the_rest(
    field: Map<TilePos, nat>,
    map_geometry: &MapGeometry,
    tile_pos: TilePos,
)
    ensures
        map_geometry.empty_neighbors_of(tile_pos).len() <= 6,
        outflow(field, map_geometry, tile_pos) == map_geometry.empty_neighbors_of(tile_pos).len()
            * share(strength_in(field, tile_pos)),
        outflow(field, map_geometry, tile_pos) <= strength_in(field, tile_pos),
        inflow(field, map_geometry, tile_pos) == 0 && strength_in(field, tile_pos) <= max_units()
            ==> diffused(field, map_geometry, tile_pos) == strength_in(field, tile_pos)
            - map_geometry.empty_neighbors_of(tile_pos).len() * share(
            strength_in(field, tile_pos),
        ),
{
    map_geometry.lemma_neighbors(tile_pos);
    lemma_outflow_bounded(field, map_geometry, tile_pos);
}

/// A pass of diffusion gives each unoccupied neighbor of a tile that tile's
/// share, and gives nothing to an occupied tile.
pub proof fn law_neighbors_gain_a_share(
    field: Map<TilePos, nat>,
    map_geometry: &MapGeometry,
    tile_pos: TilePos,
    neighbor: TilePos,
)
    ensures
        map_geometry.empty_neighbors_of(tile_pos).contains(neighbor) ==> inflow(
            field,
            map_geometry,
            neighbor,
        ) >= share(strength_in(field, tile_pos)),
        map_geometry.occupied(neighbor) ==> inflow(field, map_geometry, neighbor) == 0,
{
    map_geometry.lemma_neighbors(tile_pos);
    if map_geometry.empty_neighbors_of(tile_pos).contains(neighbor) {
        map_geometry.lemma_adjacent_is_mutual(tile_pos, neighbor);
    }
}

/// Where a single tile holds signal, a pass of diffusion leaves that tile
/// with what it held less one share for each unoccupied neighbor, gives each
/// of those neighbors one share, and leaves every other tile empty.
pub proof fn law_single_source_spreads(
    field: Map<TilePos, nat>,
    map_geometry: &MapGeometry,
    source: TilePos,
    tile_pos: TilePos,
)
    requires
        strength_in(field, source) <= max_units(),
        forall|other: TilePos| other != source ==> #[trigger] strength_in(field, other) == 0,
    ensures
        diffused(field, map_geometry, source) == strength_in(field, source)
            - map_geometry.empty_neighbors_of(source).len() * share(strength_in(field, source)),
        tile_pos != source ==> diffused(field, map_geometry, tile_pos) == (
        if map_geometry.empty_neighbors_of(source).contains(tile_pos) {
            share(strength_in(field, source))
        } else {
            0
        }),
{
    assert(share(0) == 0);
    map_geometry.lemma_neighbors(source);
    lemma_outflow_bounded(field, map_geometry, source);
    lemma_six_shares(strength_in(field, source));
    // Nothing reaches the source: none of its neighbors holds anything.
    assert forall|d: int| 0 <= d < 6 implies #[trigger] inflow_from(field, map_geometry, source, d)
        == 0 by {
        match map_geometry.spec_neighbor(source, d) {
            Some(tile) => {
                assert(map_geometry.adjacent(source, tile));
                assert(strength_in(field, tile) == 0);
            },
            None => {},
        }
    }
    if tile_pos != source {
        lemma_no_outflow(field, map_geometry, tile_pos);
        map_geometry.lemma_adjacent_is_mutual(source, tile_pos);
        assert forall|d: int| 0 <= d < 6 implies #[trigger] inflow_from(
            field,
            map_geometry,
            tile_pos,
            d,
        ) == (if map_geometry.spec_neighbor(tile_pos, d) == Some(source) {
            share(strength_in(field, source))
        } else {
            0
        }) by {
            match map_geometry.spec_neighbor(tile_pos, d) {
                Some(tile) => {
                    if tile != source {
                        assert(strength_in(field, tile) == 0);
                    }
                },
                None => {},
            }
        }
        if map_geometry.adjacent(tile_pos, source) {
            let d = choose|d: int|
                0 <= d < 6 && #[trigger] map_geometry.spec_neighbor(tile_pos, d) == Some(source);
            map_geometry.lemma_directions_differ(tile_pos, d, 0);
            map_geometry.lemma_directions_differ(tile_pos, d, 1);
            map_geometry.lemma_directions_differ(tile_pos, d, 2);
            map_geometry.lemma_directions_differ(tile_pos, d, 3);
            map_geometry.lemma_directions_differ(tile_pos, d, 4);
            map_geometry.lemma_directions_differ(tile_pos, d, 5);
        } else {
            assert(map_geometry.spec_neighbor(tile_pos, 0) != Some(source));
            assert(map_geometry.spec_neighbor(tile_pos, 1) != Some(source));
            assert(map_geometry.spec_neighbor(tile_pos, 2) != Some(source));
            assert(map_geometry.spec_neighbor(tile_pos, 3) != Some(source));
            assert(map_geometry.spec_neighbor(tile_pos, 4) != Some(source));
            assert(map_geometry.spec_neighbor(tile_pos, 5) != Some(source));
        }
    }
}

/// Decay leaves nothing of nothing, and less than there was of anything
/// else.
pub proof fn law_decay_shrinks(units: nat)
    ensures
        units == 0 ==> decayed(units) == 0,
        units > 0 ==> decayed(units) < units,
{
    assert((units * 9) / 10 <= units) by (nonlinear_arith);
}

/// After any number of passes there is no more left than there was.
pub proof fn law_decay_never_grows(units: nat, passes: nat)
    ensures
        decayed_times(units, passes) <= units,
    decreases passes,
{
    if passes > 0 {
        law_decay_never_grows(units, (passes - 1) as nat);
        law_decay_shrinks(decayed_times(units, (passes - 1) as nat));
    }
}

/// What is left after `passes` passes is `units` times the retained fraction
/// to the power of `passes`, but for the rounding: never more than that, and
/// less by fewer than ten units.
pub proof fn law_decay_follows_the_power(units: nat, passes: nat)
    ensures
        decayed_times(units, passes) * pow(10, passes) <= units * pow(9, passes),
        units * pow(9, passes) < (decayed_times(units, passes) + 10) * pow(10, passes),
    decreases passes,
{
    reveal(pow);
    if passes > 0 {
        let earlier = (passes - 1) as nat;
        law_decay_follows_the_power(units, earlier);
        lemma_pow_positive(10, earlier);
        let before = decayed_times(units, earlier);
        let after = decayed_times(units, passes);
        let tens = pow(10, earlier);
        let nines = pow(9, earlier);
        assert(10 * after <= 9 * before && 9 * before < 10 * after + 10) by (nonlinear_arith)
            requires
                after == (before * 9) / 10,
        ;
        assert(after * (10 * tens) <= units * (9 * nines)) by (nonlinear_arith)
            requires
                10 * after <= 9 * before,
                before * tens <= units * nines,
                tens > 0,
        ;
        assert(units * (9 * nines) < (after + 10) * (10 * tens)) by (nonlinear_arith)
            requires
                9 * before < 10 * after + 10,
                units * nines < (before + 10) * tens,
                tens > 0,
        ;
    }
}

/// Decay alone, pass after pass, leaves at a place what the number of passes
/// says: if each registry of `states` is the one before it after a pass of
/// decay, the last holds what the first held, decayed once for each pass.
pub proof fn law_decay_repeats(
    states: Seq<Signals>,
    signal_type: SignalType,
    tile_pos: TilePos,
    passes: nat,
)
    requires
        passes < states.len(),
        forall|i: int|
            0 <= i < passes ==> (#[trigger] states[i + 1]).strength_at(signal_type, tile_pos)
                == decayed(states[i].strength_at(signal_type, tile_pos)),
    ensures
        states[passes as int].strength_at(signal_type, tile_pos) == decayed_times(
            states[0].strength_at(signal_type, tile_pos),
            passes,
        ),
    decreases passes,
{
    if passes > 0 {
        law_decay_repeats(states, signal_type, tile_pos, (passes - 1) as nat);
        assert(states[(passes - 1) + 1].strength_at(signal_type, tile_pos) == decayed(
            states[passes - 1].strength_at(signal_type, tile_pos),
        ));
    }
}

} // verus!
