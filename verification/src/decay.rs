//! How signal fades over time.
//!
//! Each pass of decay leaves every tile with a fixed fraction of what it
//! held, rounded down, so that strengths fall towards zero.

use crate::geometry::TilePos;
use crate::signal_map::{lists_strengths, SignalMap};
use crate::strength::{scaled, Fraction};
use vstd::prelude::*;

verus! {

/// The number above the line of the fraction of signal that decays in each
/// pass.
pub const DEGRADATION_NUMERATOR: u64 = 1;

/// The number below the line of that fraction. The fraction lies between
/// zero and one.
pub const DEGRADATION_DENOMINATOR: u64 = 10;

/// The units left of `units` after one pass of decay.
pub open spec fn decayed(units: nat) -> nat {
    scaled(
        units,
        (DEGRADATION_DENOMINATOR - DEGRADATION_NUMERATOR) as nat,
        DEGRADATION_DENOMINATOR as nat,
    )
}

/// The units left of `units` after `passes` passes of decay.
pub open spec fn decayed_times(units: nat, passes: nat) -> nat
    decreases passes,
{
    if passes == 0 {
        units
    } else {
        decayed(decayed_times(units, (passes - 1) as nat))
    }
}

/// The fraction of signal that is left after a pass of decay.
pub fn retained_fraction() -> (fraction: Fraction)
    ensures
        fraction.num() == DEGRADATION_DENOMINATOR - DEGRADATION_NUMERATOR,
        fraction.den() == DEGRADATION_DENOMINATOR,
{
    Fraction::known(DEGRADATION_DENOMINATOR - DEGRADATION_NUMERATOR, DEGRADATION_DENOMINATOR)
}

/// Degrades the signal of `map`: one pass of decay over every entry.
pub fn degrade_map(map: &mut SignalMap)
    requires
        old(map).wf(),
    ensures
        final(map).wf(),
        forall|pos: TilePos| #[trigger] final(map).has(pos) <==> old(map).has(pos),
        forall|pos: TilePos| #[trigger]
            final(map).strength_at(pos) == decayed(old(map).strength_at(pos)),
{
    let ghost before = *map;
    let entries = map.entries();
    let ghost mut seen: Set<TilePos> = Set::empty();
    let mut i: usize = 0;
    while i < entries.len()
        invariant
            i <= entries.len(),
            lists_strengths(entries@, before@),
            map.wf(),
            forall|pos: TilePos|
                seen.contains(pos) <==> exists|j: int| 0 <= j < i && #[trigger] entries[j].0 == pos,
            forall|pos: TilePos| #[trigger] map.has(pos) <==> before.has(pos),
            forall|pos: TilePos| #[trigger]
                map.strength_at(pos) == (if seen.contains(pos) {
                    decayed(before.strength_at(pos))
                } else {
                    before.strength_at(pos)
                }),
        decreases entries.len() - i,
    {
        let (pos, signal_strength) = entries[i];
        let ghost mid = *map;
        let ghost earlier = seen;
        proof {
            seen = earlier.insert(pos);
        }
        map.set_signal(pos, signal_strength.mul(retained_fraction()));
        proof {
            assert forall|tile: TilePos| #[trigger] map.has(tile) <==> before.has(tile) by {
                assert(mid.has(tile) <==> before.has(tile));
            }
            assert forall|tile: TilePos| #[trigger]
                map.strength_at(tile) == (if seen.contains(tile) {
                    decayed(before.strength_at(tile))
                } else {
                    before.strength_at(tile)
                }) by {
                assert(mid.strength_at(tile) == (if earlier.contains(tile) {
                    decayed(before.strength_at(tile))
                } else {
                    before.strength_at(tile)
                }));
            }
        }
        i += 1;
    }
    proof {
        assert(decayed(0) == 0);
    }
}

} // verus!
