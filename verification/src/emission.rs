//! How game objects put signal onto the tiles they stand on.

use crate::geometry::TilePos;
use crate::kinds::SignalType;
use crate::signals::Signals;
use crate::strength::{clamped, max_units, SignalStrength};
use vstd::prelude::*;

verus! {

/// What causes a game object to emit signals.
///
/// This can change over time, and multiple signals may be emitted at once.
#[derive(Clone, Debug)]
pub struct Emitter {
    /// The list of signals to emit at the object's position.
    pub signals: Vec<(SignalType, SignalStrength)>,
}

impl Default for Emitter {
    /// An emitter that emits nothing.
    fn default() -> (emitter: Emitter)
        ensures
            emitter.signals@ == Seq::<(SignalType, SignalStrength)>::empty(),
    {
        Emitter { signals: Vec::new() }
    }
}

/// The units of `signal_type` that one object with the given list of signals
/// emits in one pass.
pub open spec fn emitted_by(
    signals: Seq<(SignalType, SignalStrength)>,
    signal_type: SignalType,
) -> nat
    decreases signals.len(),
{
    if signals.len() == 0 {
        0
    } else {
        emitted_by(signals.drop_last(), signal_type) + (if signals.last().0 == signal_type {
            signals.last().1@
        } else {
            0
        })
    }
}

/// Whether a list of signals names `signal_type`.
pub open spec fn names(signals: Seq<(SignalType, SignalStrength)>, signal_type: SignalType) -> bool {
    exists|j: int| 0 <= j < signals.len() && (#[trigger] signals[j]).0 == signal_type
}

/// The units of `signal_type` that the objects emit at `tile_pos` in one
/// pass.
pub open spec fn emitted_at(
    emitters: Seq<(TilePos, Emitter)>,
    signal_type: SignalType,
    tile_pos: TilePos,
) -> nat
    decreases emitters.len(),
{
    if emitters.len() == 0 {
        0
    } else {
        emitted_at(emitters.drop_last(), signal_type, tile_pos) + (if emitters.last().0
            == tile_pos {
            emitted_by(emitters.last().1.signals@, signal_type)
        } else {
            0
        })
    }
}

/// Whether one of the objects emits `signal_type`, at whatever strength.
pub open spec fn emits_kind(emitters: Seq<(TilePos, Emitter)>, signal_type: SignalType) -> bool {
    exists|i: int|
        0 <= i < emitters.len() && names((#[trigger] emitters[i]).1.signals@, signal_type)
}

/// Whether one of the objects at `tile_pos` emits `signal_type`, at whatever
/// strength.
pub open spec fn emits_at(
    emitters: Seq<(TilePos, Emitter)>,
    signal_type: SignalType,
    tile_pos: TilePos,
) -> bool {
    exists|i: int|
        0 <= i < emitters.len() && (#[trigger] emitters[i]).0 == tile_pos && names(
            emitters[i].1.signals@,
            signal_type,
        )
}

/// The known signal types once the given list of signals was emitted: those
/// that were known before, and after them each other signal type of the list
/// in the order of its first mention.
pub open spec fn kinds_with(
    known: Seq<SignalType>,
    signals: Seq<(SignalType, SignalStrength)>,
) -> Seq<SignalType>
    decreases signals.len(),
{
    if signals.len() == 0 {
        known
    } else {
        let earlier = kinds_with(known, signals.drop_last());
        if earlier.contains(signals.last().0) {
            earlier
        } else {
            earlier.push(signals.last().0)
        }
    }
}

/// The known signal types once every object has emitted its signals, one
/// object after the other.
pub open spec fn kinds_with_all(
    known: Seq<SignalType>,
    emitters: Seq<(TilePos, Emitter)>,
) -> Seq<SignalType>
    decreases emitters.len(),
{
    if emitters.len() == 0 {
        known
    } else {
        kinds_with(kinds_with_all(known, emitters.drop_last()), emitters.last().1.signals@)
    }
}

/// Emits the signals of one object that stands at `tile_pos`.
fn emit_from(signals: &mut Signals, tile_pos: TilePos, emitter: &Emitter)
    requires
        old(signals).wf(),
    ensures
        final(signals).wf(),
        final(signals).known_kinds() == kinds_with(old(signals).known_kinds(), emitter.signals@),
        forall|kind: SignalType| #[trigger]
            final(signals).knows(kind) <==> old(signals).knows(kind) || names(
                emitter.signals@,
                kind,
            ),
        forall|kind: SignalType, pos: TilePos| #[trigger]
            final(signals).has(kind, pos) <==> old(signals).has(kind, pos) || (pos == tile_pos
                && names(emitter.signals@, kind)),
        forall|kind: SignalType, pos: TilePos| #[trigger]
            final(signals).strength_at(kind, pos) == clamped(
                (old(signals).strength_at(kind, pos) + (if pos == tile_pos {
                    emitted_by(emitter.signals@, kind)
                } else {
                    0
                })) as int,
            ),
{
    let ghost before = *signals;
    let ghost list = emitter.signals@;
    proof {
        before.lemma_bounded();
    }
    let mut j: usize = 0;
    while j < emitter.signals.len()
        invariant
            j <= emitter.signals.len(),
            list == emitter.signals@,
            signals.wf(),
            signals.known_kinds() == kinds_with(before.known_kinds(), list.take(j as int)),
            forall|kind: SignalType, pos: TilePos| #[trigger]
                before.strength_at(kind, pos) <= max_units(),
            forall|kind: SignalType| #[trigger]
                signals.knows(kind) <==> before.knows(kind) || names(list.take(j as int), kind),
            forall|kind: SignalType, pos: TilePos| #[trigger]
                signals.has(kind, pos) <==> before.has(kind, pos) || (pos == tile_pos && names(
                    list.take(j as int),
                    kind,
                )),
            forall|kind: SignalType, pos: TilePos| #[trigger]
                signals.strength_at(kind, pos) == clamped(
                    (before.strength_at(kind, pos) + (if pos == tile_pos {
                        emitted_by(list.take(j as int), kind)
                    } else {
                        0
                    })) as int,
                ),
        decreases emitter.signals.len() - j,
    {
        let (signal_type, signal_strength) = emitter.signals[j];
        let ghost mid = *signals;
        let ghost shorter = list.take(j as int);
        let ghost longer = list.take(j + 1);
        proof {
            mid.lemma_known_kinds();
            assert(longer.drop_last() =~= shorter);
            assert(longer.last() == list[j as int]);
        }
        signals.add_signal(signal_type, tile_pos, signal_strength);
        proof {
            assert forall|kind: SignalType| #[trigger]
                signals.knows(kind) <==> before.knows(kind) || names(longer, kind) by {
                assert(mid.knows(kind) <==> before.knows(kind) || names(shorter, kind));
            }
            assert forall|kind: SignalType, pos: TilePos| #[trigger]
                signals.has(kind, pos) <==> before.has(kind, pos) || (pos == tile_pos && names(
                    longer,
                    kind,
                )) by {
                assert(mid.has(kind, pos) <==> before.has(kind, pos) || (pos == tile_pos && names(
                    shorter,
                    kind,
                )));
            }
            assert forall|kind: SignalType, pos: TilePos| #[trigger]
                signals.strength_at(kind, pos) == clamped(
                    (before.strength_at(kind, pos) + (if pos == tile_pos {
                        emitted_by(longer, kind)
                    } else {
                        0
                    })) as int,
                ) by {
                assert(mid.strength_at(kind, pos) == clamped(
                    (before.strength_at(kind, pos) + (if pos == tile_pos {
                        emitted_by(shorter, kind)
                    } else {
                        0
                    })) as int,
                ));
            }
        }
        j += 1;
    }
    proof {
        assert(list.take(j as int) =~= list);
    }
}

/// Emits signals from [`Emitter`] sources: every signal of every object is
/// added at the object's position.
pub fn emit_signals(signals: &mut Signals, emitters: &Vec<(TilePos, Emitter)>)
    requires
        old(signals).wf(),
    ensures
        final(signals).wf(),
        final(signals).known_kinds() == kinds_with_all(old(signals).known_kinds(), emitters@),
        forall|kind: SignalType| #[trigger]
            final(signals).knows(kind) <==> old(signals).knows(kind) || emits_kind(emitters@, kind),
        forall|kind: SignalType, pos: TilePos| #[trigger]
            final(signals).has(kind, pos) <==> old(signals).has(kind, pos) || emits_at(
                emitters@,
                kind,
                pos,
            ),
        forall|kind: SignalType, pos: TilePos| #[trigger]
            final(signals).strength_at(kind, pos) == clamped(
                (old(signals).strength_at(kind, pos) + emitted_at(emitters@, kind, pos)) as int,
            ),
{
    let ghost before = *signals;
    proof {
        before.lemma_bounded();
    }
    let mut i: usize = 0;
    while i < emitters.len()
        invariant
            i <= emitters.len(),
            signals.wf(),
            signals.known_kinds() == kinds_with_all(before.known_kinds(), emitters@.take(i as int)),
            forall|kind: SignalType, pos: TilePos| #[trigger]
                before.strength_at(kind, pos) <= max_units(),
            forall|kind: SignalType| #[trigger]
                signals.knows(kind) <==> before.knows(kind) || emits_kind(
                    emitters@.take(i as int),
                    kind,
                ),
            forall|kind: SignalType, pos: TilePos| #[trigger]
                signals.has(kind, pos) <==> before.has(kind, pos) || emits_at(
                    emitters@.take(i as int),
                    kind,
                    pos,
                ),
            forall|kind: SignalType, pos: TilePos| #[trigger]
                signals.strength_at(kind, pos) == clamped(
                    (before.strength_at(kind, pos) + emitted_at(emitters@.take(i as int), kind, pos))
                        as int,
                ),
        decreases emitters.len() - i,
    {
        let ghost shorter = emitters@.take(i as int);
        let ghost longer = emitters@.take(i + 1);
        proof {
            assert(longer.drop_last() =~= shorter);
            assert(longer.last() == emitters@[i as int]);
        }
        emit_from(signals, emitters[i].0, &emitters[i].1);
        i += 1;
    }
    proof {
        assert(emitters@.take(i as int) =~= emitters@);
    }
}

} // verus!
