//! The strength of one type of signal on each tile.

use crate::geometry::TilePos;
use crate::strength::{clamped, max_units, SignalStrength};
use crate::table::{lists, table_contents, Key, Table};
use vstd::prelude::*;

verus! {

/// Stores the [`SignalStrength`] of one signal type at each [`TilePos`].
///
/// A position that was never written to has no entry and reads as zero.
#[derive(Debug)]
pub struct SignalMap {
    map: Table,
}

/// `entries` lists `map`: every listed strength is the one stored at its
/// position, no position is listed twice, and every stored position is listed.
pub open spec fn lists_strengths(
    entries: Seq<(TilePos, SignalStrength)>,
    map: Map<TilePos, nat>,
) -> bool {
    &&& forall|i: int|
        0 <= i < entries.len() ==> map.contains_key(#[trigger] entries[i].0) && map[entries[i].0]
            == entries[i].1@
    &&& forall|i: int, j: int|
        0 <= i < j < entries.len() ==> #[trigger] entries[i].0 != #[trigger] entries[j].0
    &&& forall|pos: TilePos| #[trigger]
        map.contains_key(pos) ==> exists|i: int|
            0 <= i < entries.len() && #[trigger] entries[i].0 == pos
}

impl SignalMap {
    /// Every key of the table stands for a position.
    pub closed spec fn wf(&self) -> bool {
        forall|key: Key| #[trigger]
            table_contents(self.map).contains_key(key) ==> TilePos::is_key(key)
    }

    /// The units stored at each position that has an entry.
    pub closed spec fn view(&self) -> Map<TilePos, nat> {
        Map::new(
            |pos: TilePos| table_contents(self.map).contains_key(pos.spec_key()),
            |pos: TilePos| table_contents(self.map)[pos.spec_key()] as nat,
        )
    }

    /// Whether `pos` has an entry.
    pub open spec fn has(&self, pos: TilePos) -> bool {
        self@.contains_key(pos)
    }

    /// The units of signal at `pos`: zero where there is no entry.
    pub open spec fn strength_at(&self, pos: TilePos) -> nat {
        if self@.contains_key(pos) {
            self@[pos]
        } else {
            0
        }
    }

    /// No strength is above the largest strength.
    pub proof fn lemma_bounded(&self)
        ensures
            forall|pos: TilePos| #[trigger] self.strength_at(pos) <= max_units(),
            forall|pos: TilePos| self@.contains_key(pos) ==> #[trigger] self@[pos] <= max_units(),
    {
    }

    /// A map without entries.
    pub fn new() -> (map: SignalMap)
        ensures
            map.wf(),
            map@ == Map::<TilePos, nat>::empty(),
    {
        SignalMap { map: Table::new() }
    }

    /// Returns the signal strength at the given [`TilePos`].
    ///
    /// Missing values will be filled with zero.
    pub fn get(&self, tile_pos: TilePos) -> (strength: SignalStrength)
        ensures
            strength@ == self.strength_at(tile_pos),
    {
        match self.map.get(tile_pos.key()) {
            Some(units) => SignalStrength::from_units(units),
            None => SignalStrength::zero(),
        }
    }

    /// Stores `signal_strength` at `tile_pos`, in place of what was there.
    pub fn set_signal(&mut self, tile_pos: TilePos, signal_strength: SignalStrength)
        requires
            old(self).wf(),
        ensures
            final(self).wf(),
            final(self)@ == old(self)@.insert(tile_pos, signal_strength@),
    {
        self.map.insert(tile_pos.key(), signal_strength.value());
    }

    /// Adds the `signal_strength` to the signal at `tile_pos`.
    pub fn add_signal(&mut self, tile_pos: TilePos, signal_strength: SignalStrength)
        requires
            old(self).wf(),
        ensures
            final(self).wf(),
            final(self)@ == old(self)@.insert(
                tile_pos,
                clamped((old(self).strength_at(tile_pos) + signal_strength@) as int),
            ),
    {
        let existing = self.get(tile_pos);
        self.map.insert(tile_pos.key(), existing.add(signal_strength).value());
    }

    /// Subtracts the `signal_strength` from the signal at `tile_pos`.
    ///
    /// The value is capped at a minimum of zero.
    pub fn subtract_signal(&mut self, tile_pos: TilePos, signal_strength: SignalStrength)
        requires
            old(self).wf(),
        ensures
            final(self).wf(),
            final(self)@ == old(self)@.insert(
                tile_pos,
                clamped(old(self).strength_at(tile_pos) - signal_strength@),
            ),
    {
        let existing = self.get(tile_pos);
        self.map.insert(tile_pos.key(), existing.sub(signal_strength).value());
    }

    /// Every position that has an entry, with its strength, in no particular
    /// order.
    pub fn entries(&self) -> (entries: Vec<(TilePos, SignalStrength)>)
        requires
            self.wf(),
        ensures
            lists_strengths(entries@, self@),
    {
        let raw = self.map.entries();
        let mut entries: Vec<(TilePos, SignalStrength)> = Vec::new();
        let mut i: usize = 0;
        while i < raw.len()
            invariant
                i <= raw.len(),
                self.wf(),
                lists(raw@, table_contents(self.map)),
                entries.len() == i,
                forall|j: int|
                    0 <= j < i ==> (#[trigger] entries[j]).0.spec_key() == raw[j].0 && entries[j].1@
                        == raw[j].1,
            decreases raw.len() - i,
        {
            let (key, units) = raw[i];
            if let Some(pos) = TilePos::from_key(key) {
                entries.push((pos, SignalStrength::from_units(units)));
            }
            i += 1;
        }
        proof {
            assert forall|pos: TilePos| #[trigger] self@.contains_key(pos) implies exists|i: int|
                0 <= i < entries.len() && #[trigger] entries[i].0 == pos by {
                let j = choose|j: int| 0 <= j < raw.len() && #[trigger] raw[j].0 == pos.spec_key();
                assert(entries[j].0 == pos);
            }
        }
        entries
    }
}

impl Default for SignalMap {
    /// A map without entries.
    fn default() -> (map: SignalMap)
        ensures
            map.wf(),
            map@ == Map::<TilePos, nat>::empty(),
    {
        SignalMap::new()
    }
}

} // verus!
