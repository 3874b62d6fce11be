//! The central registry that tracks all signals.

use crate::decay::{decayed, degrade_map};
use crate::diffusion::{diffuse_map, diffused, receives};
use crate::geometry::{MapGeometry, TilePos};
use crate::kinds::{Goal, SignalType};
use crate::local::LocalSignals;
use crate::signal_map::{lists_strengths, SignalMap};
use crate::strength::{clamped, max_units, SignalStrength};
use crate::table::{table_contents, Key, Table};
use vstd::prelude::*;
use vstd::seq_lib::seq_to_set_is_finite;

verus! {

/// The central registry that tracks all signals.
///
/// It holds one [`SignalMap`] for each signal type that was ever written to.
#[derive(Debug)]
pub struct Signals {
    /// The place in `kinds` and `maps` of each signal type that has a map.
    index: Table,
    /// The signal types that have a map, in the order of their first write.
    kinds: Vec<SignalType>,
    /// The spatialized map for each signal type.
    maps: Vec<SignalMap>,
}

/// Whether `choice` is the first of the `candidates` with the greatest
/// score, that score being above zero; or nothing where every score is zero.
pub open spec fn is_best_choice(
    candidates: Seq<TilePos>,
    score: spec_fn(TilePos) -> nat,
    choice: Option<TilePos>,
) -> bool {
    match choice {
        None => forall|i: int| 0 <= i < candidates.len() ==> score(#[trigger] candidates[i]) == 0,
        Some(tile) => exists|i: int|
            {
                &&& 0 <= i < candidates.len()
                &&& #[trigger] candidates[i] == tile
                &&& score(tile) > 0
                &&& forall|j: int|
                    0 <= j < candidates.len() ==> score(#[trigger] candidates[j]) <= score(tile)
                &&& forall|j: int| 0 <= j < i ==> score(#[trigger] candidates[j]) < score(tile)
            },
    }
}

impl Signals {
    /// The index and the two lists agree, and every map is well formed.
    pub closed spec fn wf(&self) -> bool {
        &&& self.kinds.len() == self.maps.len()
        &&& forall|i: int|
            0 <= i < self.kinds.len() ==> table_contents(self.index).contains_key(
                (#[trigger] self.kinds[i]).spec_key(),
            ) && table_contents(self.index)[self.kinds[i].spec_key()] == i
        &&& forall|key: Key| #[trigger]
            table_contents(self.index).contains_key(key) ==> table_contents(self.index)[key]
                < self.kinds.len() && self.kinds[table_contents(self.index)[key] as int].spec_key()
                == key
        &&& forall|i: int| 0 <= i < self.maps.len() ==> (#[trigger] self.maps[i]).wf()
    }

    /// The strengths stored for each signal type that has a map.
    pub closed spec fn view(&self) -> Map<SignalType, Map<TilePos, nat>> {
        Map::new(
            |kind: SignalType| table_contents(self.index).contains_key(kind.spec_key()),
            |kind: SignalType| self.maps[table_contents(self.index)[kind.spec_key()] as int]@,
        )
    }

    /// The signal types that have a map, in the order of their first write.
    pub closed spec fn known_kinds(&self) -> Seq<SignalType> {
        self.kinds@
    }

    /// Whether `signal_type` has a map.
    pub open spec fn knows(&self, signal_type: SignalType) -> bool {
        self@.contains_key(signal_type)
    }

    /// The strengths stored for `signal_type`: nothing if it has no map.
    pub open spec fn map_of(&self, signal_type: SignalType) -> Map<TilePos, nat> {
        if self@.contains_key(signal_type) {
            self@[signal_type]
        } else {
            Map::empty()
        }
    }

    /// Whether `signal_type` has an entry at `tile_pos`.
    pub open spec fn has(&self, signal_type: SignalType, tile_pos: TilePos) -> bool {
        self.map_of(signal_type).contains_key(tile_pos)
    }

    /// The units of `signal_type` at `tile_pos`: zero where there is no entry.
    pub open spec fn strength_at(&self, signal_type: SignalType, tile_pos: TilePos) -> nat {
        if self.has(signal_type, tile_pos) {
            self.map_of(signal_type)[tile_pos]
        } else {
            0
        }
    }

    /// No strength is above the largest strength.
    pub proof fn lemma_bounded(&self)
        requires
            self.wf(),
        ensures
            forall|kind: SignalType, pos: TilePos| #[trigger]
                self.strength_at(kind, pos) <= max_units(),
    {
        assert forall|kind: SignalType, pos: TilePos| #[trigger]
            self.strength_at(kind, pos) <= max_units() by {
            if self.knows(kind) {
                let slot = table_contents(self.index)[kind.spec_key()] as int;
                self.maps[slot].lemma_bounded();
            }
        }
    }

    /// A registry that holds no signal.
    pub fn new() -> (signals: Signals)
        ensures
            signals.wf(),
            signals@ == Map::<SignalType, Map<TilePos, nat>>::empty(),
            signals.known_kinds() == Seq::<SignalType>::empty(),
    {
        Signals { index: Table::new(), kinds: Vec::new(), maps: Vec::new() }
    }

    /// Returns the signal strength of `signal_type` at the given `tile_pos`.
    ///
    /// Missing values will be filled with zero.
    pub fn get(&self, signal_type: SignalType, tile_pos: TilePos) -> (strength: SignalStrength)
        requires
            self.wf(),
        ensures
            strength@ == self.strength_at(signal_type, tile_pos),
    {
        match self.index.get(signal_type.key()) {
            Some(slot) => self.maps[slot as usize].get(tile_pos),
            None => SignalStrength::zero(),
        }
    }

    /// Adds `signal_strength` of `signal_type` at `tile_pos`.
    pub fn add_signal(
        &mut self,
        signal_type: SignalType,
        tile_pos: TilePos,
        signal_strength: SignalStrength,
    )
        requires
            old(self).wf(),
        ensures
            final(self).wf(),
            final(self)@ == old(self)@.insert(
                signal_type,
                old(self).map_of(signal_type).insert(
                    tile_pos,
                    clamped((old(self).strength_at(signal_type, tile_pos) + signal_strength@) as int),
                ),
            ),
            final(self).known_kinds() == (if old(self).knows(signal_type) {
                old(self).known_kinds()
            } else {
                old(self).known_kinds().push(signal_type)
            }),
    {
        match self.index.get(signal_type.key()) {
            Some(slot) => {
                self.maps[slot as usize].add_signal(tile_pos, signal_strength);
            },
            None => {
                let mut new_map = SignalMap::new();
                new_map.add_signal(tile_pos, signal_strength);
                self.index.insert(signal_type.key(), self.kinds.len() as u64);
                self.kinds.push(signal_type);
                self.maps.push(new_map);
            },
        }
    }

    /// The known signal types are exactly those that have a map, and none is
    /// listed twice.
    pub proof fn lemma_known_kinds(&self)
        requires
            self.wf(),
        ensures
            self.known_kinds().no_duplicates(),
            forall|kind: SignalType|
                #![trigger self.knows(kind)]
                #![trigger self.known_kinds().contains(kind)]
                self.knows(kind) <==> self.known_kinds().contains(kind),
    {
    }

    /// The signal types that have a map, in the order of their first write.
    pub fn signal_types(&self) -> (kinds: Vec<SignalType>)
        ensures
            kinds@ == self.known_kinds(),
    {
        let mut kinds: Vec<SignalType> = Vec::new();
        let mut i: usize = 0;
        while i < self.kinds.len()
            invariant
                i <= self.kinds.len(),
                kinds@ == self.kinds@.take(i as int),
            decreases self.kinds.len() - i,
        {
            kinds.push(self.kinds[i]);
            i += 1;
        }
        kinds
    }

    /// Every position at which `signal_type` has an entry, with its strength,
    /// in no particular order.
    pub fn entries(&self, signal_type: SignalType) -> (entries: Vec<(TilePos, SignalStrength)>)
        requires
            self.wf(),
        ensures
            lists_strengths(entries@, self.map_of(signal_type)),
    {
        match self.index.get(signal_type.key()) {
            Some(slot) => self.maps[slot as usize].entries(),
            None => Vec::new(),
        }
    }

    /// Returns the complete set of signals at the given `tile_pos`: one entry
    /// for each signal type that has a map, also where its strength there is
    /// zero.
    ///
    /// This is useful for decision-making.
    pub fn all_signals_at_position(&self, tile_pos: TilePos) -> (local: LocalSignals)
        requires
            self.wf(),
        ensures
            local.wf(),
            local@ == Map::new(
                |kind: SignalType| self.knows(kind),
                |kind: SignalType| self.strength_at(kind, tile_pos),
            ),
    {
        let mut all_signals = LocalSignals::new();
        let mut i: usize = 0;
        while i < self.kinds.len()
            invariant
                i <= self.kinds.len(),
                self.wf(),
                all_signals.wf(),
                all_signals@ =~= Map::new(
                    |kind: SignalType| self.kinds@.take(i as int).contains(kind),
                    |kind: SignalType| self.strength_at(kind, tile_pos),
                ),
            decreases self.kinds.len() - i,
        {
            let signal_type = self.kinds[i];
            let strength = self.get(signal_type, tile_pos);
            all_signals.insert(signal_type, strength);
            proof {
                let before = self.kinds@.take(i as int);
                let after = self.kinds@.take(i + 1);
                assert forall|kind: SignalType|
                    after.contains(kind) <==> (before.contains(kind) || kind
                        == signal_type) by {
                    if kind == signal_type {
                        assert(after[i as int] == kind);
                    }
                }
            }
            i += 1;
        }
        proof {
            assert(self.kinds@.take(i as int) == self.kinds@);
        }
        all_signals
    }

    /// Returns the signal strength of the type `signal_type` in `tile_pos`
    /// and its surrounding neighbors: seven entries where all six neighbors
    /// are tiles of the map, fewer at its edges.
    pub fn neighboring_signals(
        &self,
        signal_type: SignalType,
        tile_pos: TilePos,
        map_geometry: &MapGeometry,
    ) -> (nearby: SignalMap)
        requires
            self.wf(),
        ensures
            nearby.wf(),
            nearby@ == Map::new(
                |pos: TilePos| pos == tile_pos || map_geometry.neighbors_of(tile_pos).contains(pos),
                |pos: TilePos| self.strength_at(signal_type, pos),
            ),
            nearby@.dom().finite(),
            nearby@.dom().len() == 1 + map_geometry.neighbors_of(tile_pos).len(),
    {
        let mut signal_strength_map = SignalMap::new();
        signal_strength_map.set_signal(tile_pos, self.get(signal_type, tile_pos));
        let neighbors = tile_pos.neighbors(map_geometry);
        let mut i: usize = 0;
        while i < neighbors.len()
            invariant
                i <= neighbors.len(),
                self.wf(),
                signal_strength_map.wf(),
                signal_strength_map@ =~= Map::new(
                    |pos: TilePos| pos == tile_pos || neighbors@.take(i as int).contains(pos),
                    |pos: TilePos| self.strength_at(signal_type, pos),
                ),
            decreases neighbors.len() - i,
        {
            let neighbor = neighbors[i];
            signal_strength_map.set_signal(neighbor, self.get(signal_type, neighbor));
            proof {
                let before = neighbors@.take(i as int);
                let after = neighbors@.take(i + 1);
                assert forall|pos: TilePos|
                    after.contains(pos) <==> (before.contains(pos) || pos == neighbor) by {
                    if pos == neighbor {
                        assert(after[i as int] == pos);
                    }
                }
            }
            i += 1;
        }
        proof {
            assert(neighbors@.take(i as int) == neighbors@);
            map_geometry.lemma_neighbors(tile_pos);
            neighbors@.unique_seq_to_set();
            seq_to_set_is_finite(neighbors@);
            assert(signal_strength_map@.dom() =~= neighbors@.to_set().insert(tile_pos));
        }
        signal_strength_map
    }

    /// How strongly `tile_pos` draws a unit with the given `goal`.
    ///
    /// Nothing draws a wandering unit. A unit that wants to pick up an item is
    /// drawn by the tiles that push the item away and by those that contain
    /// it; one that wants to drop an item off, by the tiles that pull it; one
    /// that wants to work, by the structure's call for work.
    pub open spec fn goal_score(&self, goal: Goal, tile_pos: TilePos) -> nat {
        match goal {
            Goal::Wander => 0,
            Goal::Pickup(item) => clamped(
                (self.strength_at(SignalType::Push(item), tile_pos) + self.strength_at(
                    SignalType::Contains(item),
                    tile_pos,
                )) as int,
            ),
            Goal::DropOff(item) => self.strength_at(SignalType::Pull(item), tile_pos),
            Goal::Work(structure) => self.strength_at(SignalType::Work(structure), tile_pos),
        }
    }

    /// Returns the adjacent, empty tile position that contains the highest sum
    /// signal strength that can be used to meet the provided `goal`; of
    /// several such tiles, the first counter-clockwise from the east.
    ///
    /// If no adjacent, empty tile holds any such signal, nothing is returned.
    pub fn upstream(&self, tile_pos: TilePos, goal: &Goal, map_geometry: &MapGeometry) -> (choice:
        Option<TilePos>)
        requires
            self.wf(),
        ensures
            *goal is Wander ==> choice is None,
            is_best_choice(
                map_geometry.empty_neighbors_of(tile_pos),
                |tile: TilePos| self.goal_score(*goal, tile),
                choice,
            ),
    {
        let possible_tiles = tile_pos.empty_neighbors(map_geometry);

        let neighboring_signals = match goal {
            Goal::Wander => return None,
            Goal::Pickup(item_id) => {
                let push_signals = self.neighboring_signals(
                    SignalType::Push(*item_id),
                    tile_pos,
                    map_geometry,
                );
                let contains_signals = self.neighboring_signals(
                    SignalType::Contains(*item_id),
                    tile_pos,
                    map_geometry,
                );
                merge(push_signals, &contains_signals)
            },
            Goal::DropOff(item_id) => self.neighboring_signals(
                SignalType::Pull(*item_id),
                tile_pos,
                map_geometry,
            ),
            Goal::Work(structure_id) => self.neighboring_signals(
                SignalType::Work(*structure_id),
                tile_pos,
                map_geometry,
            ),
        };
        proof {
            map_geometry.lemma_neighbors(tile_pos);
        }
        pick_best(&possible_tiles, &neighboring_signals)
    }
}

/// Adds every strength of `extra` to the strength that `total` holds at the
/// same position.
fn merge(total: SignalMap, extra: &SignalMap) -> (merged: SignalMap)
    requires
        total.wf(),
        extra.wf(),
        total@.dom() == extra@.dom(),
    ensures
        merged.wf(),
        merged@.dom() == total@.dom(),
        forall|pos: TilePos| #[trigger]
            merged@.contains_key(pos) ==> merged@[pos] == clamped((total@[pos] + extra@[pos]) as int),
{
    let ghost initial = total@;
    let mut total = total;
    let entries = extra.entries();
    let mut i: usize = 0;
    while i < entries.len()
        invariant
            i <= entries.len(),
            total.wf(),
            lists_strengths(entries@, extra@),
            initial.dom() == extra@.dom(),
            total@.dom() == initial.dom(),
            forall|j: int|
                0 <= j < entries.len() ==> total@[(#[trigger] entries[j]).0] == (if j < i {
                    clamped((initial[entries[j].0] + extra@[entries[j].0]) as int)
                } else {
                    initial[entries[j].0]
                }),
        decreases entries.len() - i,
    {
        let (pos, strength) = entries[i];
        total.add_signal(pos, strength);
        i += 1;
    }
    total
}

/// The first of the `candidates` with the greatest strength in `scores`,
/// unless every strength is zero.
fn pick_best(candidates: &Vec<TilePos>, scores: &SignalMap) -> (choice: Option<TilePos>)
    ensures
        is_best_choice(candidates@, |tile: TilePos| scores.strength_at(tile), choice),
{
    let ghost score = |tile: TilePos| scores.strength_at(tile);
    let mut best_choice: Option<TilePos> = None;
    let mut best_score = SignalStrength::zero();
    let ghost mut best_index: int = 0;
    let mut i: usize = 0;
    while i < candidates.len()
        invariant
            i <= candidates.len(),
            score == (|tile: TilePos| scores.strength_at(tile)),
            forall|j: int| 0 <= j < i ==> score(#[trigger] candidates[j]) <= best_score@,
            best_choice is None ==> best_score@ == 0,
            best_choice matches Some(tile) ==> {
                &&& 0 <= best_index < i
                &&& candidates[best_index] == tile
                &&& score(tile) == best_score@
                &&& best_score@ > 0
                &&& forall|j: int| 0 <= j < best_index ==> score(#[trigger] candidates[j]) < score(tile)
            },
        decreases candidates.len() - i,
    {
        let possible_tile = candidates[i];
        let current_score = scores.get(possible_tile);
        if current_score.value() > best_score.value() {
            best_score = current_score;
            best_choice = Some(possible_tile);
            proof {
                best_index = i as int;
            }
        }
        i += 1;
    }
    best_choice
}

impl Default for Signals {
    /// A registry that holds no signal.
    fn default() -> (signals: Signals)
        ensures
            signals.wf(),
            signals@ == Map::<SignalType, Map<TilePos, nat>>::empty(),
            signals.known_kinds() == Seq::<SignalType>::empty(),
    {
        Signals::new()
    }
}

/// Spreads signals between tiles: one pass of diffusion over the map of
/// every signal type.
pub fn diffuse_signals(signals: &mut Signals, map_geometry: &MapGeometry)
    requires
        old(signals).wf(),
    ensures
        final(signals).wf(),
        final(signals).known_kinds() == old(signals).known_kinds(),
        forall|kind: SignalType| #[trigger] final(signals).knows(kind) <==> old(signals).knows(kind),
        forall|kind: SignalType, pos: TilePos| #[trigger]
            final(signals).has(kind, pos) <==> old(signals).has(kind, pos) || receives(
                old(signals).map_of(kind),
                map_geometry,
                pos,
            ),
        forall|kind: SignalType, pos: TilePos| #[trigger]
            final(signals).strength_at(kind, pos) == diffused(
                old(signals).map_of(kind),
                map_geometry,
                pos,
            ),
{
    let ghost before = *signals;
    let mut i: usize = 0;
    while i < signals.maps.len()
        invariant
            i <= signals.maps.len(),
            before.wf(),
            signals.wf(),
            signals.index == before.index,
            signals.kinds == before.kinds,
            signals.maps.len() == before.maps.len(),
            forall|slot: int| i <= slot < signals.maps.len() ==> signals.maps[slot] == before.maps[slot],
            forall|slot: int, pos: TilePos|
                0 <= slot < i ==> (#[trigger] signals.maps[slot].has(pos) <==> before.maps[slot].has(
                    pos,
                ) || receives(before.maps[slot]@, map_geometry, pos)),
            forall|slot: int, pos: TilePos|
                0 <= slot < i ==> #[trigger] signals.maps[slot].strength_at(pos) == diffused(
                    before.maps[slot]@,
                    map_geometry,
                    pos,
                ),
        decreases signals.maps.len() - i,
    {
        diffuse_map(&mut signals.maps[i], map_geometry);
        i += 1;
    }
    proof {
        assert forall|kind: SignalType, pos: TilePos| #[trigger]
            signals.has(kind, pos) <==> before.has(kind, pos) || receives(
                before.map_of(kind),
                map_geometry,
                pos,
            ) by {
            if before.knows(kind) {
                let slot = table_contents(before.index)[kind.spec_key()] as int;
                assert(signals.has(kind, pos) == signals.maps[slot].has(pos));
            }
        }
        assert forall|kind: SignalType, pos: TilePos| #[trigger]
            signals.strength_at(kind, pos) == diffused(before.map_of(kind), map_geometry, pos) by {
            if before.knows(kind) {
                let slot = table_contents(before.index)[kind.spec_key()] as int;
                assert(signals.strength_at(kind, pos) == signals.maps[slot].strength_at(pos));
            }
        }
    }
}

/// Degrades signals, allowing them to approach zero: one pass of decay over
/// every strength of every signal type.
pub fn degrade_signals(signals: &mut Signals)
    requires
        old(signals).wf(),
    ensures
        final(signals).wf(),
        final(signals).known_kinds() == old(signals).known_kinds(),
        forall|kind: SignalType| #[trigger] final(signals).knows(kind) <==> old(signals).knows(kind),
        forall|kind: SignalType, pos: TilePos| #[trigger]
            final(signals).has(kind, pos) <==> old(signals).has(kind, pos),
        forall|kind: SignalType, pos: TilePos| #[trigger]
            final(signals).strength_at(kind, pos) == decayed(old(signals).strength_at(kind, pos)),
{
    let ghost before = *signals;
    let mut i: usize = 0;
    while i < signals.maps.len()
        invariant
            i <= signals.maps.len(),
            before.wf(),
            signals.wf(),
            signals.index == before.index,
            signals.kinds == before.kinds,
            signals.maps.len() == before.maps.len(),
            forall|slot: int| i <= slot < signals.maps.len() ==> signals.maps[slot] == before.maps[slot],
            forall|slot: int, pos: TilePos|
                0 <= slot < i ==> (#[trigger] signals.maps[slot].has(pos) <==> before.maps[slot].has(
                    pos,
                )),
            forall|slot: int, pos: TilePos|
                0 <= slot < i ==> #[trigger] signals.maps[slot].strength_at(pos) == decayed(
                    before.maps[slot].strength_at(pos),
                ),
        decreases signals.maps.len() - i,
    {
        degrade_map(&mut signals.maps[i]);
        i += 1;
    }
    proof {
        assert forall|kind: SignalType, pos: TilePos| #[trigger]
            signals.has(kind, pos) <==> before.has(kind, pos) by {
            if before.knows(kind) {
                let slot = table_contents(before.index)[kind.spec_key()] as int;
                assert(signals.has(kind, pos) == signals.maps[slot].has(pos));
            }
        }
        assert forall|kind: SignalType, pos: TilePos| #[trigger]
            signals.strength_at(kind, pos) == decayed(before.strength_at(kind, pos)) by {
            if before.knows(kind) {
                let slot = table_contents(before.index)[kind.spec_key()] as int;
                assert(signals.strength_at(kind, pos) == signals.maps[slot].strength_at(pos));
            }
        }
    }
}

} // verus!
