//! All of the signals on a single tile.

use crate::kinds::SignalType;
use crate::strength::SignalStrength;
use crate::table::{lists, table_contents, Key, Table};
use vstd::prelude::*;

verus! {

/// `entries` lists `map`: every listed strength is the one stored for its
/// signal type, no signal type is listed twice, and every stored signal type
/// is listed.
pub open spec fn lists_signals(
    entries: Seq<(SignalType, SignalStrength)>,
    map: Map<SignalType, nat>,
) -> bool {
    &&& forall|i: int|
        0 <= i < entries.len() ==> map.contains_key(#[trigger] entries[i].0) && map[entries[i].0]
            == entries[i].1@
    &&& forall|i: int, j: int|
        0 <= i < j < entries.len() ==> #[trigger] entries[i].0 != #[trigger] entries[j].0
    &&& forall|kind: SignalType| #[trigger]
        map.contains_key(kind) ==> exists|i: int|
            0 <= i < entries.len() && #[trigger] entries[i].0 == kind
}

/// The part of `map` that can drive a decision: everything but the
/// `Contains` signals.
pub open spec fn goal_relevant(map: Map<SignalType, nat>) -> Map<SignalType, nat> {
    map.restrict(Set::new(|kind: SignalType| !(kind is Contains)))
}

/// All of the signals on a single tile.
#[derive(Debug)]
pub struct LocalSignals {
    map: Table,
}

impl LocalSignals {
    /// Every key of the table stands for a signal type.
    pub closed spec fn wf(&self) -> bool {
        forall|key: Key| #[trigger]
            table_contents(self.map).contains_key(key) ==> SignalType::is_key(key)
    }

    /// The units recorded for each signal type that has an entry.
    pub closed spec fn view(&self) -> Map<SignalType, nat> {
        Map::new(
            |kind: SignalType| table_contents(self.map).contains_key(kind.spec_key()),
            |kind: SignalType| table_contents(self.map)[kind.spec_key()] as nat,
        )
    }

    /// A snapshot without entries.
    pub fn new() -> (local: LocalSignals)
        ensures
            local.wf(),
            local@ == Map::<SignalType, nat>::empty(),
    {
        LocalSignals { map: Table::new() }
    }

    /// Records `signal_strength` for `signal_type`, in place of what was
    /// recorded for it before.
    pub fn insert(&mut self, signal_type: SignalType, signal_strength: SignalStrength)
        requires
            old(self).wf(),
        ensures
            final(self).wf(),
            final(self)@ == old(self)@.insert(signal_type, signal_strength@),
    {
        self.map.insert(signal_type.key(), signal_strength.value());
    }

    /// The strength recorded for `signal_type`, if it has an entry.
    pub fn get(&self, signal_type: SignalType) -> (strength: Option<SignalStrength>)
        ensures
            strength is Some <==> self@.contains_key(signal_type),
            strength matches Some(s) ==> s@ == self@[signal_type],
    {
        match self.map.get(signal_type.key()) {
            Some(units) => Some(SignalStrength::from_units(units)),
            None => None,
        }
    }

    /// Every signal type that has an entry, with its strength, in no
    /// particular order.
    pub fn entries(&self) -> (entries: Vec<(SignalType, SignalStrength)>)
        requires
            self.wf(),
        ensures
            lists_signals(entries@, self@),
    {
        let raw = self.map.entries();
        let mut entries: Vec<(SignalType, SignalStrength)> = Vec::new();
        let mut i: usize = 0;
        while i < raw.len()
            invariant
                i <= raw.len(),
                self.wf(),
                lists(raw@, table_contents(self.map)),
                entries.len() == i,
                forall|j: int|
                    0 <= j < i ==> (#[trigger] entries[j]).0.spec_key() == raw[j].0 && entries[j].1@
                        == raw[j].1,
            decreases raw.len() - i,
        {
            let (key, units) = raw[i];
            if let Some(kind) = SignalType::from_key(key) {
                entries.push((kind, SignalStrength::from_units(units)));
            }
            i += 1;
        }
        proof {
            assert forall|kind: SignalType| #[trigger] self@.contains_key(kind) implies exists|
                i: int,
            |
                0 <= i < entries.len() && #[trigger] entries[i].0 == kind by {
                let j = choose|j: int| 0 <= j < raw.len() && #[trigger] raw[j].0 == kind.spec_key();
                assert(entries[j].0 == kind);
            }
        }
        entries
    }

    /// Returns the set of signals that might be used to pick a goal: every
    /// entry but the `Contains` signals, in no particular order.
    pub fn goal_relevant_signals(&self) -> (relevant: Vec<(SignalType, SignalStrength)>)
        requires
            self.wf(),
        ensures
            lists_signals(relevant@, goal_relevant(self@)),
    {
        let entries = self.entries();
        let mut relevant: Vec<(SignalType, SignalStrength)> = Vec::new();
        let ghost mut origin: Seq<int> = Seq::empty();
        let mut i: usize = 0;
        while i < entries.len()
            invariant
                i <= entries.len(),
                lists_signals(entries@, self@),
                origin.len() == relevant.len(),
                forall|j: int|
                    0 <= j < relevant.len() ==> 0 <= #[trigger] origin[j] < i && relevant[j]
                        == entries[origin[j]] && !(relevant[j].0 is Contains),
                forall|j: int, k: int|
                    0 <= j < k < relevant.len() ==> #[trigger] origin[j] < #[trigger] origin[k],
                forall|k: int|
                    0 <= k < i && !((#[trigger] entries[k]).0 is Contains) ==> exists|j: int|
                        0 <= j < relevant.len() && #[trigger] origin[j] == k,
            decreases entries.len() - i,
        {
            let (kind, strength) = entries[i];
            if !kind.is_contains() {
                relevant.push((kind, strength));
                proof {
                    let ghost before = origin;
                    origin = origin.push(i as int);
                    assert forall|k: int|
                        0 <= k < i + 1 && !((#[trigger] entries[k]).0 is Contains) implies exists|
                        j: int,
                    |
                        0 <= j < relevant.len() && #[trigger] origin[j] == k by {
                        if k < i {
                            let j = choose|j: int| 0 <= j < before.len() && #[trigger] before[j] == k;
                            assert(origin[j] == k);
                        } else {
                            assert(origin[relevant.len() - 1] == k);
                        }
                    }
                }
            }
            i += 1;
        }
        proof {
            let wanted = goal_relevant(self@);
            assert forall|j: int| 0 <= j < relevant.len() implies wanted.contains_key(
                #[trigger] relevant[j].0,
            ) && wanted[relevant[j].0] == relevant[j].1@ by {
                assert(relevant[j] == entries[origin[j]]);
            }
            assert forall|a: int, b: int| 0 <= a < b < relevant.len() implies #[trigger] relevant[a].0
                != #[trigger] relevant[b].0 by {
                assert(origin[a] < origin[b]);
            }
        }
        relevant
    }
}

} // verus!
