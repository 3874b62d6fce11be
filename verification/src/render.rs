//! Signals as text, for display and debugging.
//!
//! A snapshot of the signals on a tile is written as one line for each signal
//! type, in the order of the signal types: the signal type, a colon, and the
//! strength with two decimal places.

use crate::kinds::SignalType;
use crate::local::LocalSignals;
use crate::strength::{SignalStrength, UNITS_PER_HUNDREDTH};
use crate::table::Key;
use vstd::prelude::*;
use vstd::seq_lib::to_multiset_contains;

verus! {

/// `String::push`: the character is appended to the end of the string.
pub assume_specification[ String::push ](text: &mut String, ch: char)
    ensures
        final(text)@ == old(text)@.push(ch),
;

/// Whether `first` comes before `second`, or is the same key: keys are
/// ordered by their first number, and by their second where the first is the same.
pub open spec fn key_le(first: Key, second: Key) -> bool {
    first.0 < second.0 || (first.0 == second.0 && first.1 <= second.1)
}

/// `itertools::Itertools::sorted`: the same keys, each as often as before,
/// in ascending order.
#[verifier::external_body]
fn sorted_keys(keys: Vec<Key>) -> (sorted: Vec<Key>)
    ensures
        sorted@.to_multiset() == keys@.to_multiset(),
        forall|i: int, j: int| 0 <= i < j < sorted.len() ==> key_le(sorted[i], sorted[j]),
{
    itertools::Itertools::sorted(keys.into_iter()).collect()
}

/// The character that stands for a number below ten.
pub open spec fn digit(value: nat) -> char {
    ((48 + value) as u8) as char
}

/// `value` in decimal notation.
pub open spec fn decimal(value: nat) -> Seq<char>
    decreases value,
{
    if value < 10 {
        seq![digit(value)]
    } else {
        decimal(value / 10).push(digit(value % 10))
    }
}

/// The number of hundredths nearest to `units`; of two that are equally
/// near, the even one.
pub open spec fn hundredths(units: nat) -> nat {
    let below = units / (UNITS_PER_HUNDREDTH as nat);
    let rest = units % (UNITS_PER_HUNDREDTH as nat);
    if rest * 2 > UNITS_PER_HUNDREDTH || (rest * 2 == UNITS_PER_HUNDREDTH && below % 2 == 1) {
        below + 1
    } else {
        below
    }
}

/// A strength of `units` units, written with two decimal places.
pub open spec fn strength_text(units: nat) -> Seq<char> {
    let count = hundredths(units);
    decimal(count / 100) + seq!['.', digit((count % 100) / 10), digit(count % 10)]
}

/// A signal type as text: the name of its variant, and in brackets the number
/// of the item or structure that it is about.
pub open spec fn kind_text(kind: SignalType) -> Seq<char> {
    match kind {
        SignalType::Push(item) => "Push("@ + decimal(item.0 as nat) + ")"@,
        SignalType::Pull(item) => "Pull("@ + decimal(item.0 as nat) + ")"@,
        SignalType::Contains(item) => "Contains("@ + decimal(item.0 as nat) + ")"@,
        SignalType::Work(structure) => "Work("@ + decimal(structure.0 as nat) + ")"@,
    }
}

/// The line that shows a signal type and its strength.
pub open spec fn line(kind: SignalType, units: nat) -> Seq<char> {
    kind_text(kind) + ": "@ + strength_text(units) + "\n"@
}

/// The lines that show the given signal types, in the given order, with the
/// strengths that `map` holds for them.
pub open spec fn lines(kinds: Seq<SignalType>, map: Map<SignalType, nat>) -> Seq<char>
    decreases kinds.len(),
{
    if kinds.len() == 0 {
        Seq::empty()
    } else {
        lines(kinds.drop_last(), map) + line(kinds.last(), map[kinds.last()])
    }
}

/// Whether `first` comes before `second` in the order of the signal types:
/// by the declaration of the variants, and among signals of one variant by
/// the number of their subject.
pub open spec fn kind_lt(first: SignalType, second: SignalType) -> bool {
    first.rank() < second.rank() || (first.rank() == second.rank() && first.subject()
        < second.subject())
}

/// Whether `kinds` holds exactly the signal types of `map`, in ascending
/// order.
pub open spec fn in_order(kinds: Seq<SignalType>, map: Map<SignalType, nat>) -> bool {
    &&& forall|i: int, j: int| 0 <= i < j < kinds.len() ==> kind_lt(kinds[i], kinds[j])
    &&& forall|kind: SignalType| kinds.contains(kind) <==> map.contains_key(kind)
}

/// Whether `text` shows `map`: one line for each of its signal types, in
/// ascending order.
pub open spec fn shows(text: Seq<char>, map: Map<SignalType, nat>) -> bool {
    exists|kinds: Seq<SignalType>| in_order(kinds, map) && text == lines(kinds, map)
}

/// Only one list holds the signal types of a map in ascending order.
pub proof fn lemma_order_is_unique(
    first: Seq<SignalType>,
    second: Seq<SignalType>,
    map: Map<SignalType, nat>,
)
    requires
        in_order(first, map),
        in_order(second, map),
    ensures
        first == second,
    decreases first.len(),
{
    if first.len() == 0 {
        if second.len() > 0 {
            assert(second.contains(second[0]));
            assert(first.contains(second[0]));
        }
    } else {
        let greatest = first.last();
        assert(first.contains(greatest));
        assert(second.contains(greatest));
        let place = choose|i: int| 0 <= i < second.len() && second[i] == greatest;
        let other = second.last();
        assert(second.contains(other));
        assert(first.contains(other));
        let back = choose|i: int| 0 <= i < first.len() && first[i] == other;
        if place < second.len() - 1 {
            assert(kind_lt(second[place], second[second.len() - 1]));
            if back < first.len() - 1 {
                assert(kind_lt(first[back], first[first.len() - 1]));
            }
        }
        let rest = map.remove(greatest);
        let shorter = first.drop_last();
        let other_shorter = second.drop_last();
        assert forall|kind: SignalType| shorter.contains(kind) <==> rest.contains_key(kind) by {
            if shorter.contains(kind) {
                let i = choose|i: int| 0 <= i < shorter.len() && shorter[i] == kind;
                assert(first.contains(kind));
                assert(kind_lt(first[i], first[first.len() - 1]));
            }
            if rest.contains_key(kind) {
                assert(first.contains(kind));
                let i = choose|i: int| 0 <= i < first.len() && first[i] == kind;
                assert(shorter[i] == kind);
            }
        }
        assert forall|kind: SignalType| other_shorter.contains(kind) <==> rest.contains_key(
            kind,
        ) by {
            if other_shorter.contains(kind) {
                let i = choose|i: int| 0 <= i < other_shorter.len() && other_shorter[i] == kind;
                assert(second.contains(kind));
                assert(kind_lt(second[i], second[second.len() - 1]));
            }
            if rest.contains_key(kind) {
                assert(second.contains(kind));
                let i = choose|i: int| 0 <= i < second.len() && second[i] == kind;
                assert(other_shorter[i] == kind);
            }
        }
        lemma_order_is_unique(shorter, other_shorter, rest);
        assert(first =~= shorter.push(greatest));
    }
}

/// Only one text shows a map: what a snapshot looks like does not depend on
/// the order in which it was filled or is walked.
pub proof fn lemma_text_is_unique(first: Seq<char>, second: Seq<char>, map: Map<SignalType, nat>)
    requires
        shows(first, map),
        shows(second, map),
    ensures
        first == second,
{
    let kinds = choose|kinds: Seq<SignalType>| in_order(kinds, map) && first == lines(kinds, map);
    let others = choose|kinds: Seq<SignalType>| in_order(kinds, map) && second == lines(kinds, map);
    lemma_order_is_unique(kinds, others, map);
}

/// Appends the character that stands for `value`, a number below ten.
fn push_digit(text: &mut String, value: u64)
    requires
        value < 10,
    ensures
        final(text)@ == old(text)@.push(digit(value as nat)),
{
    text.push((48 + value as u8) as char);
}

/// Appends `value` in decimal notation.
fn push_decimal(text: &mut String, value: u64)
    ensures
        final(text)@ == old(text)@ + decimal(value as nat),
    decreases value,
{
    if value >= 10 {
        push_decimal(text, value / 10);
    }
    push_digit(text, value % 10);
}

/// Appends `strength`, written with two decimal places.
fn push_strength(text: &mut String, strength: SignalStrength)
    ensures
        final(text)@ == old(text)@ + strength_text(strength@),
{
    let units = strength.value();
    let below = units / UNITS_PER_HUNDREDTH;
    let rest = units % UNITS_PER_HUNDREDTH;
    let count = if rest > UNITS_PER_HUNDREDTH / 2 || (rest == UNITS_PER_HUNDREDTH / 2 && below % 2
        == 1) {
        below + 1
    } else {
        below
    };
    push_decimal(text, count / 100);
    text.push('.');
    push_digit(text, (count % 100) / 10);
    push_digit(text, count % 10);
}

impl SignalType {
    /// This signal type as text.
    pub fn to_string(&self) -> (text: String)
        ensures
            text@ == kind_text(*self),
    {
        let (name, subject) = match self {
            SignalType::Push(item) => ("Push(", item.0),
            SignalType::Pull(item) => ("Pull(", item.0),
            SignalType::Contains(item) => ("Contains(", item.0),
            SignalType::Work(structure) => ("Work(", structure.0),
        };
        let mut text = String::from_str(name);
        push_decimal(&mut text, subject);
        text.append(")");
        text
    }
}

impl LocalSignals {
    /// The signals of this snapshot as text: one line for each signal type,
    /// sorted by signal type.
    pub fn to_string(&self) -> (text: String)
        requires
            self.wf(),
        ensures
            shows(text@, self@),
    {
        let entries = self.entries();
        let mut keys: Vec<Key> = Vec::new();
        let mut i: usize = 0;
        while i < entries.len()
            invariant
                i <= entries.len(),
                keys.len() == i,
                forall|j: int| 0 <= j < i ==> #[trigger] keys[j] == entries[j].0.spec_key(),
            decreases entries.len() - i,
        {
            keys.push(entries[i].0.key());
            i += 1;
        }
        let ghost listed = keys@;
        let sorted = sorted_keys(keys);
        let ghost kinds = Seq::new(sorted.len() as nat, |i: int| SignalType::spec_from_key(sorted[i]));
        proof {
            assert forall|i: int| 0 <= i < sorted.len() implies SignalType::is_key(
                #[trigger] sorted[i],
            ) && self@.contains_key(SignalType::spec_from_key(sorted[i])) by {
                to_multiset_contains(sorted@, sorted[i]);
                to_multiset_contains(listed, sorted[i]);
                assert(sorted@.contains(sorted[i]));
                let j = choose|j: int| 0 <= j < listed.len() && listed[j] == sorted[i];
                assert(listed[j] == entries[j].0.spec_key());
                assert(SignalType::spec_from_key(sorted[i]) == entries[j].0);
            }
            assert forall|i: int, j: int| 0 <= i < j < listed.len() implies listed[i]
                != listed[j] by {
                assert(entries[i].0 != entries[j].0);
            }
            listed.lemma_multiset_has_no_duplicates();
            sorted@.lemma_multiset_has_no_duplicates_conv();
            assert forall|i: int, j: int| 0 <= i < j < kinds.len() implies kind_lt(
                kinds[i],
                kinds[j],
            ) by {
                assert(key_le(sorted[i], sorted[j]));
                assert(sorted[i] != sorted[j]);
            }
            assert forall|kind: SignalType| kinds.contains(kind) <==> self@.contains_key(kind) by {
                if kinds.contains(kind) {
                    let i = choose|i: int| 0 <= i < kinds.len() && kinds[i] == kind;
                    assert(self@.contains_key(SignalType::spec_from_key(sorted[i])));
                }
                if self@.contains_key(kind) {
                    let j = choose|j: int| 0 <= j < entries.len() && #[trigger] entries[j].0 == kind;
                    assert(listed[j] == kind.spec_key());
                    assert(listed.contains(kind.spec_key()));
                    to_multiset_contains(listed, kind.spec_key());
                    to_multiset_contains(sorted@, kind.spec_key());
                    let i = choose|i: int| 0 <= i < sorted.len() && sorted[i] == kind.spec_key();
                    assert(kinds[i] == kind);
                }
            }
            assert(kinds.take(0) =~= Seq::<SignalType>::empty());
        }
        let mut string = String::new();
        let mut i: usize = 0;
        while i < sorted.len()
            invariant
                i <= sorted.len(),
                kinds.len() == sorted.len(),
                forall|j: int|
                    0 <= j < sorted.len() ==> SignalType::is_key(#[trigger] sorted[j])
                        && self@.contains_key(SignalType::spec_from_key(sorted[j])) && kinds[j]
                        == SignalType::spec_from_key(sorted[j]),
                string@ == lines(kinds.take(i as int), self@),
            decreases sorted.len() - i,
        {
            if let Some(signal_type) = SignalType::from_key(sorted[i]) {
                if let Some(signal_strength) = self.get(signal_type) {
                    let ghost before = string@;
                    string.append(signal_type.to_string().as_str());
                    string.append(": ");
                    push_strength(&mut string, signal_strength);
                    string.append("\n");
                    proof {
                        assert(kinds.take(i + 1).drop_last() =~= kinds.take(i as int));
                        assert(kinds.take(i + 1).last() == signal_type);
                        assert(string@ =~= before + line(signal_type, self@[signal_type]));
                    }
                }
            }
            i += 1;
        }
        proof {
            assert(kinds.take(i as int) =~= kinds);
        }
        string
    }
}

} // verus!
