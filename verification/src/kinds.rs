//! What a signal means, and what a unit is trying to do.

use crate::table::Key;
use vstd::prelude::*;

verus! {

/// Identifies a type of item.
#[derive(Clone, Copy, Debug, PartialEq, Eq, Hash, PartialOrd, Ord, Structural)]
pub struct ItemId(pub u64);

/// Identifies a type of structure.
#[derive(Clone, Copy, Debug, PartialEq, Eq, Hash, PartialOrd, Ord, Structural)]
pub struct StructureId(pub u64);

/// The variety of signal.
#[derive(Clone, Copy, Debug, PartialEq, Eq, Hash, PartialOrd, Ord, Structural)]
pub enum SignalType {
    /// Take this item away from here.
    Push(ItemId),
    /// Bring me an item of this type.
    Pull(ItemId),
    /// Has an item of this type, in case you were looking.
    Contains(ItemId),
    /// Perform work at this type of structure.
    Work(StructureId),
}

/// What a unit is currently trying to do.
#[derive(Clone, Copy, Debug, PartialEq, Eq, Hash, Structural)]
pub enum Goal {
    /// Move about with no aim.
    Wander,
    /// Pick up an item of this type.
    Pickup(ItemId),
    /// Drop off an item of this type.
    DropOff(ItemId),
    /// Work at a structure of this type.
    Work(StructureId),
}

impl SignalType {
    /// The position of the variant in the declaration: signal types are
    /// ordered by it first, and by their identifier second.
    pub open spec fn rank(self) -> nat {
        match self {
            SignalType::Push(_) => 0,
            SignalType::Pull(_) => 1,
            SignalType::Contains(_) => 2,
            SignalType::Work(_) => 3,
        }
    }

    /// The number of the item or structure that the signal is about.
    pub open spec fn subject(self) -> nat {
        match self {
            SignalType::Push(item) => item.0 as nat,
            SignalType::Pull(item) => item.0 as nat,
            SignalType::Contains(item) => item.0 as nat,
            SignalType::Work(structure) => structure.0 as nat,
        }
    }

    /// The key under which tables store this signal type: its rank and its
    /// subject. Two signal types with the same key are the same.
    pub open spec fn spec_key(self) -> Key {
        (self.rank() as u64, self.subject() as u64)
    }

    /// Whether `key` is the key of some signal type.
    pub open spec fn is_key(key: Key) -> bool {
        key.0 < 4
    }

    /// The signal type that `key` stands for.
    pub open spec fn spec_from_key(key: Key) -> SignalType {
        if key.0 == 0 {
            SignalType::Push(ItemId(key.1))
        } else if key.0 == 1 {
            SignalType::Pull(ItemId(key.1))
        } else if key.0 == 2 {
            SignalType::Contains(ItemId(key.1))
        } else {
            SignalType::Work(StructureId(key.1))
        }
    }

    /// The key under which tables store this signal type.
    pub fn key(self) -> (key: Key)
        ensures
            key == self.spec_key(),
            SignalType::is_key(key),
            SignalType::spec_from_key(key) == self,
    {
        match self {
            SignalType::Push(item) => (0, item.0),
            SignalType::Pull(item) => (1, item.0),
            SignalType::Contains(item) => (2, item.0),
            SignalType::Work(structure) => (3, structure.0),
        }
    }

    /// The signal type that `key` stands for, if it stands for one.
    pub fn from_key(key: Key) -> (kind: Option<SignalType>)
        ensures
            kind is Some <==> SignalType::is_key(key),
            kind matches Some(k) ==> k == SignalType::spec_from_key(key) && k.spec_key() == key,
    {
        if key.0 == 0 {
            Some(SignalType::Push(ItemId(key.1)))
        } else if key.0 == 1 {
            Some(SignalType::Pull(ItemId(key.1)))
        } else if key.0 == 2 {
            Some(SignalType::Contains(ItemId(key.1)))
        } else if key.0 == 3 {
            Some(SignalType::Work(StructureId(key.1)))
        } else {
            None
        }
    }

    /// Whether this is a `Contains` signal, which tells where items are but
    /// asks for nothing.
    pub fn is_contains(self) -> (r: bool)
        ensures
            r == (self is Contains),
    {
        match self {
            SignalType::Contains(_) => true,
            _ => false,
        }
    }
}

} // verus!
