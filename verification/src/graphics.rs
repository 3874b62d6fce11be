//! The layers into which the game's graphics are organized.

use crate::table::{table_contents, Key, Table};
use vstd::prelude::*;

verus! {

/// Enumerates the different layers we are organizing our graphics into.
#[derive(Clone, Copy, Debug, PartialEq, Eq, Hash, Structural)]
pub enum Layer {
    /// Organisms layer
    Organisms,
    /// Terrain layer
    Terrain,
    /// Produce layer
    Produce,
}

impl Layer {
    /// The key under which tables store this layer. Two layers with the same
    /// key are the same.
    pub open spec fn spec_key(self) -> Key {
        match self {
            Layer::Organisms => (0, 0),
            Layer::Terrain => (1, 0),
            Layer::Produce => (2, 0),
        }
    }

    /// The key under which tables store this layer.
    pub fn key(self) -> (key: Key)
        ensures
            key == self.spec_key(),
    {
        match self {
            Layer::Organisms => (0, 0),
            Layer::Terrain => (1, 0),
            Layer::Produce => (2, 0),
        }
    }
}

/// Manages the mapping between layers and the tilemaps that draw them. A
/// tilemap is known by the number of its entity.
#[derive(Debug)]
pub struct LayerRegister {
    map: Table,
}

impl LayerRegister {
    /// The tilemap of each layer that was registered.
    pub closed spec fn view(&self) -> Map<Layer, u64> {
        Map::new(
            |layer: Layer| table_contents(self.map).contains_key(layer.spec_key()),
            |layer: Layer| table_contents(self.map)[layer.spec_key()],
        )
    }

    /// A register without layers.
    pub fn new() -> (register: LayerRegister)
        ensures
            register@ == Map::<Layer, u64>::empty(),
    {
        LayerRegister { map: Table::new() }
    }

    /// Registers `tilemap` as the tilemap of `layer`, in place of any that
    /// was registered for it before.
    pub fn insert(&mut self, layer: Layer, tilemap: u64)
        ensures
            final(self)@ == old(self)@.insert(layer, tilemap),
    {
        self.map.insert(layer.key(), tilemap);
    }

    /// The tilemap of `layer`, if one was registered.
    pub fn get(&self, layer: Layer) -> (tilemap: Option<u64>)
        ensures
            tilemap == (if self@.contains_key(layer) {
                Some(self@[layer])
            } else {
                None
            }),
    {
        self.map.get(layer.key())
    }
}

impl Default for LayerRegister {
    /// A register without layers.
    fn default() -> (register: LayerRegister)
        ensures
            register@ == Map::<Layer, u64>::empty(),
    {
        LayerRegister::new()
    }
}

} // verus!
