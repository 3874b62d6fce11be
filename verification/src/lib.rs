//! Scent-field signals over a hexagonal tile grid.
//!
//! Sources of interest emit typed signals onto their tile; the signals spread
//! to neighboring tiles and fade over time, and units climb the resulting
//! gradient instead of searching for a path.
//!
//! Each tick runs three passes over the field, in this order: [`emission`],
//! [`diffusion`], [`decay`]. Decisions read the field after the last of them.

pub mod decay;
pub mod diffusion;
pub mod emission;
pub mod geometry;
pub mod graphics;
pub mod kinds;
pub mod laws;
pub mod local;
pub mod render;
pub mod signal_map;
pub mod signals;
pub mod strength;
pub mod table;
