//! Offline timezone lookup: resolve a (longitude, latitude) pair to the
//! enclosing timezone region of a bundled polygon dataset and report its
//! attributes (a zone identifier and/or a fixed UTC offset).

pub mod archive;
pub mod index;
pub mod ned;
pub mod offset;
pub mod osm;
pub mod props;
pub mod shared;

pub use crate::shared::SpatialtimeError;

use vstd::prelude::*;

verus! {

/// A geographic coordinate, carried as the IEEE-754 bit patterns of the
/// longitude and latitude in degrees. The lookup never interprets the
/// numeric value itself; it only hands the coordinate to the spatial index
/// and the containment test, so the exact bits are what matters.
#[derive(Clone, Copy, Debug, PartialEq, Eq, Structural)]
pub struct Coordinate {
    /// Bit pattern of the longitude in degrees.
    pub lon_bits: u64,
    /// Bit pattern of the latitude in degrees.
    pub lat_bits: u64,
}

} // verus!
