//! Verified core of the Dildonica sensor bridge: decoding the sensor's
//! notification frames, mapping device zones to output zones, the clock
//! offset between device and host, and locating the device and its
//! characteristics among what a Bluetooth scan reports.

pub mod clock;
pub mod device;
pub mod sample;
pub mod tabs;
pub mod zone_map;

use vstd::prelude::*;

verus! {

/// Number of sensing zones on the device, and of output zones.
pub const NUM_ZONES: usize = 8;

} // verus!
