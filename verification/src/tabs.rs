//! The pages of the graphical interface.

use vstd::prelude::*;

verus! {

/// Which page the window shows.
#[derive(Debug, Clone, Copy, PartialEq, Eq, Structural)]
pub enum Tab {
    /// Live plot of the readings.
    Plot,
    /// Zone map, application settings and device configuration.
    Config,
    /// MIDI output settings.
    Midi,
}

} // verus!
