//! The metadata of a keyboard.

use vstd::prelude::*;

verus! {

/// The number of layers of a keyboard whose metadata names none: the base
/// layer, and the one that is used while `Fn` is held.
pub fn num_layers_default() -> (r: u8)
    ensures
        r == 2,
{
    2
}

/// Metadata for a keyboard.
#[derive(Debug)]
pub struct Meta {
    /// Display name for the keyboard.
    pub display_name: String,
    /// The keyboard has per-key controllable LEDs supporting various modes.
    pub has_mode: bool,
    /// LED settings are per layer, not for the whole keyboard.
    pub has_per_layer: bool,
    /// Number of layers; 2 where the second layer is used while `Fn` is
    /// held.
    pub num_layers: u8,
}

} // verus!
