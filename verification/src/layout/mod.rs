//! What is known of a keyboard's layout.

pub mod meta;

pub use meta::{num_layers_default, Meta};
