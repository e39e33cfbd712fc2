//! Keycode descriptions for a programmable keyboard: the modifier set, the
//! textual grammar with its tokenizer and parser, and the canonical text
//! form; and the metadata of a keyboard.

pub mod decimal;
pub mod format;
pub mod keycode;
pub mod layout;
pub mod mods;
pub mod parse;
pub mod roundtrip;
pub mod text;
pub mod token;

pub use keycode::{Keycode, KeycodeView};
pub use mods::Mods;
pub use parse::parse;
pub use token::{tokenize, Tokens};
