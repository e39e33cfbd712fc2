//! The keycode: what a key of the keyboard is bound to.

use crate::mods::{lemma_same_bits_same_set, Mods};
use crate::text::str_eq;
use vstd::prelude::*;
use vstd::std_specs::cmp::PartialEqSpecImpl;

verus! {

/// The binding of one key.
#[derive(Debug, Hash, Eq)]
pub enum Keycode {
    /// A plain key, named by its code, with the modifiers held with it.
    Basic(Mods, String),
    /// Modifier-tap: the modifiers while the key is held, the code when it
    /// is tapped.
    MT(Mods, String),
    /// Layer-tap: the layer while the key is held, the code when it is
    /// tapped.
    LT(usize, String),
}

/// A keycode as a mathematical value: the modifiers as their bit pattern,
/// the code as its characters.
pub enum KeycodeView {
    /// A plain key: the bit pattern of the modifiers, and the code.
    Basic(u16, Seq<char>),
    /// Modifier-tap: the bit pattern of the modifiers, and the code.
    MT(u16, Seq<char>),
    /// Layer-tap: the layer, and the code.
    LT(usize, Seq<char>),
}

impl KeycodeView {
    /// The code, whatever the variant.
    pub open spec fn code(self) -> Seq<char> {
        match self {
            KeycodeView::Basic(_, code) => code,
            KeycodeView::MT(_, code) => code,
            KeycodeView::LT(_, code) => code,
        }
    }

    /// The sentinel that stands for no key: the plain code `NONE` without
    /// modifiers.
    pub open spec fn is_none(self) -> bool {
        self == KeycodeView::Basic(0, "NONE"@)
    }

    /// The sentinel that reports a rollover error: the plain code
    /// `ROLL_OVER` without modifiers.
    pub open spec fn is_roll_over(self) -> bool {
        self == KeycodeView::Basic(0, "ROLL_OVER"@)
    }
}

impl View for Keycode {
    type V = KeycodeView;

    open spec fn view(&self) -> KeycodeView {
        match self {
            Keycode::Basic(mods, code) => KeycodeView::Basic(mods@, code@),
            Keycode::MT(mods, code) => KeycodeView::MT(mods@, code@),
            Keycode::LT(layer, code) => KeycodeView::LT(*layer, code@),
        }
    }
}

impl DeepView for Keycode {
    type V = KeycodeView;

    open spec fn deep_view(&self) -> KeycodeView {
        self@
    }
}

impl Keycode {
    /// The code, whatever the variant.
    pub fn code(&self) -> (r: &str)
        ensures
            r@ == self@.code(),
    {
        match self {
            Keycode::Basic(_, code) => code.as_str(),
            Keycode::MT(_, code) => code.as_str(),
            Keycode::LT(_, code) => code.as_str(),
        }
    }

    /// Whether this is the sentinel for no key.
    pub fn is_none(&self) -> (r: bool)
        ensures
            r == self@.is_none(),
    {
        match self {
            Keycode::Basic(mods, code) => mods.is_empty() && str_eq(code.as_str(), "NONE"),
            _ => false,
        }
    }

    /// Whether this is the sentinel for a rollover error.
    pub fn is_roll_over(&self) -> (r: bool)
        ensures
            r == self@.is_roll_over(),
    {
        match self {
            Keycode::Basic(mods, code) => mods.is_empty() && str_eq(code.as_str(), "ROLL_OVER"),
            _ => false,
        }
    }
}

impl Clone for Keycode {
    fn clone(&self) -> (r: Keycode)
        ensures
            r@ == self@,
    {
        match self {
            Keycode::Basic(mods, code) => Keycode::Basic(*mods, code.clone()),
            Keycode::MT(mods, code) => Keycode::MT(*mods, code.clone()),
            Keycode::LT(layer, code) => Keycode::LT(*layer, code.clone()),
        }
    }
}

impl PartialEq for Keycode {
    fn eq(&self, other: &Keycode) -> (r: bool) {
        match (self, other) {
            (Keycode::Basic(m1, c1), Keycode::Basic(m2, c2)) => {
                proof {
                    lemma_same_bits_same_set(*m1, *m2);
                }
                *m1 == *m2 && *c1 == *c2
            },
            (Keycode::MT(m1, c1), Keycode::MT(m2, c2)) => {
                proof {
                    lemma_same_bits_same_set(*m1, *m2);
                }
                *m1 == *m2 && *c1 == *c2
            },
            (Keycode::LT(l1, c1), Keycode::LT(l2, c2)) => *l1 == *l2 && *c1 == *c2,
            _ => false,
        }
    }
}

impl PartialEqSpecImpl for Keycode {
    open spec fn obeys_eq_spec() -> bool {
        true
    }

    open spec fn eq_spec(&self, other: &Keycode) -> bool {
        self@ == other@
    }
}

/// The two sentinels are plain keycodes: no modifier-tap and no layer-tap
/// is one, whatever it holds, and no keycode is both.
pub proof fn lemma_sentinels_are_plain(k: KeycodeView)
    ensures
        k is MT || k is LT ==> !k.is_none() && !k.is_roll_over(),
        !(k.is_none() && k.is_roll_over()),
{
    reveal_strlit("NONE");
    reveal_strlit("ROLL_OVER");
    assert("NONE"@.len() != "ROLL_OVER"@.len());
}

} // verus!
