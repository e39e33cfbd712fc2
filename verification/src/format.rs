//! The canonical text of a keycode: the one description that the formatter
//! writes for it, and that the parser reads back as the same keycode.

use crate::decimal::{decimal, push_decimal};
use crate::keycode::{Keycode, KeycodeView};
use crate::mods::{is_named, Mods, ALT, CTRL, PHYSICAL, RIGHT, SHIFT, SUPER};
use crate::parse::parse_spec;
use crate::roundtrip::lemma_format_then_parse;
use crate::text::{is_ident, starts_alphanumeric, str_eq};
use crate::token::{is_one_word, is_word};
use vstd::prelude::*;

verus! {

/// The name of one modifier as a list: no name where the modifier is not
/// `held`, else its right-hand or its left-hand name.
pub open spec fn side_name(held: bool, right: bool, left_name: Seq<char>, right_name: Seq<char>) -> Seq<
    Seq<char>,
> {
    if !held {
        Seq::empty()
    } else if right {
        seq![right_name]
    } else {
        seq![left_name]
    }
}

/// The canonical names of the modifiers in a bit pattern, in the order
/// control, shift, alt, super. Without the side flag each modifier has its
/// `LEFT_` name. With the side flag and one modifier, that modifier has its
/// `RIGHT_` name. With the side flag and several modifiers the pattern does
/// not say which of them is the right-hand one: each has its `RIGHT_` name
/// then, and the names are read as the same pattern.
pub open spec fn mod_names(bits: u16) -> Seq<Seq<char>> {
    let right = bits & RIGHT != 0;
    side_name(bits & CTRL != 0, right, "LEFT_CTRL"@, "RIGHT_CTRL"@) + side_name(
        bits & SHIFT != 0,
        right,
        "LEFT_SHIFT"@,
        "RIGHT_SHIFT"@,
    ) + side_name(bits & ALT != 0, right, "LEFT_ALT"@, "RIGHT_ALT"@) + side_name(
        bits & SUPER != 0,
        right,
        "LEFT_SUPER"@,
        "RIGHT_SUPER"@,
    )
}

/// The names one after the other, a `,` behind each.
pub open spec fn names_text(names: Seq<Seq<char>>) -> Seq<char>
    decreases names.len(),
{
    if names.len() == 0 {
        Seq::empty()
    } else {
        names[0] + ","@ + names_text(names.skip(1))
    }
}

/// The canonical text of a keycode whose code is known to be an identifier
/// or not to be one (`code_is_ident`), for the keycodes that have a text:
/// - a basic keycode without modifiers, whose code is neither keyword: the
///   code;
/// - a modifier-tap with at least one modifier and no unnamed bit:
///   `MT(<names>,<code>)`;
/// - a layer-tap: `LT(<layer>,<code>)`;
/// the code being one word and an identifier in each.
pub open spec fn format_given_spec(k: KeycodeView, code_is_ident: bool) -> Option<Seq<char>> {
    match k {
        KeycodeView::Basic(bits, code) => {
            if code_is_ident && is_word(code) && bits == 0 && code != "MT"@ && code != "LT"@ {
                Some(code)
            } else {
                None
            }
        },
        KeycodeView::MT(bits, code) => {
            if code_is_ident && is_word(code) && is_named(bits) && bits & PHYSICAL != 0 {
                Some("MT("@ + names_text(mod_names(bits)) + code + ")"@)
            } else {
                None
            }
        },
        KeycodeView::LT(layer, code) => {
            if code_is_ident && is_word(code) {
                Some("LT("@ + decimal(layer as nat) + ","@ + code + ")"@)
            } else {
                None
            }
        },
    }
}

/// The canonical text of a keycode, or nothing for a keycode that no text
/// describes.
pub open spec fn format_spec(k: KeycodeView) -> Option<Seq<char>> {
    format_given_spec(k, is_ident(k.code()))
}

/// The text of a list of names is the text of its first part followed by
/// the text of the rest.
pub proof fn lemma_names_text_concat(a: Seq<Seq<char>>, b: Seq<Seq<char>>)
    ensures
        names_text(a + b) == names_text(a) + names_text(b),
    decreases a.len(),
{
    if a.len() == 0 {
        assert(a + b == b);
    } else {
        lemma_names_text_concat(a.skip(1), b);
        assert((a + b).skip(1) == a.skip(1) + b);
        assert(names_text(a + b) == a[0] + ","@ + (names_text(a.skip(1)) + names_text(b)));
    }
}

/// Appends the name of one modifier to `out`, and a `,` behind it: nothing
/// where the modifier is not `held`, else its right-hand or its left-hand
/// name.
fn push_side_name(out: &mut String, held: bool, right: bool, left_name: &str, right_name: &str)
    ensures
        final(out)@ == old(out)@ + names_text(side_name(held, right, left_name@, right_name@)),
{
    proof {
        let nothing = Seq::<Seq<char>>::empty();
        assert(names_text(nothing) == Seq::<char>::empty());
        assert(out@ + Seq::<char>::empty() == out@);
    }
    if held {
        let name = if right {
            right_name
        } else {
            left_name
        };
        out.append(name);
        out.append(",");
        proof {
            let one = seq![name@];
            assert(one.skip(1) == Seq::<Seq<char>>::empty());
            assert(names_text(one) == name@ + ","@);
        }
    }
}

/// Appends the canonical names of the modifiers in `mods` to `out`, a `,`
/// behind each.
fn push_mod_names(out: &mut String, mods: Mods)
    ensures
        final(out)@ == old(out)@ + names_text(mod_names(mods@)),
{
    let bits = mods.bits();
    let right = bits & RIGHT != 0;
    let ghost ctrl = side_name(bits & CTRL != 0, right, "LEFT_CTRL"@, "RIGHT_CTRL"@);
    let ghost shift = side_name(bits & SHIFT != 0, right, "LEFT_SHIFT"@, "RIGHT_SHIFT"@);
    let ghost alt = side_name(bits & ALT != 0, right, "LEFT_ALT"@, "RIGHT_ALT"@);
    let ghost sup = side_name(bits & SUPER != 0, right, "LEFT_SUPER"@, "RIGHT_SUPER"@);
    push_side_name(out, bits & CTRL != 0, right, "LEFT_CTRL", "RIGHT_CTRL");
    push_side_name(out, bits & SHIFT != 0, right, "LEFT_SHIFT", "RIGHT_SHIFT");
    push_side_name(out, bits & ALT != 0, right, "LEFT_ALT", "RIGHT_ALT");
    push_side_name(out, bits & SUPER != 0, right, "LEFT_SUPER", "RIGHT_SUPER");
    proof {
        lemma_names_text_concat(ctrl, shift);
        lemma_names_text_concat(ctrl + shift, alt);
        lemma_names_text_concat(ctrl + shift + alt, sup);
        assert(out@ == old(out)@ + (names_text(ctrl) + names_text(shift) + names_text(alt)
            + names_text(sup)));
    }
}

impl Keycode {
    /// The canonical text of the keycode, for a caller that has tested the
    /// code: `code_is_ident` says whether it is an identifier.
    pub fn format_given(&self, code_is_ident: bool) -> (r: Option<String>)
        ensures
            r.deep_view() == format_given_spec(self@, code_is_ident),
    {
        if !code_is_ident || !is_one_word(self.code()) {
            return None;
        }
        match self {
            Keycode::Basic(mods, code) => {
                if !mods.is_empty() || str_eq(code.as_str(), "MT") || str_eq(code.as_str(), "LT") {
                    None
                } else {
                    Some(code.clone())
                }
            },
            Keycode::MT(mods, code) => {
                if mods.bits() & PHYSICAL == 0 {
                    None
                } else {
                    let mut out = String::new();
                    out.append("MT(");
                    push_mod_names(&mut out, *mods);
                    out.append(code.as_str());
                    out.append(")");
                    Some(out)
                }
            },
            Keycode::LT(layer, code) => {
                let mut out = String::new();
                out.append("LT(");
                push_decimal(&mut out, *layer);
                out.append(",");
                out.append(code.as_str());
                out.append(")");
                Some(out)
            },
        }
    }

    /// The canonical text of the keycode, or `None` for a keycode that no
    /// text describes. The parser reads the text as this keycode.
    pub fn format(&self) -> (r: Option<String>)
        ensures
            r.deep_view() == format_spec(self@),
            r matches Some(text) ==> parse_spec(text@) == Some(self@),
    {
        proof {
            lemma_format_then_parse(self@);
        }
        self.format_given(starts_alphanumeric(self.code()))
    }
}

} // verus!
