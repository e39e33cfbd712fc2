//! The parser: from the tokens of a description to the keycode it
//! describes, or to nothing where the description is malformed.
//!
//! ```text
//! keycode  := modtap | layertap | basic
//! modtap   := "MT" "(" MODNAME ("," MODNAME)* "," IDENT ")"
//! layertap := "LT" "(" INTEGER "," IDENT ")"
//! basic    := IDENT
//! ```
//!
//! The first token decides the form: `MT` and `LT` are keywords, and any
//! other token is read as a basic keycode.

use crate::decimal::{layer_value, parse_layer};
use crate::keycode::{Keycode, KeycodeView};
use crate::mods::{mod_bits, Mods};
use crate::text::{is_ident, starts_alphanumeric, str_eq};
use crate::token::{tokenize, tokens, Tokens};
use vstd::prelude::*;

verus! {

/// The bits of a modifier name, and no bit for any other text.
pub open spec fn name_bits(name: Seq<char>) -> u16 {
    match mod_bits(name) {
        Some(bits) => bits,
        None => 0,
    }
}

/// The union of the bits of a list of modifier names.
pub open spec fn union_of(names: Seq<Seq<char>>) -> u16
    decreases names.len(),
{
    if names.len() == 0 {
        0
    } else {
        union_of(names.drop_last()) | name_bits(names.last())
    }
}

/// In the tokens behind `MT`, the token where the modifier name of index
/// `j` stands.
pub open spec fn mt_name(toks: Seq<Seq<char>>, j: int) -> Seq<char> {
    toks[1 + 2 * j]
}

/// In the tokens behind `MT`, the token behind the modifier name of index
/// `j`.
pub open spec fn mt_comma(toks: Seq<Seq<char>>, j: int) -> Seq<char> {
    toks[2 + 2 * j]
}

/// The first `count` modifier names in the tokens behind `MT`.
pub open spec fn mt_names(toks: Seq<Seq<char>>, count: int) -> Seq<Seq<char>> {
    Seq::new(count as nat, |j: int| mt_name(toks, j))
}

/// How many modifier names the tokens behind `MT` hold, if they have the
/// form of a modifier-tap.
pub open spec fn mt_count(toks: Seq<Seq<char>>) -> int {
    (toks.len() - 3) / 2
}

/// Whether the tokens behind `MT` have the form of a modifier-tap: `(`, one
/// or more modifier names with a `,` behind each, one more token for the
/// code, `)`, and nothing else.
pub open spec fn mt_form(toks: Seq<Seq<char>>) -> bool {
    &&& toks.len() >= 5
    &&& toks.len() % 2 == 1
    &&& toks[0] == "("@
    &&& forall|j: int| 0 <= j < mt_count(toks) ==> mod_bits(#[trigger] mt_name(toks, j)) is Some
    &&& forall|j: int| 0 <= j < mt_count(toks) ==> #[trigger] mt_comma(toks, j) == ","@
    &&& toks[toks.len() - 1] == ")"@
}

/// What the tokens behind `MT` describe: the union of the named modifiers
/// and the code, where the tokens have the form of a modifier-tap and the
/// code is an identifier.
pub open spec fn parse_mt_spec(toks: Seq<Seq<char>>) -> Option<KeycodeView> {
    let code = toks[toks.len() - 2];
    if mt_form(toks) && is_ident(code) {
        Some(KeycodeView::MT(union_of(mt_names(toks, mt_count(toks))), code))
    } else {
        None
    }
}

/// What the tokens behind `LT` describe: `(`, a layer, `,`, an identifier
/// for the code, `)`, and nothing else.
pub open spec fn parse_lt_spec(toks: Seq<Seq<char>>) -> Option<KeycodeView> {
    if toks.len() == 5 && toks[0] == "("@ && layer_value(toks[1]) is Some && toks[2] == ","@
        && is_ident(toks[3]) && toks[4] == ")"@ {
        Some(KeycodeView::LT(layer_value(toks[1])->0, toks[3]))
    } else {
        None
    }
}

/// What tokens describe as a basic keycode: they are one identifier, which
/// is the code, and the modifier set is empty.
pub open spec fn parse_basic_spec(toks: Seq<Seq<char>>) -> Option<KeycodeView> {
    if toks.len() == 1 && is_ident(toks[0]) {
        Some(KeycodeView::Basic(0, toks[0]))
    } else {
        None
    }
}

/// What a list of tokens describes. The first token decides the form.
pub open spec fn parse_tokens(toks: Seq<Seq<char>>) -> Option<KeycodeView> {
    if toks.len() == 0 {
        None
    } else if toks[0] == "MT"@ {
        parse_mt_spec(toks.skip(1))
    } else if toks[0] == "LT"@ {
        parse_lt_spec(toks.skip(1))
    } else {
        parse_basic_spec(toks)
    }
}

/// What a description describes.
pub open spec fn parse_spec(s: Seq<char>) -> Option<KeycodeView> {
    parse_tokens(tokens(s))
}

/// The result of a sub-parser whose tokens have matched its form: the
/// keycode where the code token has been found to be an identifier, nothing
/// where it has not.
pub fn accept_if_ident(keycode: Keycode, code_is_ident: bool) -> (r: Option<Keycode>)
    ensures
        r == (if code_is_ident {
            Some(keycode)
        } else {
            None
        }),
{
    if code_is_ident {
        Some(keycode)
    } else {
        None
    }
}

/// Reads the tokens behind the keyword `MT`.
pub fn parse_mt<'a>(tokens: Tokens<'a>) -> (r: Option<Keycode>)
    ensures
        r.deep_view() == parse_mt_spec(tokens.remaining()),
{
    let ghost all = tokens.remaining();
    let mut cursor = tokens;
    proof {
        reveal_strlit(",");
        reveal_strlit(")");
        assert(","@[0] != ")"@[0]);
    }
    match cursor.next() {
        Some(open) => {
            if !str_eq(open, "(") {
                return None;
            }
        },
        None => {
            return None;
        },
    }
    let mut item = match cursor.next() {
        Some(tok) => tok,
        None => {
            return None;
        },
    };
    assert(all.skip(1).skip(1) == all.skip(2));
    let mut mods = Mods::empty();
    let mut named = false;
    let ghost mut k: int = 0;
    assert(mt_names(all, 0).len() == 0);
    loop
        invariant
            0 <= k,
            2 + 2 * k <= all.len(),
            all[0] == "("@,
            ","@ != ")"@,
            all == tokens.remaining(),
            cursor.remaining() == all.skip(2 + 2 * k),
            item@ == all[1 + 2 * k],
            named == (k > 0),
            forall|j: int| 0 <= j < k ==> mod_bits(#[trigger] mt_name(all, j)) is Some,
            forall|j: int| 0 <= j < k ==> #[trigger] mt_comma(all, j) == ","@,
            mods@ == union_of(mt_names(all, k)),
        decreases all.len() - 2 * k,
    {
        let sep = match cursor.next() {
            Some(tok) => tok,
            None => {
                return None;
            },
        };
        assert(sep@ == mt_comma(all, k));
        assert(all.skip(2 + 2 * k).skip(1) == all.skip(3 + 2 * k));
        if str_eq(sep, ",") {
            match Mods::from_mod_str(item) {
                Some(m) => {
                    proof {
                        assert(mt_names(all, k + 1).drop_last() == mt_names(all, k));
                        assert(mt_names(all, k + 1).last() == mt_name(all, k));
                    }
                    mods = mods | m;
                },
                None => {
                    assert(mod_bits(mt_name(all, k)) is None);
                    return None;
                },
            }
            item = match cursor.next() {
                Some(tok) => tok,
                None => {
                    return None;
                },
            };
            assert(all.skip(3 + 2 * k).skip(1) == all.skip(2 + 2 * (k + 1)));
            named = true;
            proof {
                k = k + 1;
            }
        } else if str_eq(sep, ")") {
            if cursor.next().is_some() {
                assert(mt_form(all) ==> mt_comma(all, k) == ","@);
                return None;
            }
            if !named {
                return None;
            }
            assert(all.len() == 3 + 2 * k);
            assert(mt_count(all) == k);
            assert(mt_form(all));
            return accept_if_ident(Keycode::MT(mods, item.to_owned()), starts_alphanumeric(item));
        } else {
            assert(mt_form(all) ==> mt_comma(all, k) == ","@ || k == mt_count(all));
            return None;
        }
    }
}

/// Reads the tokens behind the keyword `LT`.
pub fn parse_lt<'a>(tokens: Tokens<'a>) -> (r: Option<Keycode>)
    ensures
        r.deep_view() == parse_lt_spec(tokens.remaining()),
{
    let ghost all = tokens.remaining();
    let mut tokens = tokens;
    match tokens.next() {
        Some(open) => {
            if !str_eq(open, "(") {
                return None;
            }
        },
        None => {
            return None;
        },
    }
    let layer = match tokens.next() {
        Some(number) => match parse_layer(number) {
            Some(layer) => layer,
            None => {
                return None;
            },
        },
        None => {
            return None;
        },
    };
    assert(all.skip(1).skip(1) == all.skip(2));
    match tokens.next() {
        Some(comma) => {
            if !str_eq(comma, ",") {
                return None;
            }
        },
        None => {
            return None;
        },
    }
    assert(all.skip(2).skip(1) == all.skip(3));
    let code = match tokens.next() {
        Some(tok) => tok,
        None => {
            return None;
        },
    };
    assert(all.skip(3).skip(1) == all.skip(4));
    match tokens.next() {
        Some(close) => {
            if !str_eq(close, ")") {
                return None;
            }
        },
        None => {
            return None;
        },
    }
    assert(all.skip(4).skip(1) == all.skip(5));
    if tokens.next().is_some() {
        return None;
    }
    accept_if_ident(Keycode::LT(layer, code.to_owned()), starts_alphanumeric(code))
}

/// Reads tokens as a basic keycode.
pub fn parse_basic<'a>(tokens: Tokens<'a>) -> (r: Option<Keycode>)
    ensures
        r.deep_view() == parse_basic_spec(tokens.remaining()),
{
    let mut tokens = tokens;
    let code = match tokens.next() {
        Some(tok) => tok,
        None => {
            return None;
        },
    };
    if tokens.next().is_some() {
        return None;
    }
    accept_if_ident(Keycode::Basic(Mods::empty(), code.to_owned()), starts_alphanumeric(code))
}

/// The keycode that `s` describes, or `None` where `s` describes none.
pub fn parse(s: &str) -> (r: Option<Keycode>)
    ensures
        r.deep_view() == parse_spec(s@),
{
    let tokens = tokenize(s);
    let mut behind = tokens;
    match behind.next() {
        Some(first) => {
            if str_eq(first, "MT") {
                parse_mt(behind)
            } else if str_eq(first, "LT") {
                parse_lt(behind)
            } else {
                parse_basic(tokens)
            }
        },
        None => None,
    }
}

} // verus!
