//! The round trip: the parser reads the canonical text of a keycode as that
//! keycode.

use crate::decimal::{decimal, is_digit, layer_value, lemma_decimal_reads_back};
use crate::format::{format_spec, mod_names, names_text, side_name};
use crate::keycode::KeycodeView;
use crate::mods::{
    is_named, lemma_mod_bits_one_modifier, mod_bits, ALT, CTRL, PHYSICAL, RIGHT, SHIFT, SUPER,
};
use crate::parse::{
    mt_comma, mt_count, mt_form, mt_name, mt_names, name_bits, parse_mt_spec, parse_spec, union_of,
};
use crate::text::is_ident;
use crate::token::{
    ends_word, is_token, is_word, lemma_tokens_are_tokens, lemma_tokens_of_nothing,
    lemma_tokens_of_word, lemma_tokens_word_then_separator, tokens,
};
use vstd::prelude::*;

verus! {

/// The tokens of a list of names written with a `,` behind each: every name,
/// and the `,` behind it.
pub open spec fn listed(names: Seq<Seq<char>>) -> Seq<Seq<char>> {
    Seq::new(
        2 * names.len(),
        |i: int|
            if i % 2 == 0 {
                names[i / 2]
            } else {
                ","@
            },
    )
}

/// The tokenizer reads a list of words written with a `,` behind each as
/// those words and commas, and goes on with what follows the list.
pub proof fn lemma_tokens_of_names(names: Seq<Seq<char>>, rest: Seq<char>)
    requires
        forall|j: int| 0 <= j < names.len() ==> is_word(#[trigger] names[j]),
    ensures
        tokens(names_text(names) + rest) == listed(names) + tokens(rest),
    decreases names.len(),
{
    reveal_strlit(",");
    if names.len() == 0 {
        assert(names_text(names) + rest == rest);
        assert(listed(names) + tokens(rest) == tokens(rest));
    } else {
        let tail = names.skip(1);
        assert forall|j: int| 0 <= j < tail.len() implies is_word(#[trigger] tail[j]) by {
            assert(tail[j] == names[j + 1]);
        }
        lemma_tokens_of_names(tail, rest);
        let behind = names_text(tail) + rest;
        assert(","@ == seq![',']);
        assert(names_text(names) + rest == names[0] + (seq![','] + behind));
        lemma_tokens_word_then_separator(names[0], ',', behind);
        assert(seq![names[0], seq![',']] + listed(tail) == listed(names)) by {
            let left = seq![names[0], seq![',']] + listed(tail);
            assert(left.len() == listed(names).len());
            assert forall|i: int| 0 <= i < left.len() implies left[i] == listed(names)[i] by {
                if i >= 2 {
                    assert(left[i] == listed(tail)[i - 2]);
                    if i % 2 == 0 {
                        assert(tail[(i - 2) / 2] == names[i / 2]);
                    }
                }
            }
        }
        assert(seq![names[0], seq![',']] + (listed(tail) + tokens(rest)) == (seq![
            names[0],
            seq![','],
        ] + listed(tail)) + tokens(rest));
    }
}

/// The union of the bits of two lists of names is the union of the bits of
/// both.
pub proof fn lemma_union_of_concat(a: Seq<Seq<char>>, b: Seq<Seq<char>>)
    ensures
        union_of(a + b) == union_of(a) | union_of(b),
    decreases b.len(),
{
    let x = union_of(a);
    if b.len() == 0 {
        assert(a + b == a);
        assert(x | 0 == x) by (bit_vector);
    } else {
        lemma_union_of_concat(a, b.drop_last());
        assert((a + b).drop_last() == a + b.drop_last());
        assert((a + b).last() == b.last());
        let y = union_of(b.drop_last());
        let z = name_bits(b.last());
        assert((x | y) | z == x | (y | z)) by (bit_vector);
    }
}

/// Each of the eight modifier names is a word, and stands for its bits.
pub proof fn lemma_modifier_names()
    ensures
        is_word("LEFT_CTRL"@) && mod_bits("LEFT_CTRL"@) == Some(CTRL),
        is_word("LEFT_SHIFT"@) && mod_bits("LEFT_SHIFT"@) == Some(SHIFT),
        is_word("LEFT_ALT"@) && mod_bits("LEFT_ALT"@) == Some(ALT),
        is_word("LEFT_SUPER"@) && mod_bits("LEFT_SUPER"@) == Some(SUPER),
        is_word("RIGHT_CTRL"@) && mod_bits("RIGHT_CTRL"@) == Some(RIGHT | CTRL),
        is_word("RIGHT_SHIFT"@) && mod_bits("RIGHT_SHIFT"@) == Some(RIGHT | SHIFT),
        is_word("RIGHT_ALT"@) && mod_bits("RIGHT_ALT"@) == Some(RIGHT | ALT),
        is_word("RIGHT_SUPER"@) && mod_bits("RIGHT_SUPER"@) == Some(RIGHT | SUPER),
{
    reveal_strlit("LEFT_CTRL");
    reveal_strlit("LEFT_SHIFT");
    reveal_strlit("LEFT_ALT");
    reveal_strlit("LEFT_SUPER");
    reveal_strlit("RIGHT_CTRL");
    reveal_strlit("RIGHT_SHIFT");
    reveal_strlit("RIGHT_ALT");
    reveal_strlit("RIGHT_SUPER");
    assert("LEFT_CTRL"@[0] == 'L' && "LEFT_SHIFT"@[0] == 'L' && "LEFT_ALT"@[0] == 'L'
        && "LEFT_SUPER"@[0] == 'L');
    assert("RIGHT_CTRL"@[0] == 'R' && "RIGHT_SHIFT"@[0] == 'R' && "RIGHT_ALT"@[0] == 'R'
        && "RIGHT_SUPER"@[0] == 'R');
    assert("LEFT_SHIFT"@[6] == 'H' && "LEFT_SUPER"@[6] == 'U');
    assert("RIGHT_SHIFT"@[7] == 'H' && "RIGHT_SUPER"@[7] == 'U');
}

/// The canonical names of a bit pattern with at least one modifier and no
/// unnamed bit: there is at least one, each is a word and a modifier name,
/// and the union of their bits is the pattern.
pub proof fn lemma_mod_names(bits: u16)
    requires
        is_named(bits),
        bits & PHYSICAL != 0,
    ensures
        mod_names(bits).len() >= 1,
        forall|j: int|
            0 <= j < mod_names(bits).len() ==> is_word(#[trigger] mod_names(bits)[j]) && mod_bits(
                mod_names(bits)[j],
            ) is Some,
        union_of(mod_names(bits)) == bits,
{
    lemma_modifier_names();
    let right = bits & RIGHT != 0;
    let ctrl = side_name(bits & CTRL != 0, right, "LEFT_CTRL"@, "RIGHT_CTRL"@);
    let shift = side_name(bits & SHIFT != 0, right, "LEFT_SHIFT"@, "RIGHT_SHIFT"@);
    let alt = side_name(bits & ALT != 0, right, "LEFT_ALT"@, "RIGHT_ALT"@);
    let sup = side_name(bits & SUPER != 0, right, "LEFT_SUPER"@, "RIGHT_SUPER"@);
    assert(mod_names(bits) == ctrl + shift + alt + sup);
    assert(bits & 0x1 != 0 || bits & 0x2 != 0 || bits & 0x4 != 0 || bits & 0x8 != 0) by (bit_vector)
        requires
            bits & 0xf != 0,
    ;
    lemma_union_of_one(ctrl);
    lemma_union_of_one(shift);
    lemma_union_of_one(alt);
    lemma_union_of_one(sup);
    lemma_union_of_concat(ctrl, shift);
    lemma_union_of_concat(ctrl + shift, alt);
    lemma_union_of_concat(ctrl + shift + alt, sup);
    let c = union_of(ctrl);
    let s = union_of(shift);
    let a = union_of(alt);
    let u = union_of(sup);
    assert(((c | s) | a) | u == bits) by (bit_vector)
        requires
            bits & !0x1fu16 == 0,
            c == (if bits & 0x1 == 0 {
                0u16
            } else if bits & 0x10 != 0 {
                0x10u16 | 0x1u16
            } else {
                0x1u16
            }),
            s == (if bits & 0x2 == 0 {
                0u16
            } else if bits & 0x10 != 0 {
                0x10u16 | 0x2u16
            } else {
                0x2u16
            }),
            a == (if bits & 0x4 == 0 {
                0u16
            } else if bits & 0x10 != 0 {
                0x10u16 | 0x4u16
            } else {
                0x4u16
            }),
            u == (if bits & 0x8 == 0 {
                0u16
            } else if bits & 0x10 != 0 {
                0x10u16 | 0x8u16
            } else {
                0x8u16
            }),
            bits & 0xf != 0,
    ;
}

/// The union of the bits of no name is no bit, and that of one name is the
/// bits of the name.
proof fn lemma_union_of_one(names: Seq<Seq<char>>)
    requires
        names.len() <= 1,
    ensures
        names.len() == 0 ==> union_of(names) == 0,
        names.len() == 1 ==> union_of(names) == name_bits(names[0]),
{
    if names.len() == 1 {
        assert(names.drop_last().len() == 0);
        assert(union_of(names.drop_last()) == 0);
        let b = name_bits(names[0]);
        assert(0u16 | b == b) by (bit_vector);
    }
}

/// The decimal digits of a number are one word.
pub proof fn lemma_decimal_is_word(n: nat)
    ensures
        is_word(decimal(n)),
{
    lemma_decimal_reads_back(n);
    assert forall|i: int| 0 <= i < decimal(n).len() implies !ends_word(
        #[trigger] decimal(n)[i],
    ) by {
        assert(is_digit(decimal(n)[i]));
    }
}

/// The tokens of the canonical text of a modifier-tap: the keyword, `(`,
/// the names with a `,` behind each, the code, and `)`.
pub proof fn lemma_tokens_of_modifier_tap(names: Seq<Seq<char>>, code: Seq<char>)
    requires
        forall|j: int| 0 <= j < names.len() ==> is_word(#[trigger] names[j]),
        is_word(code),
    ensures
        tokens("MT("@ + names_text(names) + code + ")"@) == seq!["MT"@, "("@] + listed(names)
            + seq![code, ")"@],
{
    reveal_strlit("MT");
    reveal_strlit("MT(");
    reveal_strlit("(");
    reveal_strlit(")");
    let nothing = Seq::<char>::empty();
    let text = "MT("@ + names_text(names) + code + ")"@;
    let end = code + (seq![')'] + nothing);
    let list = names_text(names) + end;
    assert("MT"@[0] == 'M' && "MT"@[1] == 'T');
    assert(is_word("MT"@));
    assert(text == "MT"@ + (seq!['('] + list));
    lemma_tokens_word_then_separator("MT"@, '(', list);
    lemma_tokens_of_names(names, end);
    lemma_tokens_word_then_separator(code, ')', nothing);
    lemma_tokens_of_nothing();
    assert("("@ == seq!['('] && ")"@ == seq![')']);
    assert(tokens(end) == seq![code, ")"@]);
    assert(seq!["MT"@, "("@] + (listed(names) + seq![code, ")"@]) == seq!["MT"@, "("@] + listed(
        names,
    ) + seq![code, ")"@]);
}

/// The tokens of the canonical text of a layer-tap: the keyword, `(`, the
/// layer, `,`, the code, and `)`.
pub proof fn lemma_tokens_of_layer_tap(number: Seq<char>, code: Seq<char>)
    requires
        is_word(number),
        is_word(code),
    ensures
        tokens("LT("@ + number + ","@ + code + ")"@) == seq![
            "LT"@,
            "("@,
            number,
            ","@,
            code,
            ")"@,
        ],
{
    reveal_strlit("LT");
    reveal_strlit("LT(");
    reveal_strlit("(");
    reveal_strlit(",");
    reveal_strlit(")");
    let nothing = Seq::<char>::empty();
    let text = "LT("@ + number + ","@ + code + ")"@;
    let end = code + (seq![')'] + nothing);
    let list = number + (seq![','] + end);
    assert("LT"@[0] == 'L' && "LT"@[1] == 'T');
    assert(is_word("LT"@));
    assert(text == "LT"@ + (seq!['('] + list));
    lemma_tokens_word_then_separator("LT"@, '(', list);
    lemma_tokens_word_then_separator(number, ',', end);
    lemma_tokens_word_then_separator(code, ')', nothing);
    lemma_tokens_of_nothing();
    assert("("@ == seq!['('] && ","@ == seq![','] && ")"@ == seq![')']);
    assert(tokens(end) == seq![code, ")"@]);
    assert(tokens(list) == seq![number, ","@] + seq![code, ")"@]);
    assert(seq!["LT"@, "("@] + (seq![number, ","@] + seq![code, ")"@]) == seq![
        "LT"@,
        "("@,
        number,
        ","@,
        code,
        ")"@,
    ]);
}

/// The tokens behind `MT` in the canonical text of a modifier-tap are read
/// as the modifier-tap.
proof fn lemma_modifier_tap_reads_back(bits: u16, code: Seq<char>)
    requires
        is_named(bits),
        bits & PHYSICAL != 0,
        is_word(code),
        is_ident(code),
    ensures
        parse_mt_spec(seq!["("@] + listed(mod_names(bits)) + seq![code, ")"@]) == Some(
            KeycodeView::MT(bits, code),
        ),
{
    let names = mod_names(bits);
    lemma_mod_names(bits);
    let toks = seq!["("@] + listed(names) + seq![code, ")"@];
    let n = names.len() as int;
    assert(toks.len() == 3 + 2 * n);
    assert(mt_count(toks) == n);
    assert forall|j: int| 0 <= j < n implies #[trigger] mt_name(toks, j) == names[j] by {
        assert(toks[1 + 2 * j] == listed(names)[2 * j]);
    }
    assert forall|j: int| 0 <= j < n implies #[trigger] mt_comma(toks, j) == ","@ by {
        assert(toks[2 + 2 * j] == listed(names)[2 * j + 1]);
    }
    assert(mt_names(toks, n) == names);
    assert(mt_form(toks));
    assert(toks[toks.len() - 2] == code);
}

/// Round trip: whenever a keycode has a canonical text, the parser reads
/// that text as the same keycode.
pub proof fn lemma_format_then_parse(k: KeycodeView)
    ensures
        format_spec(k) matches Some(text) ==> parse_spec(text) == Some(k),
{
    if let Some(text) = format_spec(k) {
        match k {
            KeycodeView::Basic(_, code) => {
                lemma_tokens_of_word(code);
                assert(tokens(text)[0] == code);
            },
            KeycodeView::MT(bits, code) => {
                let names = mod_names(bits);
                lemma_mod_names(bits);
                lemma_tokens_of_modifier_tap(names, code);
                lemma_modifier_tap_reads_back(bits, code);
                let all = tokens(text);
                assert(all[0] == "MT"@);
                assert(all.skip(1) == seq!["("@] + listed(names) + seq![code, ")"@]);
            },
            KeycodeView::LT(layer, code) => {
                let number = decimal(layer as nat);
                lemma_decimal_reads_back(layer as nat);
                lemma_decimal_is_word(layer as nat);
                lemma_tokens_of_layer_tap(number, code);
                let all = tokens(text);
                assert(all[0] == "LT"@);
                assert("LT"@ != "MT"@) by {
                    reveal_strlit("LT");
                    reveal_strlit("MT");
                    assert("LT"@[0] != "MT"@[0]);
                }
                assert(all.skip(1) == seq!["("@, number, ","@, code, ")"@]);
                assert(layer_value(number) == Some(layer));
            },
        }
    }
}

/// The formatter names one modifier as the name table does: the canonical
/// names of the bits of a modifier name are that name alone.
pub proof fn lemma_names_invert_bits(name: Seq<char>)
    ensures
        mod_bits(name) matches Some(bits) ==> mod_names(bits) == seq![name],
{
    if let Some(bits) = mod_bits(name) {
        assert({
            &&& (bits == 0x1 || bits == 0x10 | 0x1 ==> bits & 0x1 != 0 && bits & 0x2 == 0 && bits
                & 0x4 == 0 && bits & 0x8 == 0)
            &&& (bits == 0x2 || bits == 0x10 | 0x2 ==> bits & 0x1 == 0 && bits & 0x2 != 0 && bits
                & 0x4 == 0 && bits & 0x8 == 0)
            &&& (bits == 0x4 || bits == 0x10 | 0x4 ==> bits & 0x1 == 0 && bits & 0x2 == 0 && bits
                & 0x4 != 0 && bits & 0x8 == 0)
            &&& (bits == 0x8 || bits == 0x10 | 0x8 ==> bits & 0x1 == 0 && bits & 0x2 == 0 && bits
                & 0x4 == 0 && bits & 0x8 != 0)
            &&& (bits == 0x1 || bits == 0x2 || bits == 0x4 || bits == 0x8 ==> bits & 0x10 == 0)
            &&& (bits == 0x10 | 0x1 || bits == 0x10 | 0x2 || bits == 0x10 | 0x4 || bits == 0x10
                | 0x8 ==> bits & 0x10 != 0)
        }) by (bit_vector);
        assert(mod_names(bits) == seq![name]);
    }
}

/// The union of the bits of one or more modifier names holds named bits
/// only, and at least one modifier.
pub proof fn lemma_union_of_modifier_names(names: Seq<Seq<char>>)
    requires
        names.len() >= 1,
        forall|j: int| 0 <= j < names.len() ==> mod_bits(#[trigger] names[j]) is Some,
    ensures
        is_named(union_of(names)),
        union_of(names) & PHYSICAL != 0,
    decreases names.len(),
{
    let front = names.drop_last();
    let x = union_of(front);
    let y = name_bits(names.last());
    lemma_mod_bits_one_modifier(names.last());
    if front.len() == 0 {
        assert(x == 0);
        assert(0u16 & !0x1fu16 == 0) by (bit_vector);
    } else {
        assert forall|j: int| 0 <= j < front.len() implies mod_bits(#[trigger] front[j]) is Some by {
            assert(front[j] == names[j]);
        }
        lemma_union_of_modifier_names(front);
    }
    assert((x | y) & !0x1fu16 == 0 && (x | y) & 0xf != 0) by (bit_vector)
        requires
            x & !0x1fu16 == 0,
            y & !0x1fu16 == 0,
            y & 0xf == 0x1 || y & 0xf == 0x2 || y & 0xf == 0x4 || y & 0xf == 0x8,
    ;
}

/// What the parser reads, the formatter can write. The code of a keycode
/// that the parser has read is a token, and where that token is a word, the
/// keycode has a canonical text.
pub proof fn lemma_parsed_has_text(s: Seq<char>)
    ensures
        parse_spec(s) matches Some(k) ==> is_token(k.code()) && (is_word(k.code())
            ==> format_spec(k) is Some),
{
    if let Some(k) = parse_spec(s) {
        let all = tokens(s);
        lemma_tokens_are_tokens(s);
        match k {
            KeycodeView::Basic(_, code) => {
                assert(code == all[0]);
            },
            KeycodeView::MT(_, code) => {
                let toks = all.skip(1);
                let n = mt_count(toks);
                assert(code == all[all.len() - 2]);
                let names = mt_names(toks, n);
                assert forall|j: int| 0 <= j < names.len() implies mod_bits(
                    #[trigger] names[j],
                ) is Some by {
                    assert(names[j] == mt_name(toks, j));
                }
                lemma_union_of_modifier_names(names);
            },
            KeycodeView::LT(_, code) => {
                assert(code == all[4]);
            },
        }
    }
}

} // verus!
