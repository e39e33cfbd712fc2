//! The tokenizer: a keycode description is cut into tokens from left to
//! right. Spaces separate tokens and belong to none; each of `,` `|` `(` `)`
//! is a token by itself; every other run of characters is one token.

use vstd::prelude::*;
use vstd::std_specs::iter::IteratorSpec;

verus! {

/// The four characters that are always a token of their own.
pub open spec fn is_separator(c: char) -> bool {
    c == ',' || c == '|' || c == '(' || c == ')'
}

/// The characters that cannot stand inside a word: the space and the four
/// separators.
pub open spec fn ends_word(c: char) -> bool {
    c == ' ' || is_separator(c)
}

/// Whether `c` is one of the four separators.
pub fn char_is_separator(c: char) -> (r: bool)
    ensures
        r == is_separator(c),
{
    c == ',' || c == '|' || c == '(' || c == ')'
}

/// Whether `c` cannot stand inside a word.
pub fn char_ends_word(c: char) -> (r: bool)
    ensures
        r == ends_word(c),
{
    c == ' ' || char_is_separator(c)
}

/// A word: text that is not empty and holds neither a space nor a separator.
pub open spec fn is_word(s: Seq<char>) -> bool {
    s.len() > 0 && forall|i: int| 0 <= i < s.len() ==> !ends_word(#[trigger] s[i])
}

/// How many spaces `s` begins with.
pub open spec fn spaces_len(s: Seq<char>) -> nat
    decreases s.len(),
{
    if s.len() > 0 && s[0] == ' ' {
        1 + spaces_len(s.skip(1))
    } else {
        0
    }
}

/// How many characters at the start of `s` belong to one word.
pub open spec fn word_len(s: Seq<char>) -> nat
    decreases s.len(),
{
    if s.len() > 0 && !ends_word(s[0]) {
        1 + word_len(s.skip(1))
    } else {
        0
    }
}

/// The length of the token that `s` begins with, for an `s` that begins with
/// no space: one for a separator, the length of the word otherwise.
pub open spec fn token_len(s: Seq<char>) -> nat {
    if s.len() > 0 && is_separator(s[0]) {
        1
    } else {
        word_len(s)
    }
}

/// The text without the spaces that it begins with.
pub open spec fn trimmed(s: Seq<char>) -> Seq<char> {
    s.skip(spaces_len(s) as int)
}

/// Whether `s` holds a token: something other than spaces.
pub open spec fn has_token(s: Seq<char>) -> bool {
    trimmed(s).len() > 0
}

/// The first token of `s`, for an `s` that holds one.
pub open spec fn first_token(s: Seq<char>) -> Seq<char> {
    trimmed(s).take(token_len(trimmed(s)) as int)
}

/// The text behind the first token of `s`, for an `s` that holds one.
pub open spec fn behind_first_token(s: Seq<char>) -> Seq<char> {
    trimmed(s).skip(token_len(trimmed(s)) as int)
}

/// The tokens of `s`, from left to right.
pub open spec fn tokens(s: Seq<char>) -> Seq<Seq<char>>
    decreases s.len(),
    via tokens_decreases
{
    if has_token(s) {
        seq![first_token(s)] + tokens(behind_first_token(s))
    } else {
        Seq::empty()
    }
}

#[via_fn]
proof fn tokens_decreases(s: Seq<char>) {
    lemma_spaces_len(s);
    if has_token(s) {
        lemma_token_len(trimmed(s));
    }
}

/// What a token is: a word, or one separator.
pub open spec fn is_token(t: Seq<char>) -> bool {
    is_word(t) || (t.len() == 1 && is_separator(t[0]))
}

/// The leading spaces are spaces, they are followed by another character or
/// by the end, and they are no more than the text holds.
pub proof fn lemma_spaces_len(s: Seq<char>)
    ensures
        spaces_len(s) <= s.len(),
        forall|i: int| 0 <= i < spaces_len(s) ==> s[i] == ' ',
        spaces_len(s) < s.len() ==> s[spaces_len(s) as int] != ' ',
    decreases s.len(),
{
    if s.len() > 0 && s[0] == ' ' {
        let t = s.skip(1);
        lemma_spaces_len(t);
        assert forall|i: int| 0 <= i < spaces_len(s) implies s[i] == ' ' by {
            if i > 0 {
                assert(s[i] == t[i - 1]);
            }
        }
        if spaces_len(s) < s.len() {
            assert(s[spaces_len(s) as int] == t[spaces_len(t) as int]);
        }
    }
}

/// The characters counted by `word_len` end no word, they are followed by a
/// character that does or by the end, and they are no more than the text
/// holds.
pub proof fn lemma_word_len(s: Seq<char>)
    ensures
        word_len(s) <= s.len(),
        forall|i: int| 0 <= i < word_len(s) ==> !ends_word(s[i]),
        word_len(s) < s.len() ==> ends_word(s[word_len(s) as int]),
    decreases s.len(),
{
    if s.len() > 0 && !ends_word(s[0]) {
        let t = s.skip(1);
        lemma_word_len(t);
        assert forall|i: int| 0 <= i < word_len(s) implies !ends_word(s[i]) by {
            if i > 0 {
                assert(s[i] == t[i - 1]);
            }
        }
        if word_len(s) < s.len() {
            assert(s[word_len(s) as int] == t[word_len(t) as int]);
        }
    }
}

/// A text that begins with something other than a space begins with a token
/// of at least one character: a single separator, or a word.
pub proof fn lemma_token_len(s: Seq<char>)
    requires
        s.len() > 0,
        s[0] != ' ',
    ensures
        1 <= token_len(s) <= s.len(),
        is_separator(s[0]) ==> token_len(s) == 1,
        !is_separator(s[0]) ==> is_word(s.take(token_len(s) as int)),
{
    lemma_word_len(s);
}

/// Every token is a word or one separator: no token is empty, and none
/// holds a space.
pub proof fn lemma_tokens_are_tokens(s: Seq<char>)
    ensures
        forall|i: int| 0 <= i < tokens(s).len() ==> is_token(#[trigger] tokens(s)[i]),
    decreases s.len(),
{
    if has_token(s) {
        lemma_spaces_len(s);
        lemma_token_len(trimmed(s));
        let rest = behind_first_token(s);
        lemma_tokens_are_tokens(rest);
        assert(is_token(first_token(s)));
        assert forall|i: int| 0 <= i < tokens(s).len() implies is_token(
            #[trigger] tokens(s)[i],
        ) by {
            if i > 0 {
                assert(tokens(s)[i] == tokens(rest)[i - 1]);
            }
        }
    }
}

/// The test for a character other than the space.
pub open spec fn not_space() -> spec_fn(char) -> bool {
    |c: char| c != ' '
}

/// The tokenizer drops spaces and nothing else: the tokens, one after the
/// other, are the text without its spaces.
pub proof fn lemma_tokens_keep_the_text(s: Seq<char>)
    ensures
        tokens(s).flatten() == s.filter(not_space()),
    decreases s.len(),
{
    lemma_spaces_len(s);
    let spaces = s.take(spaces_len(s) as int);
    lemma_filter_drops_spaces(spaces);
    if has_token(s) {
        lemma_token_len(trimmed(s));
        let tok = first_token(s);
        let rest = behind_first_token(s);
        lemma_tokens_keep_the_text(rest);
        assert(s == spaces + (tok + rest));
        Seq::filter_distributes_over_add(spaces, tok + rest, not_space());
        Seq::filter_distributes_over_add(tok, rest, not_space());
        lemma_filter_keeps_token(tok);
        assert(s.filter(not_space()) == tok + rest.filter(not_space()));
        let all = tokens(s);
        assert(all.first() == tok);
        assert(all.drop_first() == tokens(rest));
    } else {
        assert(s == spaces);
        assert(tokens(s).flatten() == Seq::<char>::empty());
    }
}

/// Nothing is left of spaces once the spaces are dropped.
proof fn lemma_filter_drops_spaces(s: Seq<char>)
    requires
        forall|i: int| 0 <= i < s.len() ==> s[i] == ' ',
    ensures
        s.filter(not_space()) == Seq::<char>::empty(),
    decreases s.len(),
{
    reveal(Seq::filter);
    if s.len() > 0 {
        lemma_filter_drops_spaces(s.drop_last());
    }
}

/// A text without spaces stays as it is when spaces are dropped.
proof fn lemma_filter_keeps_token(t: Seq<char>)
    requires
        forall|i: int| 0 <= i < t.len() ==> t[i] != ' ',
    ensures
        t.filter(not_space()) == t,
    decreases t.len(),
{
    reveal(Seq::filter);
    if t.len() > 0 {
        lemma_filter_keeps_token(t.drop_last());
        assert(t.drop_last().push(t.last()) == t);
    }
}

/// Characters that end no word, followed by the end of the text or by a
/// character that ends a word, are counted as one word.
pub proof fn lemma_word_len_of_word(w: Seq<char>, rest: Seq<char>)
    requires
        forall|i: int| 0 <= i < w.len() ==> !ends_word(#[trigger] w[i]),
        rest.len() == 0 || ends_word(rest[0]),
    ensures
        word_len(w + rest) == w.len(),
    decreases w.len(),
{
    if w.len() == 0 {
        assert(w + rest == rest);
    } else {
        assert((w + rest)[0] == w[0]);
        assert((w + rest).skip(1) == w.skip(1) + rest);
        assert forall|i: int| 0 <= i < w.skip(1).len() implies !ends_word(
            #[trigger] w.skip(1)[i],
        ) by {
            assert(w.skip(1)[i] == w[i + 1]);
        }
        lemma_word_len_of_word(w.skip(1), rest);
    }
}

/// The empty text holds no token.
pub proof fn lemma_tokens_of_nothing()
    ensures
        tokens(Seq::<char>::empty()) == Seq::<Seq<char>>::empty(),
{
    let s = Seq::<char>::empty();
    assert(s.skip(spaces_len(s) as int).len() == 0);
}

/// A space at the start of a text belongs to no token: the tokens are
/// those of what follows it.
pub proof fn lemma_tokens_space_first(rest: Seq<char>)
    ensures
        tokens(seq![' '] + rest) == tokens(rest),
{
    let s = seq![' '] + rest;
    assert(s[0] == ' ');
    assert(s.skip(1) == rest);
    assert(spaces_len(s) == 1 + spaces_len(rest));
    lemma_spaces_len(rest);
    assert(s.skip(spaces_len(s) as int) == rest.skip(spaces_len(rest) as int));
}

/// A separator at the start of a text is the first token, and the tokens
/// of what follows it come next.
pub proof fn lemma_tokens_separator_first(c: char, rest: Seq<char>)
    requires
        is_separator(c),
    ensures
        tokens(seq![c] + rest) == seq![seq![c]] + tokens(rest),
{
    let s = seq![c] + rest;
    assert(s[0] == c);
    assert(spaces_len(s) == 0);
    let t = s.skip(0);
    assert(t == s);
    assert(token_len(t) == 1);
    assert(t.take(1) == seq![c]);
    assert(t.skip(1) == rest);
}

/// A word that a separator follows is one token, the separator is the
/// next, and the tokens of what follows the separator come after them.
pub proof fn lemma_tokens_word_then_separator(w: Seq<char>, c: char, rest: Seq<char>)
    requires
        is_word(w),
        is_separator(c),
    ensures
        tokens(w + (seq![c] + rest)) == seq![w, seq![c]] + tokens(rest),
{
    let tail = seq![c] + rest;
    let s = w + tail;
    assert(tail[0] == c);
    assert(s[0] == w[0]);
    assert(spaces_len(s) == 0);
    let t = s.skip(0);
    assert(t == s);
    lemma_word_len_of_word(w, tail);
    assert(token_len(t) == w.len());
    assert(t.take(w.len() as int) == w);
    assert(t.skip(w.len() as int) == tail);
    lemma_tokens_separator_first(c, rest);
    assert(seq![w] + (seq![seq![c]] + tokens(rest)) == seq![w, seq![c]] + tokens(rest));
}

/// A word that a space follows is one token, and the tokens of what
/// follows the space come after it.
pub proof fn lemma_tokens_word_then_space(w: Seq<char>, rest: Seq<char>)
    requires
        is_word(w),
    ensures
        tokens(w + (seq![' '] + rest)) == seq![w] + tokens(rest),
{
    let tail = seq![' '] + rest;
    let s = w + tail;
    assert(tail[0] == ' ');
    assert(s[0] == w[0]);
    assert(spaces_len(s) == 0);
    let t = s.skip(0);
    assert(t == s);
    lemma_word_len_of_word(w, tail);
    assert(token_len(t) == w.len());
    assert(t.take(w.len() as int) == w);
    assert(t.skip(w.len() as int) == tail);
    lemma_tokens_space_first(rest);
}

/// A word alone is its own single token.
pub proof fn lemma_tokens_of_word(w: Seq<char>)
    requires
        is_word(w),
    ensures
        tokens(w) == seq![w],
{
    let nothing = Seq::<char>::empty();
    assert(w + nothing == w);
    assert(spaces_len(w) == 0);
    let t = w.skip(0);
    assert(t == w);
    lemma_word_len_of_word(w, nothing);
    assert(t.take(w.len() as int) == w);
    assert(t.skip(w.len() as int) == nothing);
    lemma_tokens_of_nothing();
    assert(seq![w] + Seq::<Seq<char>>::empty() == seq![w]);
}

/// Whether `s` is one word: not empty, and without space or separator.
pub fn is_one_word(s: &str) -> (r: bool)
    ensures
        r == is_word(s@),
{
    let mut chars = s.chars();
    let ghost mut n: int = 0;
    loop
        invariant
            0 <= n <= s@.len(),
            chars.obeys_prophetic_iter_laws(),
            chars.remaining() == s@.skip(n),
            forall|i: int| 0 <= i < n ==> !ends_word(#[trigger] s@[i]),
        decreases s@.len() - n,
    {
        match chars.next() {
            None => {
                return !s.is_empty();
            },
            Some(c) => {
                assert(s@.skip(n).drop_first() == s@.skip(n + 1));
                assert(c == s@[n]);
                if char_ends_word(c) {
                    return false;
                }
                proof {
                    n = n + 1;
                }
            },
        }
    }
}

/// What is left of a description while it is read token by token. The
/// tokens are not stored: each is cut from the rest when it is asked for.
#[derive(Clone, Copy, Debug)]
pub struct Tokens<'a> {
    /// The text that has not been read yet.
    pub rest: &'a str,
}

impl<'a> Tokens<'a> {
    /// The tokens that are still to come.
    pub open spec fn remaining(&self) -> Seq<Seq<char>> {
        tokens(self.rest@)
    }

    /// Cuts the next token off the rest. At the end of the text there is no
    /// token, and the rest stays as it is.
    pub fn next(&mut self) -> (r: Option<&'a str>)
        ensures
            match r {
                Some(tok) => {
                    &&& has_token(old(self).rest@)
                    &&& tok@ == first_token(old(self).rest@)
                    &&& final(self).rest@ == behind_first_token(old(self).rest@)
                    &&& old(self).remaining().len() > 0
                    &&& tok@ == old(self).remaining()[0]
                    &&& final(self).remaining() == old(self).remaining().skip(1)
                },
                None => {
                    &&& !has_token(old(self).rest@)
                    &&& old(self).remaining().len() == 0
                    &&& *final(self) == *old(self)
                },
            },
    {
        match next_token(self.rest) {
            Some((tok, rest)) => {
                proof {
                    let all = tokens(self.rest@);
                    assert(all.skip(1) == tokens(rest@));
                }
                self.rest = rest;
                Some(tok)
            },
            None => None,
        }
    }

    /// All the tokens that are still to come, in order.
    pub fn collect(self) -> (r: Vec<&'a str>)
        ensures
            r@.len() == self.remaining().len(),
            forall|i: int| 0 <= i < r@.len() ==> (#[trigger] r@[i])@ == self.remaining()[i],
    {
        let mut cursor = self;
        let mut out: Vec<&'a str> = Vec::new();
        loop
            invariant
                out@.len() + cursor.remaining().len() == self.remaining().len(),
                cursor.remaining() == self.remaining().skip(out@.len() as int),
                forall|i: int| 0 <= i < out@.len() ==> (#[trigger] out@[i])@ == self.remaining()[i],
            decreases cursor.remaining().len(),
        {
            match cursor.next() {
                Some(tok) => {
                    assert(self.remaining().skip(out@.len() as int).skip(1)
                        == self.remaining().skip(out@.len() as int + 1));
                    out.push(tok);
                },
                None => {
                    return out;
                },
            }
        }
    }
}

/// Starts reading `s` token by token.
pub fn tokenize<'a>(s: &'a str) -> (r: Tokens<'a>)
    ensures
        r.rest@ == s@,
        r.remaining() == tokens(s@),
{
    Tokens { rest: s }
}

/// The first token of `s` and the text behind it, or `None` where `s` holds
/// nothing but spaces. The token begins behind the leading spaces, and the
/// rest begins behind the token.
pub fn next_token<'a>(s: &'a str) -> (r: Option<(&'a str, &'a str)>)
    ensures
        match r {
            Some((tok, rest)) => {
                &&& has_token(s@)
                &&& tok@ == first_token(s@)
                &&& rest@ == behind_first_token(s@)
            },
            None => !has_token(s@),
        },
{
    let total = s.unicode_len();
    let mut chars = s.chars();
    let mut start: usize = 0;
    let mut first: char = ' ';
    assert(s@.skip(0) == s@);
    loop
        invariant_except_break
            chars.obeys_prophetic_iter_laws(),
            chars.remaining() == s@.skip(start as int),
        invariant
            total == s@.len(),
            start <= total,
            spaces_len(s@) == start + spaces_len(s@.skip(start as int)),
        ensures
            start < total,
            first == s@.skip(start as int)[0],
            first != ' ',
            chars.obeys_prophetic_iter_laws(),
            chars.remaining() == s@.skip(start + 1),
        decreases total - start,
    {
        match chars.next() {
            None => {
                assert(s@.skip(start as int).len() == 0);
                return None;
            },
            Some(c) => {
                assert(s@.skip(start as int).drop_first() == s@.skip(start + 1));
                if c == ' ' {
                    assert(s@.skip(start as int).skip(1) == s@.skip(start + 1));
                    start = start + 1;
                } else {
                    first = c;
                    break;
                }
            },
        }
    }
    let ghost t = s@.skip(start as int);
    assert(spaces_len(s@) == start);
    let mut end: usize = start + 1;
    if !char_is_separator(first) {
        assert(t.skip(1) == s@.skip(end as int));
        loop
            invariant_except_break
                chars.obeys_prophetic_iter_laws(),
                chars.remaining() == s@.skip(end as int),
            invariant
                total == s@.len(),
                start < end <= total,
                word_len(t) == (end - start) + word_len(s@.skip(end as int)),
            ensures
                start < end <= total,
                word_len(t) == end - start,
            decreases total - end,
        {
            match chars.next() {
                None => {
                    assert(s@.skip(end as int).len() == 0);
                    break;
                },
                Some(c) => {
                    assert(s@.skip(end as int).drop_first() == s@.skip(end + 1));
                    if char_ends_word(c) {
                        break;
                    }
                    assert(s@.skip(end as int).skip(1) == s@.skip(end + 1));
                    end = end + 1;
                },
            }
        }
    }
    let tok = s.substring_char(start, end);
    let rest = s.substring_char(end, total);
    proof {
        let n = end - start;
        assert(token_len(t) == n);
        assert(tok@ == t.take(n));
        assert(rest@ == t.skip(n));
    }
    Some((tok, rest))
}

} // verus!
