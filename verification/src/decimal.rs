//! Layer numbers as text: a non-negative integer in decimal digits.

use vstd::prelude::*;
use vstd::std_specs::iter::IteratorSpec;

verus! {

/// The ten decimal digits.
pub open spec fn is_digit(c: char) -> bool {
    '0' <= c && c <= '9'
}

/// The number that a digit stands for.
pub open spec fn digit_value(c: char) -> nat {
    (c as int - '0' as int) as nat
}

/// The digit that stands for a number below ten.
pub open spec fn digit_char(d: nat) -> char {
    if d == 0 {
        '0'
    } else if d == 1 {
        '1'
    } else if d == 2 {
        '2'
    } else if d == 3 {
        '3'
    } else if d == 4 {
        '4'
    } else if d == 5 {
        '5'
    } else if d == 6 {
        '6'
    } else if d == 7 {
        '7'
    } else if d == 8 {
        '8'
    } else {
        '9'
    }
}

/// A number in digits: at least one character, and digits only.
pub open spec fn is_number(s: Seq<char>) -> bool {
    s.len() > 0 && forall|i: int| 0 <= i < s.len() ==> is_digit(#[trigger] s[i])
}

/// The value of a run of digits, the first digit counting most.
pub open spec fn number_value(s: Seq<char>) -> nat
    decreases s.len(),
{
    if s.len() == 0 {
        0
    } else {
        10 * number_value(s.drop_last()) + digit_value(s.last())
    }
}

/// The text without the one `+` that may stand in front of the digits.
pub open spec fn unsigned(s: Seq<char>) -> Seq<char> {
    if s.len() > 0 && s[0] == '+' {
        s.skip(1)
    } else {
        s
    }
}

/// The layer that a token names: the value of its digits, which a `+` may
/// precede, where that value fits the machine's word. Anything else names no
/// layer.
pub open spec fn layer_value(s: Seq<char>) -> Option<usize> {
    let digits = unsigned(s);
    if is_number(digits) && number_value(digits) <= usize::MAX {
        Some(number_value(digits) as usize)
    } else {
        None
    }
}

/// A number in decimal digits, without sign and without leading zeros.
pub open spec fn decimal(n: nat) -> Seq<char>
    decreases n,
{
    if n < 10 {
        seq![digit_char(n)]
    } else {
        decimal(n / 10).push(digit_char(n % 10))
    }
}

/// A run of digits is worth at least as much as any run it begins with.
pub proof fn lemma_number_value_grows(s: Seq<char>, n: int)
    requires
        0 <= n <= s.len(),
    ensures
        number_value(s.take(n)) <= number_value(s),
    decreases s.len() - n,
{
    if n == s.len() {
        assert(s.take(n) == s);
    } else {
        lemma_number_value_grows(s.drop_last(), n);
        assert(s.drop_last().take(n) == s.take(n));
    }
}

/// Reading the decimal digits of a number gives the number back: they are
/// digits only, begin with no sign, and are worth the number.
pub proof fn lemma_decimal_reads_back(n: nat)
    ensures
        is_number(decimal(n)),
        number_value(decimal(n)) == n,
        unsigned(decimal(n)) == decimal(n),
    decreases n,
{
    if n < 10 {
        let s = decimal(n);
        assert(s.drop_last().len() == 0);
        assert(number_value(s.drop_last()) == 0);
    } else {
        lemma_decimal_reads_back(n / 10);
        let s = decimal(n);
        assert(s.drop_last() == decimal(n / 10));
        assert(s[0] == decimal(n / 10)[0]);
    }
}

/// The layer that a token names, as `layer_value` defines it.
pub fn parse_layer(tok: &str) -> (r: Option<usize>)
    ensures
        r == layer_value(tok@),
{
    let mut chars = tok.chars();
    let ghost digits = unsigned(tok@);
    let mut value: usize = 0;
    let mut seen = false;
    let ghost mut n: int = 0;
    match chars.next() {
        None => {
            return None;
        },
        Some(c) => {
            assert(tok@.drop_first() == tok@.skip(1));
            if c == '+' {
                assert(digits.take(0) == Seq::<char>::empty());
            } else if c >= '0' && c <= '9' {
                value = (c as u32 - '0' as u32) as usize;
                seen = true;
                proof {
                    n = 1;
                    assert(digits.take(1).drop_last() == Seq::<char>::empty());
                    assert(number_value(digits.take(1).drop_last()) == 0);
                }
            } else {
                assert(!is_digit(digits[0]));
                return None;
            }
        },
    }
    loop
        invariant
            digits == unsigned(tok@),
            0 <= n <= digits.len(),
            tok@.len() > 0,
            n == 0 ==> tok@[0] == '+',
            seen == (n > 0),
            chars.obeys_prophetic_iter_laws(),
            chars.remaining() == digits.skip(n),
            forall|i: int| 0 <= i < n ==> is_digit(#[trigger] digits[i]),
            value == number_value(digits.take(n)),
        decreases digits.len() - n,
    {
        match chars.next() {
            None => {
                assert(digits.take(n) == digits);
                return if seen {
                    Some(value)
                } else {
                    None
                };
            },
            Some(c) => {
                assert(digits.skip(n).drop_first() == digits.skip(n + 1));
                assert(c == digits[n]);
                if !(c >= '0' && c <= '9') {
                    return None;
                }
                let d = (c as u32 - '0' as u32) as usize;
                proof {
                    assert(digits.take(n + 1).drop_last() == digits.take(n));
                    assert(number_value(digits.take(n + 1)) == 10 * value + d);
                    lemma_number_value_grows(digits, n + 1);
                }
                let tens = match value.checked_mul(10) {
                    Some(t) => t,
                    None => {
                        return None;
                    },
                };
                value = match tens.checked_add(d) {
                    Some(v) => v,
                    None => {
                        return None;
                    },
                };
                seen = true;
                proof {
                    n = n + 1;
                }
            },
        }
    }
}

/// The text of one digit.
fn digit_str(d: usize) -> (r: &'static str)
    requires
        d < 10,
    ensures
        r@ == seq![digit_char(d as nat)],
{
    proof {
        reveal_strlit("0");
        reveal_strlit("1");
        reveal_strlit("2");
        reveal_strlit("3");
        reveal_strlit("4");
        reveal_strlit("5");
        reveal_strlit("6");
        reveal_strlit("7");
        reveal_strlit("8");
        reveal_strlit("9");
    }
    let r = if d == 0 {
        "0"
    } else if d == 1 {
        "1"
    } else if d == 2 {
        "2"
    } else if d == 3 {
        "3"
    } else if d == 4 {
        "4"
    } else if d == 5 {
        "5"
    } else if d == 6 {
        "6"
    } else if d == 7 {
        "7"
    } else if d == 8 {
        "8"
    } else {
        "9"
    };
    assert(r@ == seq![digit_char(d as nat)]);
    r
}

/// Appends the decimal digits of `n` to `out`.
pub fn push_decimal(out: &mut String, n: usize)
    ensures
        final(out)@ == old(out)@ + decimal(n as nat),
    decreases n,
{
    if n >= 10 {
        push_decimal(out, n / 10);
    }
    out.append(digit_str(n % 10));
}

} // verus!
