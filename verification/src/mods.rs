//! The modifier set: a fixed-width bit set over `CTRL`, `SHIFT`, `ALT`,
//! `SUPER` and the side flag `RIGHT`.

use crate::text::str_eq;
use vstd::prelude::*;
use vstd::std_specs::ops::BitOrSpecImpl;

verus! {

/// Bit of the control modifier.
pub const CTRL: u16 = 0x1;

/// Bit of the shift modifier.
pub const SHIFT: u16 = 0x2;

/// Bit of the alt modifier.
pub const ALT: u16 = 0x4;

/// Bit of the super modifier.
pub const SUPER: u16 = 0x8;

/// Bit of the side flag. It is no modifier of its own: it says that the
/// modifier it comes with is the right-hand one.
pub const RIGHT: u16 = 0x10;

/// The four modifier bits, without the side flag.
pub const PHYSICAL: u16 = 0xf;

/// All five named bits.
pub const ALL: u16 = 0x1f;

/// Whether a bit pattern holds named bits only.
pub open spec fn is_named(bits: u16) -> bool {
    bits & !ALL == 0
}

/// The bits that a modifier name stands for: one modifier bit, and the side
/// flag with it for a right-hand name. No other text is a modifier name.
pub open spec fn mod_bits(name: Seq<char>) -> Option<u16> {
    if name == "LEFT_CTRL"@ {
        Some(CTRL)
    } else if name == "LEFT_SHIFT"@ {
        Some(SHIFT)
    } else if name == "LEFT_ALT"@ {
        Some(ALT)
    } else if name == "LEFT_SUPER"@ {
        Some(SUPER)
    } else if name == "RIGHT_CTRL"@ {
        Some(RIGHT | CTRL)
    } else if name == "RIGHT_SHIFT"@ {
        Some(RIGHT | SHIFT)
    } else if name == "RIGHT_ALT"@ {
        Some(RIGHT | ALT)
    } else if name == "RIGHT_SUPER"@ {
        Some(RIGHT | SUPER)
    } else {
        None
    }
}

/// A set of modifiers. Its view is the bit pattern, which holds named bits
/// only.
#[derive(Clone, Copy, Debug, PartialEq, Eq, Structural, Hash)]
pub struct Mods(u16);

impl View for Mods {
    type V = u16;

    closed spec fn view(&self) -> u16 {
        self.0
    }
}

impl DeepView for Mods {
    type V = u16;

    open spec fn deep_view(&self) -> u16 {
        self@
    }
}

impl Mods {
    #[verifier::type_invariant]
    spec fn named_bits_only(self) -> bool {
        self.0 <= ALL
    }

    /// The set that holds both sets' bits.
    pub closed spec fn spec_union(self, other: Mods) -> Mods {
        Mods(self.0 | other.0)
    }

    /// The set without any bit.
    pub fn empty() -> (r: Mods)
        ensures
            r@ == 0,
    {
        Mods(0)
    }

    /// The control modifier alone.
    pub fn ctrl() -> (r: Mods)
        ensures
            r@ == CTRL,
    {
        Mods(CTRL)
    }

    /// The shift modifier alone.
    pub fn shift() -> (r: Mods)
        ensures
            r@ == SHIFT,
    {
        Mods(SHIFT)
    }

    /// The alt modifier alone.
    pub fn alt() -> (r: Mods)
        ensures
            r@ == ALT,
    {
        Mods(ALT)
    }

    /// The super modifier alone.
    pub fn super_key() -> (r: Mods)
        ensures
            r@ == SUPER,
    {
        Mods(SUPER)
    }

    /// The side flag alone.
    pub fn right() -> (r: Mods)
        ensures
            r@ == RIGHT,
    {
        Mods(RIGHT)
    }

    /// The bit pattern.
    pub fn bits(&self) -> (r: u16)
        ensures
            r == self@,
            is_named(r),
    {
        proof {
            use_type_invariant(self);
            lemma_named_is_at_most_all(self.0);
        }
        self.0
    }

    /// The set with the given bit pattern, unless the pattern holds a bit
    /// that has no name.
    pub fn from_bits(bits: u16) -> (r: Option<Mods>)
        ensures
            r.deep_view() == (if is_named(bits) {
                Some(bits)
            } else {
                None
            }),
    {
        proof {
            lemma_named_is_at_most_all(bits);
        }
        if bits & !ALL == 0 {
            Some(Mods(bits))
        } else {
            None
        }
    }

    /// Whether no bit is set.
    pub fn is_empty(&self) -> (r: bool)
        ensures
            r == (self@ == 0),
    {
        self.0 == 0
    }

    /// Whether every bit of `other` is set in `self`.
    pub fn contains(&self, other: Mods) -> (r: bool)
        ensures
            r == (self@ & other@ == other@),
    {
        self.0 & other.0 == other.0
    }

    /// The set that holds the bits of both.
    #[verifier::when_used_as_spec(spec_union)]
    pub fn union(self, other: Mods) -> (r: Mods)
        ensures
            r == self.spec_union(other),
            r@ == self@ | other@,
    {
        proof {
            use_type_invariant(self);
            use_type_invariant(other);
            lemma_union_stays_named(self.0, other.0);
        }
        Mods(self.0 | other.0)
    }

    /// Sets every bit of `other` in `self`.
    pub fn insert(&mut self, other: Mods)
        ensures
            *final(self) == old(self).spec_union(other),
            final(self)@ == old(self)@ | other@,
    {
        *self = self.union(other);
    }

    /// The one modifier that a canonical name stands for: `LEFT_CTRL`,
    /// `LEFT_SHIFT`, `LEFT_ALT`, `LEFT_SUPER`, and the same four with `RIGHT_`,
    /// which carry the side flag as well. Any other text gives `None`.
    pub fn from_mod_str(s: &str) -> (r: Option<Mods>)
        ensures
            r.deep_view() == mod_bits(s@),
    {
        if str_eq(s, "LEFT_CTRL") {
            Some(Mods(CTRL))
        } else if str_eq(s, "LEFT_SHIFT") {
            Some(Mods(SHIFT))
        } else if str_eq(s, "LEFT_ALT") {
            Some(Mods(ALT))
        } else if str_eq(s, "LEFT_SUPER") {
            Some(Mods(SUPER))
        } else if str_eq(s, "RIGHT_CTRL") {
            assert(RIGHT | CTRL == 0x11) by (bit_vector);
            Some(Mods(RIGHT | CTRL))
        } else if str_eq(s, "RIGHT_SHIFT") {
            assert(RIGHT | SHIFT == 0x12) by (bit_vector);
            Some(Mods(RIGHT | SHIFT))
        } else if str_eq(s, "RIGHT_ALT") {
            assert(RIGHT | ALT == 0x14) by (bit_vector);
            Some(Mods(RIGHT | ALT))
        } else if str_eq(s, "RIGHT_SUPER") {
            assert(RIGHT | SUPER == 0x18) by (bit_vector);
            Some(Mods(RIGHT | SUPER))
        } else {
            None
        }
    }
}

impl core::ops::BitOr for Mods {
    type Output = Mods;

    /// The union, written `a | b`.
    fn bitor(self, other: Mods) -> (r: Mods)
        ensures
            r@ == self@ | other@,
    {
        self.union(other)
    }
}

impl core::ops::BitOrAssign for Mods {
    /// Sets every bit of `other` in `self`, written `a |= b`.
    fn bitor_assign(&mut self, other: Mods)
        ensures
            final(self)@ == old(self)@ | other@,
    {
        self.insert(other);
    }
}

impl BitOrSpecImpl for Mods {
    open spec fn obeys_bitor_spec() -> bool {
        true
    }

    open spec fn bitor_req(self, other: Mods) -> bool {
        true
    }

    open spec fn bitor_spec(self, other: Mods) -> Mods {
        self.spec_union(other)
    }
}

/// The patterns of named bits are the numbers up to `ALL`.
proof fn lemma_named_is_at_most_all(bits: u16)
    ensures
        is_named(bits) <==> bits <= ALL,
{
    assert(bits & !0x1fu16 == 0 <==> bits <= 0x1f) by (bit_vector);
}

/// The union of two patterns of named bits holds named bits only.
proof fn lemma_union_stays_named(a: u16, b: u16)
    requires
        a <= ALL,
        b <= ALL,
    ensures
        a | b <= ALL,
{
    assert(a <= 0x1f && b <= 0x1f ==> a | b <= 0x1f) by (bit_vector);
}

/// Two sets are the same set exactly when their bit patterns are equal.
pub proof fn lemma_same_bits_same_set(a: Mods, b: Mods)
    ensures
        a@ == b@ <==> a == b,
{
}

/// The view of a union is the bitwise or of the views.
pub proof fn lemma_union_bits(a: Mods, b: Mods)
    ensures
        a.spec_union(b)@ == a@ | b@,
{
}

/// Union is idempotent: a set united with itself is that set.
pub proof fn lemma_union_idempotent(m: Mods)
    ensures
        m.spec_union(m) == m,
        m@ | m@ == m@,
{
    let b = m.0;
    assert(b | b == b) by (bit_vector);
}

/// Union does not depend on the order of its operands, nor on how three
/// operands are grouped, and the empty pattern changes nothing.
pub proof fn lemma_union_laws(a: Mods, b: Mods, c: Mods)
    ensures
        a.spec_union(b) == b.spec_union(a),
        a.spec_union(b).spec_union(c) == a.spec_union(b.spec_union(c)),
        a@ | 0 == a@,
{
    let x = a.0;
    let y = b.0;
    let z = c.0;
    assert(x | y == y | x) by (bit_vector);
    assert((x | y) | z == x | (y | z)) by (bit_vector);
    assert(x | 0 == x) by (bit_vector);
}

/// A union contains both of its operands, and whatever contains both
/// operands contains the union.
pub proof fn lemma_union_is_least_upper_bound(a: u16, b: u16, c: u16)
    ensures
        (a | b) & a == a,
        (a | b) & b == b,
        c & a == a && c & b == b ==> c & (a | b) == (a | b),
{
    assert((a | b) & a == a) by (bit_vector);
    assert((a | b) & b == b) by (bit_vector);
    assert(c & a == a && c & b == b ==> c & (a | b) == (a | b)) by (bit_vector);
}

/// Every modifier name stands for exactly one of the four modifier bits, with
/// or without the side flag, and for no unnamed bit.
pub proof fn lemma_mod_bits_one_modifier(name: Seq<char>)
    ensures
        mod_bits(name) matches Some(bits) ==> {
            &&& is_named(bits)
            &&& (bits & PHYSICAL == CTRL || bits & PHYSICAL == SHIFT || bits & PHYSICAL == ALT
                || bits & PHYSICAL == SUPER)
        },
{
    if let Some(bits) = mod_bits(name) {
        assert({
            &&& bits & !0x1fu16 == 0
            &&& (bits & 0xf == 0x1 || bits & 0xf == 0x2 || bits & 0xf == 0x4 || bits & 0xf == 0x8)
        }) by (bit_vector)
            requires
                bits == 0x1 || bits == 0x2 || bits == 0x4 || bits == 0x8 || bits == 0x10 | 0x1
                    || bits == 0x10 | 0x2 || bits == 0x10 | 0x4 || bits == 0x10 | 0x8,
        ;
    }
}

} // verus!
