use vstd::prelude::*;

use crate::lbool::{lbool_code, lbool_of_code, LBool};
use crate::var::{int_order, Var};
use vstd::std_specs::cmp::PartialOrdSpec;

verus! {

/// The largest variable identifier that a packed literal can hold.
pub const MAX_VAR_ID: i32 = 0x3FFF_FFFF;

/// A literal: a variable with a polarity, packed into one integer as
/// `(var << 1) | sign`. A set sign bit means the literal is negative.
#[derive(Clone, Copy, Debug)]
pub struct Lit {
    pub value: i32,
}

/// The packed value of the literal of variable `v` with sign `s`.
pub open spec fn pack(v: i32, s: bool) -> i32 {
    (v << 1) | (if s { 1i32 } else { 0i32 })
}

pub open spec fn lit_sign(l: Lit) -> bool {
    l.value & 1 == 1
}

pub open spec fn lit_var(l: Lit) -> i32 {
    l.value >> 1
}

/// The literal with the opposite sign bit.
pub open spec fn lit_neg(l: Lit) -> Lit {
    Lit { value: l.value ^ 1 }
}

/// The truth value of `l` under `assigns`: the variable's code, exclusive-ored
/// with the sign bit.
pub open spec fn lit_truth(l: Lit, assigns: Seq<LBool>) -> LBool {
    lbool_of_code(lbool_code(assigns[lit_var(l) as int]) ^ (if lit_sign(l) { 1i32 } else { 0i32 }))
}

/// `l` names a variable that `assigns` holds.
pub open spec fn lit_in_range(l: Lit, n: int) -> bool {
    0 <= lit_var(l) < n
}

impl Lit {
    pub fn new(var: Var, sign: bool) -> (r: Lit)
        requires
            0 <= var.id <= MAX_VAR_ID,
        ensures
            r.value == pack(var.id, sign),
            r.value == 2 * var.id + (if sign { 1int } else { 0int }),
            lit_var(r) == var.id,
            lit_sign(r) == sign,
    {
        let s: i32 = if sign { 1 } else { 0 };
        let id = var.id;
        assert(((id << 1) | s) == 2 * id + s && ((id << 1) | s) >> 1 == id && ((((id << 1) | s) & 1)
            == 1) == (s == 1)) by (bit_vector)
            requires
                0 <= id <= 0x3FFF_FFFF,
                0 <= s <= 1,
        ;
        let value = (var.id << 1) | s;
        Lit { value }
    }

    pub fn sign(&self) -> (r: bool)
        ensures
            r == lit_sign(*self),
    {
        self.value & 1 == 1
    }

    pub fn var(&self) -> (r: Var)
        ensures
            r.id == lit_var(*self),
    {
        Var::from(self.value >> 1)
    }

    /// The truth value of this literal under `values`, indexed by variable.
    pub fn value(&self, values: &Vec<LBool>) -> (r: LBool)
        requires
            lit_in_range(*self, values@.len() as int),
        ensures
            r == lit_truth(*self, values@),
    {
        let value = self.var().value(values);
        let s: i32 = if self.sign() { 1 } else { 0 };
        LBool::from(value.code() ^ s)
    }
}

impl From<i32> for Lit {
    fn from(value: i32) -> (r: Lit)
        ensures
            r.value == value,
    {
        Lit { value }
    }
}

impl vstd::std_specs::convert::FromSpecImpl<i32> for Lit {
    open spec fn obeys_from_spec() -> bool {
        true
    }

    open spec fn from_spec(v: i32) -> Lit {
        Lit { value: v }
    }
}

impl Default for Lit {
    fn default() -> (r: Lit)
        ensures
            r.value == 0,
    {
        Lit { value: 0 }
    }
}

impl PartialEq for Lit {
    fn eq(&self, other: &Lit) -> (r: bool)
        ensures
            r == (self.value == other.value),
    {
        self.value == other.value
    }
}

impl vstd::std_specs::cmp::PartialEqSpecImpl for Lit {
    open spec fn obeys_eq_spec() -> bool {
        true
    }

    open spec fn eq_spec(&self, other: &Lit) -> bool {
        self.value == other.value
    }
}

impl PartialOrd for Lit {
    fn partial_cmp(&self, other: &Lit) -> (r: Option<core::cmp::Ordering>)
        ensures
            r == int_order(self.value as int, other.value as int),
    {
        if self.value < other.value {
            Some(core::cmp::Ordering::Less)
        } else if self.value > other.value {
            Some(core::cmp::Ordering::Greater)
        } else {
            Some(core::cmp::Ordering::Equal)
        }
    }
}

impl vstd::std_specs::cmp::PartialOrdSpecImpl for Lit {
    open spec fn obeys_partial_cmp_spec() -> bool {
        true
    }

    open spec fn partial_cmp_spec(&self, other: &Lit) -> Option<core::cmp::Ordering> {
        int_order(self.value as int, other.value as int)
    }
}

impl core::ops::Not for Lit {
    type Output = Lit;

    /// Inverts the sign bit.
    fn not(self) -> (r: Lit)
        ensures
            r == lit_neg(self),
    {
        Lit { value: self.value ^ 1 }
    }
}

impl vstd::std_specs::ops::NotSpecImpl for Lit {
    open spec fn obeys_not_spec() -> bool {
        true
    }

    open spec fn not_req(self) -> bool {
        true
    }

    open spec fn not_spec(self) -> Lit {
        lit_neg(self)
    }
}

impl core::ops::BitXor<bool> for Lit {
    type Output = Lit;

    /// Flips the sign bit where `b` is true.
    fn bitxor(self, b: bool) -> (r: Lit)
        ensures
            r == (if b { lit_neg(self) } else { self }),
    {
        let bit: i32 = if b { 1 } else { 0 };
        let v = self.value;
        assert(v ^ 0 == v) by (bit_vector);
        Lit { value: self.value ^ bit }
    }
}

impl vstd::std_specs::ops::BitXorSpecImpl<bool> for Lit {
    open spec fn obeys_bitxor_spec() -> bool {
        true
    }

    open spec fn bitxor_req(self, b: bool) -> bool {
        true
    }

    open spec fn bitxor_spec(self, b: bool) -> Lit {
        if b {
            lit_neg(self)
        } else {
            self
        }
    }
}

/// A literal built from a variable and a sign gives back that sign and that
/// variable; negating twice gives back the literal; the default literal is
/// the positive literal of variable 0.
pub proof fn lemma_lit_round_trip(v: i32, s: bool, l: Lit)
    requires
        0 <= v <= MAX_VAR_ID,
    ensures
        lit_sign(Lit { value: pack(v, s) }) == s,
        lit_var(Lit { value: pack(v, s) }) == v,
        lit_neg(lit_neg(l)) == l,
        !lit_sign(Lit { value: 0 }),
        lit_var(Lit { value: 0 }) == 0,
{
    let b: i32 = if s { 1 } else { 0 };
    assert((((v << 1) | b) & 1 == 1) == (b == 1) && ((v << 1) | b) >> 1 == v) by (bit_vector)
        requires
            0 <= v <= 0x3FFF_FFFF,
            0 <= b <= 1,
    ;
    let x = l.value;
    assert((x ^ 1) ^ 1 == x) by (bit_vector);
    assert((0i32 & 1) == 0 && (0i32 >> 1) == 0) by (bit_vector);
}

/// Literals compare by their packed values: two literals are equal exactly
/// when they have the same variable and sign, and the packed order is the
/// order by variable, then by sign (positive first).
pub proof fn lemma_lit_order(v1: i32, s1: bool, v2: i32, s2: bool)
    requires
        0 <= v1 <= MAX_VAR_ID,
        0 <= v2 <= MAX_VAR_ID,
    ensures
        (pack(v1, s1) == pack(v2, s2)) == (v1 == v2 && s1 == s2),
        (pack(v1, s1) < pack(v2, s2)) == (v1 < v2 || (v1 == v2 && !s1 && s2)),
        (Lit { value: pack(v1, s1) }).partial_cmp_spec(&Lit { value: pack(v2, s2) })
            == int_order(pack(v1, s1) as int, pack(v2, s2) as int),
{
    let b1: i32 = if s1 { 1 } else { 0 };
    let b2: i32 = if s2 { 1 } else { 0 };
    assert(((v1 << 1) | b1) == 2 * v1 + b1) by (bit_vector)
        requires
            0 <= v1 <= 0x3FFF_FFFF,
            0 <= b1 <= 1,
    ;
    assert(((v2 << 1) | b2) == 2 * v2 + b2) by (bit_vector)
        requires
            0 <= v2 <= 0x3FFF_FFFF,
            0 <= b2 <= 1,
    ;
}

} // verus!
