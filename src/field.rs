//! Elements of the scalar field of BLS12-381, held as four canonical 64-bit
//! limbs (least significant first). Arithmetic is carried out by pairing's
//! `Fr`; its contracts are stated over integers modulo the group order.
use pairing::bls12_381::{Fr, FrRepr};
use pairing::{Field, PrimeField};
use vstd::arithmetic::div_mod::*;
use vstd::prelude::*;

verus! {

/// The order of the scalar field,
/// 52435875175126190479447740508185965837690552500527637822603658699938581184513.
pub open spec fn field_modulus() -> int {
    limbs_value(0xffffffff00000001, 0x53bda402fffe5bfe, 0x3339d80809a1d805, 0x73eda753299d7d48)
}

pub open spec fn limb_base() -> int {
    0xffff_ffff_ffff_ffff as int + 1
}

/// The integer held by four little-endian 64-bit limbs.
pub open spec fn limbs_value(l0: u64, l1: u64, l2: u64, l3: u64) -> int {
    l0 as int + limb_base() * (l1 as int + limb_base() * (l2 as int + limb_base() * (l3 as int)))
}

/// Reduction into the canonical range `[0, field_modulus())`.
pub open spec fn fmod(x: int) -> int {
    x % field_modulus()
}

/// The multiplicative inverse of a nonzero residue.
pub open spec fn field_inv(a: int) -> int {
    choose|b: int| 0 <= b < field_modulus() && #[trigger] fmod(a * b) == 1
}

/// A scalar field element.
#[derive(Clone, Copy, Debug, PartialEq, Eq)]
pub struct Fe {
    pub l0: u64,
    pub l1: u64,
    pub l2: u64,
    pub l3: u64,
}

impl Fe {
    pub open spec fn val(self) -> int {
        limbs_value(self.l0, self.l1, self.l2, self.l3)
    }

    /// The limbs hold a canonical residue.
    pub open spec fn wf(self) -> bool {
        self.val() < field_modulus()
    }

    pub fn zero() -> (r: Fe)
        ensures
            r.wf(),
            r.val() == 0,
    {
        Fe { l0: 0, l1: 0, l2: 0, l3: 0 }
    }

    pub fn one() -> (r: Fe)
        ensures
            r.wf(),
            r.val() == 1,
    {
        Fe { l0: 1, l1: 0, l2: 0, l3: 0 }
    }

    pub fn from_u64(v: u64) -> (r: Fe)
        ensures
            r.wf(),
            r.val() == v,
    {
        Fe { l0: v, l1: 0, l2: 0, l3: 0 }
    }

    /// Builds an element from little-endian limbs; `None` when they do not
    /// hold a value below the field order.
    pub fn from_limbs(l0: u64, l1: u64, l2: u64, l3: u64) -> (r: Option<Fe>)
        ensures
            r is Some <==> limbs_value(l0, l1, l2, l3) < field_modulus(),
            r matches Some(f) ==> f.val() == limbs_value(l0, l1, l2, l3),
    {
        let m0: u64 = 0xffffffff00000001;
        let m1: u64 = 0x53bda402fffe5bfe;
        let m2: u64 = 0x3339d80809a1d805;
        let m3: u64 = 0x73eda753299d7d48;
        proof {
            assert(limbs_value(m0, m1, m2, m3) == field_modulus());
            lemma_limbs_lt(l0, l1, l2, l3, m0, m1, m2, m3);
        }
        let below = l3 < m3 || (l3 == m3 && (l2 < m2 || (l2 == m2 && (l1 < m1 || (l1 == m1
            && l0 < m0)))));
        if below {
            Some(Fe { l0, l1, l2, l3 })
        } else {
            None
        }
    }

    /// The limbs, least significant first.
    pub fn limbs(&self) -> (r: (u64, u64, u64, u64))
        ensures
            limbs_value(r.0, r.1, r.2, r.3) == self.val(),
    {
        (self.l0, self.l1, self.l2, self.l3)
    }

    /// The limbs hold a value below the field order.
    pub fn is_below_modulus(&self) -> (r: bool)
        ensures
            r == self.wf(),
    {
        Fe::from_limbs(self.l0, self.l1, self.l2, self.l3).is_some()
    }

    pub fn is_zero(&self) -> (r: bool)
        ensures
            r <==> self.val() == 0,
    {
        proof {
            lemma_limbs_zero(self.l0, self.l1, self.l2, self.l3);
        }
        self.l0 == 0 && self.l1 == 0 && self.l2 == 0 && self.l3 == 0
    }
}

proof fn lemma_limbs_zero(l0: u64, l1: u64, l2: u64, l3: u64)
    ensures
        limbs_value(l0, l1, l2, l3) == 0 <==> (l0 == 0 && l1 == 0 && l2 == 0 && l3 == 0),
{
    let b = limb_base();
    assert(0 <= b * (l3 as int)) by (nonlinear_arith)
        requires b > 0;
    assert(0 <= b * (l2 as int + b * (l3 as int))) by (nonlinear_arith)
        requires b > 0, 0 <= b * (l3 as int);
    assert(0 <= b * (l1 as int + b * (l2 as int + b * (l3 as int)))) by (nonlinear_arith)
        requires b > 0, 0 <= b * (l2 as int + b * (l3 as int));
    if l1 != 0 || l2 != 0 || l3 != 0 {
        assert(b * (l3 as int) >= b * (l3 as int)) by (nonlinear_arith);
        assert(l1 as int + b * (l2 as int + b * (l3 as int)) > 0);
        assert(b * (l1 as int + b * (l2 as int + b * (l3 as int))) > 0) by (nonlinear_arith)
            requires b > 0, l1 as int + b * (l2 as int + b * (l3 as int)) > 0;
    }
}

/// Little-endian limb vectors compare as their most significant differing limb.
proof fn lemma_limbs_lt(l0: u64, l1: u64, l2: u64, l3: u64, m0: u64, m1: u64, m2: u64, m3: u64)
    ensures
        limbs_value(l0, l1, l2, l3) < limbs_value(m0, m1, m2, m3) <==> (l3 < m3 || (l3 == m3 && (
        l2 < m2 || (l2 == m2 && (l1 < m1 || (l1 == m1 && l0 < m0)))))),
{
    let b = limb_base();
    lemma_two_limbs(l2 as int, b * (l3 as int), m2 as int, b * (m3 as int), l3 as int, m3 as int);
    let x2 = l2 as int + b * (l3 as int);
    let y2 = m2 as int + b * (m3 as int);
    lemma_two_limbs(l1 as int, b * x2, m1 as int, b * y2, x2, y2);
    let x1 = l1 as int + b * x2;
    let y1 = m1 as int + b * y2;
    lemma_two_limbs(l0 as int, b * x1, m0 as int, b * y1, x1, y1);
}

proof fn lemma_two_limbs(lo: int, hi: int, lo2: int, hi2: int, h: int, h2: int)
    requires
        0 <= lo < limb_base(),
        0 <= lo2 < limb_base(),
        hi == limb_base() * h,
        hi2 == limb_base() * h2,
    ensures
        lo + hi < lo2 + hi2 <==> (h < h2 || (h == h2 && lo < lo2)),
{
    let b = limb_base();
    if h < h2 {
        assert(b * h + b <= b * h2) by (nonlinear_arith)
            requires h < h2, b > 0;
    } else if h > h2 {
        assert(b * h2 + b <= b * h) by (nonlinear_arith)
            requires h > h2, b > 0;
    }
}

/// Relies on pairing's `Fr::add_assign`: addition modulo the field order.
#[verifier::external_body]
pub(crate) fn fr_add(a: &Fe, b: &Fe) -> (r: Fe)
    requires
        a.wf(),
        b.wf(),
    ensures
        r.wf(),
        r.val() == fmod(a.val() + b.val()),
{
    let mut x = Fr::from_repr(FrRepr([a.l0, a.l1, a.l2, a.l3])).unwrap();
    x.add_assign(&Fr::from_repr(FrRepr([b.l0, b.l1, b.l2, b.l3])).unwrap());
    let l = x.into_repr().0;
    Fe { l0: l[0], l1: l[1], l2: l[2], l3: l[3] }
}

/// Relies on pairing's `Fr::mul_assign`: multiplication modulo the field order.
#[verifier::external_body]
pub(crate) fn fr_mul(a: &Fe, b: &Fe) -> (r: Fe)
    requires
        a.wf(),
        b.wf(),
    ensures
        r.wf(),
        r.val() == fmod(a.val() * b.val()),
{
    let mut x = Fr::from_repr(FrRepr([a.l0, a.l1, a.l2, a.l3])).unwrap();
    x.mul_assign(&Fr::from_repr(FrRepr([b.l0, b.l1, b.l2, b.l3])).unwrap());
    let l = x.into_repr().0;
    Fe { l0: l[0], l1: l[1], l2: l[2], l3: l[3] }
}

/// Relies on pairing's `Fr::negate`: the additive inverse modulo the field order.
#[verifier::external_body]
pub(crate) fn fr_neg(a: &Fe) -> (r: Fe)
    requires
        a.wf(),
    ensures
        r.wf(),
        r.val() == fmod(-a.val()),
{
    let mut x = Fr::from_repr(FrRepr([a.l0, a.l1, a.l2, a.l3])).unwrap();
    x.negate();
    let l = x.into_repr().0;
    Fe { l0: l[0], l1: l[1], l2: l[2], l3: l[3] }
}

/// Relies on pairing's `Fr::inverse`: `None` exactly for zero, else the
/// multiplicative inverse modulo the (prime) field order.
#[verifier::external_body]
pub(crate) fn fr_inverse(a: &Fe) -> (r: Option<Fe>)
    requires
        a.wf(),
    ensures
        r is None <==> a.val() == 0,
        r matches Some(x) ==> x.wf() && fmod(a.val() * x.val()) == 1 && x.val() == field_inv(
            a.val(),
        ),
{
    let x = Fr::from_repr(FrRepr([a.l0, a.l1, a.l2, a.l3])).unwrap();
    x.inverse().map(|y| {
        let l = y.into_repr().0;
        Fe { l0: l[0], l1: l[1], l2: l[2], l3: l[3] }
    })
}

} // verus!

verus! {

/// Limbs whose top limb stays below the modulus's top limb hold a canonical residue.
pub proof fn lemma_top_limb_below(l0: u64, l1: u64, l2: u64, l3: u64)
    requires
        l3 < 0x73eda753299d7d48,
    ensures
        limbs_value(l0, l1, l2, l3) < field_modulus(),
{
    lemma_limbs_lt(
        l0,
        l1,
        l2,
        l3,
        0xffffffff00000001,
        0x53bda402fffe5bfe,
        0x3339d80809a1d805,
        0x73eda753299d7d48,
    );
}

} // verus!

verus! {

/// A canonical residue is its own reduction.
pub proof fn lemma_mod_of_canonical(v: int)
    requires
        0 <= v < field_modulus(),
    ensures
        fmod(v) == v,
{
    lemma_small_mod(v as nat, field_modulus() as nat);
}

} // verus!
