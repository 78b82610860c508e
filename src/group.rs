//! Points of the BLS12-381 group G1, held as their 96-byte uncompressed
//! encodings, and multiexponentiation over them. Group arithmetic is carried
//! out by pairing; its results are named below.
use crate::field::Fe;
use crate::poly::vals;
use pairing::bls12_381::{Fr, FrRepr, G1Affine, G1Uncompressed};
use pairing::{CurveAffine, CurveProjective, EncodedPoint, PrimeField};
use vstd::prelude::*;

verus! {

/// `b` is the uncompressed encoding of a point of the prime-order subgroup.
pub uninterp spec fn g1_valid(b: Seq<u8>) -> bool;

/// The encoding of the sum of the points encoded by `a` and `b`.
pub uninterp spec fn g1_sum(a: Seq<u8>, b: Seq<u8>) -> Seq<u8>;

/// The encoding of the point encoded by `p` multiplied by the scalar `s`.
pub uninterp spec fn g1_scaled(p: Seq<u8>, s: int) -> Seq<u8>;

/// The uncompressed encoding of the group identity (the point at infinity).
pub open spec fn identity_encoding() -> Seq<u8> {
    Seq::new(96, |i: int| if i == 0 { 0x40u8 } else { 0u8 })
}

/// A point of G1 by its uncompressed encoding.
#[derive(Clone, Debug, PartialEq, Eq)]
pub struct G1 {
    pub bytes: Vec<u8>,
}

impl G1 {
    pub open spec fn view(&self) -> Seq<u8> {
        self.bytes@
    }

    /// The bytes encode a point of the subgroup.
    pub open spec fn wf(&self) -> bool {
        self.bytes@.len() == 96 && g1_valid(self.bytes@)
    }

    /// Accepts an uncompressed encoding of a subgroup point.
    pub fn from_uncompressed(bytes: Vec<u8>) -> (r: Option<G1>)
        ensures
            r is Some <==> bytes@.len() == 96 && g1_valid(bytes@),
            r matches Some(g) ==> g.bytes@ == bytes@,
    {
        if bytes.len() != 96 {
            return None;
        }
        if check_encoding(&bytes) {
            Some(G1 { bytes })
        } else {
            None
        }
    }

    pub fn identity() -> (r: G1)
        ensures
            r.wf(),
            r.bytes@ == identity_encoding(),
    {
        g1_identity()
    }
}

/// The encodings of a sequence of points.
pub open spec fn encodings(s: Seq<G1>) -> Seq<Seq<u8>> {
    s.map_values(|g: G1| g.bytes@)
}

pub open spec fn all_points_wf(s: Seq<G1>) -> bool {
    forall|i: int| 0 <= i < s.len() ==> (#[trigger] s[i]).wf()
}

/// `acc + scalars[0] * points[0] + ... `, added in index order.
pub open spec fn msm_from(acc: Seq<u8>, points: Seq<Seq<u8>>, scalars: Seq<int>) -> Seq<u8>
    decreases points.len(),
{
    if points.len() == 0 || scalars.len() == 0 {
        acc
    } else {
        g1_sum(
            msm_from(acc, points.drop_last(), scalars.drop_last()),
            g1_scaled(points.last(), scalars.last()),
        )
    }
}

/// The sum of each point multiplied by its scalar.
pub open spec fn msm(points: Seq<Seq<u8>>, scalars: Seq<int>) -> Seq<u8> {
    msm_from(identity_encoding(), points, scalars)
}

/// Relies on pairing's `G1Uncompressed::into_affine`: it accepts exactly the
/// encodings of subgroup points.
#[verifier::external_body]
fn check_encoding(b: &Vec<u8>) -> (r: bool)
    requires
        b@.len() == 96,
    ensures
        r == g1_valid(b@),
{
    let mut e = G1Uncompressed::empty();
    e.as_mut().copy_from_slice(b);
    e.into_affine().is_ok()
}

/// Relies on pairing's `G1Affine::zero`: the identity, encoded with only the
/// infinity flag set.
#[verifier::external_body]
fn g1_identity() -> (r: G1)
    ensures
        r.wf(),
        r.bytes@ == identity_encoding(),
{
    G1 { bytes: G1Affine::zero().into_uncompressed().as_ref().to_vec() }
}

/// Relies on pairing's `G1::add_assign`: the group sum of two subgroup points.
#[verifier::external_body]
fn g1_add(a: &G1, b: &G1) -> (r: G1)
    requires
        a.wf(),
        b.wf(),
    ensures
        r.wf(),
        r.bytes@ == g1_sum(a.bytes@, b.bytes@),
{
    let (mut ea, mut eb) = (G1Uncompressed::empty(), G1Uncompressed::empty());
    ea.as_mut().copy_from_slice(&a.bytes);
    eb.as_mut().copy_from_slice(&b.bytes);
    let mut x = ea.into_affine_unchecked().unwrap().into_projective();
    x.add_assign(&eb.into_affine_unchecked().unwrap().into_projective());
    G1 { bytes: x.into_affine().into_uncompressed().as_ref().to_vec() }
}

/// Relies on pairing's `G1Affine::mul`: scalar multiplication of a subgroup point.
#[verifier::external_body]
fn g1_mul(p: &G1, s: &Fe) -> (r: G1)
    requires
        p.wf(),
        s.wf(),
    ensures
        r.wf(),
        r.bytes@ == g1_scaled(p.bytes@, s.val()),
{
    let mut e = G1Uncompressed::empty();
    e.as_mut().copy_from_slice(&p.bytes);
    let k = Fr::from_repr(FrRepr([s.l0, s.l1, s.l2, s.l3])).unwrap();
    let x = e.into_affine_unchecked().unwrap().mul(k);
    G1 { bytes: x.into_affine().into_uncompressed().as_ref().to_vec() }
}

/// Adds to `acc` the points `table[start..start + scalars.len()]`, each
/// multiplied by the scalar at the same position.
pub fn multiexp_into(acc: G1, table: &Vec<G1>, start: usize, scalars: &Vec<Fe>) -> (r: G1)
    requires
        acc.wf(),
        all_points_wf(table@),
        crate::poly::all_wf(scalars@),
        start + scalars.len() <= table.len(),
    ensures
        r.wf(),
        r.bytes@ == msm_from(
            acc.bytes@,
            encodings(table@).subrange(start as int, start + scalars.len()),
            vals(scalars@),
        ),
{
    let ghost acc0 = acc.bytes@;
    let ghost pts = encodings(table@).subrange(start as int, start + scalars.len());
    let mut acc = acc;
    let mut j: usize = 0;
    proof {
        assert(pts.take(0).len() == 0);
    }
    while j < scalars.len()
        invariant
            j <= scalars.len(),
            start + scalars.len() <= table.len(),
            all_points_wf(table@),
            crate::poly::all_wf(scalars@),
            pts == encodings(table@).subrange(start as int, start + scalars.len()),
            acc.wf(),
            acc.bytes@ == msm_from(acc0, pts.take(j as int), vals(scalars@).take(j as int)),
        decreases scalars.len() - j,
    {
        let term = g1_mul(&table[start + j], &scalars[j]);
        acc = g1_add(&acc, &term);
        proof {
            let p1 = pts.take(j + 1);
            let s1 = vals(scalars@).take(j + 1);
            assert(p1.drop_last() =~= pts.take(j as int));
            assert(s1.drop_last() =~= vals(scalars@).take(j as int));
            assert(p1.last() == table@[start + j].bytes@);
        }
        j = j + 1;
    }
    proof {
        assert(pts.take(scalars.len() as int) =~= pts);
        assert(vals(scalars@).take(scalars.len() as int) =~= vals(scalars@));
    }
    acc
}

/// The sum of each point multiplied by its scalar; the identity when both
/// are empty.
pub fn multiexp(points: &Vec<G1>, scalars: &Vec<Fe>) -> (r: G1)
    requires
        all_points_wf(points@),
        crate::poly::all_wf(scalars@),
        points.len() == scalars.len(),
    ensures
        r.wf(),
        r.bytes@ == msm(encodings(points@), vals(scalars@)),
{
    proof {
        assert(encodings(points@).subrange(0, scalars.len() as int) =~= encodings(points@));
    }
    multiexp_into(G1::identity(), points, 0, scalars)
}

/// Multiexponentiation over a concatenation is the multiexponentiation over
/// the second part started from that of the first.
pub proof fn lemma_msm_concat(
    acc: Seq<u8>,
    p1: Seq<Seq<u8>>,
    s1: Seq<int>,
    p2: Seq<Seq<u8>>,
    s2: Seq<int>,
)
    requires
        p1.len() == s1.len(),
        p2.len() == s2.len(),
    ensures
        msm_from(acc, p1 + p2, s1 + s2) == msm_from(msm_from(acc, p1, s1), p2, s2),
    decreases p2.len(),
{
    if p2.len() == 0 {
        assert(p1 + p2 =~= p1);
        assert(s1 + s2 =~= s1);
    } else {
        lemma_msm_concat(acc, p1, s1, p2.drop_last(), s2.drop_last());
        assert((p1 + p2).drop_last() =~= p1 + p2.drop_last());
        assert((s1 + s2).drop_last() =~= s1 + s2.drop_last());
    }
}

} // verus!
