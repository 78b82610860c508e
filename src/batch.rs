//! The random linear combination that batches many Laurent polynomials (and
//! their claimed values) into one.
use crate::field::{Fe, fmod};
use crate::poly::{all_wf, vals};
use vstd::arithmetic::div_mod::*;
use vstd::prelude::*;

verus! {

/// Coefficient `j` of `s`, zero past its end.
pub open spec fn coeff_at(s: Seq<int>, j: int) -> int {
    if 0 <= j < s.len() {
        s[j]
    } else {
        0
    }
}

/// `sum_i rs[i] * ps[i][j]`.
pub open spec fn batched(ps: Seq<Seq<int>>, rs: Seq<int>, j: int) -> int
    decreases ps.len(),
{
    if ps.len() == 0 || rs.len() == 0 {
        0
    } else {
        batched(ps.drop_last(), rs.drop_last(), j) + rs.last() * coeff_at(ps.last(), j)
    }
}

/// `sum_i rs[i] * vs[i]`.
pub open spec fn batched_value(vs: Seq<int>, rs: Seq<int>) -> int
    decreases vs.len(),
{
    if vs.len() == 0 || rs.len() == 0 {
        0
    } else {
        batched_value(vs.drop_last(), rs.drop_last()) + rs.last() * vs.last()
    }
}

/// The accumulator of length `len` holding the batched coefficients.
pub open spec fn batched_coeffs(ps: Seq<Seq<int>>, rs: Seq<int>, len: nat) -> Seq<int> {
    Seq::new(len, |j: int| fmod(batched(ps, rs, j)))
}

/// Adds `r` times `poly` into `acc`, coefficient by coefficient, as far as
/// both reach.
pub fn add_scaled(acc: &mut Vec<Fe>, poly: &Vec<Fe>, r: &Fe)
    requires
        all_wf(old(acc)@),
        all_wf(poly@),
        r.wf(),
    ensures
        final(acc).len() == old(acc).len(),
        all_wf(final(acc)@),
        forall|j: int|
            0 <= j < final(acc).len() ==> (#[trigger] final(acc)@[j]).val() == fmod(
                old(acc)@[j].val() + r.val() * coeff_at(vals(poly@), j),
            ),
{
    let ghost a0 = acc@;
    let mut j: usize = 0;
    while j < acc.len()
        invariant
            j <= acc.len(),
            acc.len() == a0.len(),
            all_wf(a0),
            all_wf(acc@),
            all_wf(poly@),
            r.wf(),
            forall|i: int|
                0 <= i < j ==> (#[trigger] acc@[i]).val() == fmod(
                    a0[i].val() + r.val() * coeff_at(vals(poly@), i),
                ),
            forall|i: int| j <= i < acc.len() ==> (#[trigger] acc@[i]) == a0[i],
        decreases acc.len() - j,
    {
        let ghost p = crate::field::field_modulus();
        if j < poly.len() {
            let t = crate::field::fr_mul(r, &poly[j]);
            let cur = acc[j];
            let nv = crate::field::fr_add(&cur, &t);
            proof {
                lemma_add_mod_noop(cur.val(), r.val() * poly@[j as int].val(), p);
                lemma_mod_twice(r.val() * poly@[j as int].val(), p);
                lemma_small_mod(cur.val() as nat, p as nat);
            }
            acc.set(j, nv);
        } else {
            proof {
                lemma_small_mod(acc@[j as int].val() as nat, p as nat);
            }
        }
        j = j + 1;
    }
}

/// Batches `polys` with the weights `rs` into an accumulator of length
/// `len`, and the claimed `values` likewise.
pub fn batch(polys: &Vec<Vec<Fe>>, values: &Vec<Fe>, rs: &Vec<Fe>, len: usize) -> (r: (Vec<Fe>, Fe))
    requires
        polys.len() == rs.len(),
        values.len() == rs.len(),
        forall|i: int| 0 <= i < polys.len() ==> all_wf(#[trigger] polys@[i]@),
        all_wf(values@),
        all_wf(rs@),
    ensures
        r.0.len() == len,
        all_wf(r.0@),
        r.1.wf(),
        vals(r.0@) == batched_coeffs(polys@.map_values(|p: Vec<Fe>| vals(p@)), vals(rs@), len as nat),
        r.1.val() == fmod(batched_value(vals(values@), vals(rs@))),
{
    let ghost ps = polys@.map_values(|p: Vec<Fe>| vals(p@));
    let mut acc: Vec<Fe> = Vec::new();
    let mut j: usize = 0;
    while j < len
        invariant
            j <= len,
            acc.len() == j,
            all_wf(acc@),
            forall|i: int| 0 <= i < j ==> (#[trigger] acc@[i]).val() == 0,
        decreases len - j,
    {
        acc.push(Fe::zero());
        j = j + 1;
    }
    let mut expected = Fe::zero();
    let mut k: usize = 0;
    proof {
        lemma_small_mod(0, crate::field::field_modulus() as nat);
        assert(ps.take(0) =~= Seq::<Seq<int>>::empty());
        assert(vals(rs@).take(0) =~= Seq::<int>::empty());
        assert(vals(values@).take(0) =~= Seq::<int>::empty());
    }
    while k < polys.len()
        invariant
            k <= polys.len(),
            polys.len() == rs.len(),
            values.len() == rs.len(),
            ps == polys@.map_values(|p: Vec<Fe>| vals(p@)),
            forall|i: int| 0 <= i < polys.len() ==> all_wf(#[trigger] polys@[i]@),
            all_wf(values@),
            all_wf(rs@),
            acc.len() == len,
            all_wf(acc@),
            expected.wf(),
            forall|i: int|
                0 <= i < len ==> (#[trigger] acc@[i]).val() == fmod(
                    batched(ps.take(k as int), vals(rs@).take(k as int), i),
                ),
            expected.val() == fmod(batched_value(vals(values@).take(k as int), vals(rs@).take(k as int))),
        decreases polys.len() - k,
    {
        let ghost before = acc@;
        add_scaled(&mut acc, &polys[k], &rs[k]);
        let t = crate::field::fr_mul(&rs[k], &values[k]);
        let ghost ev = expected.val();
        expected = crate::field::fr_add(&expected, &t);
        proof {
            let p = crate::field::field_modulus();
            let rk = rs@[k as int].val();
            assert(ps.take(k + 1).drop_last() =~= ps.take(k as int));
            assert(vals(rs@).take(k + 1).drop_last() =~= vals(rs@).take(k as int));
            assert(vals(values@).take(k + 1).drop_last() =~= vals(values@).take(k as int));
            assert(ps.take(k + 1).last() == vals(polys@[k as int]@));
            let bv = batched_value(vals(values@).take(k as int), vals(rs@).take(k as int));
            lemma_add_mod_noop(bv, rk * values@[k as int].val(), p);
            lemma_mod_twice(bv, p);
            lemma_mod_twice(rk * values@[k as int].val(), p);
            assert forall|i: int| 0 <= i < len implies (#[trigger] acc@[i]).val() == fmod(
                batched(ps.take(k + 1), vals(rs@).take(k + 1), i),
            ) by {
                let b = batched(ps.take(k as int), vals(rs@).take(k as int), i);
                let c = coeff_at(vals(polys@[k as int]@), i);
                lemma_add_mod_noop(b, rk * c, p);
                lemma_add_mod_noop_right(b % p, rk * c, p);
            }
        }
        k = k + 1;
    }
    proof {
        assert(ps.take(polys.len() as int) =~= ps);
        assert(vals(rs@).take(polys.len() as int) =~= vals(rs@));
        assert(vals(values@).take(polys.len() as int) =~= vals(values@));
        assert(vals(acc@) =~= batched_coeffs(ps, vals(rs@), len as nat));
    }
    (acc, expected)
}

/// Batching is linear: multiplying every polynomial and every claimed value
/// by the same constant multiplies every batched coefficient and the batched
/// value by it.
pub proof fn lemma_batch_scaling(ps: Seq<Seq<int>>, vs: Seq<int>, rs: Seq<int>, c: int, j: int)
    requires
        ps.len() == rs.len(),
        vs.len() == rs.len(),
    ensures
        batched(ps.map_values(|p: Seq<int>| p.map_values(|x: int| c * x)), rs, j) == c * batched(
            ps,
            rs,
            j,
        ),
        batched_value(vs.map_values(|x: int| c * x), rs) == c * batched_value(vs, rs),
    decreases ps.len(),
{
    if ps.len() > 0 {
        let sps = ps.map_values(|p: Seq<int>| p.map_values(|x: int| c * x));
        let svs = vs.map_values(|x: int| c * x);
        lemma_batch_scaling(ps.drop_last(), vs.drop_last(), rs.drop_last(), c, j);
        assert(sps.drop_last() =~= ps.drop_last().map_values(
            |p: Seq<int>| p.map_values(|x: int| c * x),
        ));
        assert(svs.drop_last() =~= vs.drop_last().map_values(|x: int| c * x));
        let b = batched(ps.drop_last(), rs.drop_last(), j);
        let bv = batched_value(vs.drop_last(), rs.drop_last());
        let r = rs.last();
        let co = coeff_at(ps.last(), j);
        assert(coeff_at(sps.last(), j) == c * co);
        assert(c * b + r * (c * co) == c * (b + r * co)) by (nonlinear_arith);
        assert(c * bv + r * (c * vs.last()) == c * (bv + r * vs.last())) by (nonlinear_arith);
    }
}

} // verus!
