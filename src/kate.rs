//! The reference table and Kate-style opening proofs of Laurent polynomials.
use crate::field::{Fe, fmod};
use crate::group::{G1, all_points_wf, encodings, msm, msm_from, multiexp_into};
use crate::poly::{all_wf, kate_division, quotient, vals};
use vstd::prelude::*;

verus! {

/// The structured reference string: powers of a secret point, plain and
/// multiplied by a blinding secret, for positive and negative exponents.
pub struct Srs {
    pub g_negative_x: Vec<G1>,
    pub g_positive_x: Vec<G1>,
    pub g_negative_x_alpha: Vec<G1>,
    pub g_positive_x_alpha: Vec<G1>,
}

impl Srs {
    pub open spec fn wf(&self) -> bool {
        &&& all_points_wf(self.g_negative_x@)
        &&& all_points_wf(self.g_positive_x@)
        &&& all_points_wf(self.g_negative_x_alpha@)
        &&& all_points_wf(self.g_positive_x_alpha@)
    }
}

/// Coefficients of `X^n * (f(X) - v)`, lowest degree first, for the Laurent
/// polynomial `f` with negative half `neg` and positive half `pos`.
pub open spec fn division_input(neg: Seq<int>, v: int, pos: Seq<int>) -> Seq<int> {
    neg.reverse() + seq![fmod(-v)] + pos
}

/// The quotient of `division_input` by `(X - z)`, reduced into the field.
pub open spec fn field_quotient(neg: Seq<int>, v: int, pos: Seq<int>, z: int) -> Seq<int> {
    quotient(division_input(neg, v, pos), z).map_values(|c: int| fmod(c))
}

/// The opening proof of `(neg, pos)` at `z` to the value `v`: the quotient's
/// negative half against the table's negative powers starting at `X^-1`,
/// then its non-negative half against the positive powers starting at `X^0`.
pub open spec fn opening_of(srs: Srs, neg: Seq<int>, pos: Seq<int>, v: int, z: int) -> Seq<u8> {
    let q = field_quotient(neg, v, pos, z);
    let n = neg.len() as int;
    msm_from(
        msm(encodings(srs.g_negative_x@).subrange(1, n + 1), q.take(n).reverse()),
        encodings(srs.g_positive_x@).subrange(0, pos.len() as int),
        q.skip(n),
    )
}

/// Computes the opening proof of the Laurent polynomial `(poly_negative,
/// poly_positive)` at `z`, given its value there.
pub fn open_at(
    srs: &Srs,
    poly_negative: &Vec<Fe>,
    poly_positive: &Vec<Fe>,
    value: &Fe,
    z: &Fe,
) -> (r: G1)
    requires
        srs.wf(),
        all_wf(poly_negative@),
        all_wf(poly_positive@),
        value.wf(),
        z.wf(),
        poly_negative.len() + 1 <= srs.g_negative_x.len(),
        poly_positive.len() <= srs.g_positive_x.len(),
    ensures
        r.wf(),
        r.bytes@ == opening_of(*srs, vals(poly_negative@), vals(poly_positive@), value.val(), z.val()),
{
    let n = poly_negative.len();
    let m = poly_positive.len();
    let ghost a_spec = division_input(vals(poly_negative@), value.val(), vals(poly_positive@));
    let mut a: Vec<Fe> = Vec::new();
    let mut j: usize = 0;
    while j < n
        invariant
            j <= n,
            n == poly_negative.len(),
            all_wf(poly_negative@),
            a.len() == j,
            forall|i: int| 0 <= i < j ==> (#[trigger] a@[i]) == poly_negative@[n - 1 - i],
        decreases n - j,
    {
        a.push(poly_negative[n - 1 - j]);
        j = j + 1;
    }
    a.push(crate::field::fr_neg(value));
    let mut j: usize = 0;
    while j < m
        invariant
            j <= m,
            n == poly_negative.len(),
            m == poly_positive.len(),
            all_wf(poly_negative@),
            all_wf(poly_positive@),
            a.len() == n + 1 + j,
            a@[n as int].wf(),
            a@[n as int].val() == fmod(-value.val()),
            forall|i: int| 0 <= i < n ==> (#[trigger] a@[i]) == poly_negative@[n - 1 - i],
            forall|i: int| 0 <= i < j ==> (#[trigger] a@[n + 1 + i]) == poly_positive@[i],
        decreases m - j,
    {
        a.push(poly_positive[j]);
        j = j + 1;
    }
    proof {
        assert forall|i: int| 0 <= i < a.len() implies (#[trigger] a@[i]).wf() && a@[i].val()
            == a_spec[i] by {
            if i < n {
                assert(vals(poly_negative@).reverse()[i] == poly_negative@[n - 1 - i].val());
            } else if i > n {
                let k = i - n - 1;
                assert(a@[n + 1 + k] == poly_positive@[k]);
            }
        }
        assert(vals(a@) =~= a_spec);
    }
    let q = kate_division(&a, z);
    let ghost fq = field_quotient(vals(poly_negative@), value.val(), vals(poly_positive@), z.val());
    let mut qn: Vec<Fe> = Vec::new();
    let mut j: usize = 0;
    while j < n
        invariant
            j <= n,
            q.len() == n + m,
            all_wf(q@),
            vals(q@) == fq,
            qn.len() == j,
            all_wf(qn@),
            forall|i: int| 0 <= i < j ==> (#[trigger] qn@[i]) == q@[n - 1 - i],
        decreases n - j,
    {
        qn.push(q[n - 1 - j]);
        j = j + 1;
    }
    let mut qp: Vec<Fe> = Vec::new();
    let mut j: usize = 0;
    while j < m
        invariant
            j <= m,
            q.len() == n + m,
            all_wf(q@),
            qp.len() == j,
            all_wf(qp@),
            forall|i: int| 0 <= i < j ==> (#[trigger] qp@[i]) == q@[n + i],
        decreases m - j,
    {
        qp.push(q[n + j]);
        j = j + 1;
    }
    proof {
        assert(vals(q@) =~= fq);
        assert(vals(qn@) =~= fq.take(n as int).reverse());
        assert(vals(qp@) =~= fq.skip(n as int));
    }
    let neg_part = multiexp_into(G1::identity(), &srs.g_negative_x, 1, &qn);
    multiexp_into(neg_part, &srs.g_positive_x, 0, &qp)
}

} // verus!
