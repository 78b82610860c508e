//! Laurent polynomials over the scalar field: evaluation at a point and
//! division by `(X - z)`.
use crate::field::{Fe, field_inv, field_modulus, fmod};
use vstd::arithmetic::div_mod::*;
use vstd::arithmetic::power::pow;
use vstd::prelude::*;

verus! {

/// The integer values of a sequence of field elements.
pub open spec fn vals(s: Seq<Fe>) -> Seq<int> {
    s.map_values(|f: Fe| f.val())
}

/// Every element holds a canonical residue.
pub open spec fn all_wf(s: Seq<Fe>) -> bool {
    forall|i: int| 0 <= i < s.len() ==> (#[trigger] s[i]).wf()
}

/// `c[0] * x + c[1] * x^2 + ... + c[k-1] * x^k`: a half of a Laurent
/// polynomial whose index `j` stands for the power `j + 1`.
pub open spec fn shifted_sum(c: Seq<int>, x: int) -> int
    decreases c.len(),
{
    if c.len() == 0 {
        0
    } else {
        shifted_sum(c.drop_last(), x) + c.last() * pow(x, c.len())
    }
}

/// The value at `x` (with `x_inv` standing for `1/x`) of the Laurent
/// polynomial with negative half `neg` (index `j` for `X^-(j+1)`) and
/// positive half `pos` (index `j` for `X^(j+1)`), reduced into the field.
pub open spec fn laurent_value(pos: Seq<int>, neg: Seq<int>, x: int, x_inv: int) -> int {
    fmod(shifted_sum(neg, x_inv) + shifted_sum(pos, x))
}

/// `a[0] + a[1] * x + a[2] * x^2 + ...`.
pub open spec fn peval(a: Seq<int>, x: int) -> int
    decreases a.len(),
{
    if a.len() == 0 {
        0
    } else {
        a[0] + x * peval(a.skip(1), x)
    }
}

/// The quotient of `a` (coefficients, lowest degree first) divided by
/// `(X - z)`: its coefficient `i` is the value at `z` of `a` shifted down by
/// `i + 1` places.
pub open spec fn quotient(a: Seq<int>, z: int) -> Seq<int> {
    Seq::new((a.len() - 1) as nat, |i: int| peval(a.skip(i + 1), z))
}

/// Evaluates `shifted_sum(c, x)` in the field.
fn shifted_sum_exec(c: &Vec<Fe>, x: &Fe) -> (r: Fe)
    requires
        all_wf(c@),
        x.wf(),
    ensures
        r.wf(),
        r.val() == fmod(shifted_sum(vals(c@), x.val())),
{
    let mut value = Fe::zero();
    let mut tmp = *x;
    let mut j: usize = 0;
    proof {
        assert(vals(c@).take(0) =~= Seq::<int>::empty());
        assert(shifted_sum(vals(c@).take(0), x.val()) == 0);
        lemma_small_mod(0, field_modulus() as nat);
        reveal(pow);
        assert(pow(x.val(), 1) == x.val() * pow(x.val(), 0));
        lemma_small_mod(x.val() as nat, field_modulus() as nat);
    }
    while j < c.len()
        invariant
            0 <= j <= c.len(),
            all_wf(c@),
            x.wf(),
            value.wf(),
            tmp.wf(),
            value.val() == fmod(shifted_sum(vals(c@).take(j as int), x.val())),
            tmp.val() == fmod(pow(x.val(), (j + 1) as nat)),
        decreases c.len() - j,
    {
        let term = crate::field::fr_mul(&c[j], &tmp);
        value = crate::field::fr_add(&value, &term);
        tmp = crate::field::fr_mul(&tmp, x);
        proof {
            let s = vals(c@).take(j as int);
            let s1 = vals(c@).take(j + 1);
            let p = field_modulus();
            let cj = c@[j as int].val();
            let xp = pow(x.val(), (j + 1) as nat);
            assert(s1.drop_last() =~= s);
            assert(s1.last() == cj);
            assert(shifted_sum(s1, x.val()) == shifted_sum(s, x.val()) + cj * xp);
            lemma_mul_mod_noop_right(cj, xp, p);
            lemma_add_mod_noop(shifted_sum(s, x.val()), cj * xp, p);
            lemma_mod_twice(shifted_sum(s, x.val()), p);
            lemma_mod_twice(cj * xp, p);
            reveal(pow);
            assert(pow(x.val(), (j + 2) as nat) == x.val() * xp);
            lemma_mul_mod_noop_left(xp, x.val(), p);
        }
        j = j + 1;
    }
    proof {
        assert(vals(c@).take(c.len() as int) =~= vals(c@));
    }
    value
}

/// The value of the Laurent polynomial `(pos, neg)` at `y`, or `None` when
/// `y` is zero and so has no inverse.
pub fn compute_value(y: &Fe, poly_positive: &Vec<Fe>, poly_negative: &Vec<Fe>) -> (r: Option<Fe>)
    requires
        y.wf(),
        all_wf(poly_positive@),
        all_wf(poly_negative@),
    ensures
        r is None <==> y.val() == 0,
        r matches Some(v) ==> v.wf() && v.val() == laurent_value(
            vals(poly_positive@),
            vals(poly_negative@),
            y.val(),
            field_inv(y.val()),
        ),
{
    match crate::field::fr_inverse(y) {
        None => None,
        Some(yinv) => {
            let a = shifted_sum_exec(poly_negative, &yinv);
            let b = shifted_sum_exec(poly_positive, y);
            proof {
                lemma_add_mod_noop(
                    shifted_sum(vals(poly_negative@), yinv.val()),
                    shifted_sum(vals(poly_positive@), y.val()),
                    field_modulus(),
                );
            }
            Some(crate::field::fr_add(&a, &b))
        },
    }
}

/// Synthetic division of `a` (lowest degree first) by `(X - z)`; the
/// remainder is dropped.
pub fn kate_division(a: &Vec<Fe>, z: &Fe) -> (q: Vec<Fe>)
    requires
        a.len() >= 1,
        all_wf(a@),
        z.wf(),
    ensures
        q.len() == a.len() - 1,
        all_wf(q@),
        forall|i: int|
            0 <= i < q.len() ==> (#[trigger] q@[i]).val() == fmod(quotient(vals(a@), z.val())[i]),
{
    let len = a.len() - 1;
    let mut q: Vec<Fe> = Vec::new();
    let mut k: usize = 0;
    while k < len
        invariant
            k <= len,
            len == a.len() - 1,
            q.len() == k,
            forall|i: int| 0 <= i < k ==> (#[trigger] q@[i]).wf() && q@[i].val() == 0,
        decreases len - k,
    {
        q.push(Fe::zero());
        k = k + 1;
    }
    // coefficients are filled from the top down; `prev` is the one just set
    let mut prev = Fe::zero();
    let mut i: usize = len;
    proof {
        assert(vals(a@).skip(a.len() as int) =~= Seq::<int>::empty());
        assert(peval(vals(a@).skip(len + 1), z.val()) == 0);
        lemma_small_mod(0, field_modulus() as nat);
    }
    while i > 0
        invariant
            i <= len,
            len == a.len() - 1,
            q.len() == len,
            all_wf(a@),
            z.wf(),
            prev.wf(),
            prev.val() == fmod(peval(vals(a@).skip(i + 1), z.val())),
            forall|j: int| 0 <= j < len ==> (#[trigger] q@[j]).wf(),
            forall|j: int|
                i <= j < len ==> (#[trigger] q@[j]).val() == fmod(
                    quotient(vals(a@), z.val())[j],
                ),
        decreases i,
    {
        let t = crate::field::fr_mul(z, &prev);
        let lead = crate::field::fr_add(&a[i], &t);
        proof {
            let p = field_modulus();
            let s = vals(a@).skip(i as int);
            let pe = peval(vals(a@).skip(i + 1), z.val());
            assert(s.skip(1) =~= vals(a@).skip(i + 1));
            assert(s[0] == a@[i as int].val());
            assert(peval(s, z.val()) == a@[i as int].val() + z.val() * pe);
            lemma_mul_mod_noop_right(z.val(), pe, p);
            lemma_add_mod_noop(a@[i as int].val(), z.val() * pe, p);
            lemma_small_mod(a@[i as int].val() as nat, p as nat);
            lemma_mod_twice(z.val() * pe, p);
        }
        q.set(i - 1, lead);
        prev = lead;
        i = i - 1;
    }
    q
}

/// Division identity: for every `x`,
/// `a(x) = (x - z) * quotient(a, z)(x) + a(z)`.
pub proof fn lemma_division_identity(a: Seq<int>, z: int, x: int)
    requires
        a.len() >= 1,
    ensures
        peval(a, x) == (x - z) * peval(quotient(a, z), x) + peval(a, z),
    decreases a.len(),
{
    let t = a.skip(1);
    if a.len() == 1 {
        assert(quotient(a, z) =~= Seq::<int>::empty());
        assert(t =~= Seq::<int>::empty());
        assert(peval(t, x) == 0 && peval(t, z) == 0);
        assert(peval(a, x) == a[0] + x * peval(t, x));
        assert(peval(a, z) == a[0] + z * peval(t, z));
        assert(x * 0 == 0 && z * 0 == 0 && (x - z) * 0 == 0);
    } else {
        lemma_division_identity(t, z, x);
        let qa = quotient(a, z);
        let qt = quotient(t, z);
        assert(qa.skip(1) =~= qt) by {
            assert forall|i: int| 0 <= i < qt.len() implies qa.skip(1)[i] == qt[i] by {
                assert(a.skip(i + 2) =~= t.skip(i + 1));
            }
        }
        assert(qa[0] == peval(t, z)) by {
            assert(a.skip(1) =~= t);
        }
        assert(peval(a, x) == a[0] + x * peval(t, x));
        assert(peval(a, z) == a[0] + z * peval(t, z));
        let pt = peval(t, x);
        let qtx = peval(qt, x);
        let tz = peval(t, z);
        assert(peval(qa, x) == tz + x * qtx);
        assert(pt == (x - z) * qtx + tz);
        assert(x * pt == x * ((x - z) * qtx) + x * tz) by (nonlinear_arith)
            requires pt == (x - z) * qtx + tz;
        assert((x - z) * (tz + x * qtx) + (a[0] + z * tz) == x * ((x - z) * qtx) + x * tz + a[0])
            by (nonlinear_arith);
    }
}

/// The division identity in the field: the quotient computed modulo the field
/// order satisfies `a(x) = (x - z) * q(x) + a(z)` modulo the order.
pub proof fn lemma_division_identity_mod(a: Seq<int>, q: Seq<int>, z: int, x: int)
    requires
        a.len() >= 1,
        q.len() == a.len() - 1,
        forall|i: int| 0 <= i < q.len() ==> #[trigger] q[i] == fmod(quotient(a, z)[i]),
    ensures
        fmod(peval(a, x)) == fmod((x - z) * peval(q, x) + peval(a, z)),
{
    lemma_division_identity(a, z, x);
    lemma_peval_mod(quotient(a, z), q, x);
    let p = field_modulus();
    lemma_mul_mod_noop_right(x - z, peval(q, x), p);
    lemma_mul_mod_noop_right(x - z, peval(quotient(a, z), x), p);
    lemma_add_mod_noop((x - z) * peval(q, x), peval(a, z), p);
    lemma_add_mod_noop((x - z) * peval(quotient(a, z), x), peval(a, z), p);
}

/// Reducing each coefficient does not change the value modulo the order.
pub proof fn lemma_peval_mod(a: Seq<int>, b: Seq<int>, x: int)
    requires
        a.len() == b.len(),
        forall|i: int| 0 <= i < b.len() ==> #[trigger] b[i] == fmod(a[i]),
    ensures
        fmod(peval(a, x)) == fmod(peval(b, x)),
    decreases a.len(),
{
    if a.len() > 0 {
        let p = field_modulus();
        lemma_peval_mod(a.skip(1), b.skip(1), x);
        let pa = peval(a.skip(1), x);
        let pb = peval(b.skip(1), x);
        lemma_mul_mod_noop_right(x, pa, p);
        lemma_mul_mod_noop_right(x, pb, p);
        lemma_add_mod_noop(a[0], x * pa, p);
        lemma_add_mod_noop(b[0], x * pb, p);
        lemma_mod_twice(a[0], p);
    }
}

} // verus!
