//! Circuits as multiplication gates and linear constraints, and the two
//! partial evaluations of the constraint polynomial
//! `s(X, Y) = sum_i u_i(Y) X^-i + v_i(Y) X^i + w_i(Y) X^(i+n)`, where
//! constraint `k` (from 1) contributes `Y^(k+n)` times its coefficient on the
//! wire it names, and gate `i` adds `-Y^i - Y^-i` to `w_i`.
use crate::field::{Fe, field_inv, fmod};
use crate::poly::{all_wf, vals};
use vstd::arithmetic::div_mod::*;
use vstd::arithmetic::power::pow;
use vstd::prelude::*;

verus! {

/// A wire of a multiplication, named by its index (from 1): its left
/// input, right input or output.
#[derive(Clone, Copy, Debug, PartialEq, Eq)]
pub enum Wire {
    A(usize),
    B(usize),
    C(usize),
}

/// One term of a linear constraint.
#[derive(Clone, Copy, Debug, PartialEq, Eq)]
pub struct Term {
    pub wire: Wire,
    pub coeff: Fe,
}

/// `n` multiplication gates and linear constraints over their wires.
pub struct Circuit {
    pub n: usize,
    pub constraints: Vec<Vec<Term>>,
}

pub open spec fn wire_index(w: Wire) -> int {
    match w {
        Wire::A(i) => i as int,
        Wire::B(i) => i as int,
        Wire::C(i) => i as int,
    }
}

impl Circuit {
    pub open spec fn terms(&self) -> Seq<Seq<Term>> {
        self.constraints@.map_values(|v: Vec<Term>| v@)
    }

    /// Every term names a wire of an existing gate and has a canonical coefficient.
    pub open spec fn consistent(&self) -> bool {
        forall|k: int, t: int|
            0 <= k < self.constraints.len() && 0 <= t < self.constraints@[k].len() ==> {
                let term = #[trigger] self.constraints@[k]@[t];
                1 <= wire_index(term.wire) <= self.n && term.coeff.wf()
            }
    }

    /// The sizes fit the machine: `3n + q + 1` is a `usize`.
    pub open spec fn fits(&self) -> bool {
        3 * self.n + self.constraints.len() + 1 <= usize::MAX
    }

    /// Checks that the circuit is consistent.
    pub fn check(&self) -> (r: bool)
        ensures
            r == self.consistent(),
    {
        let mut k: usize = 0;
        while k < self.constraints.len()
            invariant
                k <= self.constraints.len(),
                forall|kk: int, t: int|
                    0 <= kk < k && 0 <= t < self.constraints@[kk].len() ==> {
                        let term = #[trigger] self.constraints@[kk]@[t];
                        1 <= wire_index(term.wire) <= self.n && term.coeff.wf()
                    },
            decreases self.constraints.len() - k,
        {
            let row = &self.constraints[k];
            let mut t: usize = 0;
            while t < row.len()
                invariant
                    k < self.constraints.len(),
                    row == self.constraints@[k as int],
                    t <= row.len(),
                    forall|kk: int, tt: int|
                        0 <= kk < k && 0 <= tt < self.constraints@[kk].len() ==> {
                            let term = #[trigger] self.constraints@[kk]@[tt];
                            1 <= wire_index(term.wire) <= self.n && term.coeff.wf()
                        },
                    forall|tt: int|
                        0 <= tt < t ==> {
                            let term = #[trigger] row@[tt];
                            1 <= wire_index(term.wire) <= self.n && term.coeff.wf()
                        },
                decreases row.len() - t,
            {
                let term = row[t];
                let i = match term.wire {
                    Wire::A(i) => i,
                    Wire::B(i) => i,
                    Wire::C(i) => i,
                };
                if i < 1 || i > self.n || !term.coeff.is_below_modulus() {
                    return false;
                }
                t = t + 1;
            }
            k = k + 1;
        }
        true
    }
}

/// The number of multiplications `n` and of linear constraints `q`.
pub fn count(circuit: &Circuit) -> (r: (usize, usize))
    ensures
        r.0 == circuit.n,
        r.1 == circuit.constraints.len(),
{
    (circuit.n, circuit.constraints.len())
}

/// `x^0, x^1, ..., x^(len-1)` in the field.
pub fn power_table(x: &Fe, len: usize) -> (r: Vec<Fe>)
    requires
        x.wf(),
    ensures
        r.len() == len,
        all_wf(r@),
        forall|j: int| 0 <= j < len ==> (#[trigger] r@[j]).val() == fmod(pow(x.val(), j as nat)),
{
    let mut r: Vec<Fe> = Vec::new();
    let mut cur = Fe::one();
    let mut j: usize = 0;
    proof {
        reveal(pow);
        lemma_small_mod(1, crate::field::field_modulus() as nat);
    }
    while j < len
        invariant
            j <= len,
            x.wf(),
            cur.wf(),
            cur.val() == fmod(pow(x.val(), j as nat)),
            r.len() == j,
            all_wf(r@),
            forall|i: int| 0 <= i < j ==> (#[trigger] r@[i]).val() == fmod(pow(x.val(), i as nat)),
        decreases len - j,
    {
        r.push(cur);
        proof {
            reveal(pow);
            assert(pow(x.val(), (j + 1) as nat) == x.val() * pow(x.val(), j as nat));
            lemma_mul_mod_noop_right(x.val(), pow(x.val(), j as nat), crate::field::field_modulus());
        }
        cur = crate::field::fr_mul(x, &cur);
        j = j + 1;
    }
    r
}

// ---------------------------------------------------------------------------
// s(x, Y): the first variable fixed, a Laurent polynomial in Y.

/// What a wire contributes, with `X` at `x`: `x^-i`, `x^i` or `x^(i+n)`.
pub open spec fn wire_weight(w: Wire, x: int, x_inv: int, n: int) -> int {
    match w {
        Wire::A(i) => pow(x_inv, i as nat),
        Wire::B(i) => pow(x, i as nat),
        Wire::C(i) => pow(x, (i + n) as nat),
    }
}

/// `sum_t coeff_t * weight(wire_t)` over the terms of one constraint.
pub open spec fn constraint_value(ts: Seq<Term>, x: int, x_inv: int, n: int) -> int
    decreases ts.len(),
{
    if ts.len() == 0 {
        0
    } else {
        constraint_value(ts.drop_last(), x, x_inv, n) + ts.last().coeff.val() * wire_weight(
            ts.last().wire,
            x,
            x_inv,
            n,
        )
    }
}

/// Negative half of `s(x, Y)`: index `j` for `Y^-(j+1)`, from gate `j + 1`.
pub open spec fn sy_negative(n: int, x: int) -> Seq<int> {
    Seq::new(n as nat, |j: int| fmod(-pow(x, (j + 1 + n) as nat)))
}

/// Positive half of `s(x, Y)`: index `j < n` for `Y^(j+1)` from gate `j + 1`;
/// index `n + k` for `Y^(n+k+1)`, from constraint `k + 1`.
pub open spec fn sy_positive(c: Seq<Seq<Term>>, n: int, x: int, x_inv: int) -> Seq<int> {
    Seq::new(
        (n + c.len()) as nat,
        |j: int|
            if j < n {
                fmod(-pow(x, (j + 1 + n) as nat))
            } else {
                fmod(constraint_value(c[j - n], x, x_inv, n))
            },
    )
}

fn weight_exec(w: Wire, n: usize, xs: &Vec<Fe>, xinvs: &Vec<Fe>) -> (r: Fe)
    requires
        1 <= wire_index(w) <= n,
        xs.len() == 2 * n + 1,
        xinvs.len() == n + 1,
        all_wf(xs@),
        all_wf(xinvs@),
    ensures
        r.wf(),
        r == match w {
            Wire::A(i) => xinvs@[i as int],
            Wire::B(i) => xs@[i as int],
            Wire::C(i) => xs@[i + n],
        },
{
    match w {
        Wire::A(i) => xinvs[i],
        Wire::B(i) => xs[i],
        Wire::C(i) => xs[i + n],
    }
}

/// Evaluates `s(x, Y)` of a consistent circuit; `None` when `x` is zero.
pub fn eval_s_at_x(circuit: &Circuit, x: &Fe) -> (r: Option<(Vec<Fe>, Vec<Fe>)>)
    requires
        circuit.consistent(),
        circuit.fits(),
        x.wf(),
    ensures
        r is None <==> x.val() == 0,
        r matches Some(p) ==> all_wf(p.0@) && all_wf(p.1@) && vals(p.0@) == sy_negative(
            circuit.n as int,
            x.val(),
        ) && vals(p.1@) == sy_positive(
            circuit.terms(),
            circuit.n as int,
            x.val(),
            field_inv(x.val()),
        ),
{
    let xinv = match crate::field::fr_inverse(x) {
        None => {
            return None;
        },
        Some(v) => v,
    };
    let n = circuit.n;
    let ghost xv = x.val();
    let ghost xi = xinv.val();
    let ghost cs = circuit.terms();
    let xs = power_table(x, 2 * n + 1);
    let xinvs = power_table(&xinv, n + 1);
    let mut neg: Vec<Fe> = Vec::new();
    let mut pos: Vec<Fe> = Vec::new();
    let mut j: usize = 0;
    while j < n
        invariant
            j <= n,
            n == circuit.n,
            circuit.fits(),
            xs.len() == 2 * n + 1,
            all_wf(xs@),
            forall|i: int| 0 <= i < 2 * n + 1 ==> (#[trigger] xs@[i]).val() == fmod(pow(xv, i as nat)),
            neg.len() == j,
            pos.len() == j,
            all_wf(neg@),
            all_wf(pos@),
            forall|i: int| 0 <= i < j ==> (#[trigger] neg@[i]).val() == sy_negative(n as int, xv)[i],
            forall|i: int| 0 <= i < j ==> (#[trigger] pos@[i]).val() == sy_negative(n as int, xv)[i],
        decreases n - j,
    {
        let g = crate::field::fr_neg(&xs[j + 1 + n]);
        proof {
            lemma_sub_mod_noop(0, pow(xv, (j + 1 + n) as nat), crate::field::field_modulus());
            lemma_small_mod(0, crate::field::field_modulus() as nat);
        }
        neg.push(g);
        pos.push(g);
        j = j + 1;
    }
    let mut k: usize = 0;
    while k < circuit.constraints.len()
        invariant
            k <= circuit.constraints.len(),
            n == circuit.n,
            cs == circuit.terms(),
            circuit.consistent(),
            circuit.fits(),
            xs.len() == 2 * n + 1,
            xinvs.len() == n + 1,
            all_wf(xs@),
            all_wf(xinvs@),
            forall|i: int| 0 <= i < 2 * n + 1 ==> (#[trigger] xs@[i]).val() == fmod(pow(xv, i as nat)),
            forall|i: int| 0 <= i < n + 1 ==> (#[trigger] xinvs@[i]).val() == fmod(pow(xi, i as nat)),
            pos.len() == n + k,
            all_wf(pos@),
            forall|i: int|
                0 <= i < n + k ==> (#[trigger] pos@[i]).val() == sy_positive(cs, n as int, xv, xi)[i],
        decreases circuit.constraints.len() - k,
    {
        let row = &circuit.constraints[k];
        let ghost ts = cs[k as int];
        let mut acc = Fe::zero();
        let mut t: usize = 0;
        proof {
            assert(ts.take(0) =~= Seq::<Term>::empty());
            lemma_small_mod(0, crate::field::field_modulus() as nat);
        }
        while t < row.len()
            invariant
                k < circuit.constraints.len(),
                row@ == ts,
                ts == cs[k as int],
                cs == circuit.terms(),
                n == circuit.n,
                circuit.consistent(),
                xs.len() == 2 * n + 1,
                xinvs.len() == n + 1,
                all_wf(xs@),
                all_wf(xinvs@),
                forall|i: int| 0 <= i < 2 * n + 1 ==> (#[trigger] xs@[i]).val() == fmod(pow(xv, i as nat)),
                forall|i: int| 0 <= i < n + 1 ==> (#[trigger] xinvs@[i]).val() == fmod(pow(xi, i as nat)),
                t <= row.len(),
                acc.wf(),
                acc.val() == fmod(constraint_value(ts.take(t as int), xv, xi, n as int)),
            decreases row.len() - t,
        {
            let term = row[t];
            proof {
                assert(term == circuit.constraints@[k as int]@[t as int]);
            }
            let w = weight_exec(term.wire, n, &xs, &xinvs);
            let prod = crate::field::fr_mul(&term.coeff, &w);
            let ghost before = acc.val();
            acc = crate::field::fr_add(&acc, &prod);
            proof {
                let p = crate::field::field_modulus();
                let ww = wire_weight(term.wire, xv, xi, n as int);
                let prev = constraint_value(ts.take(t as int), xv, xi, n as int);
                assert(ts.take(t + 1).drop_last() =~= ts.take(t as int));
                assert(w.val() == fmod(ww));
                lemma_mul_mod_noop_right(term.coeff.val(), ww, p);
                lemma_add_mod_noop(prev, term.coeff.val() * ww, p);
                lemma_mod_twice(prev, p);
                lemma_mod_twice(term.coeff.val() * ww, p);
            }
            t = t + 1;
        }
        proof {
            assert(ts.take(row.len() as int) =~= ts);
        }
        pos.push(acc);
        k = k + 1;
    }
    proof {
        assert(vals(neg@) =~= sy_negative(n as int, xv));
        assert(vals(pos@) =~= sy_positive(cs, n as int, xv, xi));
    }
    Some((neg, pos))
}

// ---------------------------------------------------------------------------
// s(X, y): the second variable fixed, a Laurent polynomial in X.

/// Where a wire's coefficient lands in `s(X, y)`, counting the negative half
/// (`X^-1 .. X^-n`) and then the positive half (`X^1 .. X^2n`).
pub open spec fn x_slot(w: Wire, n: int) -> int {
    match w {
        Wire::A(i) => i - 1,
        Wire::B(i) => n + i - 1,
        Wire::C(i) => 2 * n + i - 1,
    }
}

/// The sum of the coefficients of the terms that land in slot `s`.
pub open spec fn slot_sum(ts: Seq<Term>, s: int, n: int) -> int
    decreases ts.len(),
{
    if ts.len() == 0 {
        0
    } else {
        slot_sum(ts.drop_last(), s, n) + if x_slot(ts.last().wire, n) == s {
            ts.last().coeff.val()
        } else {
            0
        }
    }
}

/// `sum_k y^(k+n) * slot_sum(constraint k, s)`, constraints counted from 1.
pub open spec fn lin_coeff(cs: Seq<Seq<Term>>, s: int, y: int, n: int) -> int
    decreases cs.len(),
{
    if cs.len() == 0 {
        0
    } else {
        lin_coeff(cs.drop_last(), s, y, n) + pow(y, (cs.len() + n) as nat) * slot_sum(
            cs.last(),
            s,
            n,
        )
    }
}

/// The gates' own part: `-y^i - y^-i` on `X^(i+n)`.
pub open spec fn gate_coeff(s: int, y: int, y_inv: int, n: int) -> int {
    if 2 * n <= s {
        -pow(y, (s - 2 * n + 1) as nat) - pow(y_inv, (s - 2 * n + 1) as nat)
    } else {
        0
    }
}

/// All `3n` coefficients of `s(X, y)`, in slot order.
pub open spec fn sx_coeffs(cs: Seq<Seq<Term>>, n: int, y: int, y_inv: int) -> Seq<int> {
    Seq::new((3 * n) as nat, |s: int| fmod(gate_coeff(s, y, y_inv, n) + lin_coeff(cs, s, y, n)))
}

proof fn lemma_scatter_step(g: int, l: int, y: int, s: int, c: int)
    ensures
        fmod(fmod(g + l + y * s) + fmod(fmod(y) * c)) == fmod(g + l + y * (s + c)),
{
    let p = crate::field::field_modulus();
    lemma_mul_mod_noop_left(y, c, p);
    lemma_add_mod_noop(g + l + y * s, y * c, p);
    assert(y * (s + c) == y * s + y * c) by (nonlinear_arith);
}

/// Evaluates `s(X, y)` of a consistent circuit; `None` when `y` is zero.
/// The negative half has `n` coefficients, the positive half `2n`.
pub fn eval_s_at_y(circuit: &Circuit, y: &Fe) -> (r: Option<(Vec<Fe>, Vec<Fe>)>)
    requires
        circuit.consistent(),
        circuit.fits(),
        y.wf(),
    ensures
        r is None <==> y.val() == 0,
        r matches Some(p) ==> all_wf(p.0@) && all_wf(p.1@) && vals(p.0@) == sx_coeffs(
            circuit.terms(),
            circuit.n as int,
            y.val(),
            field_inv(y.val()),
        ).take(circuit.n as int) && vals(p.1@) == sx_coeffs(
            circuit.terms(),
            circuit.n as int,
            y.val(),
            field_inv(y.val()),
        ).skip(circuit.n as int),
{
    let yinv = match crate::field::fr_inverse(y) {
        None => {
            return None;
        },
        Some(v) => v,
    };
    let n = circuit.n;
    let q = circuit.constraints.len();
    let ghost yv = y.val();
    let ghost yi = yinv.val();
    let ghost cs = circuit.terms();
    let ghost nn = n as int;
    let ys = power_table(y, n + q + 1);
    let yinvs = power_table(&yinv, n + 1);
    let mut acc: Vec<Fe> = Vec::new();
    let mut s: usize = 0;
    while s < 3 * n
        invariant
            s <= 3 * n,
            n == circuit.n,
            nn == n as int,
            circuit.fits(),
            ys.len() == n + q + 1,
            yinvs.len() == n + 1,
            all_wf(ys@),
            all_wf(yinvs@),
            forall|i: int| 0 <= i < n + q + 1 ==> (#[trigger] ys@[i]).val() == fmod(pow(yv, i as nat)),
            forall|i: int| 0 <= i < n + 1 ==> (#[trigger] yinvs@[i]).val() == fmod(pow(yi, i as nat)),
            acc.len() == s,
            all_wf(acc@),
            forall|i: int|
                0 <= i < s ==> (#[trigger] acc@[i]).val() == fmod(gate_coeff(i, yv, yi, nn)),
        decreases 3 * n - s,
    {
        let ghost p = crate::field::field_modulus();
        if s < 2 * n {
            proof {
                lemma_small_mod(0, p as nat);
            }
            acc.push(Fe::zero());
        } else {
            let i = s - 2 * n + 1;
            let a = crate::field::fr_neg(&ys[i]);
            let b = crate::field::fr_neg(&yinvs[i]);
            proof {
                let pa = pow(yv, i as nat);
                let pb = pow(yi, i as nat);
                lemma_sub_mod_noop(0, pa, p);
                lemma_sub_mod_noop(0, pb, p);
                lemma_small_mod(0, p as nat);
                lemma_add_mod_noop(-pa, -pb, p);
                assert(a.val() == fmod(-pa));
                assert(b.val() == fmod(-pb));
            }
            let c = crate::field::fr_add(&a, &b);
            proof {
                assert(gate_coeff(s as int, yv, yi, nn) == -pow(yv, i as nat) - pow(yi, i as nat));
                assert(c.val() == fmod(gate_coeff(s as int, yv, yi, nn)));
            }
            acc.push(c);
        }
        s = s + 1;
    }
    proof {
        assert forall|i: int| 0 <= i < 3 * n implies (#[trigger] acc@[i]).val() == fmod(
            gate_coeff(i, yv, yi, nn) + lin_coeff(cs.take(0), i, yv, nn) + 0,
        ) by {
            assert(cs.take(0) =~= Seq::<Seq<Term>>::empty());
        }
    }
    let mut k: usize = 0;
    while k < q
        invariant
            k <= q,
            q == circuit.constraints.len(),
            n == circuit.n,
            nn == n as int,
            cs == circuit.terms(),
            circuit.consistent(),
            circuit.fits(),
            ys.len() == n + q + 1,
            all_wf(ys@),
            forall|i: int| 0 <= i < n + q + 1 ==> (#[trigger] ys@[i]).val() == fmod(pow(yv, i as nat)),
            acc.len() == 3 * n,
            all_wf(acc@),
            forall|i: int|
                0 <= i < 3 * n ==> (#[trigger] acc@[i]).val() == fmod(
                    gate_coeff(i, yv, yi, nn) + lin_coeff(cs.take(k as int), i, yv, nn) + 0,
                ),
        decreases q - k,
    {
        let row = &circuit.constraints[k];
        let ghost ts = cs[k as int];
        let ghost yk = pow(yv, (k + 1 + n) as nat);
        let yp = ys[k + 1 + n];
        let mut t: usize = 0;
        proof {
            assert forall|i: int| 0 <= i < 3 * n implies (#[trigger] acc@[i]).val() == fmod(
                gate_coeff(i, yv, yi, nn) + lin_coeff(cs.take(k as int), i, yv, nn) + yk
                    * slot_sum(ts.take(0), i, nn),
            ) by {
                assert(ts.take(0) =~= Seq::<Term>::empty());
                assert(yk * 0 == 0);
            }
        }
        while t < row.len()
            invariant
                k < q,
                q == circuit.constraints.len(),
                row@ == ts,
                ts == cs[k as int],
                cs == circuit.terms(),
                n == circuit.n,
                nn == n as int,
                circuit.consistent(),
                yp.wf(),
                yp.val() == fmod(yk),
                t <= row.len(),
                acc.len() == 3 * n,
                all_wf(acc@),
                forall|i: int|
                    0 <= i < 3 * n ==> (#[trigger] acc@[i]).val() == fmod(
                        gate_coeff(i, yv, yi, nn) + lin_coeff(cs.take(k as int), i, yv, nn) + yk
                            * slot_sum(ts.take(t as int), i, nn),
                    ),
            decreases row.len() - t,
        {
            let term = row[t];
            proof {
                assert(term == circuit.constraints@[k as int]@[t as int]);
            }
            let slot = match term.wire {
                Wire::A(i) => i - 1,
                Wire::B(i) => n + i - 1,
                Wire::C(i) => 2 * n + i - 1,
            };
            let prod = crate::field::fr_mul(&yp, &term.coeff);
            let cur = acc[slot];
            let next = crate::field::fr_add(&cur, &prod);
            acc.set(slot, next);
            proof {
                assert(ts.take(t + 1).drop_last() =~= ts.take(t as int));
                assert forall|i: int| 0 <= i < 3 * n implies (#[trigger] acc@[i]).val() == fmod(
                    gate_coeff(i, yv, yi, nn) + lin_coeff(cs.take(k as int), i, yv, nn) + yk
                        * slot_sum(ts.take(t + 1), i, nn),
                ) by {
                    if i == slot {
                        lemma_mul_mod_noop_left(yk, term.coeff.val(), crate::field::field_modulus());
                        lemma_scatter_step(
                            gate_coeff(i, yv, yi, nn),
                            lin_coeff(cs.take(k as int), i, yv, nn),
                            yk,
                            slot_sum(ts.take(t as int), i, nn),
                            term.coeff.val(),
                        );
                    }
                }
            }
            t = t + 1;
        }
        proof {
            assert(ts.take(row.len() as int) =~= ts);
            assert(cs.take(k + 1).drop_last() =~= cs.take(k as int));
            assert(cs.take(k + 1).last() == ts);
        }
        k = k + 1;
    }
    let mut neg: Vec<Fe> = Vec::new();
    let mut pos: Vec<Fe> = Vec::new();
    let mut s: usize = 0;
    while s < 3 * n
        invariant
            s <= 3 * n,
            acc.len() == 3 * n,
            all_wf(acc@),
            neg.len() == if s < n { s } else { n },
            pos.len() == if s < n { 0 } else { s - n },
            forall|i: int| 0 <= i < neg.len() ==> (#[trigger] neg@[i]) == acc@[i],
            forall|i: int| 0 <= i < pos.len() ==> (#[trigger] pos@[i]) == acc@[n + i],
        decreases 3 * n - s,
    {
        if s < n {
            neg.push(acc[s]);
        } else {
            pos.push(acc[s]);
        }
        s = s + 1;
    }
    proof {
        let full = sx_coeffs(cs, nn, yv, yi);
        assert(cs.take(q as int) =~= cs);
        assert(vals(acc@) =~= full);
        assert(vals(neg@) =~= full.take(nn));
        assert(vals(pos@) =~= full.skip(nn));
    }
    Some((neg, pos))
}

} // verus!
