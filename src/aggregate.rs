//! The aggregation protocol: one commitment to `s(z, Y)`, its openings at
//! every input's own challenge and at a fresh point, and one batched opening
//! of every input's `s(X, y_i)` at `z`.
use crate::batch::{batch, batched_coeffs, batched_value};
use crate::circuit::{Circuit, count, eval_s_at_x, eval_s_at_y, sx_coeffs, sy_negative, sy_positive};
use crate::field::{Fe, field_inv, fmod};
use crate::group::{G1, all_points_wf, encodings, msm, msm_from, multiexp_into};
use crate::kate::{Srs, open_at, opening_of};
use crate::poly::{all_wf, compute_value, laurent_value, vals};
use crate::transcript::{Transcript, challenge_of, state_after_challenge};
use vstd::prelude::*;

verus! {

/// The part of an existing proof that aggregation reads: its commitment `R`.
pub struct Proof {
    pub r: G1,
}

/// The part of a proof's advice that aggregation reads: its commitment `S`.
pub struct SxyAdvice {
    pub s: G1,
}

/// A reference table together with the circuit sizes it was made for.
pub struct Parameters {
    pub srs: Srs,
    pub n: usize,
    pub q: usize,
}

/// The aggregated proof.
pub struct Aggregate {
    /// Commitment to `s(z, Y)`.
    pub c: G1,
    /// Opening of the batched `s(X, y_i)` at `z`.
    pub s_opening: G1,
    /// Opening of the commitment at each input's `y_i`, with the value there.
    pub c_openings: Vec<(G1, Fe)>,
    /// Opening of the commitment at the fresh point `w`.
    pub opening: G1,
}

#[derive(Clone, Copy, Debug, PartialEq, Eq)]
pub enum AggregateError {
    /// The circuit names a wire of no gate, or holds a non-canonical coefficient.
    Synthesis,
    /// A derived challenge that must be inverted is zero.
    NonInvertibleChallenge,
}

pub open spec fn inputs_wf(inputs: Seq<(Proof, SxyAdvice)>) -> bool {
    forall|i: int| 0 <= i < inputs.len() ==> (#[trigger] inputs[i]).0.r.wf() && inputs[i].1.s.wf()
}

/// The reference table reaches far enough for a circuit of sizes `n`, `q`.
pub open spec fn srs_covers(srs: Srs, n: int, q: int) -> bool {
    &&& srs.wf()
    &&& srs.g_positive_x_alpha.len() >= n + q
    &&& srs.g_negative_x_alpha.len() >= n
    &&& srs.g_negative_x.len() >= n + 1
    &&& srs.g_positive_x.len() >= n + q
    &&& srs.g_positive_x.len() >= 2 * n
}

/// The master transcript's state once every advice commitment is absorbed.
pub open spec fn advice_state(inputs: Seq<(Proof, SxyAdvice)>) -> Seq<u8>
    decreases inputs.len(),
{
    if inputs.len() == 0 {
        Seq::empty()
    } else {
        advice_state(inputs.drop_last()) + inputs.last().1.s.bytes@
    }
}

/// An input's own challenge `y_i`: from a fresh transcript that absorbed only
/// its proof's commitment.
pub open spec fn input_challenge(p: Proof) -> int {
    challenge_of(p.r.bytes@)
}

/// The shared point `z`.
pub open spec fn shared_point(inputs: Seq<(Proof, SxyAdvice)>) -> int {
    challenge_of(advice_state(inputs))
}

pub open spec fn sy_pos_at(c: Circuit, z: int) -> Seq<int> {
    sy_positive(c.terms(), c.n as int, z, field_inv(z))
}

pub open spec fn sy_neg_at(c: Circuit, z: int) -> Seq<int> {
    sy_negative(c.n as int, z)
}

/// The value of `s(z, Y)` at `y`.
pub open spec fn sy_value(c: Circuit, z: int, y: int) -> int {
    laurent_value(sy_pos_at(c, z), sy_neg_at(c, z), y, field_inv(y))
}

/// The commitment to `s(z, Y)` against the blinded tables.
pub open spec fn commitment_of(srs: Srs, c: Circuit, z: int) -> Seq<u8> {
    msm_from(
        msm(
            encodings(srs.g_positive_x_alpha@).subrange(0, c.n + c.constraints.len()),
            sy_pos_at(c, z),
        ),
        encodings(srs.g_negative_x_alpha@).subrange(0, c.n as int),
        sy_neg_at(c, z),
    )
}

/// The master transcript's state after `z` was drawn and the commitment absorbed.
pub open spec fn committed_state(inputs: Seq<(Proof, SxyAdvice)>, cm: Seq<u8>) -> Seq<u8> {
    state_after_challenge(advice_state(inputs)) + cm
}

/// The state after `k` more challenges from `s`.
pub open spec fn nth_state(s: Seq<u8>, k: nat) -> Seq<u8>
    decreases k,
{
    if k == 0 {
        s
    } else {
        state_after_challenge(nth_state(s, (k - 1) as nat))
    }
}

/// The batching weights `r_0 .. r_(k-1)`, drawn after `w` from state `s`.
pub open spec fn batch_weights(s: Seq<u8>, k: nat) -> Seq<int> {
    Seq::new(k, |i: int| challenge_of(nth_state(state_after_challenge(s), i as nat)))
}

/// Some challenge that must be inverted is zero.
pub open spec fn degenerate(c: Circuit, inputs: Seq<(Proof, SxyAdvice)>, srs: Srs) -> bool {
    let z = shared_point(inputs);
    z == 0 || challenge_of(committed_state(inputs, commitment_of(srs, c, z))) == 0 || exists|i: int|
        0 <= i < inputs.len() && input_challenge(#[trigger] inputs[i].0) == 0
}

/// The aggregate of a consistent circuit with no degenerate challenge, field by field.
pub open spec fn aggregate_of(c: Circuit, inputs: Seq<(Proof, SxyAdvice)>, srs: Srs, a: Aggregate) -> bool {
    let n = c.n as int;
    let z = shared_point(inputs);
    let cm = commitment_of(srs, c, z);
    let st = committed_state(inputs, cm);
    let w = challenge_of(st);
    let ys = Seq::new(inputs.len(), |i: int| input_challenge(inputs[i].0));
    let vs = Seq::new(inputs.len(), |i: int| fmod(sy_value(c, z, ys[i])));
    let rs = batch_weights(st, inputs.len());
    let negs = Seq::new(
        inputs.len(),
        |i: int| sx_coeffs(c.terms(), n, ys[i], field_inv(ys[i])).take(n),
    );
    let poss = Seq::new(
        inputs.len(),
        |i: int| sx_coeffs(c.terms(), n, ys[i], field_inv(ys[i])).skip(n),
    );
    &&& a.c.bytes@ == cm
    &&& a.opening.bytes@ == opening_of(
        srs,
        sy_neg_at(c, z),
        sy_pos_at(c, z),
        fmod(sy_value(c, z, w)),
        w,
    )
    &&& a.c_openings.len() == inputs.len()
    &&& forall|i: int|
        0 <= i < inputs.len() ==> (#[trigger] a.c_openings@[i]).1.val() == vs[i]
            && a.c_openings@[i].0.bytes@ == opening_of(
            srs,
            sy_neg_at(c, z),
            sy_pos_at(c, z),
            vs[i],
            ys[i],
        )
    &&& a.s_opening.bytes@ == opening_of(
        srs,
        batched_coeffs(negs, rs, n as nat),
        batched_coeffs(poss, rs, (2 * n) as nat),
        fmod(batched_value(vs, rs)),
        z,
    )
}

/// What aggregation returns, for every input.
pub open spec fn aggregate_post(
    c: Circuit,
    inputs: Seq<(Proof, SxyAdvice)>,
    srs: Srs,
    r: Result<Aggregate, AggregateError>,
) -> bool {
    match r {
        Err(AggregateError::Synthesis) => !c.consistent(),
        Err(AggregateError::NonInvertibleChallenge) => c.consistent() && degenerate(c, inputs, srs),
        Ok(a) => c.consistent() && !degenerate(c, inputs, srs) && aggregate_of(c, inputs, srs, a),
    }
}

/// Draws each input's own challenge from a fresh transcript, and absorbs
/// every advice commitment into `transcript`.
fn input_challenges(inputs: &Vec<(Proof, SxyAdvice)>, transcript: &mut Transcript) -> (ys: Vec<Fe>)
    requires
        old(transcript)@ == Seq::<u8>::empty(),
    ensures
        final(transcript)@ == advice_state(inputs@),
        ys.len() == inputs.len(),
        all_wf(ys@),
        forall|i: int| 0 <= i < inputs.len() ==> (#[trigger] ys@[i]).val() == input_challenge(inputs@[i].0),
{
    let mut ys: Vec<Fe> = Vec::new();
    let mut i: usize = 0;
    proof {
        assert(inputs@.take(0) =~= Seq::<(Proof, SxyAdvice)>::empty());
    }
    while i < inputs.len()
        invariant
            i <= inputs.len(),
            transcript@ == advice_state(inputs@.take(i as int)),
            ys.len() == i,
            all_wf(ys@),
            forall|j: int| 0 <= j < i ==> (#[trigger] ys@[j]).val() == input_challenge(inputs@[j].0),
        decreases inputs.len() - i,
    {
        let mut own = Transcript::new();
        own.commit_point(&inputs[i].0.r);
        proof {
            assert(Seq::<u8>::empty() + inputs@[i as int].0.r.bytes@ =~= inputs@[i as int].0.r.bytes@);
        }
        ys.push(own.get_challenge_scalar());
        transcript.commit_point(&inputs[i].1.s);
        proof {
            assert(inputs@.take(i + 1).drop_last() =~= inputs@.take(i as int));
        }
        i = i + 1;
    }
    proof {
        assert(inputs@.take(inputs.len() as int) =~= inputs@);
    }
    ys
}

/// Opens the commitment to `s(z, Y)` at every input's own challenge.
fn open_claims(
    circuit: &Circuit,
    inputs: &Vec<(Proof, SxyAdvice)>,
    srs: &Srs,
    y_values: &Vec<Fe>,
    s_neg: &Vec<Fe>,
    s_pos: &Vec<Fe>,
    z: &Fe,
) -> (r: Result<Vec<(G1, Fe)>, AggregateError>)
    requires
        y_values.len() == inputs.len(),
        all_wf(y_values@),
        forall|j: int| 0 <= j < inputs.len() ==> (#[trigger] y_values@[j]).val() == input_challenge(inputs@[j].0),
        srs_covers(*srs, circuit.n as int, circuit.constraints.len() as int),
        all_wf(s_neg@),
        all_wf(s_pos@),
        s_neg.len() == circuit.n,
        s_pos.len() == circuit.n + circuit.constraints.len(),
        vals(s_neg@) == sy_neg_at(*circuit, z.val()),
        vals(s_pos@) == sy_pos_at(*circuit, z.val()),
    ensures
        r is Err ==> r == Err::<Vec<(G1, Fe)>, AggregateError>(AggregateError::NonInvertibleChallenge) && exists|i: int|
            0 <= i < inputs.len() && input_challenge(#[trigger] inputs@[i].0) == 0,
        r matches Ok(c_openings) ==> c_openings.len() == inputs.len()
            && (forall|j: int| 0 <= j < inputs.len() ==> input_challenge(#[trigger] inputs@[j].0) != 0)
            && forall|j: int|
                0 <= j < inputs.len() ==> (#[trigger] c_openings@[j]).1.wf() && c_openings@[j].1.val() == fmod(
                    sy_value(*circuit, z.val(), input_challenge(inputs@[j].0)),
                ) && c_openings@[j].0.bytes@ == opening_of(
                    *srs,
                    sy_neg_at(*circuit, z.val()),
                    sy_pos_at(*circuit, z.val()),
                    c_openings@[j].1.val(),
                    input_challenge(inputs@[j].0),
                ),
{
    let n = circuit.n;
    let q = circuit.constraints.len();
    let mut c_openings: Vec<(G1, Fe)> = Vec::new();
    let mut i: usize = 0;
    while i < y_values.len()
        invariant
            i <= y_values.len(),
            y_values.len() == inputs.len(),
            all_wf(y_values@),
            forall|j: int| 0 <= j < inputs.len() ==> (#[trigger] y_values@[j]).val() == input_challenge(inputs@[j].0),
            srs_covers(*srs, n as int, q as int),
            n == circuit.n,
            q == circuit.constraints.len(),
            all_wf(s_neg@),
            all_wf(s_pos@),
            s_neg.len() == n,
            s_pos.len() == n + q,
            vals(s_neg@) == sy_neg_at(*circuit, z.val()),
            vals(s_pos@) == sy_pos_at(*circuit, z.val()),
            c_openings.len() == i,
            forall|j: int| 0 <= j < i ==> input_challenge(#[trigger] inputs@[j].0) != 0,
            forall|j: int|
                0 <= j < i ==> (#[trigger] c_openings@[j]).1.wf() && c_openings@[j].1.val() == fmod(
                    sy_value(*circuit, z.val(), input_challenge(inputs@[j].0)),
                ) && c_openings@[j].0.bytes@ == opening_of(
                    *srs,
                    sy_neg_at(*circuit, z.val()),
                    sy_pos_at(*circuit, z.val()),
                    c_openings@[j].1.val(),
                    input_challenge(inputs@[j].0),
                ),
        decreases y_values.len() - i,
    {
        let y = &y_values[i];
        let v = match compute_value(y, s_pos, s_neg) {
            None => {
                proof {
                    assert(input_challenge(inputs@[i as int].0) == 0);
                }
                return Err(AggregateError::NonInvertibleChallenge);
            },
            Some(v) => v,
        };
        proof {
            crate::field::lemma_mod_of_canonical(v.val());
        }
        let op = open_at(srs, s_neg, s_pos, &v, y);
        c_openings.push((op, v));
        i = i + 1;
    }
    Ok(c_openings)
}

/// Evaluates every input's `s(X, y_i)` and draws its batching weight.
fn batch_inputs(
    circuit: &Circuit,
    inputs: &Vec<(Proof, SxyAdvice)>,
    y_values: &Vec<Fe>,
    c_openings: &Vec<(G1, Fe)>,
    transcript: &mut Transcript,
    st: Ghost<Seq<u8>>,
) -> (r: (Vec<Vec<Fe>>, Vec<Vec<Fe>>, Vec<Fe>, Vec<Fe>))
    requires
        y_values.len() == inputs.len(),
        c_openings.len() == inputs.len(),
        all_wf(y_values@),
        forall|j: int| 0 <= j < inputs.len() ==> (#[trigger] y_values@[j]).val() == input_challenge(inputs@[j].0),
        forall|j: int| 0 <= j < inputs.len() ==> input_challenge(#[trigger] inputs@[j].0) != 0,
        forall|j: int| 0 <= j < inputs.len() ==> (#[trigger] c_openings@[j]).1.wf(),
        circuit.consistent(),
        circuit.fits(),
        old(transcript)@ == state_after_challenge(st@),
    ensures
        r.0.len() == inputs.len(),
        r.1.len() == inputs.len(),
        r.2.len() == inputs.len(),
        r.3.len() == inputs.len(),
        all_wf(r.2@),
        all_wf(r.3@),
        forall|j: int| 0 <= j < inputs.len() ==> all_wf(#[trigger] r.0@[j]@),
        forall|j: int| 0 <= j < inputs.len() ==> all_wf(#[trigger] r.1@[j]@),
        forall|j: int|
            0 <= j < inputs.len() ==> vals(#[trigger] r.0@[j]@) == sx_coeffs(
                circuit.terms(),
                circuit.n as int,
                input_challenge(inputs@[j].0),
                field_inv(input_challenge(inputs@[j].0)),
            ).take(circuit.n as int),
        forall|j: int|
            0 <= j < inputs.len() ==> vals(#[trigger] r.1@[j]@) == sx_coeffs(
                circuit.terms(),
                circuit.n as int,
                input_challenge(inputs@[j].0),
                field_inv(input_challenge(inputs@[j].0)),
            ).skip(circuit.n as int),
        forall|j: int| 0 <= j < inputs.len() ==> (#[trigger] r.3@[j]) == c_openings@[j].1,
        forall|j: int| 0 <= j < inputs.len() ==> (#[trigger] r.2@[j]).val() == batch_weights(st@, inputs.len() as nat)[j],
{
    let n = circuit.n;
    let ghost st = st@;
    let mut negs: Vec<Vec<Fe>> = Vec::new();
    let mut poss: Vec<Vec<Fe>> = Vec::new();
    let mut rs: Vec<Fe> = Vec::new();
    let mut values: Vec<Fe> = Vec::new();
    let ghost nn = n as int;
    let mut i: usize = 0;
    while i < y_values.len()
        invariant
            i <= y_values.len(),
            y_values.len() == inputs.len(),
            c_openings.len() == inputs.len(),
            all_wf(y_values@),
            forall|j: int| 0 <= j < inputs.len() ==> (#[trigger] y_values@[j]).val() == input_challenge(inputs@[j].0),
            forall|j: int| 0 <= j < inputs.len() ==> input_challenge(#[trigger] inputs@[j].0) != 0,
            forall|j: int| 0 <= j < inputs.len() ==> (#[trigger] c_openings@[j]).1.wf(),
            circuit.consistent(),
            circuit.fits(),
            n == circuit.n,
            nn == n as int,
            transcript@ == nth_state(state_after_challenge(st), i as nat),
            negs.len() == i,
            poss.len() == i,
            rs.len() == i,
            values.len() == i,
            all_wf(rs@),
            all_wf(values@),
            forall|j: int| 0 <= j < i ==> all_wf(#[trigger] negs@[j]@),
            forall|j: int| 0 <= j < i ==> all_wf(#[trigger] poss@[j]@),
            forall|j: int|
                0 <= j < i ==> vals(#[trigger] negs@[j]@) == sx_coeffs(
                    circuit.terms(),
                    nn,
                    input_challenge(inputs@[j].0),
                    field_inv(input_challenge(inputs@[j].0)),
                ).take(nn),
            forall|j: int|
                0 <= j < i ==> vals(#[trigger] poss@[j]@) == sx_coeffs(
                    circuit.terms(),
                    nn,
                    input_challenge(inputs@[j].0),
                    field_inv(input_challenge(inputs@[j].0)),
                ).skip(nn),
            forall|j: int| 0 <= j < i ==> (#[trigger] values@[j]) == c_openings@[j].1,
            forall|j: int| 0 <= j < i ==> (#[trigger] rs@[j]).val() == batch_weights(st, inputs.len() as nat)[j],
        decreases y_values.len() - i,
    {
        let (sn, sp) = match eval_s_at_y(circuit, &y_values[i]) {
            // every y_i is nonzero here, so the evaluation succeeds
            None => {
                proof {
                    assert(input_challenge(inputs@[i as int].0) != 0);
                    assert(false);
                }
                return (negs, poss, rs, values);
            },
            Some(p) => p,
        };
        let r = transcript.get_challenge_scalar();
        negs.push(sn);
        poss.push(sp);
        rs.push(r);
        values.push(c_openings[i].1);
        i = i + 1;
    }
    (negs, poss, rs, values)
}

/// Aggregates `inputs` for `circuit`, whose sizes `n` and `q` are known.
pub fn create_aggregate_on_srs_using_information(
    circuit: &Circuit,
    inputs: &Vec<(Proof, SxyAdvice)>,
    srs: &Srs,
    n: usize,
    q: usize,
) -> (r: Result<Aggregate, AggregateError>)
    requires
        n == circuit.n,
        q == circuit.constraints.len(),
        circuit.fits(),
        inputs_wf(inputs@),
        srs_covers(*srs, n as int, q as int),
    ensures
        aggregate_post(*circuit, inputs@, *srs, r),
{
    if !circuit.check() {
        return Err(AggregateError::Synthesis);
    }
    let mut transcript = Transcript::new();
    let y_values = input_challenges(inputs, &mut transcript);
    let z = transcript.get_challenge_scalar();
    let (s_neg, s_pos) = match eval_s_at_x(circuit, &z) {
        None => {
            return Err(AggregateError::NonInvertibleChallenge);
        },
        Some(p) => p,
    };
    proof {
        assert(vals(s_neg@).len() == s_neg@.len());
        assert(vals(s_pos@).len() == s_pos@.len());
    }
    let c0 = multiexp_into(G1::identity(), &srs.g_positive_x_alpha, 0, &s_pos);
    let c = multiexp_into(c0, &srs.g_negative_x_alpha, 0, &s_neg);
    proof {
        assert(c.bytes@ == commitment_of(*srs, *circuit, z.val()));
    }
    transcript.commit_point(&c);
    let ghost st = transcript@;
    let w = transcript.get_challenge_scalar();
    let value = match compute_value(&w, &s_pos, &s_neg) {
        None => {
            return Err(AggregateError::NonInvertibleChallenge);
        },
        Some(v) => v,
    };
    proof {
        crate::field::lemma_mod_of_canonical(value.val());
    }
    let opening = open_at(srs, &s_neg, &s_pos, &value, &w);
    let c_openings = match open_claims(circuit, inputs, srs, &y_values, &s_neg, &s_pos, &z) {
        Err(e) => {
            return Err(e);
        },
        Ok(v) => v,
    };
    let (negs, poss, rs, values) = batch_inputs(circuit, inputs, &y_values, &c_openings, &mut transcript, Ghost(st));
    let ghost nn = n as int;
    let (acc_neg, expected) = batch(&negs, &values, &rs, n);
    let (acc_pos, _) = batch(&poss, &values, &rs, 2 * n);
    let s_opening = open_at(srs, &acc_neg, &acc_pos, &expected, &z);
    let ghost zv = z.val();
    let ghost ys = Seq::new(inputs.len() as nat, |i: int| input_challenge(inputs@[i].0));
    let ghost vs = Seq::new(inputs.len() as nat, |i: int| fmod(sy_value(*circuit, zv, ys[i])));
    let ghost rsq = batch_weights(st, inputs.len() as nat);
    proof {
        assert(vals(values@) =~= vs);
        assert(vals(rs@) =~= rsq);
        assert(negs@.map_values(|p: Vec<Fe>| vals(p@)) =~= Seq::new(
            inputs.len() as nat,
            |i: int| sx_coeffs(circuit.terms(), nn, ys[i], field_inv(ys[i])).take(nn),
        ));
        assert(poss@.map_values(|p: Vec<Fe>| vals(p@)) =~= Seq::new(
            inputs.len() as nat,
            |i: int| sx_coeffs(circuit.terms(), nn, ys[i], field_inv(ys[i])).skip(nn),
        ));
        assert(!degenerate(*circuit, inputs@, *srs));
    }
    let agg = Aggregate { c, s_opening, c_openings, opening };
    Ok(agg)
}

/// Aggregates `inputs` for `circuit`, counting its sizes first.
pub fn create_aggregate_on_srs(circuit: &Circuit, inputs: &Vec<(Proof, SxyAdvice)>, srs: &Srs) -> (r:
    Result<Aggregate, AggregateError>)
    requires
        circuit.fits(),
        inputs_wf(inputs@),
        srs_covers(*srs, circuit.n as int, circuit.constraints.len() as int),
    ensures
        aggregate_post(*circuit, inputs@, *srs, r),
{
    let (n, q) = count(circuit);
    create_aggregate_on_srs_using_information(circuit, inputs, srs, n, q)
}

/// Aggregates `inputs` with the sizes recorded beside the reference table.
pub fn create_aggregate(circuit: &Circuit, inputs: &Vec<(Proof, SxyAdvice)>, params: &Parameters) -> (r:
    Result<Aggregate, AggregateError>)
    requires
        params.n == circuit.n,
        params.q == circuit.constraints.len(),
        circuit.fits(),
        inputs_wf(inputs@),
        srs_covers(params.srs, params.n as int, params.q as int),
    ensures
        aggregate_post(*circuit, inputs@, params.srs, r),
{
    create_aggregate_on_srs_using_information(circuit, inputs, &params.srs, params.n, params.q)
}

} // verus!
