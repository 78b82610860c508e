//! Properties of aggregation that relate several runs.
use crate::aggregate::{
    Aggregate, AggregateError, Proof, SxyAdvice, advice_state, aggregate_post, input_challenge,
    shared_point,
};
use crate::batch::{batched, batched_coeffs, batched_value};
use crate::circuit::Circuit;
use crate::field::Fe;
use crate::group::G1;
use crate::kate::{Srs, opening_of};
use vstd::prelude::*;

verus! {

/// What an aggregate holds, as plain values.
pub open spec fn aggregate_view(a: Aggregate) -> (Seq<u8>, Seq<u8>, Seq<(Seq<u8>, int)>, Seq<u8>) {
    (
        a.c.bytes@,
        a.s_opening.bytes@,
        a.c_openings@.map_values(|p: (G1, Fe)| (p.0.bytes@, p.1.val())),
        a.opening.bytes@,
    )
}

pub open spec fn outcome_view(r: Result<Aggregate, AggregateError>) -> Result<
    (Seq<u8>, Seq<u8>, Seq<(Seq<u8>, int)>, Seq<u8>),
    AggregateError,
> {
    match r {
        Ok(a) => Ok(aggregate_view(a)),
        Err(e) => Err(e),
    }
}

/// Determinism: two aggregations of the same circuit, inputs and reference
/// table give the same outcome.
pub proof fn lemma_determinism(
    c: Circuit,
    inputs: Seq<(Proof, SxyAdvice)>,
    srs: Srs,
    r1: Result<Aggregate, AggregateError>,
    r2: Result<Aggregate, AggregateError>,
)
    requires
        aggregate_post(c, inputs, srs, r1),
        aggregate_post(c, inputs, srs, r2),
    ensures
        outcome_view(r1) == outcome_view(r2),
{
    if r1 is Ok && r2 is Ok {
        let a1 = r1->Ok_0;
        let a2 = r2->Ok_0;
        assert(aggregate_view(a1).2 =~= aggregate_view(a2).2);
    }
}

proof fn lemma_advice_state_same(a: Seq<(Proof, SxyAdvice)>, b: Seq<(Proof, SxyAdvice)>)
    requires
        a.len() == b.len(),
        forall|i: int| 0 <= i < a.len() ==> (#[trigger] a[i]).1.s.bytes@ == b[i].1.s.bytes@,
    ensures
        advice_state(a) == advice_state(b),
    decreases a.len(),
{
    if a.len() > 0 {
        lemma_advice_state_same(a.drop_last(), b.drop_last());
    }
}

/// Challenge isolation: when two input lists differ only in the proof
/// commitment at index `k`, every other input keeps its challenge, and the
/// commitment, the opening at the fresh point, and every other input's
/// claimed value and opening stay the same.
pub proof fn lemma_challenge_isolation(
    c: Circuit,
    srs: Srs,
    in1: Seq<(Proof, SxyAdvice)>,
    in2: Seq<(Proof, SxyAdvice)>,
    k: int,
    a1: Aggregate,
    a2: Aggregate,
)
    requires
        in1.len() == in2.len(),
        0 <= k < in1.len(),
        forall|i: int| 0 <= i < in1.len() ==> (#[trigger] in1[i]).1.s.bytes@ == in2[i].1.s.bytes@,
        forall|i: int| 0 <= i < in1.len() && i != k ==> (#[trigger] in1[i]).0.r.bytes@ == in2[i].0.r.bytes@,
        aggregate_post(c, in1, srs, Ok(a1)),
        aggregate_post(c, in2, srs, Ok(a2)),
    ensures
        forall|i: int|
            0 <= i < in1.len() && i != k ==> input_challenge(#[trigger] in1[i].0) == input_challenge(in2[i].0),
        shared_point(in1) == shared_point(in2),
        a1.c.bytes@ == a2.c.bytes@,
        a1.opening.bytes@ == a2.opening.bytes@,
        forall|i: int|
            0 <= i < in1.len() && i != k ==> (#[trigger] a1.c_openings@[i]).1.val() == a2.c_openings@[i].1.val()
                && a1.c_openings@[i].0.bytes@ == a2.c_openings@[i].0.bytes@,
{
    lemma_advice_state_same(in1, in2);
    assert forall|i: int| 0 <= i < in1.len() && i != k implies (#[trigger] a1.c_openings@[i]).1.val()
        == a2.c_openings@[i].1.val() && a1.c_openings@[i].0.bytes@ == a2.c_openings@[i].0.bytes@ by {
        assert(input_challenge(in1[i].0) == input_challenge(in2[i].0));
    }
}

/// With no inputs, there are no claimed openings, and the batched opening is
/// that of the zero polynomial (negative half of length `n`, positive half
/// of length `2n`) to the value zero at `z`.
pub proof fn lemma_empty_batch(c: Circuit, srs: Srs, a: Aggregate)
    requires
        aggregate_post(c, Seq::empty(), srs, Ok(a)),
    ensures
        a.c_openings.len() == 0,
        a.s_opening.bytes@ == opening_of(
            srs,
            Seq::new(c.n as nat, |j: int| 0int),
            Seq::new((2 * c.n) as nat, |j: int| 0int),
            0,
            shared_point(Seq::empty()),
        ),
{
    vstd::arithmetic::div_mod::lemma_small_mod(0, crate::field::field_modulus() as nat);
    assert forall|ps: Seq<Seq<int>>, rs: Seq<int>, len: nat| ps.len() == 0 implies batched_coeffs(
        ps,
        rs,
        len,
    ) =~= Seq::new(len, |j: int| 0int) by {
        assert forall|j: int| 0 <= j < len implies batched(ps, rs, j) == 0 by {}
    }
    assert forall|vs: Seq<int>, rs: Seq<int>| vs.len() == 0 implies batched_value(vs, rs) == 0 by {}
}

} // verus!
