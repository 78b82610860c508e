use pairing::bls12_381::{Fr, FrRepr, G1Affine, G1};
use pairing::{CurveAffine, CurveProjective, EncodedPoint, Field, PrimeField};
use sonic_aggregate::aggregate::{
    create_aggregate, create_aggregate_on_srs, create_aggregate_on_srs_using_information,
    AggregateError, Parameters, Proof, SxyAdvice,
};
use sonic_aggregate::batch::batch;
use sonic_aggregate::circuit::{count, eval_s_at_x, eval_s_at_y, power_table, Circuit, Term, Wire};
use sonic_aggregate::field::Fe;
use sonic_aggregate::group::{multiexp, G1 as Point};
use sonic_aggregate::kate::{open_at, Srs};
use sonic_aggregate::poly::{compute_value, kate_division};
use sonic_aggregate::transcript::Transcript;

fn fr(v: u64) -> Fr {
    Fr::from_repr(FrRepr::from(v)).unwrap()
}

fn fe(x: Fr) -> Fe {
    let l = x.into_repr().0;
    Fe::from_limbs(l[0], l[1], l[2], l[3]).unwrap()
}

fn to_fr(x: &Fe) -> Fr {
    let (a, b, c, d) = x.limbs();
    Fr::from_repr(FrRepr([a, b, c, d])).unwrap()
}

fn neg(x: Fr) -> Fr {
    let mut y = x;
    y.negate();
    y
}

fn add(a: Fr, b: Fr) -> Fr {
    let mut y = a;
    y.add_assign(&b);
    y
}

fn mul(a: Fr, b: Fr) -> Fr {
    let mut y = a;
    y.mul_assign(&b);
    y
}

fn pw(a: Fr, e: u64) -> Fr {
    a.pow([e])
}

fn inv(a: Fr) -> Fr {
    a.inverse().unwrap()
}

fn enc(p: G1Affine) -> Point {
    Point::from_uncompressed(p.into_uncompressed().as_ref().to_vec()).unwrap()
}

fn gen_times(k: Fr) -> G1Affine {
    G1Affine::one().mul(k).into_affine()
}

fn naive_msm(points: &[G1Affine], scalars: &[Fr]) -> G1Affine {
    let mut acc = G1::zero();
    for (p, s) in points.iter().zip(scalars.iter()) {
        acc.add_assign(&p.mul(*s));
    }
    acc.into_affine()
}

fn test_srs(len: u64) -> Srs {
    let x = fr(5);
    let alpha = fr(7);
    let xi = inv(x);
    let mut srs = Srs {
        g_negative_x: vec![],
        g_positive_x: vec![],
        g_negative_x_alpha: vec![],
        g_positive_x_alpha: vec![],
    };
    for i in 0..len {
        srs.g_positive_x.push(enc(gen_times(pw(x, i))));
        srs.g_negative_x.push(enc(gen_times(pw(xi, i))));
        srs.g_positive_x_alpha.push(enc(gen_times(mul(alpha, pw(x, i + 1)))));
        srs.g_negative_x_alpha.push(enc(gen_times(mul(alpha, pw(xi, i + 1)))));
    }
    srs
}

fn one_gate() -> Circuit {
    Circuit { n: 1, constraints: vec![] }
}

fn small_circuit() -> Circuit {
    Circuit {
        n: 2,
        constraints: vec![
            vec![
                Term { wire: Wire::A(1), coeff: Fe::from_u64(3) },
                Term { wire: Wire::B(2), coeff: Fe::from_u64(4) },
            ],
            vec![Term { wire: Wire::C(1), coeff: Fe::from_u64(5) }, Term { wire: Wire::A(1), coeff: Fe::from_u64(6) }],
        ],
    }
}

fn input(k: u64, j: u64) -> (Proof, SxyAdvice) {
    (Proof { r: enc(gen_times(fr(k))) }, SxyAdvice { s: enc(gen_times(fr(j))) })
}

#[test]
fn field_limbs_round_trip() {
    let x = fe(neg(fr(1)));
    assert_eq!(to_fr(&x), neg(fr(1)));
    assert!(Fe::from_limbs(0xffffffff00000001, 0x53bda402fffe5bfe, 0x3339d80809a1d805, 0x73eda753299d7d48).is_none());
    assert!(Fe::from_u64(0).is_zero());
    assert!(!Fe::one().is_zero());
}

#[test]
fn compute_value_matches_direct_evaluation() {
    let y = fr(2);
    let pos = vec![Fe::from_u64(2), Fe::from_u64(3)];
    let negv = vec![Fe::from_u64(5)];
    let v = compute_value(&fe(y), &pos, &negv).unwrap();
    let expected = add(mul(fr(5), inv(y)), add(mul(fr(2), y), mul(fr(3), pw(y, 2))));
    assert_eq!(to_fr(&v), expected);
    assert!(compute_value(&Fe::zero(), &pos, &negv).is_none());
}

#[test]
fn kate_division_of_known_product() {
    // X^2 + X - 6 = (X - 2)(X + 3)
    let a = vec![fe(neg(fr(6))), Fe::one(), Fe::one()];
    let q = kate_division(&a, &Fe::from_u64(2));
    assert_eq!(q.len(), 2);
    assert_eq!(to_fr(&q[0]), fr(3));
    assert_eq!(to_fr(&q[1]), fr(1));
}

#[test]
fn division_identity_at_test_points() {
    let coeffs: Vec<Fr> = (0..6u64).map(|i| fr(1000 + 37 * i * i + 11 * i)).collect();
    let z = fr(123457);
    let eval = |c: &[Fr], x: Fr| {
        let mut acc = Fr::zero();
        for (i, ci) in c.iter().enumerate() {
            acc.add_assign(&mul(*ci, pw(x, i as u64)));
        }
        acc
    };
    let fz = eval(&coeffs, z);
    let mut shifted: Vec<Fe> = coeffs.iter().map(|c| fe(*c)).collect();
    shifted[0] = fe(add(coeffs[0], neg(fz)));
    let q = kate_division(&shifted, &fe(z));
    let qf: Vec<Fr> = q.iter().map(to_fr).collect();
    for t in [fr(3), fr(99991), fr(424242)] {
        let lhs = add(eval(&coeffs, t), neg(fz));
        let rhs = mul(add(t, neg(z)), eval(&qf, t));
        assert_eq!(lhs, rhs);
    }
}

#[test]
fn multiexp_matches_naive_sum() {
    let sizes = [0usize, 1, 2, 7];
    for &size in sizes.iter() {
        let pts: Vec<G1Affine> = (0..size)
            .map(|i| if i == 3 { G1Affine::zero() } else { gen_times(fr(11 + i as u64 * 13)) })
            .collect();
        let sc: Vec<Fr> = (0..size).map(|i| if i == 1 { Fr::zero() } else { fr(5 + i as u64 * 7) }).collect();
        let r = multiexp(&pts.iter().map(|p| enc(*p)).collect(), &sc.iter().map(|s| fe(*s)).collect());
        assert_eq!(r, enc(naive_msm(&pts, &sc)));
    }
}

#[test]
fn transcript_is_deterministic_and_moves_on() {
    let p = enc(gen_times(fr(9)));
    let mut t1 = Transcript::new();
    let mut t2 = Transcript::new();
    t1.commit_point(&p);
    t2.commit_point(&p);
    let a = t1.get_challenge_scalar();
    assert_eq!(a, t2.get_challenge_scalar());
    let b = t1.get_challenge_scalar();
    assert_ne!(a, b);
    let mut t3 = Transcript::new();
    t3.commit_point(&enc(gen_times(fr(10))));
    assert_ne!(a, t3.get_challenge_scalar());
}

#[test]
fn evaluators_on_one_gate() {
    let x = fr(3);
    let (n1, p1) = eval_s_at_x(&one_gate(), &fe(x)).unwrap();
    assert_eq!(n1.len(), 1);
    assert_eq!(p1.len(), 1);
    assert_eq!(to_fr(&n1[0]), neg(pw(x, 2)));
    assert_eq!(to_fr(&p1[0]), neg(pw(x, 2)));
    let (n2, p2) = eval_s_at_y(&one_gate(), &fe(x)).unwrap();
    assert_eq!(n2.len(), 1);
    assert_eq!(p2.len(), 2);
    assert_eq!(to_fr(&n2[0]), Fr::zero());
    assert_eq!(to_fr(&p2[0]), Fr::zero());
    assert_eq!(to_fr(&p2[1]), neg(add(x, inv(x))));
    assert!(eval_s_at_x(&one_gate(), &Fe::zero()).is_none());
}

#[test]
fn evaluators_with_constraints() {
    let c = small_circuit();
    assert_eq!(count(&c), (2, 2));
    let x = fr(3);
    let (_, p) = eval_s_at_x(&c, &fe(x)).unwrap();
    assert_eq!(p.len(), 4);
    // constraint 1: 3 * x^-1 + 4 * x^2 ; constraint 2: 5 * x^(1+2) + 6 * x^-1
    assert_eq!(to_fr(&p[2]), add(mul(fr(3), inv(x)), mul(fr(4), pw(x, 2))));
    assert_eq!(to_fr(&p[3]), add(mul(fr(5), pw(x, 3)), mul(fr(6), inv(x))));
    let y = fr(2);
    let (nx, px) = eval_s_at_y(&c, &fe(y)).unwrap();
    // X^-1: 3 y^3 + 6 y^4 ; X^2: 4 y^3 ; X^3: -y - 1/y + 5 y^4
    assert_eq!(to_fr(&nx[0]), add(mul(fr(3), pw(y, 3)), mul(fr(6), pw(y, 4))));
    assert_eq!(to_fr(&nx[1]), Fr::zero());
    assert_eq!(to_fr(&px[1]), mul(fr(4), pw(y, 3)));
    assert_eq!(to_fr(&px[2]), add(neg(add(y, inv(y))), mul(fr(5), pw(y, 4))));
    assert_eq!(to_fr(&px[3]), neg(add(pw(y, 2), inv(pw(y, 2)))));
}

#[test]
fn power_table_values() {
    let t = power_table(&Fe::from_u64(3), 4);
    assert_eq!(t, vec![Fe::from_u64(1), Fe::from_u64(3), Fe::from_u64(9), Fe::from_u64(27)]);
}

#[test]
fn batch_scales_linearly() {
    let polys = vec![vec![Fe::from_u64(1), Fe::from_u64(2)], vec![Fe::from_u64(3)]];
    let values = vec![Fe::from_u64(4), Fe::from_u64(5)];
    let rs = vec![Fe::from_u64(10), Fe::from_u64(100)];
    let (acc, ev) = batch(&polys, &values, &rs, 3);
    assert_eq!(acc, vec![Fe::from_u64(310), Fe::from_u64(20), Fe::zero()]);
    assert_eq!(ev, Fe::from_u64(540));
    let scaled: Vec<Vec<Fe>> = polys.iter().map(|p| p.iter().map(|c| fe(mul(to_fr(c), fr(7)))).collect()).collect();
    let svals: Vec<Fe> = values.iter().map(|v| fe(mul(to_fr(v), fr(7)))).collect();
    let (acc2, ev2) = batch(&scaled, &svals, &rs, 3);
    for i in 0..3 {
        assert_eq!(to_fr(&acc2[i]), mul(to_fr(&acc[i]), fr(7)));
    }
    assert_eq!(to_fr(&ev2), mul(to_fr(&ev), fr(7)));
}

#[test]
fn opening_of_a_polynomial_checks_against_the_table() {
    // f(X) = 2 X^-1 + 3 X; opening at z is g^{q(x)} with f(X) - f(z) = (X - z) q(X)
    let srs = test_srs(4);
    let z = fr(4);
    let negv = vec![Fe::from_u64(2)];
    let pos = vec![Fe::from_u64(3)];
    let v = compute_value(&fe(z), &pos, &negv).unwrap();
    let op = open_at(&srs, &negv, &pos, &v, &fe(z));
    let x = fr(5);
    let fx = add(mul(fr(2), inv(x)), mul(fr(3), x));
    let qx = mul(add(fx, neg(to_fr(&v))), inv(add(x, neg(z))));
    assert_eq!(op, enc(gen_times(qx)));
}

#[test]
fn empty_batch() {
    let srs = test_srs(6);
    let c = small_circuit();
    let a = create_aggregate_on_srs(&c, &vec![], &srs).unwrap();
    assert!(a.c_openings.is_empty());
    let mut t = Transcript::new();
    let z = t.get_challenge_scalar();
    let zero_n = vec![Fe::zero(); 2];
    let zero_2n = vec![Fe::zero(); 4];
    assert_eq!(a.s_opening, open_at(&srs, &zero_n, &zero_2n, &Fe::zero(), &z));
    assert_eq!(a.s_opening, Point::identity());
}

#[test]
fn single_input_scenario() {
    let srs = test_srs(4);
    let (proof, advice) = input(21, 22);
    let inputs = vec![input(21, 22)];
    let a = create_aggregate_on_srs(&one_gate(), &inputs, &srs).unwrap();
    let mut own = Transcript::new();
    own.commit_point(&proof.r);
    let y = to_fr(&own.get_challenge_scalar());
    let mut master = Transcript::new();
    master.commit_point(&advice.s);
    let z = to_fr(&master.get_challenge_scalar());
    // s(z, Y) = -z^2 Y^-1 - z^2 Y; committed with alpha x^{-1} and alpha x
    let x = fr(5);
    let alpha = fr(7);
    let sz = mul(alpha, add(mul(neg(pw(z, 2)), x), mul(neg(pw(z, 2)), inv(x))));
    assert_eq!(a.c, enc(gen_times(sz)));
    let vy = add(mul(neg(pw(z, 2)), inv(y)), mul(neg(pw(z, 2)), y));
    assert_eq!(a.c_openings.len(), 1);
    assert_eq!(to_fr(&a.c_openings[0].1), vy);
    // the opening at y: quotient of s(z, X) - v by (X - y), evaluated at x
    let fx = add(mul(neg(pw(z, 2)), inv(x)), mul(neg(pw(z, 2)), x));
    let qx = mul(add(fx, neg(vy)), inv(add(x, neg(y))));
    assert_eq!(a.c_openings[0].0, enc(gen_times(qx)));
}

#[test]
fn aggregation_is_deterministic() {
    let srs = test_srs(6);
    let inputs = vec![input(3, 4), input(5, 6)];
    let a = create_aggregate_on_srs(&small_circuit(), &inputs, &srs).unwrap();
    let b = create_aggregate_on_srs(&small_circuit(), &inputs, &srs).unwrap();
    assert_eq!(a.c, b.c);
    assert_eq!(a.s_opening, b.s_opening);
    assert_eq!(a.c_openings, b.c_openings);
    assert_eq!(a.opening, b.opening);
    let params = Parameters { srs: test_srs(6), n: 2, q: 2 };
    let p = create_aggregate(&small_circuit(), &inputs, &params).unwrap();
    assert_eq!(p.c_openings, a.c_openings);
    let u = create_aggregate_on_srs_using_information(&small_circuit(), &inputs, &srs, 2, 2).unwrap();
    assert_eq!(u.s_opening, a.s_opening);
}

#[test]
fn changing_one_proof_leaves_the_others() {
    let srs = test_srs(6);
    let a = create_aggregate_on_srs(&small_circuit(), &vec![input(3, 4), input(5, 6)], &srs).unwrap();
    let b = create_aggregate_on_srs(&small_circuit(), &vec![input(3, 4), input(8, 6)], &srs).unwrap();
    assert_eq!(a.c, b.c);
    assert_eq!(a.opening, b.opening);
    assert_eq!(a.c_openings[0], b.c_openings[0]);
    assert_ne!(a.c_openings[1], b.c_openings[1]);
    assert_ne!(a.s_opening, b.s_opening);
}

#[test]
fn inconsistent_circuit_is_a_synthesis_error() {
    let srs = test_srs(6);
    let c = Circuit { n: 1, constraints: vec![vec![Term { wire: Wire::B(2), coeff: Fe::one() }]] };
    let r = create_aggregate_on_srs(&c, &vec![input(3, 4)], &srs);
    assert!(matches!(r, Err(AggregateError::Synthesis)));
    let c0 = Circuit { n: 1, constraints: vec![vec![Term { wire: Wire::A(0), coeff: Fe::one() }]] };
    assert!(!c0.check());
    assert!(small_circuit().check());
}

#[test]
fn point_decoding_accepts_only_subgroup_encodings() {
    assert!(Point::from_uncompressed(vec![0u8; 95]).is_none());
    let mut bad = G1Affine::one().into_uncompressed().as_ref().to_vec();
    bad[95] ^= 1;
    assert!(Point::from_uncompressed(bad).is_none());
    let good = G1Affine::one().into_uncompressed().as_ref().to_vec();
    assert_eq!(Point::from_uncompressed(good.clone()).unwrap().bytes, good);
}

#[test]
fn identity_is_the_point_at_infinity() {
    let mut expected = vec![0u8; 96];
    expected[0] = 0x40;
    assert_eq!(Point::identity().bytes, expected);
    assert_eq!(Point::identity(), enc(G1Affine::zero()));
}
