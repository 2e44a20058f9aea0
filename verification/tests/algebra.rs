use plonk_fold::{CommitmentKey, GroupElem, Monomial, MultiPolynomial, Scalar, FIELD_MODULUS};

#[test]
fn scalar_new_reduces() {
    assert_eq!(Scalar::new(FIELD_MODULUS + 5).v, 5);
    assert_eq!(Scalar::new(FIELD_MODULUS).v, 0);
    assert_eq!(Scalar::new(7).v, 7);
}

#[test]
fn scalar_add_wraps() {
    let a = Scalar::new(FIELD_MODULUS - 1);
    let b = Scalar::new(1);
    assert_eq!(a.add_fp(b).v, 0);
    assert_eq!(Scalar::new(3).add_fp(Scalar::new(4)).v, 7);
}

#[test]
fn scalar_sub_wraps() {
    assert_eq!(Scalar::new(3).sub_fp(Scalar::new(5)).v, FIELD_MODULUS - 2);
    assert_eq!(Scalar::new(5).sub_fp(Scalar::new(5)).v, 0);
}

#[test]
fn scalar_mul_exact() {
    // 2^16 * 2^16 = 2^32 == 2 modulo the Mersenne prime 2^31 - 1.
    let a = Scalar::new(1 << 16);
    assert_eq!(a.mul_fp(a).v, 2);
    assert_eq!(Scalar::new(6).mul_fp(Scalar::new(7)).v, 42);
}

#[test]
fn scalar_pow_exact() {
    assert_eq!(Scalar::new(3).pow_fp(5).v, 243);
    assert_eq!(Scalar::new(2).pow_fp(31).v, 1);  // 2^31 = 2p + 2 == 1 mod p
    assert_eq!(Scalar::new(10).pow_fp(0).v, 1);
}

#[test]
fn group_ops_exact() {
    let two = GroupElem { v: 2 };
    let three = GroupElem { v: 3 };
    assert_eq!(two.combine(three).v, 6);
    assert_eq!(GroupElem::identity().combine(three).v, 3);
    assert_eq!(two.scale(Scalar::new(10)).v, 1024);
    assert_eq!(two.scale(Scalar::zero()).v, 1);
}

#[test]
fn commit_matches_generator_product() {
    let ck = CommitmentKey::setup(2);
    let vals = vec![Scalar::new(5), Scalar::new(9)];
    let expected = ck.gens[0].scale(Scalar::new(5)).combine(ck.gens[1].scale(Scalar::new(9)));
    assert_eq!(ck.commit(&vals), expected);
}

#[test]
fn commit_of_zeros_is_identity() {
    let ck = CommitmentKey::setup(4);
    let vals = vec![Scalar::zero(); 4];
    assert_eq!(ck.commit(&vals).v, 1);
    assert_eq!(CommitmentKey::default_value().v, 1);
}

#[test]
fn commit_detects_single_change() {
    let ck = CommitmentKey::setup(3);
    let a = vec![Scalar::new(1), Scalar::new(2), Scalar::new(3)];
    let mut b = a.clone();
    b[1] = Scalar::new(4);
    assert_ne!(ck.commit(&a), ck.commit(&b));
}

fn mono(c: u64, exps: Vec<u64>) -> Monomial {
    Monomial { coeff: Scalar::new(c), exps }
}

// x0^2 * x1 + 3 * x2, three variables, no fixed columns.
fn sample_poly() -> MultiPolynomial {
    MultiPolynomial {
        arity: 3,
        monomials: vec![mono(1, vec![2, 1, 0]), mono(3, vec![0, 0, 1])],
    }
}

#[test]
fn poly_eval_exact() {
    let p = sample_poly();
    let vals = vec![Scalar::new(2), Scalar::new(5), Scalar::new(7)];
    // 2^2 * 5 + 3 * 7 = 41
    assert_eq!(p.eval(&vals).v, 41);
}

#[test]
fn homogeneous_pads_to_common_degree() {
    let p = sample_poly();
    // Scaling variable appended at index 3; degrees are 3 and 1, so the
    // second monomial gains u^2.
    let q = p.homogeneous(0, 3);
    assert_eq!(q.arity, 4);
    assert_eq!(q.monomials[0].exps, vec![2, 1, 0, 0]);
    assert_eq!(q.monomials[1].exps, vec![0, 0, 1, 2]);
}

#[test]
fn homogeneous_twice_is_once() {
    let p = sample_poly();
    let q1 = p.homogeneous(0, 3);
    let q2 = q1.homogeneous(0, 3);
    assert_eq!(q1, q2);
}

#[test]
fn homogeneous_preserves_eval_at_one() {
    let p = sample_poly();
    let q = p.homogeneous(0, 3);
    let plain = vec![Scalar::new(2), Scalar::new(5), Scalar::new(7)];
    let mut relaxed = plain.clone();
    relaxed.push(Scalar::one());
    assert_eq!(q.eval(&relaxed), p.eval(&plain));
}

#[test]
fn homogeneous_scales_by_u_degree() {
    let p = sample_poly();
    let q = p.homogeneous(0, 3);
    // With u = 2 every monomial of degree-3 homogeneous q picks up the
    // factor 2^(3 - original degree).
    let mut vals = vec![Scalar::new(2), Scalar::new(5), Scalar::new(7)];
    vals.push(Scalar::new(2));
    // 2^2*5*2^0 + 3*7*2^2 = 20 + 84 = 104
    assert_eq!(q.eval(&vals).v, 104);
}

#[test]
fn combine_gates_weights_by_challenge_powers() {
    // Two gates over (x0, x1, y): g1 = x0, g2 = x1; combined = x0*y + x1.
    let g1 = MultiPolynomial { arity: 3, monomials: vec![mono(1, vec![1, 0, 0])] };
    let g2 = MultiPolynomial { arity: 3, monomials: vec![mono(1, vec![0, 1, 0])] };
    let combined = plonk_fold::poly::combine_gates(&vec![g1, g2], 3, 2);
    assert_eq!(combined.monomials.len(), 2);
    assert_eq!(combined.monomials[0].exps, vec![1, 0, 1]);
    assert_eq!(combined.monomials[1].exps, vec![0, 1, 0]);
    // at x0=5, x1=3, y=10: 5*10 + 3 = 53
    let vals = vec![Scalar::new(5), Scalar::new(3), Scalar::new(10)];
    assert_eq!(combined.eval(&vals).v, 53);
}
