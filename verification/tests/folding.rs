use plonk_fold::{
    CommitmentKey, GroupElem, Monomial, MultiPolynomial, PlonkInstance, PlonkWitness,
    RandomOracleBuffer, RelaxedPlonkInstance, RelaxedPlonkWitness, RoValue, SatError, Scalar,
    TableData, TableError,
};

fn mono(c: u64, exps: Vec<u64>) -> Monomial {
    Monomial { coeff: Scalar::new(c), exps }
}

// The running-sum circuit: k = 4 (16 rows), one fixed selector column s,
// three advice columns (inp, acc_prev, acc_next), one gate
//     s * (acc_prev * challenge + inp - acc_next)
// with challenge fixed to 1, inputs 1..=9 and public output 45.
// Variables: 0 = s, 1 = inp, 2 = acc_prev, 3 = acc_next, 4 = y.
fn rlc_gate() -> MultiPolynomial {
    MultiPolynomial {
        arity: 5,
        monomials: vec![
            mono(1, vec![1, 0, 1, 0, 0]),
            mono(1, vec![1, 1, 0, 0, 0]),
            mono(plonk_fold::FIELD_MODULUS - 1, vec![1, 0, 0, 1, 0]),
        ],
    }
}

// Plays the circuit adapter: fills the table from the inputs and the
// recorded challenge, reading the public output back out of the instance.
fn synthesize_rlc(td: &mut TableData, inputs: &[u64]) {
    td.prepare_columns(1, 3);
    let r = td.get_challenge(0).unwrap();
    let mut acc = Scalar::zero();
    for (row, inp) in inputs.iter().enumerate() {
        let inp = Scalar::new(*inp);
        let next = acc.mul_fp(r).add_fp(inp);
        td.assign_fixed(0, row, Scalar::one()).unwrap();
        td.assign_advice(0, row, inp).unwrap();
        td.assign_advice(1, row, acc).unwrap();
        td.assign_advice(2, row, next).unwrap();
        acc = next;
    }
    // The final accumulator must reproduce the public output.
    assert_eq!(acc, td.query_instance(0, 0).unwrap());
}

fn rlc_table() -> TableData {
    let mut td = TableData::new(4, vec![Scalar::new(45), Scalar::zero()]);
    td.set_challenge(0, Scalar::one());
    let inputs: Vec<u64> = (1..10).collect();
    synthesize_rlc(&mut td, &inputs);
    td
}

fn rlc_setup() -> (CommitmentKey, plonk_fold::PlonkStructure, PlonkInstance, PlonkWitness) {
    let ck = CommitmentKey::setup(48);
    let td = rlc_table();
    let s = td.plonk_structure(&ck, &vec![rlc_gate()]);
    let u = td.plonk_instance(&ck);
    let w = td.plonk_witness();
    (ck, s, u, w)
}

#[test]
fn end_to_end_running_sum_satisfies() {
    let (ck, s, u, w) = rlc_setup();
    assert_eq!(s.is_sat(&ck, &u, &w), Ok(()));
}

#[test]
fn end_to_end_stale_witness_commitment_detected() {
    // Corrupt one advice cell, re-derive the instance (the commitment is
    // recomputed honestly) but keep the old witness: the commitment check
    // fires.
    let ck = CommitmentKey::setup(48);
    let td = rlc_table();
    let s = td.plonk_structure(&ck, &vec![rlc_gate()]);
    let w_old = td.plonk_witness();
    let mut corrupted = td;
    corrupted.assign_advice(0, 3, Scalar::new(1000)).unwrap();
    let u_new = corrupted.plonk_instance(&ck);
    match s.is_sat(&ck, &u_new, &w_old) {
        Err(SatError::CommitmentMismatchW { expected, actual }) => {
            assert_eq!(expected, u_new.W_commitment);
            assert_ne!(expected, actual);
        }
        other => panic!("expected a W commitment mismatch, got {:?}", other),
    }
}

#[test]
fn end_to_end_wrong_gate_violates_relation() {
    // An off-by-one column index inside a gate: the relation fails on every
    // selector row with a non-trivial accumulator.
    let ck = CommitmentKey::setup(48);
    let td = rlc_table();
    let bad_gate = MultiPolynomial {
        arity: 5,
        monomials: vec![
            mono(1, vec![1, 0, 1, 0, 0]),
            mono(1, vec![1, 0, 1, 0, 0]),
            mono(plonk_fold::FIELD_MODULUS - 1, vec![1, 0, 0, 1, 0]),
        ],
    };
    let s = td.plonk_structure(&ck, &vec![bad_gate]);
    let u = td.plonk_instance(&ck);
    let w = td.plonk_witness();
    match s.is_sat(&ck, &u, &w) {
        Err(SatError::RelationViolated { failing_rows, total_rows }) => {
            assert!(failing_rows > 0);
            assert_eq!(total_rows, 16);
        }
        other => panic!("expected a relation violation, got {:?}", other),
    }
}

#[test]
fn tamper_outside_active_rows_still_detected() {
    // Changing an advice cell on a row where the selector is zero keeps the
    // relation numerically true on every row; only the commitment check can
    // catch it, and does.
    let (ck, s, u, w) = rlc_setup();
    let mut w2 = w.clone();
    w2.W[12] = Scalar::new(7);  // column 0 (inp), row 12: selector is 0 there
    match s.is_sat(&ck, &u, &w2) {
        Err(SatError::CommitmentMismatchW { .. }) => {}
        other => panic!("expected a W commitment mismatch, got {:?}", other),
    }
}

#[test]
fn lift_preserves_satisfiability() {
    let (ck, s, u, w) = rlc_setup();
    assert_eq!(s.is_sat(&ck, &u, &w), Ok(()));
    assert_eq!(s.is_sat_relaxed(&ck, &u.to_relax(), &w.to_relax()), Ok(()));

    // And an unsatisfying pair stays unsatisfying under the lift.
    let mut w_bad = w.clone();
    w_bad.W[12] = Scalar::new(7);
    assert!(s.is_sat(&ck, &u, &w_bad).is_err());
    assert!(s.is_sat_relaxed(&ck, &u.to_relax(), &w_bad.to_relax()).is_err());
}

#[test]
fn neutral_fold_keeps_accumulator() {
    let (ck, _s, u, w) = rlc_setup();
    let acc = u.to_relax();
    let wacc = w.to_relax();
    let cross_commits = vec![ck.gens[0], ck.gens[1]];
    let folded = acc.fold(&u, &cross_commits, &Scalar::zero());
    assert_eq!(folded, acc);

    let cross_terms = vec![vec![Scalar::new(3); 16], vec![Scalar::new(8); 16]];
    let folded_w = wacc.fold(&w, &cross_terms, &Scalar::zero());
    assert_eq!(folded_w, wacc);
}

#[test]
fn relaxed_commitment_mismatches_reported_separately() {
    let (ck, s, u, w) = rlc_setup();
    let ur = u.to_relax();
    let wr = w.to_relax();
    let wrong = ck.gens[5];

    let mut bad_e = ur.clone();
    bad_e.E_commitment = wrong;
    assert!(matches!(
        s.is_sat_relaxed(&ck, &bad_e, &wr),
        Err(SatError::CommitmentMismatchE { .. })
    ));

    let mut bad_w = ur.clone();
    bad_w.W_commitment = wrong;
    assert!(matches!(
        s.is_sat_relaxed(&ck, &bad_w, &wr),
        Err(SatError::CommitmentMismatchW { .. })
    ));

    let mut bad_both = ur.clone();
    bad_both.W_commitment = wrong;
    bad_both.E_commitment = wrong;
    assert!(matches!(
        s.is_sat_relaxed(&ck, &bad_both, &wr),
        Err(SatError::CommitmentMismatchBoth { .. })
    ));
}

// The multiplication circuit used to exercise a quadratic gate and a real
// cross term: k = 2 (4 rows), selector s, advice (a, b, c), gate
// s * (a*b - c).  Variables: 0 = s, 1 = a, 2 = b, 3 = c, 4 = y.
fn mul_gate() -> MultiPolynomial {
    MultiPolynomial {
        arity: 5,
        monomials: vec![
            mono(1, vec![1, 1, 1, 0, 0]),
            mono(plonk_fold::FIELD_MODULUS - 1, vec![1, 0, 0, 1, 0]),
        ],
    }
}

fn mul_table(a: [u64; 4], b: [u64; 4]) -> TableData {
    let mut td = TableData::new(2, vec![Scalar::new(a[0] * b[0]), Scalar::zero()]);
    td.prepare_columns(1, 3);
    for row in 0..4 {
        td.assign_fixed(0, row, Scalar::one()).unwrap();
        td.assign_advice(0, row, Scalar::new(a[row])).unwrap();
        td.assign_advice(1, row, Scalar::new(b[row])).unwrap();
        td.assign_advice(2, row, Scalar::new(a[row] * b[row])).unwrap();
    }
    td
}

#[test]
fn fold_commit_consistency_quadratic_gate() {
    let ck = CommitmentKey::setup(12);
    let td1 = mul_table([2, 3, 4, 5], [5, 6, 7, 8]);
    let td2 = mul_table([1, 2, 3, 4], [3, 4, 5, 6]);
    let s = td1.plonk_structure(&ck, &vec![mul_gate()]);
    let (u1, w1) = (td1.plonk_instance(&ck), td1.plonk_witness());
    let (u2, w2) = (td2.plonk_instance(&ck), td2.plonk_witness());
    assert_eq!(s.is_sat(&ck, &u1, &w1), Ok(()));
    assert_eq!(s.is_sat(&ck, &u2, &w2), Ok(()));

    let acc = u1.to_relax();
    let wacc = w1.to_relax();
    assert_eq!(s.is_sat_relaxed(&ck, &acc, &wacc), Ok(()));

    // The homogenized gate has degree 2, so there is a single cross-term
    // vector: T(Z1, Z2) = q(Z1 + Z2) - q(Z1) - q(Z2) row by row, over the
    // folded variables (advice, challenge, scaling factor).
    let q = s.gate.homogeneous(1, 5);
    let mut cross = Vec::new();
    for row in 0..4 {
        let z1 = |col: usize| wacc.W[col * 4 + row];
        let z2 = |col: usize| w2.W[col * 4 + row];
        let z12 = |col: usize| z1(col).add_fp(z2(col));
        let at = |f: &dyn Fn(usize) -> Scalar, y: Scalar, uu: Scalar| {
            q.eval(&vec![Scalar::one(), f(0), f(1), f(2), y, uu])
        };
        let y1 = acc.y;
        let y2 = u2.y;
        let u_1 = acc.u;
        let u_2 = Scalar::one();
        let t = at(&z12, y1.add_fp(y2), u_1.add_fp(u_2))
            .sub_fp(at(&z1, y1, u_1))
            .sub_fp(at(&z2, y2, u_2));
        cross.push(t);
    }
    let cross_commit = ck.commit(&cross);

    let r = Scalar::new(7);
    let folded_u = acc.fold(&u2, &vec![cross_commit], &r);
    let folded_w = wacc.fold(&w2, &vec![cross.clone()], &r);
    assert_eq!(s.is_sat_relaxed(&ck, &folded_u, &folded_w), Ok(()));

    // Folding twice with fresh randomness still satisfies.
    let td3 = mul_table([7, 1, 2, 9], [2, 8, 5, 3]);
    let (u3, w3) = (td3.plonk_instance(&ck), td3.plonk_witness());
    assert_eq!(s.is_sat(&ck, &u3, &w3), Ok(()));
    let mut cross2 = Vec::new();
    for row in 0..4 {
        let z1 = |col: usize| folded_w.W[col * 4 + row];
        let z2 = |col: usize| w3.W[col * 4 + row];
        let z12 = |col: usize| z1(col).add_fp(z2(col));
        let at = |f: &dyn Fn(usize) -> Scalar, y: Scalar, uu: Scalar| {
            q.eval(&vec![Scalar::one(), f(0), f(1), f(2), y, uu])
        };
        let t = at(&z12, folded_u.y.add_fp(u3.y), folded_u.u.add_fp(Scalar::one()))
            .sub_fp(at(&z1, folded_u.y, folded_u.u))
            .sub_fp(at(&z2, u3.y, Scalar::one()));
        cross2.push(t);
    }
    let cross2_commit = ck.commit(&cross2);
    let r2 = Scalar::new(12345);
    let folded_u2 = folded_u.fold(&u3, &vec![cross2_commit], &r2);
    let folded_w2 = folded_w.fold(&w3, &vec![cross2], &r2);
    assert_eq!(s.is_sat_relaxed(&ck, &folded_u2, &folded_w2), Ok(()));
}

#[test]
fn empty_accumulator_is_neutral_relaxed_pair() {
    let ck = CommitmentKey::setup(12);
    let td = mul_table([2, 3, 4, 5], [5, 6, 7, 8]);
    let s = td.plonk_structure(&ck, &vec![mul_gate()]);
    let acc = RelaxedPlonkInstance::new(2);
    let wacc = RelaxedPlonkWitness::new(2, 3);
    assert_eq!(s.is_sat_relaxed(&ck, &acc, &wacc), Ok(()));
}

#[test]
fn absorption_order_is_fixed() {
    let (_ck, s, u, _w) = rlc_setup();
    let mut ro = RandomOracleBuffer::new();
    s.absorb_into(&mut ro);
    assert_eq!(ro.log, vec![RoValue::Point(s.fixed_commitment)]);

    let mut ro = RandomOracleBuffer::new();
    u.absorb_into(&mut ro);
    assert_eq!(
        ro.log,
        vec![
            RoValue::Point(u.W_commitment),
            RoValue::Base(u.instance[0]),
            RoValue::Base(u.instance[1]),
        ]
    );

    let ur = u.to_relax();
    let mut ro = RandomOracleBuffer::new();
    ur.absorb_into(&mut ro);
    assert_eq!(
        ro.log,
        vec![
            RoValue::Point(ur.W_commitment),
            RoValue::Base(ur.instance[0]),
            RoValue::Base(ur.instance[1]),
            RoValue::Base(ur.u),
            RoValue::Point(ur.E_commitment),
        ]
    );
}

#[test]
fn table_rejects_out_of_range_cells() {
    let mut td = TableData::new(2, vec![Scalar::new(1), Scalar::zero()]);
    td.prepare_columns(1, 2);
    assert_eq!(td.assign_advice(5, 0, Scalar::one()), Err(TableError::BoundsFailure));
    assert_eq!(td.assign_advice(0, 4, Scalar::one()), Err(TableError::BoundsFailure));
    assert_eq!(td.assign_fixed(0, 99, Scalar::one()), Err(TableError::BoundsFailure));
    assert_eq!(td.assign_advice(1, 3, Scalar::one()), Ok(()));
    assert_eq!(td.query_instance(0, 7), Err(TableError::BoundsFailure));
    assert_eq!(td.query_instance(0, 0), Ok(Scalar::new(1)));
    assert_eq!(td.get_challenge(3), None);
    td.set_challenge(3, Scalar::new(11));
    assert_eq!(td.get_challenge(3), Some(Scalar::new(11)));
}

#[test]
fn lift_shape() {
    let (_ck, _s, u, w) = rlc_setup();
    let ur = u.to_relax();
    assert_eq!(ur.W_commitment, u.W_commitment);
    assert_eq!(ur.instance, u.instance);
    assert_eq!(ur.u, Scalar::one());
    assert_eq!(ur.E_commitment, GroupElem::identity());
    let wr = w.to_relax();
    assert_eq!(wr.W, w.W);
    assert_eq!(wr.E, vec![Scalar::zero(); 16]);
}

#[test]
fn fold_with_no_cross_terms_keeps_error_commitment() {
    // A degree-one relation folds with an empty cross-term list: the error
    // commitment is untouched even under a non-zero challenge.
    let (_ck, _s, u, _w) = rlc_setup();
    let acc = u.to_relax();
    let folded = acc.fold(&u, &Vec::new(), &Scalar::new(9));
    assert_eq!(folded.E_commitment, acc.E_commitment);
    assert_eq!(folded.u.v, 10);
}

#[test]
fn linear_gate_folds_without_cross_terms() {
    // The running-sum gate has degree one, so its homogenized form needs no
    // cross terms at all: two satisfying pairs fold directly.
    let (ck, s, u1, w1) = rlc_setup();
    let mut td2 = TableData::new(4, vec![Scalar::new(54), Scalar::zero()]);
    td2.set_challenge(0, Scalar::one());
    let inputs: Vec<u64> = (2..11).collect();
    synthesize_rlc(&mut td2, &inputs);
    let (u2, w2) = (td2.plonk_instance(&ck), td2.plonk_witness());
    assert_eq!(s.is_sat(&ck, &u2, &w2), Ok(()));

    let r = Scalar::new(31337);
    let folded_u = u1.to_relax().fold(&u2, &Vec::new(), &r);
    let folded_w = w1.to_relax().fold(&w2, &Vec::new(), &r);
    // u' = 1 + r, instance' = instance1 + r * instance2, element-wise.
    assert_eq!(folded_u.u.v, 31338);
    assert_eq!(folded_u.instance[0].v, 45 + 31337 * 54);
    assert_eq!(s.is_sat_relaxed(&ck, &folded_u, &folded_w), Ok(()));
}
