//! Plonk structures, instances, witnesses, their relaxed forms, the
//! satisfiability checkers and the folding operators.
//!
//! A `PlonkStructure` fixes a circuit shape: row count, fixed columns and
//! the combined gate polynomial.  A `PlonkInstance` / `PlonkWitness` pair is
//! one assignment; its relaxed form carries a scaling factor `u` and an
//! error vector `E`, and is closed under folding: two pairs combine by a
//! randomized linear combination, with externally supplied cross terms
//! absorbing the relation's non-linearity.

use vstd::prelude::*;
use vstd::arithmetic::power::{pow, lemma_pow0, lemma_pow1, lemma0_pow, lemma_pow_positive,
    lemma_pow_increases};
use vstd::arithmetic::div_mod::lemma_small_mod;
use crate::field::{fadd, fmul, fpow, Scalar, FIELD_MODULUS};
use crate::group::{commit_value, gmul, gpow, lemma_commit_zeros, CommitmentKey, GroupElem,
    GROUP_MODULUS};
use crate::poly::{homog_poly_eval, lemma_homog_eval_at_one, lemma_homog_eval_bridge, mono_degree,
    poly_eval, MultiPolynomial};

verus! {

/// Number of rows of a structure with parameter `k`.
pub open spec fn rows_count(k: nat) -> int {
    pow(2, k)
}

/// Why a pair does not satisfy a structure's relation.
#[derive(Clone, Copy, Debug, PartialEq, Eq, Structural)]
pub enum SatError {
    /// A circuit's gate (or its homogeneous form) is non-zero on some rows.
    RelationViolated { failing_rows: usize, total_rows: usize },
    /// The recomputed advice commitment disagrees with the stored one.
    CommitmentMismatchW { expected: GroupElem, actual: GroupElem },
    /// The recomputed error commitment disagrees with the stored one.
    CommitmentMismatchE { expected: GroupElem, actual: GroupElem },
    /// Both commitments disagree with the stored ones.
    CommitmentMismatchBoth {
        expected_w: GroupElem,
        actual_w: GroupElem,
        expected_e: GroupElem,
        actual_e: GroupElem,
    },
}

/// Immutable description of a fixed circuit shape.
#[derive(Debug, Clone, PartialEq, Eq)]
pub struct PlonkStructure {
    /// log2 of the number of rows.
    pub k: usize,
    /// Per-column vectors of fixed values, each of length `2^k`.
    pub fixed_columns: Vec<Vec<Scalar>>,
    pub num_advice_columns: usize,
    /// The combined gate polynomial, over the fixed columns, the advice
    /// columns and the challenge that combines a circuit's gates, in that order.
    pub gate: MultiPolynomial,
    /// Commitment to the flattened fixed columns.
    pub fixed_commitment: GroupElem,
}

/// Public half of one assignment.
#[derive(Debug, Clone, PartialEq, Eq)]
pub struct PlonkInstance {
    /// Commitment to the flattened advice columns.
    pub W_commitment: GroupElem,
    /// The public inputs.
    pub instance: Vec<Scalar>,
    /// The challenge that combines a circuit's gates (a placeholder until the caller
    /// replaces it).
    pub y: Scalar,
}

/// Private half of one assignment.
#[derive(Debug, Clone, PartialEq, Eq)]
pub struct PlonkWitness {
    pub num_advice_columns: usize,
    /// The advice columns, flattened one after another.
    pub W: Vec<Scalar>,
}

/// Public half of a relaxed assignment.
#[derive(Debug, Clone, PartialEq, Eq)]
pub struct RelaxedPlonkInstance {
    pub W_commitment: GroupElem,
    pub instance: Vec<Scalar>,
    /// Commitment to the error vector.
    pub E_commitment: GroupElem,
    /// The scaling factor.
    pub u: Scalar,
    pub y: Scalar,
}

/// Private half of a relaxed assignment.
#[derive(Debug, Clone, PartialEq, Eq)]
pub struct RelaxedPlonkWitness {
    pub num_advice_columns: usize,
    pub W: Vec<Scalar>,
    /// The error vector, one value per row.
    pub E: Vec<Scalar>,
}

impl PlonkStructure {
    /// Index of the first advice variable; also the number of fixed columns.
    pub open spec fn nf(self) -> int {
        self.fixed_columns@.len() as int
    }

    pub open spec fn na(self) -> int {
        self.num_advice_columns as int
    }

    /// Index of the scaling variable in the homogenized gate.
    pub open spec fn u_index(self) -> int {
        self.nf() + self.na() + 1
    }

    pub open spec fn wf(self) -> bool {
        &&& self.k <= 20
        &&& self.fixed_columns@.len() <= 0x100
        &&& self.num_advice_columns <= 0x100
        &&& forall|c: int|
            0 <= c < self.fixed_columns@.len() ==> (#[trigger] self.fixed_columns@[c])@.len()
                == rows_count(self.k as nat)
        &&& forall|c: int, r: int|
            0 <= c < self.fixed_columns@.len() && 0 <= r < rows_count(self.k as nat) ==> (
            #[trigger] self.fixed_columns@[c]@[r]).wf()
        &&& self.gate.wf()
        &&& self.gate.arity as int == self.nf() + self.na() + 1
        &&& forall|i: int|
            0 <= i < self.gate.monomials@.len() ==> mono_degree(
                (#[trigger] self.gate.monomials@[i]).exps@,
                self.nf(),
            ) <= 0x1000_0000
        &&& self.fixed_commitment.wf()
    }
}

impl PlonkInstance {
    pub open spec fn wf(self) -> bool {
        &&& self.W_commitment.wf()
        &&& forall|i: int| 0 <= i < self.instance@.len() ==> (#[trigger] self.instance@[i]).wf()
        &&& self.y.wf()
    }
}

impl PlonkWitness {
    pub open spec fn wf(self) -> bool {
        forall|i: int| 0 <= i < self.W@.len() ==> (#[trigger] self.W@[i]).wf()
    }

    /// The witness has the shape that the structure expects.
    pub open spec fn matches(self, s: PlonkStructure) -> bool {
        &&& self.num_advice_columns == s.num_advice_columns
        &&& self.W@.len() == s.na() * rows_count(s.k as nat)
    }
}

impl RelaxedPlonkInstance {
    pub open spec fn wf(self) -> bool {
        &&& self.W_commitment.wf()
        &&& self.E_commitment.wf()
        &&& forall|i: int| 0 <= i < self.instance@.len() ==> (#[trigger] self.instance@[i]).wf()
        &&& self.u.wf()
        &&& self.y.wf()
    }
}

impl RelaxedPlonkWitness {
    pub open spec fn wf(self) -> bool {
        &&& forall|i: int| 0 <= i < self.W@.len() ==> (#[trigger] self.W@[i]).wf()
        &&& forall|i: int| 0 <= i < self.E@.len() ==> (#[trigger] self.E@[i]).wf()
    }

    pub open spec fn matches(self, s: PlonkStructure) -> bool {
        &&& self.num_advice_columns == s.num_advice_columns
        &&& self.W@.len() == s.na() * rows_count(s.k as nat)
        &&& self.E@.len() == rows_count(s.k as nat)
    }
}

// ------------------------------------------------------------------
// Row assignments and the satisfiability relations.
// ------------------------------------------------------------------

/// The fixed and advice values that row `row` presents to a circuit's gate, one per
/// column variable.
pub open spec fn column_row(s: PlonkStructure, w: Seq<Scalar>, row: int) -> Seq<Scalar> {
    Seq::new(
        (s.nf() + s.na()) as nat,
        |j: int|
            if j < s.nf() {
                s.fixed_columns@[j]@[row]
            } else {
                w[(j - s.nf()) * rows_count(s.k as nat) + row]
            },
    )
}

/// The variable assignment that row `row` presents to the plain gate:
/// fixed columns, advice columns, then the challenge.
pub open spec fn plain_row(s: PlonkStructure, y: Scalar, w: Seq<Scalar>, row: int) -> Seq<
    Scalar,
> {
    column_row(s, w, row).push(y)
}

/// The variable assignment that row `row` presents to the homogenized gate:
/// fixed columns, advice columns, the challenge, then the scaling factor.
pub open spec fn relaxed_row(
    s: PlonkStructure,
    y: Scalar,
    u: Scalar,
    w: Seq<Scalar>,
    row: int,
) -> Seq<Scalar> {
    column_row(s, w, row).push(y).push(u)
}

/// Value of the plain gate at one row.
pub open spec fn plain_gate_value(
    s: PlonkStructure,
    u: PlonkInstance,
    w: PlonkWitness,
    row: int,
) -> int {
    poly_eval(s.gate.monomials@, plain_row(s, u.y, w.W@, row))
}

/// Value of the homogenized gate at one row.
pub open spec fn relaxed_gate_value(
    s: PlonkStructure,
    u: RelaxedPlonkInstance,
    w: RelaxedPlonkWitness,
    row: int,
) -> int {
    homog_poly_eval(
        s.gate.monomials@,
        s.nf(),
        s.u_index(),
        relaxed_row(s, u.y, u.u, w.W@, row),
    )
}

/// Number of rows in `row .. nrow` on which the plain gate is non-zero.
pub open spec fn plain_bad_from(
    s: PlonkStructure,
    u: PlonkInstance,
    w: PlonkWitness,
    row: int,
    nrow: int,
) -> int
    decreases nrow - row,
{
    if row < 0 || row >= nrow {
        0
    } else {
        (if plain_gate_value(s, u, w, row) != 0 {
            1int
        } else {
            0int
        }) + plain_bad_from(s, u, w, row + 1, nrow)
    }
}

/// Number of rows in `row .. nrow` on which the homogenized gate disagrees
/// with the stored error value.
pub open spec fn relaxed_bad_from(
    s: PlonkStructure,
    u: RelaxedPlonkInstance,
    w: RelaxedPlonkWitness,
    row: int,
    nrow: int,
) -> int
    decreases nrow - row,
{
    if row < 0 || row >= nrow {
        0
    } else {
        (if relaxed_gate_value(s, u, w, row) != w.E@[row].v as int {
            1int
        } else {
            0int
        }) + relaxed_bad_from(s, u, w, row + 1, nrow)
    }
}

/// The plain gate vanishes on every row.
pub open spec fn plain_relation_ok(s: PlonkStructure, u: PlonkInstance, w: PlonkWitness) -> bool {
    forall|row: int|
        0 <= row < rows_count(s.k as nat) ==> #[trigger] plain_gate_value(s, u, w, row) == 0
}

/// The homogenized gate reproduces the error vector on every row.
pub open spec fn relaxed_relation_ok(
    s: PlonkStructure,
    u: RelaxedPlonkInstance,
    w: RelaxedPlonkWitness,
) -> bool {
    forall|row: int|
        0 <= row < rows_count(s.k as nat) ==> #[trigger] relaxed_gate_value(s, u, w, row)
            == w.E@[row].v as int
}

/// The satisfiability relation of a plain pair: the relation holds and the
/// advice commitment binds.
pub open spec fn is_sat_spec(
    ck: CommitmentKey,
    s: PlonkStructure,
    u: PlonkInstance,
    w: PlonkWitness,
) -> bool {
    &&& plain_relation_ok(s, u, w)
    &&& u.W_commitment.v as int == commit_value(ck.gens@, w.W@)
}

/// The satisfiability relation of a relaxed pair: the relation holds and
/// both commitments bind.
pub open spec fn is_sat_relaxed_spec(
    ck: CommitmentKey,
    s: PlonkStructure,
    u: RelaxedPlonkInstance,
    w: RelaxedPlonkWitness,
) -> bool {
    &&& relaxed_relation_ok(s, u, w)
    &&& u.W_commitment.v as int == commit_value(ck.gens@, w.W@)
    &&& u.E_commitment.v as int == commit_value(ck.gens@, w.E@)
}

proof fn lemma_plain_bad_zero(
    s: PlonkStructure,
    u: PlonkInstance,
    w: PlonkWitness,
    row: int,
    nrow: int,
)
    requires
        0 <= row,
    ensures
        0 <= plain_bad_from(s, u, w, row, nrow) <= if nrow - row >= 0 {
            nrow - row
        } else {
            0
        },
        (plain_bad_from(s, u, w, row, nrow) == 0) <==> (forall|t: int|
            row <= t < nrow ==> #[trigger] plain_gate_value(s, u, w, t) == 0),
    decreases nrow - row,
{
    if 0 <= row < nrow {
        lemma_plain_bad_zero(s, u, w, row + 1, nrow);
    }
}

proof fn lemma_relaxed_bad_zero(
    s: PlonkStructure,
    u: RelaxedPlonkInstance,
    w: RelaxedPlonkWitness,
    row: int,
    nrow: int,
)
    requires
        0 <= row,
    ensures
        0 <= relaxed_bad_from(s, u, w, row, nrow) <= if nrow - row >= 0 {
            nrow - row
        } else {
            0
        },
        (relaxed_bad_from(s, u, w, row, nrow) == 0) <==> (forall|t: int|
            row <= t < nrow ==> #[trigger] relaxed_gate_value(s, u, w, t) == w.E@[t].v as int),
    decreases nrow - row,
{
    if 0 <= row < nrow {
        lemma_relaxed_bad_zero(s, u, w, row + 1, nrow);
    }
}

/// 2^k as a machine integer.
pub fn rows_exec(k: usize) -> (r: usize)
    requires
        k <= 20,
    ensures
        r as int == rows_count(k as nat),
        1 <= r <= 0x10_0000,
{
    let mut n: usize = 1;
    let mut i: usize = 0;
    proof {
        lemma_pow0(2);
    }
    while i < k
        invariant
            i <= k,
            k <= 20,
            n as int == pow(2, i as nat),
            n <= 0x10_0000,
        decreases k - i,
    {
        proof {
            lemma_pow_increases(2nat, (i + 1) as nat, 20nat);
            lemma_pow1(2);
            vstd::arithmetic::power::lemma_pow_adds(2, i as nat, 1nat);
            assert(pow(2, (i + 1) as nat) == pow(2, i as nat) * 2);
            vstd::arithmetic::power2::lemma2_to64();
            vstd::arithmetic::power2::lemma_pow2(20nat);
            assert(pow(2, 20nat) == 0x10_0000);
        }
        n = n * 2;
        i = i + 1;
    }
    proof {
        lemma_pow_positive(2, k as nat);
    }
    n
}

impl PlonkStructure {
    /// The fixed-column and advice values that one row presents to a circuit's gate.
    fn column_values(&self, w: &Vec<Scalar>, row: usize, nrow: usize) -> (r: Vec<Scalar>)
        requires
            self.wf(),
            nrow as int == rows_count(self.k as nat),
            nrow <= 0x10_0000,
            row < nrow,
            w@.len() == self.na() * rows_count(self.k as nat),
            forall|i: int| 0 <= i < w@.len() ==> (#[trigger] w@[i]).wf(),
        ensures
            r@ == column_row(*self, w@, row as int),
            r@.len() == self.nf() + self.na(),
            forall|j: int| 0 <= j < r@.len() ==> (#[trigger] r@[j]).wf(),
    {
        let ghost target = column_row(*self, w@, row as int);
        let nf: usize = self.fixed_columns.len();
        let na: usize = self.num_advice_columns;
        let mut vals: Vec<Scalar> = Vec::new();
        let mut c: usize = 0;
        while c < nf
            invariant
                c <= nf,
                nf == self.nf(),
                self.wf(),
                nrow as int == rows_count(self.k as nat),
                row < nrow,
                target == column_row(*self, w@, row as int),
                vals@.len() == c,
                forall|j: int| 0 <= j < c ==> (#[trigger] vals@[j]) == target[j],
                forall|j: int| 0 <= j < c ==> (#[trigger] vals@[j]).wf(),
            decreases nf - c,
        {
            let col = &self.fixed_columns[c];
            vals.push(col[row]);
            c = c + 1;
        }
        let mut a: usize = 0;
        while a < na
            invariant
                a <= na,
                nf == self.nf(),
                na == self.na(),
                self.wf(),
                nrow as int == rows_count(self.k as nat),
                row < nrow,
                w@.len() == self.na() * rows_count(self.k as nat),
                forall|i: int| 0 <= i < w@.len() ==> (#[trigger] w@[i]).wf(),
                target == column_row(*self, w@, row as int),
                nrow <= 0x10_0000,
                vals@.len() == nf + a,
                forall|j: int| 0 <= j < nf + a ==> (#[trigger] vals@[j]) == target[j],
                forall|j: int| 0 <= j < vals@.len() ==> (#[trigger] vals@[j]).wf(),
            decreases na - a,
        {
            proof {
                assert((a as int) * (nrow as int) + (row as int) < (a as int + 1) * (nrow as int))
                    by (nonlinear_arith)
                    requires
                        row < nrow;
                assert((a as int + 1) * (nrow as int) <= (na as int) * (nrow as int))
                    by (nonlinear_arith)
                    requires
                        a as int + 1 <= na as int,
                        nrow as int >= 0;
                assert((a as int) * (nrow as int) >= 0) by (nonlinear_arith)
                    requires
                        a as int >= 0,
                        nrow as int >= 0;
                assert((a as int) * (nrow as int) <= 0x100 * 0x10_0000) by (nonlinear_arith)
                    requires
                        a <= 0x100,
                        nrow <= 0x10_0000;
            }
            vals.push(w[a * nrow + row]);
            a = a + 1;
        }
        proof {
            assert(vals@ =~= target);
        }
        vals
    }

    /// The assignment that one row presents to the plain gate.
    pub fn plain_row_values(&self, u: &PlonkInstance, w: &PlonkWitness, row: usize) -> (r: Vec<
        Scalar,
    >)
        requires
            self.wf(),
            u.wf(),
            w.wf(),
            w.matches(*self),
            row < rows_count(self.k as nat),
        ensures
            r@ == plain_row(*self, u.y, w.W@, row as int),
            r@.len() == self.gate.arity,
            forall|j: int| 0 <= j < r@.len() ==> (#[trigger] r@[j]).wf(),
    {
        let nrow: usize = rows_exec(self.k);
        let mut vals: Vec<Scalar> = self.column_values(&w.W, row, nrow);
        vals.push(u.y);
        proof {
            assert(vals@ =~= plain_row(*self, u.y, w.W@, row as int));
        }
        vals
    }

    /// The assignment that one row presents to the homogenized gate.
    pub fn relaxed_row_values(
        &self,
        u: &RelaxedPlonkInstance,
        w: &RelaxedPlonkWitness,
        row: usize,
    ) -> (r: Vec<Scalar>)
        requires
            self.wf(),
            u.wf(),
            w.wf(),
            w.matches(*self),
            row < rows_count(self.k as nat),
        ensures
            r@ == relaxed_row(*self, u.y, u.u, w.W@, row as int),
            r@.len() == self.gate.arity + 1,
            forall|j: int| 0 <= j < r@.len() ==> (#[trigger] r@[j]).wf(),
    {
        let nrow: usize = rows_exec(self.k);
        let mut vals: Vec<Scalar> = self.column_values(&w.W, row, nrow);
        vals.push(u.y);
        vals.push(u.u);
        proof {
            assert(vals@ =~= relaxed_row(*self, u.y, u.u, w.W@, row as int));
        }
        vals
    }

    /// Check that a plain pair satisfies the structure's relation: its gate
    /// vanishes on every row and the advice commitment binds.
    pub fn is_sat(&self, ck: &CommitmentKey, u: &PlonkInstance, w: &PlonkWitness) -> (r: Result<
        (),
        SatError,
    >)
        requires
            self.wf(),
            ck.wf(),
            u.wf(),
            w.wf(),
            w.matches(*self),
            w.W@.len() <= ck.gens@.len(),
        ensures
            r == Ok::<(), SatError>(()) <==> is_sat_spec(*ck, *self, *u, *w),
            !plain_relation_ok(*self, *u, *w) ==> r == Err::<(), SatError>(
                SatError::RelationViolated {
                    failing_rows: plain_bad_from(
                        *self,
                        *u,
                        *w,
                        0,
                        rows_count(self.k as nat),
                    ) as usize,
                    total_rows: rows_count(self.k as nat) as usize,
                },
            ),
            plain_relation_ok(*self, *u, *w) && u.W_commitment.v as int != commit_value(
                ck.gens@,
                w.W@,
            ) ==> r == Err::<(), SatError>(
                SatError::CommitmentMismatchW {
                    expected: u.W_commitment,
                    actual: GroupElem { v: commit_value(ck.gens@, w.W@) as u64 },
                },
            ),
    {
        let nrow: usize = rows_exec(self.k);
        let mut bad: usize = 0;
        let mut row: usize = nrow;
        while row > 0
            invariant
                row <= nrow,
                nrow as int == rows_count(self.k as nat),
                self.wf(),
                u.wf(),
                w.wf(),
                w.matches(*self),
                bad as int == plain_bad_from(*self, *u, *w, row as int, nrow as int),
                bad <= nrow - row,
            decreases row,
        {
            row = row - 1;
            let vals: Vec<Scalar> = self.plain_row_values(u, w, row);
            let v: Scalar = self.gate.eval(&vals);
            if v.v != 0 {
                bad = bad + 1;
            }
            proof {
                lemma_plain_bad_zero(*self, *u, *w, row as int + 1, nrow as int);
            }
        }
        proof {
            lemma_plain_bad_zero(*self, *u, *w, 0, nrow as int);
        }
        let actual: GroupElem = ck.commit(&w.W);
        if bad > 0 {
            Err(SatError::RelationViolated { failing_rows: bad, total_rows: nrow })
        } else if u.W_commitment == actual {
            Ok(())
        } else {
            Err(SatError::CommitmentMismatchW { expected: u.W_commitment, actual })
        }
    }

    /// Check that a relaxed pair satisfies the structure's relaxed relation:
    /// the homogenized gate reproduces the error vector on every row, and
    /// both the advice and the error commitments bind.  The three checks are
    /// reported separately on failure.
    pub fn is_sat_relaxed(
        &self,
        ck: &CommitmentKey,
        u: &RelaxedPlonkInstance,
        w: &RelaxedPlonkWitness,
    ) -> (r: Result<(), SatError>)
        requires
            self.wf(),
            ck.wf(),
            u.wf(),
            w.wf(),
            w.matches(*self),
            w.W@.len() <= ck.gens@.len(),
            w.E@.len() <= ck.gens@.len(),
        ensures
            r == Ok::<(), SatError>(()) <==> is_sat_relaxed_spec(*ck, *self, *u, *w),
            !relaxed_relation_ok(*self, *u, *w) ==> r == Err::<(), SatError>(
                SatError::RelationViolated {
                    failing_rows: relaxed_bad_from(
                        *self,
                        *u,
                        *w,
                        0,
                        rows_count(self.k as nat),
                    ) as usize,
                    total_rows: rows_count(self.k as nat) as usize,
                },
            ),
            relaxed_relation_ok(*self, *u, *w) && u.W_commitment.v as int != commit_value(
                ck.gens@,
                w.W@,
            ) && u.E_commitment.v as int == commit_value(ck.gens@, w.E@) ==> r == Err::<
                (),
                SatError,
            >(
                SatError::CommitmentMismatchW {
                    expected: u.W_commitment,
                    actual: GroupElem { v: commit_value(ck.gens@, w.W@) as u64 },
                },
            ),
            relaxed_relation_ok(*self, *u, *w) && u.W_commitment.v as int == commit_value(
                ck.gens@,
                w.W@,
            ) && u.E_commitment.v as int != commit_value(ck.gens@, w.E@) ==> r == Err::<
                (),
                SatError,
            >(
                SatError::CommitmentMismatchE {
                    expected: u.E_commitment,
                    actual: GroupElem { v: commit_value(ck.gens@, w.E@) as u64 },
                },
            ),
            relaxed_relation_ok(*self, *u, *w) && u.W_commitment.v as int != commit_value(
                ck.gens@,
                w.W@,
            ) && u.E_commitment.v as int != commit_value(ck.gens@, w.E@) ==> r == Err::<
                (),
                SatError,
            >(
                SatError::CommitmentMismatchBoth {
                    expected_w: u.W_commitment,
                    actual_w: GroupElem { v: commit_value(ck.gens@, w.W@) as u64 },
                    expected_e: u.E_commitment,
                    actual_e: GroupElem { v: commit_value(ck.gens@, w.E@) as u64 },
                },
            ),
    {
        let nrow: usize = rows_exec(self.k);
        let num_fixed: usize = self.fixed_columns.len();
        let u_index: usize = num_fixed + self.num_advice_columns + 1;
        let poly: MultiPolynomial = self.gate.homogeneous(num_fixed, u_index);
        let mut bad: usize = 0;
        let mut row: usize = nrow;
        while row > 0
            invariant
                row <= nrow,
                nrow as int == rows_count(self.k as nat),
                self.wf(),
                u.wf(),
                w.wf(),
                w.matches(*self),
                num_fixed == self.nf(),
                u_index as int == self.u_index(),
                poly.wf(),
                poly.arity as int == self.u_index() + 1,
                crate::poly::is_homogenization(poly, self.gate, self.nf(), self.u_index()),
                bad as int == relaxed_bad_from(*self, *u, *w, row as int, nrow as int),
                bad <= nrow - row,
            decreases row,
        {
            row = row - 1;
            let vals: Vec<Scalar> = self.relaxed_row_values(u, w, row);
            let v: Scalar = poly.eval(&vals);
            proof {
                lemma_homog_eval_bridge(poly, self.gate, self.nf(), self.u_index(), vals@, 0);
            }
            let e: Scalar = w.E[row];
            if v.v != e.v {
                bad = bad + 1;
            }
            proof {
                lemma_relaxed_bad_zero(*self, *u, *w, row as int + 1, nrow as int);
            }
        }
        proof {
            lemma_relaxed_bad_zero(*self, *u, *w, 0, nrow as int);
        }
        let actual_w: GroupElem = ck.commit(&w.W);
        let actual_e: GroupElem = ck.commit(&w.E);
        let w_ok: bool = u.W_commitment == actual_w;
        let e_ok: bool = u.E_commitment == actual_e;
        if bad > 0 {
            Err(SatError::RelationViolated { failing_rows: bad, total_rows: nrow })
        } else if !w_ok && !e_ok {
            Err(
                SatError::CommitmentMismatchBoth {
                    expected_w: u.W_commitment,
                    actual_w,
                    expected_e: u.E_commitment,
                    actual_e,
                },
            )
        } else if !w_ok {
            Err(SatError::CommitmentMismatchW { expected: u.W_commitment, actual: actual_w })
        } else if !e_ok {
            Err(SatError::CommitmentMismatchE { expected: u.E_commitment, actual: actual_e })
        } else {
            Ok(())
        }
    }
}

// ------------------------------------------------------------------
// Lifting a plain pair to a relaxed pair.
// ------------------------------------------------------------------

/// `r` is the degree-lift of the plain instance `u`: same commitment,
/// public inputs and challenge, with scaling factor one and the neutral
/// error commitment.
pub open spec fn is_instance_lift(r: RelaxedPlonkInstance, u: PlonkInstance) -> bool {
    &&& r.W_commitment == u.W_commitment
    &&& r.instance@ == u.instance@
    &&& r.E_commitment.v == 1
    &&& r.u.v == 1
    &&& r.y == u.y
}

/// `r` is the lift of the plain witness `w`: same advice values, all-zero
/// error vector.
pub open spec fn is_witness_lift(r: RelaxedPlonkWitness, w: PlonkWitness) -> bool {
    &&& r.num_advice_columns == w.num_advice_columns
    &&& r.W@ == w.W@
    &&& forall|i: int| 0 <= i < r.E@.len() ==> (#[trigger] r.E@[i]).v == 0
}

/// A vector of field zeros.
pub(crate) fn zero_scalars(n: usize) -> (r: Vec<Scalar>)
    ensures
        r@.len() == n,
        forall|i: int| 0 <= i < n ==> (#[trigger] r@[i]).v == 0,
        forall|i: int| 0 <= i < n ==> (#[trigger] r@[i]).wf(),
{
    let mut r: Vec<Scalar> = Vec::new();
    let mut i: usize = 0;
    while i < n
        invariant
            i <= n,
            r@.len() == i,
            forall|j: int| 0 <= j < i ==> (#[trigger] r@[j]).v == 0,
        decreases n - i,
    {
        r.push(Scalar::zero());
        i = i + 1;
    }
    r
}

impl PlonkInstance {
    /// Lift to a relaxed instance with `u = 1` and the neutral error
    /// commitment; the satisfiability relation is preserved exactly (see
    /// `lemma_lift_preserves`).
    pub fn to_relax(&self) -> (r: RelaxedPlonkInstance)
        ensures
            is_instance_lift(r, *self),
            self.wf() ==> r.wf(),
    {
        RelaxedPlonkInstance {
            W_commitment: self.W_commitment,
            instance: crate::poly::copy_scalars(&self.instance),
            E_commitment: CommitmentKey::default_value(),
            u: Scalar::one(),
            y: self.y,
        }
    }
}

impl PlonkWitness {
    /// Lift to a relaxed witness with an all-zero error vector, one entry
    /// per row.
    pub fn to_relax(&self) -> (r: RelaxedPlonkWitness)
        requires
            self.num_advice_columns >= 1,
        ensures
            is_witness_lift(r, *self),
            r.E@.len() == self.W@.len() as int / self.num_advice_columns as int,
            self.wf() ==> r.wf(),
    {
        let len_e: usize = self.W.len() / self.num_advice_columns;
        RelaxedPlonkWitness {
            num_advice_columns: self.num_advice_columns,
            W: crate::poly::copy_scalars(&self.W),
            E: zero_scalars(len_e),
        }
    }
}

// ------------------------------------------------------------------
// Folding.
// ------------------------------------------------------------------

/// The error commitment after folding in the cross-term commitments from
/// position `k` on, each weighted by the next power of the challenge.
pub open spec fn fold_commit_from(acc: int, ts: Seq<GroupElem>, r: int, k: int) -> int
    decreases ts.len() - k,
{
    if k < 0 || k >= ts.len() {
        acc
    } else {
        fold_commit_from(
            gmul(acc, gpow(ts[k].v as int, fpow(r, (k + 1) as nat) as nat)),
            ts,
            r,
            k + 1,
        )
    }
}

/// One row's error value after folding in the cross terms from position `k`
/// on, each weighted by the next power of the challenge.
pub open spec fn fold_err_value(e: int, cross: Seq<Vec<Scalar>>, r: int, row: int, k: int) -> int
    decreases cross.len() - k,
{
    if k < 0 || k >= cross.len() {
        e
    } else {
        fold_err_value(
            fadd(e, fmul(fpow(r, (k + 1) as nat), cross[k]@[row].v as int)),
            cross,
            r,
            row,
            k + 1,
        )
    }
}

/// `f` is the fold of the accumulator `a` with the fresh instance `b` under
/// challenge `r` and cross-term commitments `ts`.
pub open spec fn folds_instance(
    f: RelaxedPlonkInstance,
    a: RelaxedPlonkInstance,
    b: PlonkInstance,
    ts: Seq<GroupElem>,
    r: Scalar,
) -> bool {
    &&& f.W_commitment.v as int == gmul(
        a.W_commitment.v as int,
        gpow(b.W_commitment.v as int, r.v as nat),
    )
    &&& f.instance@.len() == a.instance@.len()
    &&& forall|i: int|
        0 <= i < a.instance@.len() ==> (#[trigger] f.instance@[i]).v as int == fadd(
            a.instance@[i].v as int,
            fmul(r.v as int, b.instance@[i].v as int),
        )
    &&& f.u.v as int == fadd(a.u.v as int, r.v as int)
    &&& f.y.v as int == fadd(a.y.v as int, fmul(r.v as int, b.y.v as int))
    &&& f.E_commitment.v as int == fold_commit_from(a.E_commitment.v as int, ts, r.v as int, 0)
}

/// `f` is the fold of the accumulator witness `a` with the fresh witness
/// `b` under challenge `r` and cross-term vectors `cross`.
pub open spec fn folds_witness(
    f: RelaxedPlonkWitness,
    a: RelaxedPlonkWitness,
    b: PlonkWitness,
    cross: Seq<Vec<Scalar>>,
    r: Scalar,
) -> bool {
    &&& f.num_advice_columns == a.num_advice_columns
    &&& f.W@.len() == a.W@.len()
    &&& forall|i: int|
        0 <= i < a.W@.len() ==> (#[trigger] f.W@[i]).v as int == fadd(
            a.W@[i].v as int,
            fmul(r.v as int, b.W@[i].v as int),
        )
    &&& f.E@.len() == a.E@.len()
    &&& forall|i: int|
        0 <= i < a.E@.len() ==> (#[trigger] f.E@[i]).v as int == fold_err_value(
            a.E@[i].v as int,
            cross,
            r.v as int,
            i,
            0,
        )
}

impl RelaxedPlonkInstance {
    /// The canonical empty accumulator: identity commitments, `u = 1`,
    /// all-zero public inputs, `y = 1`.
    pub fn new(num_io: usize) -> (r: Self)
        ensures
            r.wf(),
            r.W_commitment.v == 1,
            r.E_commitment.v == 1,
            r.u.v == 1,
            r.y.v == 1,
            r.instance@.len() == num_io,
            forall|i: int| 0 <= i < num_io ==> (#[trigger] r.instance@[i]).v == 0,
    {
        RelaxedPlonkInstance {
            W_commitment: CommitmentKey::default_value(),
            E_commitment: CommitmentKey::default_value(),
            u: Scalar::one(),
            instance: zero_scalars(num_io),
            y: Scalar::one(),
        }
    }

    /// Fold with a fresh instance: the verifier-side half of the fold.  It
    /// touches only commitments and public scalars, never raw witness data.
    pub fn fold(&self, u2: &PlonkInstance, cross_term_commits: &Vec<GroupElem>, r: &Scalar) -> (f:
        Self)
        requires
            self.wf(),
            u2.wf(),
            r.wf(),
            u2.instance@.len() == self.instance@.len(),
            forall|i: int|
                0 <= i < cross_term_commits@.len() ==> (#[trigger] cross_term_commits@[i]).wf(),
        ensures
            f.wf(),
            folds_instance(f, *self, *u2, cross_term_commits@, *r),
    {
        let w_comm: GroupElem = self.W_commitment.combine(u2.W_commitment.scale(*r));
        let mut inst: Vec<Scalar> = Vec::new();
        let mut i: usize = 0;
        while i < self.instance.len()
            invariant
                i <= self.instance@.len(),
                self.wf(),
                u2.wf(),
                r.wf(),
                u2.instance@.len() == self.instance@.len(),
                inst@.len() == i,
                forall|j: int|
                    0 <= j < i ==> (#[trigger] inst@[j]).v as int == fadd(
                        self.instance@[j].v as int,
                        fmul(r.v as int, u2.instance@[j].v as int),
                    ),
                forall|j: int| 0 <= j < i ==> (#[trigger] inst@[j]).wf(),
            decreases self.instance@.len() - i,
        {
            inst.push(self.instance[i].add_fp(r.mul_fp(u2.instance[i])));
            i = i + 1;
        }
        let u: Scalar = self.u.add_fp(*r);
        let y: Scalar = self.y.add_fp(r.mul_fp(u2.y));
        let mut e_comm: GroupElem = self.E_commitment;
        let mut rpow: Scalar = *r;
        let mut k: usize = 0;
        proof {
            lemma_pow1(r.v as int);
            lemma_small_mod(r.v as nat, FIELD_MODULUS as nat);
        }
        while k < cross_term_commits.len()
            invariant
                k <= cross_term_commits@.len(),
                self.wf(),
                r.wf(),
                forall|j: int|
                    0 <= j < cross_term_commits@.len() ==> (
                    #[trigger] cross_term_commits@[j]).wf(),
                e_comm.wf(),
                rpow.wf(),
                rpow.v as int == fpow(r.v as int, (k + 1) as nat),
                fold_commit_from(
                    self.E_commitment.v as int,
                    cross_term_commits@,
                    r.v as int,
                    0,
                ) == fold_commit_from(e_comm.v as int, cross_term_commits@, r.v as int, k as int),
            decreases cross_term_commits@.len() - k,
        {
            let t: GroupElem = cross_term_commits[k];
            e_comm = e_comm.combine(t.scale(rpow));
            rpow = rpow.mul_fp(*r);
            proof {
                crate::field::lemma_fpow_step(r.v as int, (k + 1) as nat);
            }
            k = k + 1;
        }
        RelaxedPlonkInstance { W_commitment: w_comm, instance: inst, E_commitment: e_comm, u, y }
    }
}

impl RelaxedPlonkWitness {
    /// The all-zero relaxed witness for `nc` advice columns over `2^k`
    /// rows.
    pub fn new(k: u32, nc: usize) -> (r: Self)
        requires
            k <= 20,
            nc <= 0x100,
        ensures
            r.wf(),
            r.num_advice_columns == nc,
            r.W@.len() == nc * rows_count(k as nat),
            r.E@.len() == rows_count(k as nat),
            forall|i: int| 0 <= i < r.W@.len() ==> (#[trigger] r.W@[i]).v == 0,
            forall|i: int| 0 <= i < r.E@.len() ==> (#[trigger] r.E@[i]).v == 0,
    {
        let nrow: usize = rows_exec(k as usize);
        proof {
            assert((nc as int) * (nrow as int) <= 0x100 * 0x10_0000) by (nonlinear_arith)
                requires
                    nc <= 0x100,
                    nrow <= 0x10_0000;
            assert((nc as int) * (nrow as int) >= 0) by (nonlinear_arith)
                requires
                    nc >= 0,
                    nrow >= 0;
        }
        RelaxedPlonkWitness {
            num_advice_columns: nc,
            W: zero_scalars(nc * nrow),
            E: zero_scalars(nrow),
        }
    }

    /// Fold with a fresh witness: the prover-side half of the fold.  It
    /// needs the raw cross-term vectors, not just their commitments.
    pub fn fold(&self, w2: &PlonkWitness, cross_terms: &Vec<Vec<Scalar>>, r: &Scalar) -> (f: Self)
        requires
            self.wf(),
            w2.wf(),
            r.wf(),
            w2.W@.len() == self.W@.len(),
            forall|t: int|
                0 <= t < cross_terms@.len() ==> (#[trigger] cross_terms@[t])@.len()
                    == self.E@.len(),
            forall|t: int, i: int|
                0 <= t < cross_terms@.len() && 0 <= i < self.E@.len() ==> (
                #[trigger] cross_terms@[t]@[i]).wf(),
        ensures
            f.wf(),
            folds_witness(f, *self, *w2, cross_terms@, *r),
    {
        let mut new_w: Vec<Scalar> = Vec::new();
        let mut i: usize = 0;
        while i < self.W.len()
            invariant
                i <= self.W@.len(),
                self.wf(),
                w2.wf(),
                r.wf(),
                w2.W@.len() == self.W@.len(),
                new_w@.len() == i,
                forall|j: int|
                    0 <= j < i ==> (#[trigger] new_w@[j]).v as int == fadd(
                        self.W@[j].v as int,
                        fmul(r.v as int, w2.W@[j].v as int),
                    ),
                forall|j: int| 0 <= j < i ==> (#[trigger] new_w@[j]).wf(),
            decreases self.W@.len() - i,
        {
            new_w.push(self.W[i].add_fp(r.mul_fp(w2.W[i])));
            i = i + 1;
        }
        let mut new_e: Vec<Scalar> = Vec::new();
        let mut row: usize = 0;
        while row < self.E.len()
            invariant
                row <= self.E@.len(),
                self.wf(),
                r.wf(),
                forall|t: int|
                    0 <= t < cross_terms@.len() ==> (#[trigger] cross_terms@[t])@.len()
                        == self.E@.len(),
                forall|t: int, j: int|
                    0 <= t < cross_terms@.len() && 0 <= j < self.E@.len() ==> (
                    #[trigger] cross_terms@[t]@[j]).wf(),
                new_e@.len() == row,
                forall|j: int|
                    0 <= j < row ==> (#[trigger] new_e@[j]).v as int == fold_err_value(
                        self.E@[j].v as int,
                        cross_terms@,
                        r.v as int,
                        j,
                        0,
                    ),
                forall|j: int| 0 <= j < row ==> (#[trigger] new_e@[j]).wf(),
            decreases self.E@.len() - row,
        {
            let mut acc: Scalar = self.E[row];
            let mut rpow: Scalar = *r;
            let mut k: usize = 0;
            proof {
                lemma_pow1(r.v as int);
                lemma_small_mod(r.v as nat, FIELD_MODULUS as nat);
            }
            while k < cross_terms.len()
                invariant
                    k <= cross_terms@.len(),
                    row < self.E@.len(),
                    self.wf(),
                    r.wf(),
                    forall|t: int|
                        0 <= t < cross_terms@.len() ==> (#[trigger] cross_terms@[t])@.len()
                            == self.E@.len(),
                    forall|t: int, j: int|
                        0 <= t < cross_terms@.len() && 0 <= j < self.E@.len() ==> (
                        #[trigger] cross_terms@[t]@[j]).wf(),
                    acc.wf(),
                    rpow.wf(),
                    rpow.v as int == fpow(r.v as int, (k + 1) as nat),
                    fold_err_value(
                        self.E@[row as int].v as int,
                        cross_terms@,
                        r.v as int,
                        row as int,
                        0,
                    ) == fold_err_value(
                        acc.v as int,
                        cross_terms@,
                        r.v as int,
                        row as int,
                        k as int,
                    ),
                decreases cross_terms@.len() - k,
            {
                let ct = &cross_terms[k];
                acc = acc.add_fp(rpow.mul_fp(ct[row]));
                rpow = rpow.mul_fp(*r);
                proof {
                    crate::field::lemma_fpow_step(r.v as int, (k + 1) as nat);
                }
                k = k + 1;
            }
            new_e.push(acc);
            row = row + 1;
        }
        RelaxedPlonkWitness {
            W: new_w,
            num_advice_columns: self.num_advice_columns,
            E: new_e,
        }
    }
}

// ------------------------------------------------------------------
// Laws.
// ------------------------------------------------------------------

/// Lift preservation: a plain pair satisfies the relation if and only if
/// its lift satisfies the relaxed relation.
pub proof fn lemma_lift_preserves(
    ck: CommitmentKey,
    s: PlonkStructure,
    u: PlonkInstance,
    w: PlonkWitness,
    ur: RelaxedPlonkInstance,
    wr: RelaxedPlonkWitness,
)
    requires
        s.wf(),
        ck.wf(),
        u.wf(),
        w.wf(),
        w.matches(s),
        is_instance_lift(ur, u),
        is_witness_lift(wr, w),
        wr.E@.len() == rows_count(s.k as nat),
    ensures
        is_sat_spec(ck, s, u, w) <==> is_sat_relaxed_spec(ck, s, ur, wr),
{
    lemma_commit_zeros(ck.gens@, wr.E@, 0);
    assert forall|row: int| 0 <= row < rows_count(s.k as nat) implies #[trigger] relaxed_gate_value(
        s,
        ur,
        wr,
        row,
    ) == plain_gate_value(s, u, w, row) by {
        let vr = relaxed_row(s, ur.y, ur.u, wr.W@, row);
        let vp = plain_row(s, u.y, w.W@, row);
        let col = column_row(s, w.W@, row);
        assert(column_row(s, wr.W@, row) == col);
        assert(vr[s.u_index()].v == 1);
        assert(forall|t: int| 0 <= t < s.u_index() ==> vr[t] == vp[t]);
        lemma_homog_eval_at_one(
            s.gate.monomials@,
            s.nf(),
            s.u_index(),
            crate::poly::max_degree(s.gate.monomials@, s.nf()),
            vr,
            vp,
            0,
        );
    }
    assert(relaxed_relation_ok(s, ur, wr) <==> plain_relation_ok(s, u, w)) by {
        if relaxed_relation_ok(s, ur, wr) {
            assert forall|row: int|
                0 <= row < rows_count(s.k as nat) implies #[trigger] plain_gate_value(
                s,
                u,
                w,
                row,
            ) == 0 by {
                assert(relaxed_gate_value(s, ur, wr, row) == wr.E@[row].v as int);
                assert(wr.E@[row].v == 0);
            }
        }
        if plain_relation_ok(s, u, w) {
            assert forall|row: int|
                0 <= row < rows_count(s.k as nat) implies #[trigger] relaxed_gate_value(
                s,
                ur,
                wr,
                row,
            ) == wr.E@[row].v as int by {
                assert(plain_gate_value(s, u, w, row) == 0);
                assert(wr.E@[row].v == 0);
            }
        }
    }
}

proof fn lemma_fold_commit_neutral(acc: int, ts: Seq<GroupElem>, k: int)
    requires
        0 <= acc < GROUP_MODULUS,
    ensures
        fold_commit_from(acc, ts, 0, k) == acc,
    decreases ts.len() - k,
{
    if 0 <= k < ts.len() {
        lemma0_pow((k + 1) as nat);
        lemma_small_mod(0nat, FIELD_MODULUS as nat);
        lemma_pow0(ts[k].v as int);
        lemma_small_mod(1nat, GROUP_MODULUS as nat);
        lemma_small_mod(acc as nat, GROUP_MODULUS as nat);
        assert(gpow(ts[k].v as int, fpow(0, (k + 1) as nat) as nat) == 1);
        assert(gmul(acc, 1) == acc);
        lemma_fold_commit_neutral(acc, ts, k + 1);
    }
}

proof fn lemma_fold_err_neutral(e: int, cross: Seq<Vec<Scalar>>, row: int, k: int)
    requires
        0 <= e < FIELD_MODULUS,
    ensures
        fold_err_value(e, cross, 0, row, k) == e,
    decreases cross.len() - k,
{
    if 0 <= k < cross.len() {
        lemma0_pow((k + 1) as nat);
        lemma_small_mod(0nat, FIELD_MODULUS as nat);
        lemma_small_mod(e as nat, FIELD_MODULUS as nat);
        assert(fmul(fpow(0, (k + 1) as nat), cross[k]@[row].v as int) == 0);
        assert(fadd(e, 0) == e);
        lemma_fold_err_neutral(e, cross, row, k + 1);
    }
}

/// Neutral fold, instance side: folding with challenge zero returns the
/// accumulator unchanged in every field.
pub proof fn lemma_fold_instance_neutral(
    f: RelaxedPlonkInstance,
    a: RelaxedPlonkInstance,
    b: PlonkInstance,
    ts: Seq<GroupElem>,
)
    requires
        a.wf(),
        b.wf(),
        folds_instance(f, a, b, ts, (Scalar { v: 0 })),
    ensures
        f.W_commitment == a.W_commitment,
        f.instance@ == a.instance@,
        f.u == a.u,
        f.y == a.y,
        f.E_commitment == a.E_commitment,
{
    lemma_pow0(b.W_commitment.v as int);
    lemma_small_mod(1nat, GROUP_MODULUS as nat);
    lemma_small_mod(a.W_commitment.v as nat, GROUP_MODULUS as nat);
    assert((Scalar { v: 0 }).v as nat == 0);
    assert(gpow(b.W_commitment.v as int, 0nat) == 1);
    assert(a.W_commitment.v as int * 1 == a.W_commitment.v as int);
    assert((a.W_commitment.v as int) % (GROUP_MODULUS as int) == a.W_commitment.v as int);
    assert(gmul(a.W_commitment.v as int, 1) == a.W_commitment.v as int);
    assert(f.W_commitment.v == a.W_commitment.v);
    assert forall|i: int| 0 <= i < a.instance@.len() implies #[trigger] f.instance@[i]
        == a.instance@[i] by {
        lemma_small_mod(a.instance@[i].v as nat, FIELD_MODULUS as nat);
        assert(fmul(0, b.instance@[i].v as int) == 0);
        assert(f.instance@[i].v == a.instance@[i].v);
    }
    assert(f.instance@ =~= a.instance@);
    lemma_small_mod(a.u.v as nat, FIELD_MODULUS as nat);
    lemma_small_mod(a.y.v as nat, FIELD_MODULUS as nat);
    assert(fmul(0, b.y.v as int) == 0);
    lemma_fold_commit_neutral(a.E_commitment.v as int, ts, 0);
}

/// Neutral fold, witness side: folding with challenge zero returns the
/// accumulator witness unchanged.
pub proof fn lemma_fold_witness_neutral(
    f: RelaxedPlonkWitness,
    a: RelaxedPlonkWitness,
    b: PlonkWitness,
    cross: Seq<Vec<Scalar>>,
)
    requires
        a.wf(),
        b.wf(),
        folds_witness(f, a, b, cross, (Scalar { v: 0 })),
    ensures
        f.W@ == a.W@,
        f.E@ == a.E@,
{
    assert forall|i: int| 0 <= i < a.W@.len() implies #[trigger] f.W@[i] == a.W@[i] by {
        lemma_small_mod(a.W@[i].v as nat, FIELD_MODULUS as nat);
        assert(fmul(0, b.W@[i].v as int) == 0);
    }
    assert forall|i: int| 0 <= i < a.E@.len() implies #[trigger] f.E@[i] == a.E@[i] by {
        lemma_fold_err_neutral(a.E@[i].v as int, cross, i, 0);
    }
    assert(f.W@ =~= a.W@);
    assert(f.E@ =~= a.E@);
}

} // verus!
