//! The value recorder that a circuit adapter fills, and the builders that
//! turn its column matrices into a structure, an instance and a witness.
//!
//! Circuit synthesis itself — driving a circuit description through a
//! floor planner — belongs to an outside framework; this module holds the
//! verifiable half: bounds-checked cell assignment, challenge lookup, column
//! flattening and commitment, and the combination of all gate polynomials
//! into the structure's single combined gate.

use vstd::prelude::*;
use vstd::pervasive::VecAdditionalExecFns;
use crate::field::Scalar;
use crate::group::{commit_value, CommitmentKey};
use crate::plonk::{rows_count, rows_exec, zero_scalars, PlonkInstance, PlonkStructure,
    PlonkWitness};
use crate::poly::{bumped, combine_gates, copy_scalars, count_upto, is_combination,
    lemma_exp_sum_update, mono_degree, MultiPolynomial};

verus! {

/// Why a cell assignment or query was rejected.
#[derive(Clone, Copy, Debug, PartialEq, Eq, Structural)]
pub enum TableError {
    /// The column or row lies outside the table.
    BoundsFailure,
}

/// The value of the first recorded challenge with the given index, if any.
pub open spec fn challenge_lookup(s: Seq<(u64, Scalar)>, index: u64, i: int) -> Option<Scalar>
    decreases s.len() - i,
{
    if i < 0 || i >= s.len() {
        None
    } else if s[i].0 == index {
        Some(s[i].1)
    } else {
        challenge_lookup(s, index, i + 1)
    }
}

/// The first `c` columns flattened one after another.
pub open spec fn flat_upto(cols: Seq<Vec<Scalar>>, c: int) -> Seq<Scalar>
    decreases c,
{
    if c <= 0 {
        Seq::empty()
    } else {
        flat_upto(cols, c - 1) + cols[c - 1]@
    }
}

/// Flattening `c` columns of length `len` gives `c * len` values.
pub proof fn lemma_flat_upto_len(cols: Seq<Vec<Scalar>>, c: int, len: int)
    requires
        0 <= c <= cols.len(),
        forall|t: int| 0 <= t < cols.len() ==> (#[trigger] cols[t])@.len() == len,
    ensures
        flat_upto(cols, c).len() == c * len,
    decreases c,
{
    if c > 0 {
        lemma_flat_upto_len(cols, c - 1, len);
        assert(flat_upto(cols, c) == flat_upto(cols, c - 1) + cols[c - 1]@);
        assert(cols[c - 1]@.len() == len);
        assert((c - 1) * len + len == c * len) by (nonlinear_arith);
    } else {
        assert(c * len == 0) by (nonlinear_arith)
            requires
                c == 0;
    }
}

/// Every flattened entry is an entry of some column.
pub proof fn lemma_flat_upto_wf(cols: Seq<Vec<Scalar>>, c: int)
    requires
        0 <= c <= cols.len(),
        forall|t: int, j: int|
            0 <= t < cols.len() && 0 <= j < cols[t]@.len() ==> (#[trigger] cols[t]@[j]).wf(),
    ensures
        forall|i: int| 0 <= i < flat_upto(cols, c).len() ==> (#[trigger] flat_upto(cols, c)[i]).wf(),
    decreases c,
{
    if c > 0 {
        lemma_flat_upto_wf(cols, c - 1);
        assert forall|i: int| 0 <= i < flat_upto(cols, c).len() implies (#[trigger] flat_upto(
            cols,
            c,
        )[i]).wf() by {
            if i < flat_upto(cols, c - 1).len() {
                assert(flat_upto(cols, c)[i] == flat_upto(cols, c - 1)[i]);
            } else {
                assert(flat_upto(cols, c)[i] == cols[c - 1]@[i - flat_upto(cols, c - 1).len()]);
            }
        }
    }
}

/// Replace one cell of a column matrix, reporting an out-of-range column or
/// row.
fn set_cell(cols: &mut Vec<Vec<Scalar>>, column: usize, row: usize, val: Scalar) -> (r: Result<
    (),
    TableError,
>)
    ensures
        (r == Ok::<(), TableError>(())) <==> (column < old(cols)@.len() && row < old(cols)@[column as int]@.len()),
        r == Ok::<(), TableError>(()) ==> final(cols)@.len() == old(cols)@.len() && final(cols)@[column as int]@ == old(cols)@[column as int]@.update(row as int, val) && (forall|c: int|
            0 <= c < old(cols)@.len() && c != column ==> (#[trigger] final(cols)@[c]) == old(cols)@[c]),
        r != Ok::<(), TableError>(()) ==> final(cols)@ == old(cols)@,
{
    if column < cols.len() {
        if row < cols[column].len() {
            let mut newcol: Vec<Scalar> = copy_scalars(&cols[column]);
            newcol.set(row, val);
            cols.set(column, newcol);
            Ok(())
        } else {
            Err(TableError::BoundsFailure)
        }
    } else {
        Err(TableError::BoundsFailure)
    }
}

/// The matrices a circuit adapter fills in before the structure, instance
/// and witness are derived: fixed and advice columns, public inputs, and
/// the challenges assigned before synthesis.
#[derive(Debug)]
pub struct TableData {
    /// log2 of the number of rows.
    pub k: u32,
    pub fixed: Vec<Vec<Scalar>>,
    pub instance: Vec<Scalar>,
    pub advice: Vec<Vec<Scalar>>,
    /// Challenge assignments, recorded as (index, value).
    pub challenges: Vec<(u64, Scalar)>,
}

impl TableData {
    pub open spec fn nrow(self) -> int {
        rows_count(self.k as nat)
    }

    pub open spec fn wf(self) -> bool {
        &&& self.k <= 20
        &&& self.fixed@.len() <= 0x100
        &&& self.advice@.len() <= 0x100
        &&& forall|c: int|
            0 <= c < self.fixed@.len() ==> (#[trigger] self.fixed@[c])@.len() == self.nrow()
        &&& forall|c: int|
            0 <= c < self.advice@.len() ==> (#[trigger] self.advice@[c])@.len() == self.nrow()
        &&& forall|c: int, r: int|
            0 <= c < self.fixed@.len() && 0 <= r < self.nrow() ==> (
            #[trigger] self.fixed@[c]@[r]).wf()
        &&& forall|c: int, r: int|
            0 <= c < self.advice@.len() && 0 <= r < self.nrow() ==> (
            #[trigger] self.advice@[c]@[r]).wf()
        &&& forall|i: int| 0 <= i < self.instance@.len() ==> (#[trigger] self.instance@[i]).wf()
    }

    /// A fresh table with no columns yet.
    pub fn new(k: u32, instance: Vec<Scalar>) -> (r: TableData)
        requires
            k <= 20,
        ensures
            r.k == k,
            r.instance@ == instance@,
            r.fixed@.len() == 0,
            r.advice@.len() == 0,
            r.challenges@.len() == 0,
    {
        TableData { k, instance, fixed: Vec::new(), advice: Vec::new(), challenges: Vec::new() }
    }

    /// Size the fixed and advice matrices with all-zero columns, as circuit
    /// assembly does before synthesis fills them.
    pub fn prepare_columns(&mut self, num_fixed: usize, num_advice: usize)
        requires
            old(self).k <= 20,
            num_fixed <= 0x100,
            num_advice <= 0x100,
        ensures
            final(self).k == old(self).k,
            final(self).instance@ == old(self).instance@,
            final(self).challenges@ == old(self).challenges@,
            final(self).fixed@.len() == num_fixed,
            final(self).advice@.len() == num_advice,
            forall|c: int|
                0 <= c < num_fixed ==> (#[trigger] final(self).fixed@[c])@.len() == final(self).nrow(),
            forall|c: int|
                0 <= c < num_advice ==> (#[trigger] final(self).advice@[c])@.len() == final(self).nrow(),
            forall|c: int, r: int|
                0 <= c < num_fixed && 0 <= r < final(self).nrow() ==> (#[trigger] final(self).fixed@[c]@[r]).v == 0,
            forall|c: int, r: int|
                0 <= c < num_advice && 0 <= r < final(self).nrow() ==> (#[trigger] final(self).advice@[c]@[r]).v == 0,
    {
        let nrow: usize = rows_exec(self.k as usize);
        let mut fixed: Vec<Vec<Scalar>> = Vec::new();
        let mut c: usize = 0;
        while c < num_fixed
            invariant
                c <= num_fixed,
                fixed@.len() == c,
                forall|t: int| 0 <= t < c ==> (#[trigger] fixed@[t])@.len() == nrow,
                forall|t: int, r: int|
                    0 <= t < c && 0 <= r < nrow ==> (#[trigger] fixed@[t]@[r]).v == 0,
            decreases num_fixed - c,
        {
            fixed.push(zero_scalars(nrow));
            c = c + 1;
        }
        let mut advice: Vec<Vec<Scalar>> = Vec::new();
        let mut a: usize = 0;
        while a < num_advice
            invariant
                a <= num_advice,
                advice@.len() == a,
                forall|t: int| 0 <= t < a ==> (#[trigger] advice@[t])@.len() == nrow,
                forall|t: int, r: int|
                    0 <= t < a && 0 <= r < nrow ==> (#[trigger] advice@[t]@[r]).v == 0,
            decreases num_advice - a,
        {
            advice.push(zero_scalars(nrow));
            a = a + 1;
        }
        self.fixed = fixed;
        self.advice = advice;
    }

    /// Record one advice cell.
    pub fn assign_advice(&mut self, column: usize, row: usize, val: Scalar) -> (r: Result<
        (),
        TableError,
    >)
        ensures
            (r == Ok::<(), TableError>(())) <==> (column < old(self).advice@.len() && row < old(self).advice@[column as int]@.len()),
            r == Ok::<(), TableError>(()) ==> final(self).advice@.len() == old(self).advice@.len() && final(self).advice@[column as int]@ == old(self).advice@[column as int]@.update(row as int, val) && (forall|c: int|
                0 <= c < old(self).advice@.len() && c != column ==> (#[trigger] final(self).advice@[c]) == old(self).advice@[c]),
            r != Ok::<(), TableError>(()) ==> final(self).advice@ == old(self).advice@,
            final(self).k == old(self).k,
            final(self).fixed@ == old(self).fixed@,
            final(self).instance@ == old(self).instance@,
            final(self).challenges@ == old(self).challenges@,
    {
        set_cell(&mut self.advice, column, row, val)
    }

    /// Record one fixed cell.
    pub fn assign_fixed(&mut self, column: usize, row: usize, val: Scalar) -> (r: Result<
        (),
        TableError,
    >)
        ensures
            (r == Ok::<(), TableError>(())) <==> (column < old(self).fixed@.len() && row < old(self).fixed@[column as int]@.len()),
            r == Ok::<(), TableError>(()) ==> final(self).fixed@.len() == old(self).fixed@.len()
                && final(self).fixed@[column as int]@ == old(self).fixed@[column as int]@.update(
                row as int,
                val,
            ) && (forall|c: int|
                0 <= c < old(self).fixed@.len() && c != column ==> (#[trigger] final(self).fixed@[c]) == old(self).fixed@[c]),
            r != Ok::<(), TableError>(()) ==> final(self).fixed@ == old(self).fixed@,
            final(self).k == old(self).k,
            final(self).advice@ == old(self).advice@,
            final(self).instance@ == old(self).instance@,
            final(self).challenges@ == old(self).challenges@,
    {
        set_cell(&mut self.fixed, column, row, val)
    }

    /// Read one public-input cell; only a single instance column exists.
    pub fn query_instance(&self, column: usize, row: usize) -> (r: Result<Scalar, TableError>)
        requires
            column == 0,
        ensures
            row < self.instance@.len() ==> r == Ok::<Scalar, TableError>(self.instance@[row as int]),
            row >= self.instance@.len() ==> r == Err::<Scalar, TableError>(
                TableError::BoundsFailure,
            ),
    {
        if row < self.instance.len() {
            Ok(self.instance[row])
        } else {
            Err(TableError::BoundsFailure)
        }
    }

    /// Record one challenge value; challenges are assigned before synthesis.
    pub fn set_challenge(&mut self, index: u64, value: Scalar)
        ensures
            final(self).challenges@ == old(self).challenges@.push((index, value)),
            final(self).k == old(self).k,
            final(self).fixed@ == old(self).fixed@,
            final(self).advice@ == old(self).advice@,
            final(self).instance@ == old(self).instance@,
    {
        self.challenges.push((index, value));
    }

    /// The value assigned to a challenge, if one was recorded.
    pub fn get_challenge(&self, index: u64) -> (r: Option<Scalar>)
        ensures
            r == challenge_lookup(self.challenges@, index, 0),
    {
        let mut i: usize = 0;
        while i < self.challenges.len()
            invariant
                i <= self.challenges@.len(),
                challenge_lookup(self.challenges@, index, 0) == challenge_lookup(
                    self.challenges@,
                    index,
                    i as int,
                ),
            decreases self.challenges@.len() - i,
        {
            let entry = self.challenges[i];
            if entry.0 == index {
                return Some(entry.1);
            }
            i = i + 1;
        }
        None
    }

    /// Flatten the advice columns into one witness vector.
    pub fn plonk_witness(&self) -> (r: PlonkWitness)
        requires
            self.wf(),
            self.advice@.len() >= 1,
        ensures
            r.num_advice_columns == self.advice@.len(),
            r.W@ == flat_upto(self.advice@, self.advice@.len() as int),
            r.W@.len() == self.advice@.len() * self.nrow(),
            r.wf(),
    {
        let mut w: Vec<Scalar> = Vec::new();
        let mut c: usize = 0;
        while c < self.advice.len()
            invariant
                c <= self.advice@.len(),
                self.wf(),
                w@ == flat_upto(self.advice@, c as int),
            decreases self.advice@.len() - c,
        {
            let col = &self.advice[c];
            let mut r: usize = 0;
            while r < col.len()
                invariant
                    r <= col@.len(),
                    col == self.advice@[c as int],
                    c < self.advice@.len(),
                    self.wf(),
                    w@ == flat_upto(self.advice@, c as int) + col@.subrange(0, r as int),
                decreases col@.len() - r,
            {
                w.push(col[r]);
                proof {
                    assert(w@ =~= flat_upto(self.advice@, c as int) + col@.subrange(
                        0,
                        r as int + 1,
                    ));
                }
                r = r + 1;
            }
            proof {
                assert(col@.subrange(0, col@.len() as int) =~= col@);
                assert(w@ =~= flat_upto(self.advice@, c as int + 1));
            }
            c = c + 1;
        }
        proof {
            lemma_flat_upto_len(self.advice@, self.advice@.len() as int, self.nrow());
            lemma_flat_upto_wf(self.advice@, self.advice@.len() as int);
        }
        PlonkWitness { num_advice_columns: self.advice.len(), W: w }
    }

    /// Commit to the flattened advice columns and take the first two public
    /// inputs; the challenge `y` starts as one, a placeholder the caller
    /// replaces.
    pub fn plonk_instance(&self, ck: &CommitmentKey) -> (r: PlonkInstance)
        requires
            self.wf(),
            ck.wf(),
            self.advice@.len() >= 1,
            self.instance@.len() >= 2,
            self.advice@.len() * self.nrow() <= ck.gens@.len(),
        ensures
            r.W_commitment.v as int == commit_value(
                ck.gens@,
                flat_upto(self.advice@, self.advice@.len() as int),
            ),
            r.instance@.len() == 2,
            r.instance@[0] == self.instance@[0],
            r.instance@[1] == self.instance@[1],
            r.y.v == 1,
            r.wf(),
    {
        let w: PlonkWitness = self.plonk_witness();
        let w_commitment = ck.commit(&w.W);
        let mut instance: Vec<Scalar> = Vec::new();
        instance.push(self.instance[0]);
        instance.push(self.instance[1]);
        PlonkInstance { W_commitment: w_commitment, instance, y: Scalar::one() }
    }

    /// Build the structure: flatten and commit the fixed columns, and
    /// combine all gate polynomials `g_1 .. g_n` into the single polynomial
    /// `g_1 * y^(n-1) + ... + g_n` over the challenge variable `y`.
    pub fn plonk_structure(&self, ck: &CommitmentKey, gates: &Vec<MultiPolynomial>) -> (r:
        PlonkStructure)
        requires
            self.wf(),
            ck.wf(),
            self.fixed@.len() * self.nrow() <= ck.gens@.len(),
            gates@.len() <= 0x1000,
            forall|i: int| 0 <= i < gates@.len() ==> (#[trigger] gates@[i]).wf(),
            forall|i: int|
                0 <= i < gates@.len() ==> (#[trigger] gates@[i]).arity as int == self.fixed@.len()
                    + self.advice@.len() + 1,
            forall|i: int, j: int|
                0 <= i < gates@.len() && 0 <= j < gates@[i].monomials@.len() ==> mono_degree(
                    (#[trigger] gates@[i].monomials@[j]).exps@,
                    self.fixed@.len() as int,
                ) <= 0x0100_0000,
            forall|i: int, j: int|
                0 <= i < gates@.len() && 0 <= j < gates@[i].monomials@.len() ==> (
                #[trigger] gates@[i].monomials@[j]).exps@[(self.fixed@.len()
                    + self.advice@.len()) as int] <= 0xFFFF_FFFF,
        ensures
            r.wf(),
            r.k == self.k,
            r.num_advice_columns == self.advice@.len(),
            r.fixed_columns@.len() == self.fixed@.len(),
            forall|c: int|
                0 <= c < self.fixed@.len() ==> (#[trigger] r.fixed_columns@[c])@
                    == self.fixed@[c]@,
            r.fixed_commitment.v as int == commit_value(
                ck.gens@,
                flat_upto(self.fixed@, self.fixed@.len() as int),
            ),
            is_combination(
                r.gate,
                gates@,
                self.fixed@.len() + self.advice@.len() + 1int,
                self.fixed@.len() + self.advice@.len() as int,
            ),
    {
        let nf: usize = self.fixed.len();
        let na: usize = self.advice.len();
        let arity: usize = nf + na + 1;
        let y_index: usize = nf + na;
        let gate: MultiPolynomial = combine_gates(gates, arity, y_index);
        // Degrees grew by at most the number of gates, staying under the
        // structure's bound.
        proof {
            assert forall|t: int|
                0 <= t < gate.monomials@.len() implies mono_degree(
                (#[trigger] gate.monomials@[t]).exps@,
                nf as int,
            ) <= 0x1000_0000 by {
                lemma_combined_degree(gate, gates@, nf as int, na as int, t);
            }
        }
        // Flatten and commit the fixed columns.
        let mut flat: Vec<Scalar> = Vec::new();
        let mut c: usize = 0;
        while c < self.fixed.len()
            invariant
                c <= self.fixed@.len(),
                self.wf(),
                flat@ == flat_upto(self.fixed@, c as int),
            decreases self.fixed@.len() - c,
        {
            let col = &self.fixed[c];
            let mut t: usize = 0;
            while t < col.len()
                invariant
                    t <= col@.len(),
                    col == self.fixed@[c as int],
                    c < self.fixed@.len(),
                    self.wf(),
                    flat@ == flat_upto(self.fixed@, c as int) + col@.subrange(0, t as int),
                decreases col@.len() - t,
            {
                flat.push(col[t]);
                proof {
                    assert(flat@ =~= flat_upto(self.fixed@, c as int) + col@.subrange(
                        0,
                        t as int + 1,
                    ));
                }
                t = t + 1;
            }
            proof {
                assert(col@.subrange(0, col@.len() as int) =~= col@);
                assert(flat@ =~= flat_upto(self.fixed@, c as int + 1));
            }
            c = c + 1;
        }
        proof {
            lemma_flat_upto_len(self.fixed@, self.fixed@.len() as int, self.nrow());
            lemma_flat_upto_wf(self.fixed@, self.fixed@.len() as int);
        }
        let fixed_commitment = ck.commit(&flat);
        // Copy the fixed columns into the immutable structure.
        let mut fixed_columns: Vec<Vec<Scalar>> = Vec::new();
        let mut f: usize = 0;
        while f < self.fixed.len()
            invariant
                f <= self.fixed@.len(),
                self.wf(),
                fixed_columns@.len() == f,
                forall|t: int|
                    0 <= t < f ==> (#[trigger] fixed_columns@[t])@ == self.fixed@[t]@,
            decreases self.fixed@.len() - f,
        {
            fixed_columns.push(copy_scalars(&self.fixed[f]));
            f = f + 1;
        }
        PlonkStructure {
            k: self.k as usize,
            fixed_columns,
            num_advice_columns: na,
            gate,
            fixed_commitment,
        }
    }
}

/// A monomial of the combined gate polynomial keeps a bounded degree: the
/// challenge exponent grew by less than the number of gates.
proof fn lemma_combined_degree(
    gate: MultiPolynomial,
    gs: Seq<MultiPolynomial>,
    nf: int,
    na: int,
    t: int,
)
    requires
        0 <= t < gate.monomials@.len(),
        gs.len() <= 0x1000,
        forall|i: int| 0 <= i < gs.len() ==> (#[trigger] gs[i]).wf(),
        forall|i: int| 0 <= i < gs.len() ==> (#[trigger] gs[i]).arity as int == nf + na + 1,
        0 <= nf,
        0 <= na,
        forall|i: int, j: int|
            0 <= i < gs.len() && 0 <= j < gs[i].monomials@.len() ==> mono_degree(
                (#[trigger] gs[i].monomials@[j]).exps@,
                nf,
            ) <= 0x0100_0000,
        is_combination(gate, gs, nf + na + 1, nf + na),
    ensures
        mono_degree(gate.monomials@[t].exps@, nf) <= 0x1000_0000,
{
    lemma_flat_position(gs, t, gs.len() as int);
    let i = choose|i: int|
        0 <= i < gs.len() && #[trigger] count_upto(gs, i) <= t && t < count_upto(gs, i)
            + gs[i].monomials@.len();
    let j = t - count_upto(gs, i);
    let e = gs[i].monomials@[j].exps@;
    assert(gate.monomials@[t].exps@ == bumped(e, nf + na, gs.len() - 1 - i));
    assert(e.len() == nf + na + 1);
    lemma_exp_sum_update(e, nf, nf + na, (e[nf + na] + (gs.len() - 1 - i)) as u64);
}

/// Every position below the count of the first `n` gates falls inside some
/// gate's block.
proof fn lemma_flat_position(gs: Seq<MultiPolynomial>, t: int, n: int)
    requires
        0 <= t < count_upto(gs, n),
        0 <= n <= gs.len(),
    ensures
        exists|i: int|
            0 <= i < gs.len() && #[trigger] count_upto(gs, i) <= t && t < count_upto(gs, i)
                + gs[i].monomials@.len(),
    decreases n,
{
    if n > 0 {
        if t >= count_upto(gs, n - 1) {
            assert(0 <= n - 1 < gs.len() && count_upto(gs, n - 1) <= t && t < count_upto(
                gs,
                n - 1,
            ) + gs[n - 1].monomials@.len());
        } else {
            lemma_flat_position(gs, t, n - 1);
        }
    }
}

} // verus!
