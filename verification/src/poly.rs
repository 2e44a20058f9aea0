//! The multivariate gate polynomial and its row-wise evaluator.
//!
//! A circuit's combined gate constraint is a polynomial over column
//! variables: positions `0 .. num_fixed` are the fixed columns, the advice
//! columns follow, then the challenge that combines a circuit's gates, and — once the
//! polynomial has been homogenized — the scaling variable.  A polynomial is a
//! sum of monomials, each a coefficient together with one exponent per
//! variable.  Homogenization pads every monomial with powers of the scaling
//! variable until all monomials share the same total degree, where the
//! degree of a monomial counts every exponent except those of the fixed
//! columns (fixed columns belong to the structure and are never folded).

use vstd::prelude::*;
use vstd::pervasive::VecAdditionalExecFns;
use vstd::arithmetic::power::lemma1_pow;
use vstd::arithmetic::div_mod::lemma_small_mod;
use crate::field::{fadd, fmul, fpow, Scalar, FIELD_MODULUS};

verus! {

/// One monomial: a coefficient and one exponent per variable.
#[derive(Debug, Clone, PartialEq, Eq)]
pub struct Monomial {
    pub coeff: Scalar,
    pub exps: Vec<u64>,
}

/// A multivariate polynomial in `arity` variables.
#[derive(Debug, Clone, PartialEq, Eq)]
pub struct MultiPolynomial {
    pub arity: usize,
    pub monomials: Vec<Monomial>,
}

/// Copy a vector of exponents.
pub fn copy_exps(src: &Vec<u64>) -> (r: Vec<u64>)
    ensures
        r@ == src@,
{
    let mut r: Vec<u64> = Vec::new();
    let mut i: usize = 0;
    while i < src.len()
        invariant
            i <= src.len(),
            r@ == src@.subrange(0, i as int),
        decreases src.len() - i,
    {
        r.push(src[i]);
        i = i + 1;
    }
    proof {
        assert(r@ =~= src@);
    }
    r
}

/// Copy a vector of field elements.
pub fn copy_scalars(src: &Vec<Scalar>) -> (r: Vec<Scalar>)
    ensures
        r@ == src@,
{
    let mut r: Vec<Scalar> = Vec::new();
    let mut i: usize = 0;
    while i < src.len()
        invariant
            i <= src.len(),
            r@ == src@.subrange(0, i as int),
        decreases src.len() - i,
    {
        r.push(src[i]);
        i = i + 1;
    }
    proof {
        assert(r@ =~= src@);
    }
    r
}

// ------------------------------------------------------------------
// Degree bookkeeping.
// ------------------------------------------------------------------

/// Sum of the exponents from position `j` on.
pub open spec fn exp_sum_from(e: Seq<u64>, j: int) -> int
    decreases e.len() - j,
{
    if j < 0 || j >= e.len() {
        0
    } else {
        e[j] + exp_sum_from(e, j + 1)
    }
}

/// Total degree of a monomial: the exponents of the fixed columns do not
/// count.
pub open spec fn mono_degree(e: Seq<u64>, num_fixed: int) -> int {
    exp_sum_from(e, num_fixed)
}

/// Largest monomial degree from position `k` on.
pub open spec fn max_degree_from(ms: Seq<Monomial>, num_fixed: int, k: int) -> int
    decreases ms.len() - k,
{
    if k < 0 || k >= ms.len() {
        0
    } else {
        let d0 = mono_degree(ms[k].exps@, num_fixed);
        let rest = max_degree_from(ms, num_fixed, k + 1);
        if d0 >= rest {
            d0
        } else {
            rest
        }
    }
}

/// Largest monomial degree of a polynomial.
pub open spec fn max_degree(ms: Seq<Monomial>, num_fixed: int) -> int {
    max_degree_from(ms, num_fixed, 0)
}

pub proof fn lemma_exp_sum_nonneg(e: Seq<u64>, j: int)
    ensures
        exp_sum_from(e, j) >= 0,
    decreases e.len() - j,
{
    if 0 <= j < e.len() {
        lemma_exp_sum_nonneg(e, j + 1);
    }
}

/// Appending zero exponents does not change the degree.
pub proof fn lemma_exp_sum_extended(e: Seq<u64>, new_len: int, j: int)
    ensures
        exp_sum_from(extended(e, new_len), j) == exp_sum_from(e, j),
    decreases extended(e, new_len).len() - j,
{
    let e1 = extended(e, new_len);
    if 0 <= j < e1.len() {
        lemma_exp_sum_extended(e, new_len, j + 1);
    }
}

/// Changing one exponent shifts the sum by the difference.
pub proof fn lemma_exp_sum_update(e: Seq<u64>, j0: int, t: int, v: u64)
    requires
        j0 <= t < e.len(),
        0 <= j0,
    ensures
        exp_sum_from(e.update(t, v), j0) == exp_sum_from(e, j0) + v - e[t],
    decreases t - j0,
{
    if j0 == t {
        assert(exp_sum_from(e.update(t, v), t + 1) == exp_sum_from(e, t + 1)) by {
            lemma_exp_sum_same_suffix(e.update(t, v), e, t + 1);
        }
    } else {
        lemma_exp_sum_update(e, j0 + 1, t, v);
    }
}

/// Sums from `j` agree when the sequences agree from `j` on.
pub proof fn lemma_exp_sum_same_suffix(a: Seq<u64>, b: Seq<u64>, j: int)
    requires
        a.len() == b.len(),
        forall|t: int| j <= t < a.len() ==> a[t] == b[t],
    ensures
        exp_sum_from(a, j) == exp_sum_from(b, j),
    decreases a.len() - j,
{
    if 0 <= j < a.len() {
        lemma_exp_sum_same_suffix(a, b, j + 1);
    }
}

/// The sum from `j0` dominates any single exponent at or after `j0`.
pub proof fn lemma_exp_sum_ge_elem(e: Seq<u64>, j0: int, t: int)
    requires
        0 <= j0 <= t < e.len(),
    ensures
        exp_sum_from(e, j0) >= e[t],
    decreases t - j0,
{
    lemma_exp_sum_nonneg(e, j0 + 1);
    if j0 < t {
        lemma_exp_sum_ge_elem(e, j0 + 1, t);
        lemma_exp_sum_nonneg(e, j0);
    }
}

/// The maximal degree dominates every monomial's degree.
pub proof fn lemma_max_degree_ge(ms: Seq<Monomial>, num_fixed: int, k: int, t: int)
    requires
        0 <= k <= t < ms.len(),
    ensures
        max_degree_from(ms, num_fixed, k) >= mono_degree(ms[t].exps@, num_fixed),
    decreases t - k,
{
    if k < t {
        lemma_max_degree_ge(ms, num_fixed, k + 1, t);
    }
}

pub proof fn lemma_max_degree_nonneg(ms: Seq<Monomial>, num_fixed: int, k: int)
    ensures
        max_degree_from(ms, num_fixed, k) >= 0,
    decreases ms.len() - k,
{
    if 0 <= k < ms.len() {
        lemma_max_degree_nonneg(ms, num_fixed, k + 1);
        lemma_exp_sum_nonneg(ms[k].exps@, num_fixed);
    }
}

/// When every monomial from `k` on has degree `d`, the maximum from `k` is
/// `d` as well (provided position `k` exists).
pub proof fn lemma_max_degree_of_equal(ms: Seq<Monomial>, num_fixed: int, k: int, d: int)
    requires
        0 <= k < ms.len(),
        forall|i: int| k <= i < ms.len() ==> mono_degree((#[trigger] ms[i]).exps@, num_fixed) == d,
        d >= 0,
    ensures
        max_degree_from(ms, num_fixed, k) == d,
    decreases ms.len() - k,
{
    assert(mono_degree(ms[k].exps@, num_fixed) == d);
    if k + 1 < ms.len() {
        lemma_max_degree_of_equal(ms, num_fixed, k + 1, d);
    } else {
        assert(max_degree_from(ms, num_fixed, k + 1) == 0);
    }
}

// ------------------------------------------------------------------
// Evaluation.
// ------------------------------------------------------------------

/// Product of `vals[j] ^ e[j]` from position `j` on, in the field.
pub open spec fn factor_from(e: Seq<u64>, vals: Seq<Scalar>, j: int) -> int
    decreases e.len() - j,
{
    if j < 0 || j >= e.len() {
        1
    } else {
        fmul(fpow(vals[j].v as int, e[j] as nat), factor_from(e, vals, j + 1))
    }
}

/// Value of one monomial at an assignment of the variables.
pub open spec fn mono_eval(m: Monomial, vals: Seq<Scalar>) -> int {
    fmul(m.coeff.v as int, factor_from(m.exps@, vals, 0))
}

/// Value of the sum of the monomials from position `k` on.
pub open spec fn eval_from(ms: Seq<Monomial>, vals: Seq<Scalar>, k: int) -> int
    decreases ms.len() - k,
{
    if k < 0 || k >= ms.len() {
        0
    } else {
        fadd(mono_eval(ms[k], vals), eval_from(ms, vals, k + 1))
    }
}

/// Value of a polynomial at an assignment of the variables.
pub open spec fn poly_eval(ms: Seq<Monomial>, vals: Seq<Scalar>) -> int {
    eval_from(ms, vals, 0)
}

// ------------------------------------------------------------------
// Homogenization, as a relation between input and output.
// ------------------------------------------------------------------

/// The exponent vector extended with zeros up to `new_len` positions.
pub open spec fn extended(e: Seq<u64>, new_len: int) -> Seq<u64> {
    if e.len() >= new_len {
        e
    } else {
        e + Seq::new((new_len - e.len()) as nat, |i: int| 0u64)
    }
}

/// The exponent vector padded at the scaling variable until the monomial's
/// degree reaches `d`.
pub open spec fn padded(e: Seq<u64>, num_fixed: int, u_index: int, d: int) -> Seq<u64> {
    let e1 = extended(e, u_index + 1);
    e1.update(u_index, (e1[u_index] + (d - mono_degree(e1, num_fixed))) as u64)
}

/// `r` is the homogenization of `p` with respect to the scaling variable at
/// `u_index`: same coefficients, every monomial padded to the maximal
/// degree.
pub open spec fn is_homogenization(
    r: MultiPolynomial,
    p: MultiPolynomial,
    num_fixed: int,
    u_index: int,
) -> bool {
    &&& r.arity as int == if p.arity as int >= u_index + 1 {
        p.arity as int
    } else {
        u_index + 1
    }
    &&& r.monomials.len() == p.monomials.len()
    &&& forall|i: int|
        0 <= i < p.monomials.len() ==> (#[trigger] r.monomials[i]).coeff == p.monomials[i].coeff
    &&& forall|i: int|
        0 <= i < p.monomials.len() ==> (#[trigger] r.monomials[i]).exps@ == padded(
            p.monomials[i].exps@,
            num_fixed,
            u_index,
            max_degree(p.monomials@, num_fixed),
        )
}

/// Value at `vals` of the homogenization of the monomials from `k` on,
/// where `d` is the shared target degree.
pub open spec fn homog_eval_from(
    ms: Seq<Monomial>,
    num_fixed: int,
    u_index: int,
    d: int,
    vals: Seq<Scalar>,
    k: int,
) -> int
    decreases ms.len() - k,
{
    if k < 0 || k >= ms.len() {
        0
    } else {
        fadd(
            fmul(
                ms[k].coeff.v as int,
                factor_from(padded(ms[k].exps@, num_fixed, u_index, d), vals, 0),
            ),
            homog_eval_from(ms, num_fixed, u_index, d, vals, k + 1),
        )
    }
}

/// Value at `vals` of the homogenization of a polynomial's monomials.
pub open spec fn homog_poly_eval(
    ms: Seq<Monomial>,
    num_fixed: int,
    u_index: int,
    vals: Seq<Scalar>,
) -> int {
    homog_eval_from(ms, num_fixed, u_index, max_degree(ms, num_fixed), vals, 0)
}

impl MultiPolynomial {
    /// Every monomial has one exponent per variable and a reduced
    /// coefficient.
    pub open spec fn wf(self) -> bool {
        &&& self.arity <= 0x1000
        &&& forall|i: int|
            0 <= i < self.monomials.len() ==> (#[trigger] self.monomials[i]).coeff.wf()
        &&& forall|i: int|
            0 <= i < self.monomials.len() ==> (#[trigger] self.monomials[i]).exps@.len()
                == self.arity
    }

    /// The polynomial with no monomials, identically zero.
    pub fn zero_poly(arity: usize) -> (r: MultiPolynomial)
        requires
            arity <= 0x1000,
        ensures
            r.wf(),
            r.arity == arity,
            r.monomials@.len() == 0,
    {
        MultiPolynomial { arity, monomials: Vec::new() }
    }

    /// Evaluate the polynomial at an assignment of its variables.
    pub fn eval(&self, vals: &Vec<Scalar>) -> (r: Scalar)
        requires
            self.wf(),
            vals@.len() == self.arity,
            forall|i: int| 0 <= i < vals@.len() ==> (#[trigger] vals@[i]).wf(),
        ensures
            r.wf(),
            r.v as int == poly_eval(self.monomials@, vals@),
    {
        let mut acc: Scalar = Scalar::zero();
        let mut k: usize = self.monomials.len();
        proof {
            lemma_small_mod(0nat, FIELD_MODULUS as nat);
        }
        while k > 0
            invariant
                k <= self.monomials.len(),
                self.wf(),
                vals@.len() == self.arity,
                forall|i: int| 0 <= i < vals@.len() ==> (#[trigger] vals@[i]).wf(),
                acc.wf(),
                acc.v as int == eval_from(self.monomials@, vals@, k as int),
            decreases k,
        {
            k = k - 1;
            let term: Scalar = eval_monomial(&self.monomials[k], vals);
            acc = term.add_fp(acc);
        }
        acc
    }

    /// Homogenize with respect to the scaling variable at `u_index`: pad
    /// every monomial with powers of that variable until all monomials share
    /// the maximal total degree.  When `u_index == self.arity` a fresh
    /// variable is appended.
    pub fn homogeneous(&self, num_fixed: usize, u_index: usize) -> (r: MultiPolynomial)
        requires
            self.wf(),
            num_fixed <= u_index <= self.arity,
            u_index < 0x1000,
            forall|i: int|
                0 <= i < self.monomials.len() ==> mono_degree(
                    (#[trigger] self.monomials[i]).exps@,
                    num_fixed as int,
                ) <= 0x1000_0000,
        ensures
            r.wf(),
            is_homogenization(r, *self, num_fixed as int, u_index as int),
    {
        let ghost gms = self.monomials@;
        let ghost nf = num_fixed as int;
        let ghost ui = u_index as int;
        // Pass 1: the maximal degree.
        let mut d: u64 = 0;
        let mut k: usize = self.monomials.len();
        while k > 0
            invariant
                k <= self.monomials.len(),
                self.wf(),
                num_fixed <= u_index <= self.arity,
                forall|i: int|
                    0 <= i < gms.len() ==> mono_degree((#[trigger] gms[i]).exps@, nf)
                        <= 0x1000_0000,
                gms == self.monomials@,
                nf == num_fixed as int,
                d as int == max_degree_from(gms, nf, k as int),
                d <= 0x1000_0000,
            decreases k,
        {
            k = k - 1;
            let d0: u64 = degree_of(&self.monomials[k].exps, num_fixed);
            if d0 > d {
                d = d0;
            }
        }
        proof {
            lemma_max_degree_nonneg(gms, nf, 0);
        }
        // Pass 2: pad every monomial.
        let new_arity: usize = if u_index == self.arity {
            self.arity + 1
        } else {
            self.arity
        };
        let mut out: Vec<Monomial> = Vec::new();
        let mut i: usize = 0;
        while i < self.monomials.len()
            invariant
                i <= self.monomials.len(),
                self.wf(),
                num_fixed <= u_index <= self.arity,
                u_index < 0x1000,
                forall|t: int|
                    0 <= t < gms.len() ==> mono_degree((#[trigger] gms[t]).exps@, nf)
                        <= 0x1000_0000,
                gms == self.monomials@,
                nf == num_fixed as int,
                ui == u_index as int,
                d as int == max_degree(gms, nf),
                d <= 0x1000_0000,
                new_arity as int == if self.arity as int >= ui + 1 {
                    self.arity as int
                } else {
                    ui + 1
                },
                out@.len() == i,
                forall|t: int|
                    0 <= t < i ==> (#[trigger] out@[t]).coeff == gms[t].coeff,
                forall|t: int|
                    0 <= t < i ==> (#[trigger] out@[t]).exps@ == padded(
                        gms[t].exps@,
                        nf,
                        ui,
                        d as int,
                    ),
                forall|t: int| 0 <= t < i ==> (#[trigger] out@[t]).exps@.len() == new_arity,
            decreases self.monomials.len() - i,
        {
            let m = &self.monomials[i];
            let mut e2: Vec<u64> = copy_exps(&m.exps);
            if u_index == self.arity {
                e2.push(0);
            }
            proof {
                assert(e2@ =~= extended(m.exps@, ui + 1));
                lemma_exp_sum_extended(m.exps@, ui + 1, nf);
            }
            let dm: u64 = degree_of(&e2, num_fixed);
            proof {
                lemma_max_degree_ge(gms, nf, 0, i as int);
                lemma_exp_sum_ge_elem(e2@, nf, ui);
                lemma_exp_sum_nonneg(e2@, nf);
            }
            let pad: u64 = d - dm;
            let newexp: u64 = e2[u_index] + pad;
            e2.set(u_index, newexp);
            out.push(Monomial { coeff: m.coeff, exps: e2 });
            proof {
                assert(out@[i as int].exps@ == padded(gms[i as int].exps@, nf, ui, d as int));
            }
            i = i + 1;
        }
        MultiPolynomial { arity: new_arity, monomials: out }
    }
}

/// Evaluate one monomial at an assignment of the variables.
fn eval_monomial(m: &Monomial, vals: &Vec<Scalar>) -> (r: Scalar)
    requires
        m.coeff.wf(),
        m.exps@.len() <= vals@.len(),
        forall|i: int| 0 <= i < vals@.len() ==> (#[trigger] vals@[i]).wf(),
    ensures
        r.wf(),
        r.v as int == mono_eval(*m, vals@),
{
    let mut acc: Scalar = Scalar::one();
    let mut j: usize = m.exps.len();
    while j > 0
        invariant
            j <= m.exps@.len(),
            m.exps@.len() <= vals@.len(),
            forall|i: int| 0 <= i < vals@.len() ==> (#[trigger] vals@[i]).wf(),
            acc.wf(),
            acc.v as int == factor_from(m.exps@, vals@, j as int),
        decreases j,
    {
        j = j - 1;
        let term: Scalar = vals[j].pow_fp(m.exps[j]);
        acc = term.mul_fp(acc);
    }
    m.coeff.mul_fp(acc)
}

/// Total degree of one exponent vector, counting positions from `num_fixed`
/// on.
fn degree_of(e: &Vec<u64>, num_fixed: usize) -> (r: u64)
    requires
        num_fixed <= e.len(),
        e@.len() <= 0x1001,
        mono_degree(e@, num_fixed as int) <= 0x1000_0000,
    ensures
        r as int == mono_degree(e@, num_fixed as int),
        r <= 0x1000_0000,
{
    let mut acc: u128 = 0;
    let mut j: usize = e.len();
    while j > num_fixed
        invariant
            num_fixed <= j <= e.len(),
            e@.len() <= 0x1001,
            acc as int == exp_sum_from(e@, j as int),
            acc <= (e@.len() - j) as u128 * 0xFFFF_FFFF_FFFF_FFFF,
        decreases j,
    {
        j = j - 1;
        acc = acc + (e[j] as u128);
    }
    proof {
        lemma_exp_sum_nonneg(e@, num_fixed as int);
    }
    acc as u64
}

// ------------------------------------------------------------------
// Combining several gate polynomials into one.
// ------------------------------------------------------------------

/// Number of monomials of the first `k` gate polynomials together.
pub open spec fn count_upto(gs: Seq<MultiPolynomial>, k: int) -> int
    decreases k,
{
    if k <= 0 {
        0
    } else {
        count_upto(gs, k - 1) + gs[k - 1].monomials.len()
    }
}

/// The exponent vector with the challenge variable raised by `extra`.
pub open spec fn bumped(e: Seq<u64>, y_index: int, extra: int) -> Seq<u64> {
    e.update(y_index, (e[y_index] + extra) as u64)
}

pub proof fn lemma_count_upto_nonneg(gs: Seq<MultiPolynomial>, k: int)
    ensures
        count_upto(gs, k) >= 0,
    decreases k,
{
    if k > 0 {
        lemma_count_upto_nonneg(gs, k - 1);
    }
}

/// Prefix counts grow with the prefix.
pub proof fn lemma_count_upto_mono(gs: Seq<MultiPolynomial>, a: int, b: int)
    requires
        0 <= a <= b,
    ensures
        count_upto(gs, a) <= count_upto(gs, b),
    decreases b - a,
{
    if a < b {
        lemma_count_upto_mono(gs, a, b - 1);
    }
}

/// `r` is the combination `g_1 * y^(n-1) + g_2 * y^(n-2) + ... + g_n` of
/// all gate polynomials, `y` being the variable at `y_index`: gate `i`
/// contributes its monomials in order, each with the challenge exponent
/// raised by `n - 1 - i`.
pub open spec fn is_combination(
    r: MultiPolynomial,
    gs: Seq<MultiPolynomial>,
    arity: int,
    y_index: int,
) -> bool {
    &&& r.arity as int == arity
    &&& r.monomials@.len() == count_upto(gs, gs.len() as int)
    &&& forall|i: int, j: int|
        0 <= i < gs.len() && 0 <= j < gs[i].monomials@.len() ==> r.monomials@[count_upto(gs, i)
            + j].coeff == (#[trigger] gs[i].monomials@[j]).coeff && r.monomials@[count_upto(
            gs,
            i,
        ) + j].exps@ == bumped(gs[i].monomials@[j].exps@, y_index, gs.len() - 1 - i)
}

/// Combine the per-gate polynomials `g_1 .. g_n` into the single polynomial
/// `g_1 * y^(n-1) + g_2 * y^(n-2) + ... + g_n`, where `y` is the variable at
/// `y_index`.
pub fn combine_gates(gates: &Vec<MultiPolynomial>, arity: usize, y_index: usize) -> (r:
    MultiPolynomial)
    requires
        arity <= 0x1000,
        y_index < arity,
        gates@.len() <= 0x1000,
        forall|i: int| 0 <= i < gates@.len() ==> (#[trigger] gates@[i]).wf(),
        forall|i: int| 0 <= i < gates@.len() ==> (#[trigger] gates@[i]).arity == arity,
        forall|i: int, j: int|
            0 <= i < gates@.len() && 0 <= j < gates@[i].monomials@.len() ==> (
            #[trigger] gates@[i].monomials@[j]).exps@[y_index as int] <= 0xFFFF_FFFF,
    ensures
        r.wf(),
        is_combination(r, gates@, arity as int, y_index as int),
{
    let ghost gs = gates@;
    let n: usize = gates.len();
    let mut out: Vec<Monomial> = Vec::new();
    let mut i: usize = 0;
    while i < n
        invariant
            i <= n,
            n == gs.len(),
            gs == gates@,
            arity <= 0x1000,
            y_index < arity,
            n <= 0x1000,
            forall|t: int| 0 <= t < gs.len() ==> (#[trigger] gs[t]).wf(),
            forall|t: int| 0 <= t < gs.len() ==> (#[trigger] gs[t]).arity == arity,
            forall|t: int, j: int|
                0 <= t < gs.len() && 0 <= j < gs[t].monomials@.len() ==> (
                #[trigger] gs[t].monomials@[j]).exps@[y_index as int] <= 0xFFFF_FFFF,
            out@.len() == count_upto(gs, i as int),
            forall|t: int, j: int|
                0 <= t < i && 0 <= j < gs[t].monomials@.len()
                    ==> out@[count_upto(gs, t) + j].coeff == (
                    #[trigger] gs[t].monomials@[j]).coeff && out@[count_upto(gs, t) + j].exps@
                    == bumped(gs[t].monomials@[j].exps@, y_index as int, gs.len() - 1 - t),
            forall|p: int|
                0 <= p < out@.len() ==> (#[trigger] out@[p]).coeff.wf() && out@[p].exps@.len()
                    == arity,
        decreases n - i,
    {
        let extra: u64 = ((n - 1 - i) as u64);
        let g = &gates[i];
        let mut j: usize = 0;
        proof {
            lemma_count_upto_nonneg(gs, i as int);
        }
        while j < g.monomials.len()
            invariant
                i < n,
                n == gs.len(),
                gs == gates@,
                g == gates@[i as int],
                arity <= 0x1000,
                y_index < arity,
                n <= 0x1000,
                extra == n - 1 - i,
                j <= g.monomials@.len(),
                forall|t: int| 0 <= t < gs.len() ==> (#[trigger] gs[t]).wf(),
                forall|t: int| 0 <= t < gs.len() ==> (#[trigger] gs[t]).arity == arity,
                forall|t: int, jj: int|
                    0 <= t < gs.len() && 0 <= jj < gs[t].monomials@.len() ==> (
                    #[trigger] gs[t].monomials@[jj]).exps@[y_index as int] <= 0xFFFF_FFFF,
                out@.len() == count_upto(gs, i as int) + j,
                forall|t: int, jj: int|
                    0 <= t < i && 0 <= jj < gs[t].monomials@.len()
                        ==> out@[count_upto(gs, t) + jj].coeff == (
                        #[trigger] gs[t].monomials@[jj]).coeff && out@[count_upto(gs, t)
                        + jj].exps@ == bumped(
                        gs[t].monomials@[jj].exps@,
                        y_index as int,
                        gs.len() - 1 - t,
                    ),
                forall|jj: int|
                    0 <= jj < j ==> out@[count_upto(gs, i as int) + jj].coeff == (
                        #[trigger] gs[i as int].monomials@[jj]).coeff && out@[count_upto(
                        gs,
                        i as int,
                    ) + jj].exps@ == bumped(
                        gs[i as int].monomials@[jj].exps@,
                        y_index as int,
                        gs.len() - 1 - i,
                    ),
                forall|p: int|
                    0 <= p < out@.len() ==> (#[trigger] out@[p]).coeff.wf() && out@[p].exps@.len()
                        == arity,
            decreases g.monomials@.len() - j,
        {
            let m = &g.monomials[j];
            proof {
                assert(gs[i as int].monomials@[j as int].exps@[y_index as int] <= 0xFFFF_FFFF);
            }
            let mut e2: Vec<u64> = copy_exps(&m.exps);
            let bumped_exp: u64 = e2[y_index] + extra;
            e2.set(y_index, bumped_exp);
            proof {
                assert(e2@ =~= bumped(
                    gs[i as int].monomials@[j as int].exps@,
                    y_index as int,
                    gs.len() - 1 - i,
                ));
            }
            let ghost pre = out@;
            out.push(Monomial { coeff: m.coeff, exps: e2 });
            j = j + 1;
            proof {
                assert(forall|p: int| 0 <= p < pre.len() ==> out@[p] == pre[p]);
                assert(out@[pre.len() as int].coeff == gs[i as int].monomials@[j - 1].coeff);
                assert(out@[pre.len() as int].exps@ == bumped(
                    gs[i as int].monomials@[j - 1].exps@,
                    y_index as int,
                    gs.len() - 1 - i,
                ));
                assert forall|t: int, jj: int|
                    0 <= t < i && 0 <= jj < gs[t].monomials@.len() implies out@[count_upto(gs, t)
                    + jj].coeff == (#[trigger] gs[t].monomials@[jj]).coeff && out@[count_upto(
                    gs,
                    t,
                ) + jj].exps@ == bumped(
                    gs[t].monomials@[jj].exps@,
                    y_index as int,
                    gs.len() - 1 - t,
                ) by {
                    lemma_count_upto_nonneg(gs, t);
                    lemma_count_upto_mono(gs, t + 1, i as int);
                    assert(count_upto(gs, t) + jj < count_upto(gs, t + 1));
                    assert(count_upto(gs, t + 1) <= count_upto(gs, i as int));
                    assert(count_upto(gs, t) + jj < pre.len());
                    assert(out@[count_upto(gs, t) + jj] == pre[count_upto(gs, t) + jj]);
                }
                assert forall|jj: int|
                    0 <= jj < j implies out@[count_upto(gs, i as int) + jj].coeff == (
                    #[trigger] gs[i as int].monomials@[jj]).coeff && out@[count_upto(
                    gs,
                    i as int,
                ) + jj].exps@ == bumped(
                    gs[i as int].monomials@[jj].exps@,
                    y_index as int,
                    gs.len() - 1 - i,
                ) by {
                    lemma_count_upto_nonneg(gs, i as int);
                    if jj < j - 1 {
                        assert(out@[count_upto(gs, i as int) + jj] == pre[count_upto(
                            gs,
                            i as int,
                        ) + jj]);
                    } else {
                        assert(count_upto(gs, i as int) + jj == pre.len());
                    }
                }
            }
        }
        i = i + 1;
    }
    MultiPolynomial { arity, monomials: out }
}

// ------------------------------------------------------------------
// Laws of homogenization.
// ------------------------------------------------------------------

/// Every monomial of a homogenization has the shared maximal degree.
pub proof fn lemma_homogenization_degree(
    q: MultiPolynomial,
    p: MultiPolynomial,
    num_fixed: int,
    u_index: int,
    i: int,
)
    requires
        p.wf(),
        0 <= num_fixed <= u_index,
        u_index <= p.arity,
        forall|t: int|
            0 <= t < p.monomials.len() ==> mono_degree(
                (#[trigger] p.monomials[t]).exps@,
                num_fixed,
            ) <= 0x1000_0000,
        is_homogenization(q, p, num_fixed, u_index),
        0 <= i < q.monomials.len(),
    ensures
        mono_degree(q.monomials[i].exps@, num_fixed) == max_degree(p.monomials@, num_fixed),
{
    let e = p.monomials[i].exps@;
    let d = max_degree(p.monomials@, num_fixed);
    let e1 = extended(e, u_index + 1);
    lemma_exp_sum_extended(e, u_index + 1, num_fixed);
    lemma_max_degree_ge(p.monomials@, num_fixed, 0, i);
    lemma_max_degree_bounded(p.monomials@, num_fixed, 0, 0x1000_0000);
    lemma_exp_sum_ge_elem(e1, num_fixed, u_index);
    lemma_exp_sum_nonneg(e1, num_fixed);
    assert(0 <= e1[u_index] + (d - mono_degree(e1, num_fixed)) <= 0x2000_0000);
    lemma_exp_sum_update(
        e1,
        num_fixed,
        u_index,
        (e1[u_index] + (d - mono_degree(e1, num_fixed))) as u64,
    );
}

/// The maximal degree is no more than any common bound on the degrees.
pub proof fn lemma_max_degree_bounded(ms: Seq<Monomial>, num_fixed: int, k: int, bound: int)
    requires
        bound >= 0,
        forall|t: int|
            0 <= t < ms.len() ==> mono_degree((#[trigger] ms[t]).exps@, num_fixed) <= bound,
    ensures
        max_degree_from(ms, num_fixed, k) <= bound,
    decreases ms.len() - k,
{
    if 0 <= k < ms.len() {
        lemma_max_degree_bounded(ms, num_fixed, k + 1, bound);
    }
}

/// Homogenizing twice with the same scaling variable gives the same
/// polynomial as homogenizing once: the second pass pads nothing.
pub proof fn lemma_homogeneous_idempotent(
    p: MultiPolynomial,
    q: MultiPolynomial,
    r: MultiPolynomial,
    num_fixed: int,
    u_index: int,
)
    requires
        p.wf(),
        0 <= num_fixed <= u_index,
        u_index <= p.arity,
        forall|t: int|
            0 <= t < p.monomials.len() ==> mono_degree(
                (#[trigger] p.monomials[t]).exps@,
                num_fixed,
            ) <= 0x1000_0000,
        is_homogenization(q, p, num_fixed, u_index),
        is_homogenization(r, q, num_fixed, u_index),
    ensures
        r.arity == q.arity,
        r.monomials.len() == q.monomials.len(),
        forall|i: int|
            0 <= i < q.monomials.len() ==> (#[trigger] r.monomials[i]).coeff
                == q.monomials[i].coeff,
        forall|i: int|
            0 <= i < q.monomials.len() ==> (#[trigger] r.monomials[i]).exps@
                == q.monomials[i].exps@,
{
    let ms = q.monomials@;
    let d = max_degree(p.monomials@, num_fixed);
    lemma_max_degree_nonneg(p.monomials@, num_fixed, 0);
    assert forall|i: int| 0 <= i < ms.len() implies mono_degree(
        (#[trigger] ms[i]).exps@,
        num_fixed,
    ) == d by {
        lemma_homogenization_degree(q, p, num_fixed, u_index, i);
    }
    if ms.len() > 0 {
        lemma_max_degree_of_equal(ms, num_fixed, 0, d);
    }
    assert forall|i: int| 0 <= i < ms.len() implies (#[trigger] r.monomials[i]).exps@
        == q.monomials[i].exps@ by {
        let e = ms[i].exps@;
        // q's exponent vectors already have length u_index + 1 or more, so
        // the second extension changes nothing and the second pad is zero.
        assert(e.len() == q.arity as int);
        assert(extended(e, u_index + 1) == e);
        assert(mono_degree(e, num_fixed) == max_degree(ms, num_fixed));
        assert(r.monomials[i].exps@ == e.update(u_index, (e[u_index] + 0) as u64));
        assert(e.update(u_index, (e[u_index] + 0) as u64) =~= e);
    }
}

/// Evaluating the homogenization of `p` is the same as the spec-level
/// homogenized evaluation of `p` itself.
pub proof fn lemma_homog_eval_bridge(
    q: MultiPolynomial,
    p: MultiPolynomial,
    num_fixed: int,
    u_index: int,
    vals: Seq<Scalar>,
    k: int,
)
    requires
        is_homogenization(q, p, num_fixed, u_index),
    ensures
        eval_from(q.monomials@, vals, k) == homog_eval_from(
            p.monomials@,
            num_fixed,
            u_index,
            max_degree(p.monomials@, num_fixed),
            vals,
            k,
        ),
    decreases p.monomials@.len() - k,
{
    if 0 <= k < p.monomials@.len() {
        lemma_homog_eval_bridge(q, p, num_fixed, u_index, vals, k + 1);
    }
}

/// With the scaling variable set to one, a padded monomial's factor is the
/// plain monomial's factor: the padding contributes `1 ^ pad`.
pub proof fn lemma_factor_padded_at_one(
    e: Seq<u64>,
    num_fixed: int,
    u_index: int,
    d: int,
    vals_r: Seq<Scalar>,
    vals_p: Seq<Scalar>,
    j: int,
)
    requires
        e.len() == u_index,
        0 <= u_index,
        u_index < vals_r.len(),
        e.len() <= vals_p.len(),
        vals_r[u_index].v == 1,
        forall|t: int| 0 <= t < e.len() ==> vals_r[t] == vals_p[t],
        0 <= j,
    ensures
        factor_from(padded(e, num_fixed, u_index, d), vals_r, j) == factor_from(e, vals_p, j),
    decreases e.len() + 1 - j,
{
    let e1 = extended(e, u_index + 1);
    let e2 = padded(e, num_fixed, u_index, d);
    assert(e2.len() == u_index + 1);
    if j == u_index {
        // factor of the padding position alone: 1 ^ pad == 1.
        lemma1_pow(e2[u_index] as nat);
        lemma_small_mod(1nat, FIELD_MODULUS as nat);
        assert(factor_from(e2, vals_r, u_index + 1) == 1);
        assert(fpow(vals_r[u_index].v as int, e2[u_index] as nat) == 1);
        assert(factor_from(e, vals_p, j) == 1);
        assert(fmul(1, 1) == 1) by {
            lemma_small_mod(1nat, FIELD_MODULUS as nat);
        }
    } else if j < u_index {
        lemma_factor_padded_at_one(e, num_fixed, u_index, d, vals_r, vals_p, j + 1);
        assert(e2[j] == e[j]);
        assert(vals_r[j] == vals_p[j]);
    } else {
        // j > u_index: both sides are the empty product.
    }
}

/// With the scaling variable set to one and the shared prefix of the
/// assignments equal, the homogenized evaluation equals the plain one.
pub proof fn lemma_homog_eval_at_one(
    ms: Seq<Monomial>,
    num_fixed: int,
    u_index: int,
    d: int,
    vals_r: Seq<Scalar>,
    vals_p: Seq<Scalar>,
    k: int,
)
    requires
        0 <= num_fixed <= u_index,
        u_index < vals_r.len(),
        vals_r[u_index].v == 1,
        forall|i: int| 0 <= i < ms.len() ==> (#[trigger] ms[i]).exps@.len() == u_index,
        u_index <= vals_p.len(),
        forall|t: int| 0 <= t < u_index ==> vals_r[t] == vals_p[t],
    ensures
        homog_eval_from(ms, num_fixed, u_index, d, vals_r, k) == eval_from(ms, vals_p, k),
    decreases ms.len() - k,
{
    if 0 <= k < ms.len() {
        lemma_homog_eval_at_one(ms, num_fixed, u_index, d, vals_r, vals_p, k + 1);
        lemma_factor_padded_at_one(
            ms[k].exps@,
            num_fixed,
            u_index,
            d,
            vals_r,
            vals_p,
            0,
        );
    }
}

} // verus!
