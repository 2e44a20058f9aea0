//! The commitment group and the vector commitment built on it.
//!
//! Commitments live in the group of units modulo `GROUP_MODULUS`, a prime
//! chosen so that the group has a subgroup of prime order `FIELD_MODULUS`:
//! raising any unit to the power `COFACTOR` lands in that subgroup, so a
//! scalar multiple of a commitment (written here as exponentiation, the group
//! being multiplicative) is well defined for exponents drawn from the scalar
//! field.  A commitment key is a vector of such subgroup generators, and a
//! vector of field elements commits to the product of the generators raised
//! to the corresponding values — deterministic, and homomorphic under
//! scale-then-combine, which is what the folding operator relies on.

use vstd::prelude::*;
use vstd::arithmetic::power::{pow, lemma_pow0};
use vstd::arithmetic::div_mod::lemma_small_mod;
use crate::field::{mod_pow, Scalar, FIELD_MODULUS};

verus! {

/// Modulus of the ambient group of units: the prime 46 * FIELD_MODULUS + 1.
pub const GROUP_MODULUS: u64 = 98784247763;

/// (GROUP_MODULUS - 1) / FIELD_MODULUS: raising a unit to this power maps it
/// into the subgroup whose order is FIELD_MODULUS.
pub const COFACTOR: u64 = 46;

/// Group operation on reduced representatives.
pub open spec fn gmul(a: int, b: int) -> int {
    (a * b) % (GROUP_MODULUS as int)
}

/// Scalar multiple on reduced representatives: exponentiation in the group.
pub open spec fn gpow(b: int, e: nat) -> int {
    pow(b, e) % (GROUP_MODULUS as int)
}

/// One group element, kept reduced modulo `GROUP_MODULUS`.
#[derive(Clone, Copy, Debug, PartialEq, Eq, Structural)]
pub struct GroupElem {
    pub v: u64,
}

impl GroupElem {
    /// A representative is well formed when it is reduced.
    pub open spec fn wf(self) -> bool {
        self.v < GROUP_MODULUS
    }

    /// The neutral element of the group.
    pub fn identity() -> (r: GroupElem)
        ensures
            r.wf(),
            r.v == 1,
    {
        GroupElem { v: 1 }
    }

    /// The group operation.
    pub fn combine(self, other: GroupElem) -> (r: GroupElem)
        requires
            self.wf(),
            other.wf(),
        ensures
            r.wf(),
            r.v as int == gmul(self.v as int, other.v as int),
    {
        proof {
            assert((self.v as int) * (other.v as int) < 0x10_0000_0000_0000_0000_0000)
                by (nonlinear_arith)
                requires
                    self.v < GROUP_MODULUS,
                    other.v < GROUP_MODULUS,
                    GROUP_MODULUS < 0x40_0000_0000;
        }
        let prod: u128 = ((self.v as u128) * (other.v as u128)) % (GROUP_MODULUS as u128);
        GroupElem { v: prod as u64 }
    }

    /// The scalar multiple of a group element by a field element.
    pub fn scale(self, e: Scalar) -> (r: GroupElem)
        requires
            self.wf(),
        ensures
            r.wf(),
            r.v as int == gpow(self.v as int, e.v as nat),
    {
        GroupElem { v: mod_pow(self.v, e.v, GROUP_MODULUS) }
    }
}

/// What a vector of field elements commits to under a key, reading the
/// generators from position `i` on.
pub open spec fn commit_from(gens: Seq<GroupElem>, vals: Seq<Scalar>, i: int) -> int
    decreases vals.len() - i,
{
    if i < 0 || i >= vals.len() {
        1
    } else {
        gmul(gpow(gens[i].v as int, vals[i].v as nat), commit_from(gens, vals, i + 1))
    }
}

/// What a vector of field elements commits to under a key.
pub open spec fn commit_value(gens: Seq<GroupElem>, vals: Seq<Scalar>) -> int {
    commit_from(gens, vals, 0)
}

/// Parameters of the binding vector commitment: one subgroup generator per
/// committed position.
#[derive(Clone, Debug)]
pub struct CommitmentKey {
    pub gens: Vec<GroupElem>,
}

impl CommitmentKey {
    /// A key is well formed when every generator is reduced.
    pub open spec fn wf(self) -> bool {
        forall|i: int| 0 <= i < self.gens.len() ==> #[trigger] self.gens[i].wf()
    }

    /// Deterministic key for vectors of at most `n` elements.
    pub fn setup(n: usize) -> (r: CommitmentKey)
        requires
            n < 0x1000_0000,
        ensures
            r.wf(),
            r.gens.len() == n,
            forall|i: int|
                0 <= i < n ==> #[trigger] r.gens[i].v as int
                    == gpow((i + 2) % (GROUP_MODULUS as int), COFACTOR as nat),
    {
        let mut gens: Vec<GroupElem> = Vec::new();
        let mut i: usize = 0;
        while i < n
            invariant
                i <= n,
                n < 0x1000_0000,
                gens.len() == i,
                forall|j: int|
                    0 <= j < i ==> #[trigger] gens[j].v as int
                        == gpow((j + 2) % (GROUP_MODULUS as int), COFACTOR as nat),
                forall|j: int| 0 <= j < i ==> #[trigger] gens[j].wf(),
            decreases n - i,
        {
            let base: u64 = ((i as u64) + 2) % GROUP_MODULUS;
            let g: u64 = mod_pow(base, COFACTOR, GROUP_MODULUS);
            gens.push(GroupElem { v: g });
            i = i + 1;
        }
        CommitmentKey { gens }
    }

    /// The neutral commitment: what the all-zero vector commits to.
    pub fn default_value() -> (r: GroupElem)
        ensures
            r.wf(),
            r.v == 1,
    {
        GroupElem::identity()
    }

    /// Commit to a vector of field elements.
    pub fn commit(&self, vals: &Vec<Scalar>) -> (r: GroupElem)
        requires
            self.wf(),
            forall|i: int| 0 <= i < vals.len() ==> #[trigger] vals[i].wf(),
            vals.len() <= self.gens.len(),
        ensures
            r.wf(),
            r.v as int == commit_value(self.gens@, vals@),
    {
        let mut acc: GroupElem = GroupElem::identity();
        let mut i: usize = vals.len();
        while i > 0
            invariant
                i <= vals.len(),
                vals.len() <= self.gens.len(),
                self.wf(),
                forall|j: int| 0 <= j < vals.len() ==> #[trigger] vals[j].wf(),
                acc.wf(),
                acc.v as int == commit_from(self.gens@, vals@, i as int),
            decreases i,
        {
            i = i - 1;
            let term: GroupElem = self.gens[i].scale(vals[i]);
            acc = term.combine(acc);
        }
        acc
    }
}

/// The all-zero vector commits to the neutral element, whatever the key.
pub proof fn lemma_commit_zeros(gens: Seq<GroupElem>, vals: Seq<Scalar>, i: int)
    requires
        forall|j: int| 0 <= j < vals.len() ==> #[trigger] vals[j].v == 0,
    ensures
        commit_from(gens, vals, i) == 1,
    decreases vals.len() - i,
{
    if 0 <= i < vals.len() {
        lemma_commit_zeros(gens, vals, i + 1);
        lemma_pow0(gens[i].v as int);
        lemma_small_mod(1nat, GROUP_MODULUS as nat);
    }
}

} // verus!
