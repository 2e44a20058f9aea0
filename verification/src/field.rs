//! The scalar field of the folding scheme.
//!
//! Every column value, challenge, error term and public input is an element
//! of the prime field of order `FIELD_MODULUS` (a Mersenne prime), held as a
//! reduced representative.  The spec functions `fadd`, `fsub`, `fmul` and
//! `fpow` are the mathematical model that every contract in the crate speaks
//! of.

use vstd::prelude::*;
use vstd::arithmetic::power::{
    pow, lemma_pow0, lemma_pow1, lemma_pow_adds, lemma_square_is_pow2, lemma_pow_multiplies,
    lemma_pow_mod_noop,
};
use vstd::arithmetic::div_mod::{
    lemma_mod_add_multiples_vanish, lemma_mul_mod_noop_general, lemma_mul_mod_noop_left,
    lemma_mul_mod_noop_right, lemma_small_mod,
};

verus! {

/// Order of the scalar field: the Mersenne prime 2^31 - 1.
pub const FIELD_MODULUS: u64 = 2147483647;

/// Field addition on reduced representatives.
pub open spec fn fadd(a: int, b: int) -> int {
    (a + b) % (FIELD_MODULUS as int)
}

/// Field subtraction on reduced representatives.
pub open spec fn fsub(a: int, b: int) -> int {
    (a - b) % (FIELD_MODULUS as int)
}

/// Field multiplication on reduced representatives.
pub open spec fn fmul(a: int, b: int) -> int {
    (a * b) % (FIELD_MODULUS as int)
}

/// Field exponentiation on reduced representatives.
pub open spec fn fpow(b: int, e: nat) -> int {
    pow(b, e) % (FIELD_MODULUS as int)
}

/// One element of the scalar field, kept reduced modulo `FIELD_MODULUS`.
#[derive(Clone, Copy, Debug, PartialEq, Eq, Structural)]
pub struct Scalar {
    pub v: u64,
}

impl Scalar {
    /// A representative is well formed when it is reduced.
    pub open spec fn wf(self) -> bool {
        self.v < FIELD_MODULUS
    }

    /// Reduce an arbitrary machine integer into the field.
    pub fn new(v: u64) -> (r: Scalar)
        ensures
            r.wf(),
            r.v == v % FIELD_MODULUS,
    {
        Scalar { v: v % FIELD_MODULUS }
    }

    /// The additive identity.
    pub fn zero() -> (r: Scalar)
        ensures
            r.wf(),
            r.v == 0,
    {
        Scalar { v: 0 }
    }

    /// The multiplicative identity.
    pub fn one() -> (r: Scalar)
        ensures
            r.wf(),
            r.v == 1,
    {
        Scalar { v: 1 }
    }

    /// Field addition.
    pub fn add_fp(self, other: Scalar) -> (r: Scalar)
        requires
            self.wf(),
            other.wf(),
        ensures
            r.wf(),
            r.v as int == fadd(self.v as int, other.v as int),
    {
        Scalar { v: (self.v + other.v) % FIELD_MODULUS }
    }

    /// Field subtraction.
    pub fn sub_fp(self, other: Scalar) -> (r: Scalar)
        requires
            self.wf(),
            other.wf(),
        ensures
            r.wf(),
            r.v as int == fsub(self.v as int, other.v as int),
    {
        proof {
            lemma_mod_add_multiples_vanish(
                self.v as int - other.v as int,
                FIELD_MODULUS as int,
            );
        }
        Scalar { v: (self.v + FIELD_MODULUS - other.v) % FIELD_MODULUS }
    }

    /// Field multiplication.
    pub fn mul_fp(self, other: Scalar) -> (r: Scalar)
        requires
            self.wf(),
            other.wf(),
        ensures
            r.wf(),
            r.v as int == fmul(self.v as int, other.v as int),
    {
        proof {
            assert((self.v as int) * (other.v as int) < 0x4000_0000_0000_0000)
                by (nonlinear_arith)
                requires
                    self.v < FIELD_MODULUS,
                    other.v < FIELD_MODULUS;
        }
        Scalar { v: (self.v * other.v) % FIELD_MODULUS }
    }

    /// Field exponentiation.
    pub fn pow_fp(self, e: u64) -> (r: Scalar)
        requires
            self.wf(),
        ensures
            r.wf(),
            r.v as int == fpow(self.v as int, e as nat),
    {
        let r: u64 = mod_pow(self.v, e, FIELD_MODULUS);
        Scalar { v: r }
    }
}

/// Square-and-multiply exponentiation modulo `m`, shared by the field and
/// the commitment group.
pub(crate) fn mod_pow(b: u64, e: u64, m: u64) -> (r: u64)
    requires
        1 < m,
        m < 0x40_0000_0000,
        b < m,
    ensures
        r < m,
        r as int == pow(b as int, e as nat) % (m as int),
{
    let mut acc: u64 = 1;
    let mut cur: u64 = b;
    let mut rem: u64 = e;
    proof {
        lemma_small_mod(1nat, m as nat);
    }
    while rem > 0
        invariant
            1 < m,
            m < 0x40_0000_0000,
            acc < m,
            cur < m,
            (acc as int * pow(cur as int, rem as nat)) % (m as int)
                == pow(b as int, e as nat) % (m as int),
        decreases rem,
    {
        if rem % 2 == 1 {
            proof {
                assert((acc as int) * (cur as int) < 0x10_0000_0000_0000_0000_0000)
                    by (nonlinear_arith)
                    requires
                        acc < m,
                        cur < m,
                        m < 0x40_0000_0000;
            }
            let prod: u128 = (acc as u128 * cur as u128) % (m as u128);
            let next_acc: u64 = prod as u64;
            proof {
                let k = (rem - 1) as nat;
                lemma_pow1(cur as int);
                lemma_pow_adds(cur as int, 1nat, k);
                assert(next_acc as int == (acc as int * cur as int) % (m as int));
                lemma_mul_mod_noop_general(
                    acc as int * cur as int,
                    pow(cur as int, k),
                    m as int,
                );
                assert(((acc as int) * (cur as int)) * pow(cur as int, k)
                    == (acc as int) * ((cur as int) * pow(cur as int, k)))
                    by (nonlinear_arith);
                assert((next_acc as int * pow(cur as int, k)) % (m as int)
                    == pow(b as int, e as nat) % (m as int));
            }
            acc = next_acc;
            rem = rem - 1;
        } else {
            proof {
                assert((cur as int) * (cur as int) < 0x10_0000_0000_0000_0000_0000)
                    by (nonlinear_arith)
                    requires
                        cur < m,
                        m < 0x40_0000_0000;
            }
            let sq: u128 = (cur as u128 * cur as u128) % (m as u128);
            let next_cur: u64 = sq as u64;
            proof {
                let k = (rem / 2) as nat;
                lemma_square_is_pow2(cur as int);
                lemma_pow_multiplies(cur as int, 2nat, k);
                lemma_pow_mod_noop(cur as int * cur as int, k, m as int);
                lemma_mul_mod_noop_right(acc as int, pow(next_cur as int, k), m as int);
                lemma_mul_mod_noop_right(
                    acc as int,
                    pow(cur as int * cur as int, k),
                    m as int,
                );
                assert(next_cur as int == (cur as int * cur as int) % (m as int));
                assert(pow(next_cur as int, k) % (m as int)
                    == pow(cur as int * cur as int, k) % (m as int));
                assert((acc as int * pow(next_cur as int, k)) % (m as int)
                    == pow(b as int, e as nat) % (m as int));
            }
            cur = next_cur;
            rem = rem / 2;
        }
    }
    proof {
        lemma_pow0(cur as int);
        lemma_small_mod(acc as nat, m as nat);
    }
    acc
}

/// One more factor of the base advances the power by one.
pub proof fn lemma_fpow_step(b: int, k: nat)
    ensures
        fmul(fpow(b, k), b) == fpow(b, (k + 1) as nat),
{
    lemma_pow1(b);
    lemma_pow_adds(b, k, 1nat);
    lemma_mul_mod_noop_left(pow(b, k), b, FIELD_MODULUS as int);
}

} // verus!
