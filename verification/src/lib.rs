//! Algebraic core of a folding scheme for Plonk-style arithmetic circuits.
//!
//! A circuit's gate relation is a multivariate polynomial over a finite
//! field; a satisfying assignment is an (instance, witness) pair, and two
//! such pairs can be folded into a single *relaxed* pair by a randomized
//! linear combination plus an error term, preserving a decidable
//! satisfiability relation.

pub mod field;
pub mod group;
pub mod poly;
pub mod plonk;
pub mod ro;
pub mod table;

pub use field::{Scalar, FIELD_MODULUS};
pub use group::{CommitmentKey, GroupElem, GROUP_MODULUS, COFACTOR};
pub use poly::{Monomial, MultiPolynomial};
pub use plonk::{PlonkStructure, PlonkInstance, PlonkWitness, RelaxedPlonkInstance, RelaxedPlonkWitness, SatError};
pub use ro::{RandomOracleBuffer, RoValue};
pub use table::{TableData, TableError};
