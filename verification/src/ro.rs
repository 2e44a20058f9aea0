//! The random-oracle absorption contract.
//!
//! The transcript itself (a sponge such as Poseidon) is an outside
//! collaborator; what this core fixes is *which* values each protocol object
//! feeds it, and in which order — two implementations must absorb
//! identically to derive the same challenges.  `RandomOracleBuffer` records
//! the absorbed values in order; a caller hands the recorded log to its
//! transcript of choice.

use vstd::prelude::*;
use crate::field::Scalar;
use crate::group::GroupElem;
use crate::plonk::{PlonkInstance, PlonkStructure, RelaxedPlonkInstance};

verus! {

/// One absorbed value: a native field element or a group element.
#[derive(Clone, Copy, Debug, PartialEq, Eq, Structural)]
pub enum RoValue {
    Base(Scalar),
    Point(GroupElem),
}

/// An order-sensitive record of everything absorbed so far.
#[derive(Debug)]
pub struct RandomOracleBuffer {
    pub log: Vec<RoValue>,
}

impl RandomOracleBuffer {
    pub fn new() -> (r: RandomOracleBuffer)
        ensures
            r.log@.len() == 0,
    {
        RandomOracleBuffer { log: Vec::new() }
    }

    /// Absorb one field element.
    pub fn absorb_base(&mut self, s: Scalar)
        ensures
            final(self).log@ == old(self).log@.push(RoValue::Base(s)),
    {
        self.log.push(RoValue::Base(s));
    }

    /// Absorb one group element.
    pub fn absorb_point(&mut self, p: GroupElem)
        ensures
            final(self).log@ == old(self).log@.push(RoValue::Point(p)),
    {
        self.log.push(RoValue::Point(p));
    }
}

impl PlonkStructure {
    /// Absorb the fixed-columns commitment.  A structure's gate polynomial itself is
    /// deliberately not absorbed — a known soundness caveat of the protocol
    /// as it stands, which downstream assumptions may rely on; do not widen
    /// the absorption set silently.
    pub fn absorb_into(&self, ro: &mut RandomOracleBuffer)
        ensures
            final(ro).log@ == old(ro).log@.push(RoValue::Point(self.fixed_commitment)),
    {
        ro.absorb_point(self.fixed_commitment);
    }
}

impl PlonkInstance {
    /// Absorb the advice commitment, then the first two public inputs.
    pub fn absorb_into(&self, ro: &mut RandomOracleBuffer)
        requires
            self.instance@.len() >= 2,
        ensures
            final(ro).log@ == old(ro).log@.push(RoValue::Point(self.W_commitment)).push(
                RoValue::Base(self.instance@[0]),
            ).push(RoValue::Base(self.instance@[1])),
    {
        ro.absorb_point(self.W_commitment);
        ro.absorb_base(self.instance[0]);
        ro.absorb_base(self.instance[1]);
    }
}

impl RelaxedPlonkInstance {
    /// Absorb the advice commitment, the first two public inputs, the
    /// scaling factor, then the error commitment.
    pub fn absorb_into(&self, ro: &mut RandomOracleBuffer)
        requires
            self.instance@.len() >= 2,
        ensures
            final(ro).log@ == old(ro).log@.push(RoValue::Point(self.W_commitment)).push(
                RoValue::Base(self.instance@[0]),
            ).push(RoValue::Base(self.instance@[1])).push(RoValue::Base(self.u)).push(
                RoValue::Point(self.E_commitment),
            ),
    {
        ro.absorb_point(self.W_commitment);
        ro.absorb_base(self.instance[0]);
        ro.absorb_base(self.instance[1]);
        ro.absorb_base(self.u);
        ro.absorb_point(self.E_commitment);
    }
}

} // verus!
