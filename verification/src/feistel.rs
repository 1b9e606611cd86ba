//! The round-transform capability consumed by every mode of operation.
use crate::block::Block;
use vstd::prelude::*;

verus! {

/// A pluggable round transform over 32-bit blocks.
///
/// The engine calls exactly two operations: the forward `run`, and
/// `with_reversal`, which yields a capability whose `run` undoes the
/// forward transform.  The reversal contract (`lemma_reversal`) is a
/// proof obligation on every implementation: the engine's round-trip
/// guarantees hold for any transform that satisfies it, regardless of how
/// the transform mixes its key material.
pub trait FeistelNetwork: Sized {
    /// Whether the capability is ready to run (its key material is
    /// present).
    spec fn wf(&self) -> bool;

    /// The forward transform of one block.
    spec fn spec_run(&self, b: Block<u32>) -> Block<u32>;

    /// The inverse transform of one block: what the reversed capability
    /// computes.
    spec fn spec_unrun(&self, b: Block<u32>) -> Block<u32>;

    /// The inverse undoes the forward transform on every block, and
    /// conversely.
    proof fn lemma_reversal(&self, b: Block<u32>)
        requires
            self.wf(),
        ensures
            self.spec_unrun(self.spec_run(b)) == b,
            self.spec_run(self.spec_unrun(b)) == b,
    ;

    /// Apply the forward transform to `block` in place.
    fn run(&self, block: &mut Block<u32>)
        requires
            self.wf(),
        ensures
            *final(block) == self.spec_run(*old(block)),
    ;

    /// The capability that undoes this one.
    fn with_reversal(&self) -> (r: Self)
        requires
            self.wf(),
        ensures
            r.wf(),
            forall|b: Block<u32>| (#[trigger] r.spec_run(b)) == self.spec_unrun(b),
            forall|b: Block<u32>| (#[trigger] r.spec_unrun(b)) == self.spec_run(b),
    ;
}

/// The fixed, documented test-double transform: XOR one key word into
/// both registers.  Its output is byte-wise -- flipping one input byte
/// flips exactly the matching output byte -- which makes engine behavior
/// such as tamper detection deterministic and portable in tests.  It is
/// its own inverse.
#[derive(Clone, Copy, Debug)]
pub struct XorNetwork {
    pub key: u32,
}

impl FeistelNetwork for XorNetwork {
    open spec fn wf(&self) -> bool {
        true
    }

    open spec fn spec_run(&self, b: Block<u32>) -> Block<u32> {
        Block { l: b.l ^ self.key, r: b.r ^ self.key }
    }

    open spec fn spec_unrun(&self, b: Block<u32>) -> Block<u32> {
        Block { l: b.l ^ self.key, r: b.r ^ self.key }
    }

    proof fn lemma_reversal(&self, b: Block<u32>) {
        let (l, r, k) = (b.l, b.r, self.key);
        assert(l ^ k ^ k == l) by (bit_vector);
        assert(r ^ k ^ k == r) by (bit_vector);
    }

    fn run(&self, block: &mut Block<u32>) {
        let b = *block;
        *block = Block { l: b.l ^ self.key, r: b.r ^ self.key };
    }

    fn with_reversal(&self) -> (r: Self) {
        XorNetwork { key: self.key }
    }
}

} // verus!
