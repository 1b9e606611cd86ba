//! The mode-of-operation capability, and the grouping of subblocks into
//! blocks that every mode shares.
use crate::block::Block;
use crate::feistel::FeistelNetwork;
use std::collections::VecDeque;
use vstd::assert_seqs_equal;
use vstd::prelude::*;

verus! {

/// Subblocks grouped pairwise into blocks: the first of each pair in
/// `l`, the second in `r`.
pub open spec fn spec_pair32(s: Seq<u32>) -> Seq<Block<u32>>
    decreases s.len(),
{
    if s.len() < 2 {
        Seq::empty()
    } else {
        seq![Block { l: s[0], r: s[1] }] + spec_pair32(s.skip(2))
    }
}

/// Blocks flattened back into their subblocks, `l` before `r`.
pub open spec fn spec_unpair32(bs: Seq<Block<u32>>) -> Seq<u32>
    decreases bs.len(),
{
    if bs.len() == 0 {
        Seq::empty()
    } else {
        seq![bs[0].l, bs[0].r] + spec_unpair32(bs.skip(1))
    }
}

/// Pairing produces one block for every two subblocks.
pub proof fn lemma_pair32_len(s: Seq<u32>)
    ensures
        spec_pair32(s).len() == s.len() / 2,
    decreases s.len(),
{
    if s.len() >= 2 {
        lemma_pair32_len(s.skip(2));
    }
}

/// The block at index `i` of the pairing holds subblocks `2i` and
/// `2i + 1`.
pub proof fn lemma_pair32_index(s: Seq<u32>, i: int)
    requires
        0 <= i,
        2 * i + 1 < s.len(),
    ensures
        spec_pair32(s).len() > i,
        spec_pair32(s)[i] == (Block { l: s[2 * i], r: s[2 * i + 1] }),
    decreases i,
{
    lemma_pair32_len(s);
    if i > 0 {
        lemma_pair32_index(s.skip(2), i - 1);
    }
}

/// Unpairing produces two subblocks for every block.
pub proof fn lemma_unpair32_len(bs: Seq<Block<u32>>)
    ensures
        spec_unpair32(bs).len() == 2 * bs.len(),
    decreases bs.len(),
{
    if bs.len() > 0 {
        lemma_unpair32_len(bs.skip(1));
    }
}

/// Pairing the flattened form of a block sequence yields that same
/// sequence.
pub proof fn lemma_pair_unpair32(bs: Seq<Block<u32>>)
    ensures
        spec_pair32(spec_unpair32(bs)) == bs,
    decreases bs.len(),
{
    lemma_unpair32_len(bs);
    if bs.len() == 0 {
        assert_seqs_equal!(spec_pair32(spec_unpair32(bs)) == bs);
    } else {
        let u = spec_unpair32(bs);
        lemma_unpair32_len(bs.skip(1));
        assert(u.len() >= 2);
        assert_seqs_equal!(u.skip(2) == spec_unpair32(bs.skip(1)));
        lemma_pair_unpair32(bs.skip(1));
        assert(u[0] == bs[0].l && u[1] == bs[0].r);
        assert_seqs_equal!(spec_pair32(u) == bs);
    }
}

/// Flattening the pairing of an even subblock sequence yields that same
/// sequence.
pub proof fn lemma_unpair_pair32(s: Seq<u32>)
    requires
        s.len() % 2 == 0,
    ensures
        spec_unpair32(spec_pair32(s)) == s,
    decreases s.len(),
{
    if s.len() == 0 {
        assert_seqs_equal!(spec_unpair32(spec_pair32(s)) == s);
    } else {
        assert(s.len() >= 2);
        let p = spec_pair32(s);
        assert_seqs_equal!(p.skip(1) == spec_pair32(s.skip(2)));
        lemma_unpair_pair32(s.skip(2));
        assert(spec_unpair32(p) == seq![p[0].l, p[0].r] + spec_unpair32(p.skip(1)));
        assert_seqs_equal!(spec_unpair32(spec_pair32(s)) == s);
    }
}

/// A mode of operation: orchestrates a sequence of subblocks through the
/// round transform, producing cipher blocks; decryption drives the
/// reversed transform.
pub trait ModeOfOperation<F: FeistelNetwork>: Sized {
    /// What encryption computes from the subblocks and the transform.
    spec fn spec_encrypt(&self, msg: Seq<u32>, f: F) -> Seq<Block<u32>>;

    /// What decryption computes from the subblocks and the transform.
    spec fn spec_decrypt(&self, msg: Seq<u32>, f: F) -> Seq<Block<u32>>;

    /// The subblock sequences encryption accepts.
    spec fn enc_req(&self, msg: Seq<u32>) -> bool;

    /// The subblock sequences decryption accepts.
    spec fn dec_req(&self, msg: Seq<u32>) -> bool;

    /// Encrypt the subblock sequence.
    fn encrypt(&self, message: VecDeque<u32>, boxes: &F) -> (r: Vec<Block<u32>>)
        requires
            self.enc_req(message@),
            boxes.wf(),
        ensures
            r@ == self.spec_encrypt(message@, *boxes),
    ;

    /// Decrypt the subblock sequence.
    fn decrypt(&self, message: VecDeque<u32>, boxes: &F) -> (r: Vec<Block<u32>>)
        requires
            self.dec_req(message@),
            boxes.wf(),
        ensures
            r@ == self.spec_decrypt(message@, *boxes),
    ;

    /// The mode round trip: decrypting the flattened ciphertext of an
    /// encryption returns exactly the original subblocks, grouped into
    /// blocks.  A proof obligation on every mode.
    proof fn lemma_mode_round_trip(&self, msg: Seq<u32>, f: F)
        requires
            self.enc_req(msg),
            f.wf(),
        ensures
            self.dec_req(spec_unpair32(self.spec_encrypt(msg, f))),
            self.spec_decrypt(spec_unpair32(self.spec_encrypt(msg, f)), f) == spec_pair32(msg),
    ;
}

} // verus!
