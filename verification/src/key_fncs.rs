//! Key-byte selection: how a block's absolute position picks its round
//! key byte, and the per-message key slice handed to workers.
use std::collections::VecDeque;
use vstd::assert_seqs_equal;
use vstd::prelude::*;

verus! {

/// The round key byte of the block at absolute position `n`: the key
/// byte at `n` modulo the key length.
pub open spec fn spec_key_segment(key: Seq<u8>, n: int) -> u8
    recommends
        key.len() > 0,
        n >= 0,
{
    key[n % key.len() as int]
}

/// The key byte for absolute block position `n`.
pub fn key_segment(key: &[u8], n: usize) -> (r: u8)
    requires
        key@.len() > 0,
    ensures
        r == spec_key_segment(key@, n as int),
{
    key[n % key.len()]
}

/// The key slice a message of `u64_encoded` subblocks needs: the block
/// count, and the key truncated to that count when it is shorter than
/// the key.  Truncation never changes any key byte a block of this
/// message selects (see `lemma_key_slice_segments`).
pub fn key_slice<const B: usize>(u64_encoded: &VecDeque<u64>, key: &[u8; B]) -> (r: (
    usize,
    Vec<u8>,
))
    ensures
        r.0 == u64_encoded@.len() / 2,
        r.1@ == if r.0 < B {
            key@.take(r.0 as int)
        } else {
            key@
        },
{
    let required_blocks: usize = u64_encoded.len() / 2;
    let take: usize = if required_blocks < B {
        required_blocks
    } else {
        B
    };
    let mut kk: Vec<u8> = Vec::new();
    let mut i: usize = 0;
    while i < take
        invariant
            i <= take,
            take <= B,
            kk@ == key@.take(i as int),
        decreases take - i,
    {
        kk.push(key[i]);
        i = i + 1;
        proof {
            assert_seqs_equal!(kk@ == key@.take(i as int));
        }
    }
    proof {
        if required_blocks >= B {
            assert(key@.take(B as int) =~= key@);
        }
    }
    (required_blocks, kk)
}

/// Truncating the key to the message's block count changes no key byte
/// that any block of the message selects: for every absolute block
/// position below the block count, the sliced key yields the same byte
/// as the full key.
pub proof fn lemma_key_slice_segments(key: Seq<u8>, rb: int, i: int)
    requires
        key.len() > 0,
        0 <= i < rb,
    ensures
        spec_key_segment(
            if rb < key.len() {
                key.take(rb)
            } else {
                key
            },
            i,
        ) == spec_key_segment(key, i),
{
    if rb < key.len() {
        vstd::arithmetic::div_mod::lemma_small_mod(i as nat, rb as nat);
        vstd::arithmetic::div_mod::lemma_small_mod(i as nat, key.len());
    }
}

} // verus!
