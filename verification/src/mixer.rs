//! The built-in round transforms: four-round Feistel networks over an
//! explicitly specified integer mixing function, in a 32-bit form for
//! the mode-of-operation pipeline and a 64-bit form for the span engine.
//!
//! The mixing function is fixed and deterministic so that outputs are
//! byte-comparable across platforms: no hash routine with
//! implementation-defined behavior takes part in it.
use crate::block::Block;
use crate::block_span::BlockTransform;
use crate::errors::{msg_key_too_short, CipherError};
use crate::feistel::FeistelNetwork;
use vstd::assert_seqs_equal;
use vstd::prelude::*;

verus! {

/// The fixed-parameter integer mixer: XOR the key word in, multiply by
/// the golden-ratio constant modulo two to the thirty-second, then fold
/// the high bits down.
#[verifier::opaque]
pub open spec fn spec_mix(x: u32, k: u32) -> u32 {
    let m = (((x ^ k) as int * 0x9E37_79B1) % 0x1_0000_0000) as u32;
    m ^ (m >> 15)
}

/// Round key `i`: the key byte at position `i` modulo the key length,
/// mixed with the round number.
pub open spec fn spec_round_key(key: Seq<u8>, i: u32) -> u32
    recommends
        key.len() > 0,
{
    spec_mix(key[i as int % key.len() as int] as u32, i)
}

/// One forward Feistel round: swap the halves and XOR the mixed right
/// half into the left.
pub open spec fn spec_round(b: Block<u32>, k: u32) -> Block<u32> {
    Block { l: b.r, r: b.l ^ spec_mix(b.r, k) }
}

/// The inverse of one Feistel round.
pub open spec fn spec_unround(b: Block<u32>, k: u32) -> Block<u32> {
    Block { l: b.r ^ spec_mix(b.l, k), r: b.l }
}

/// Four forward rounds under round keys 0 to 3.
pub open spec fn spec_forward(key: Seq<u8>, b: Block<u32>) -> Block<u32> {
    spec_round(
        spec_round(
            spec_round(spec_round(b, spec_round_key(key, 0)), spec_round_key(key, 1)),
            spec_round_key(key, 2),
        ),
        spec_round_key(key, 3),
    )
}

/// Four inverse rounds under round keys 3 down to 0.
pub open spec fn spec_backward(key: Seq<u8>, b: Block<u32>) -> Block<u32> {
    spec_unround(
        spec_unround(
            spec_unround(spec_unround(b, spec_round_key(key, 3)), spec_round_key(key, 2)),
            spec_round_key(key, 1),
        ),
        spec_round_key(key, 0),
    )
}

/// One inverse round undoes one forward round, and conversely: the
/// Feistel structure is invertible whatever the mixing function.
pub proof fn lemma_round_inverse(b: Block<u32>, k: u32)
    ensures
        spec_unround(spec_round(b, k), k) == b,
        spec_round(spec_unround(b, k), k) == b,
{
    let l = b.l;
    let r = b.r;
    let mf = spec_mix(r, k);
    assert(l ^ mf ^ mf == l) by (bit_vector);
    let mb = spec_mix(l, k);
    assert(r ^ mb ^ mb == r) by (bit_vector);
}

/// Four inverse rounds undo four forward rounds, and conversely.
pub proof fn lemma_forward_backward(key: Seq<u8>, b: Block<u32>)
    ensures
        spec_backward(key, spec_forward(key, b)) == b,
        spec_forward(key, spec_backward(key, b)) == b,
{
    let k0 = spec_round_key(key, 0);
    let k1 = spec_round_key(key, 1);
    let k2 = spec_round_key(key, 2);
    let k3 = spec_round_key(key, 3);
    let f1 = spec_round(b, k0);
    let f2 = spec_round(f1, k1);
    let f3 = spec_round(f2, k2);
    lemma_round_inverse(b, k0);
    lemma_round_inverse(f1, k1);
    lemma_round_inverse(f2, k2);
    lemma_round_inverse(f3, k3);
    let g1 = spec_unround(b, k3);
    let g2 = spec_unround(g1, k2);
    let g3 = spec_unround(g2, k1);
    lemma_round_inverse(b, k3);
    lemma_round_inverse(g1, k2);
    lemma_round_inverse(g2, k1);
    lemma_round_inverse(g3, k0);
}

/// Compute the integer mixer.
fn mix(x: u32, k: u32) -> (r: u32)
    ensures
        r == spec_mix(x, k),
{
    proof {
        reveal(spec_mix);
    }
    let a: u64 = (x ^ k) as u64;
    proof {
        assert(a * 0x9E37_79B1u64 <= 0xffff_ffffu64 * 0x9E37_79B1u64) by (nonlinear_arith)
            requires
                a <= 0xffff_ffffu64,
        ;
    }
    let prod: u64 = a * 0x9E37_79B1u64;
    let m: u32 = (prod & 0xffff_ffffu64) as u32;
    proof {
        assert((prod & 0xffff_ffffu64) == prod % 0x1_0000_0000u64) by (bit_vector);
        assert(prod % 0x1_0000_0000u64 < 0x1_0000_0000u64) by (bit_vector);
        assert(m == (a as int * 0x9E37_79B1) % 0x1_0000_0000);
    }
    m ^ (m >> 15)
}

/// Round key `i` of the key material.
fn round_key(key: &Vec<u8>, i: u32) -> (r: u32)
    requires
        key@.len() > 0,
    ensures
        r == spec_round_key(key@, i),
{
    let idx: usize = (i as usize) % key.len();
    mix(key[idx] as u32, i)
}

/// One forward Feistel round.
fn do_round(b: Block<u32>, k: u32) -> (r: Block<u32>)
    ensures
        r == spec_round(b, k),
{
    Block { l: b.r, r: b.l ^ mix(b.r, k) }
}

/// One inverse Feistel round.
fn do_unround(b: Block<u32>, k: u32) -> (r: Block<u32>)
    ensures
        r == spec_unround(b, k),
{
    Block { l: b.r ^ mix(b.l, k), r: b.l }
}

/// The built-in round-transform capability: key material plus the
/// direction it currently runs in.
#[derive(Debug)]
pub struct Mixer {
    pub key: Vec<u8>,
    pub inverted: bool,
}

impl Mixer {
    /// Build a forward transform from key material.  The key must not be
    /// empty: round keys are drawn from it by index modulo its length.
    pub fn initialize(key: Vec<u8>) -> (r: Result<Mixer, CipherError>)
        ensures
            r is Ok <==> key@.len() > 0,
            r is Err ==> r->Err_0 is KeyLen,
            r is Ok ==> r->Ok_0.key@ == key@ && r->Ok_0.inverted == false && r->Ok_0.wf(),
    {
        if key.len() == 0 {
            return Err(CipherError::KeyLen(msg_key_too_short()));
        }
        Ok(Mixer { key, inverted: false })
    }
}

impl FeistelNetwork for Mixer {
    open spec fn wf(&self) -> bool {
        self.key@.len() > 0
    }

    open spec fn spec_run(&self, b: Block<u32>) -> Block<u32> {
        if self.inverted {
            spec_backward(self.key@, b)
        } else {
            spec_forward(self.key@, b)
        }
    }

    open spec fn spec_unrun(&self, b: Block<u32>) -> Block<u32> {
        if self.inverted {
            spec_forward(self.key@, b)
        } else {
            spec_backward(self.key@, b)
        }
    }

    proof fn lemma_reversal(&self, b: Block<u32>) {
        lemma_forward_backward(self.key@, b);
        lemma_forward_backward(self.key@, self.spec_unrun(b));
    }

    fn run(&self, block: &mut Block<u32>) {
        let k0 = round_key(&self.key, 0);
        let k1 = round_key(&self.key, 1);
        let k2 = round_key(&self.key, 2);
        let k3 = round_key(&self.key, 3);
        if !self.inverted {
            let b = do_round(do_round(do_round(do_round(*block, k0), k1), k2), k3);
            *block = b;
        } else {
            let b = do_unround(do_unround(do_unround(do_unround(*block, k3), k2), k1), k0);
            *block = b;
        }
    }

    fn with_reversal(&self) -> (r: Mixer) {
        let mut key: Vec<u8> = Vec::new();
        let mut i: usize = 0;
        while i < self.key.len()
            invariant
                i <= self.key@.len(),
                key@ == self.key@.take(i as int),
            decreases self.key@.len() - i,
        {
            key.push(self.key[i]);
            i = i + 1;
            proof {
                assert_seqs_equal!(key@ == self.key@.take(i as int));
            }
        }
        proof {
            assert(self.key@.take(i as int) =~= self.key@);
        }
        Mixer { key, inverted: !self.inverted }
    }
}

/// The 64-bit fixed-parameter integer mixer: XOR the key word in,
/// multiply by the golden-ratio constant modulo two to the sixty-fourth,
/// then fold the high bits down.
#[verifier::opaque]
pub open spec fn spec_mix64(x: u64, k: u64) -> u64 {
    let m = (((x ^ k) as int * 0x9E37_79B9_7F4A_7C15) % 0x1_0000_0000_0000_0000) as u64;
    m ^ (m >> 31)
}

/// Compute the 64-bit integer mixer.
fn mix64(x: u64, k: u64) -> (r: u64)
    ensures
        r == spec_mix64(x, k),
{
    proof {
        reveal(spec_mix64);
    }
    let a: u128 = (x ^ k) as u128;
    proof {
        assert(a * 0x9E37_79B9_7F4A_7C15u128 <= 0xffff_ffff_ffff_ffffu128
            * 0x9E37_79B9_7F4A_7C15u128) by (nonlinear_arith)
            requires
                a <= 0xffff_ffff_ffff_ffffu128,
        ;
    }
    let prod: u128 = a * 0x9E37_79B9_7F4A_7C15u128;
    let m: u64 = (prod & 0xffff_ffff_ffff_ffffu128) as u64;
    proof {
        assert((prod & 0xffff_ffff_ffff_ffffu128) == prod % 0x1_0000_0000_0000_0000u128)
            by (bit_vector);
        assert(prod % 0x1_0000_0000_0000_0000u128 < 0x1_0000_0000_0000_0000u128) by (bit_vector);
        assert(m == (a as int * 0x9E37_79B9_7F4A_7C15) % 0x1_0000_0000_0000_0000);
    }
    m ^ (m >> 31)
}

/// One forward 64-bit Feistel round: swap the halves and XOR the mixed
/// right half into the left.
pub open spec fn spec_round64(b: Block<u64>, k: u64) -> Block<u64> {
    Block { l: b.r, r: b.l ^ spec_mix64(b.r, k) }
}

/// Four forward 64-bit rounds under round keys mixed from the block's
/// key byte.
pub open spec fn spec_forward64(b: Block<u64>, k: u8) -> Block<u64> {
    spec_round64(
        spec_round64(
            spec_round64(spec_round64(b, spec_mix64(k as u64, 0)), spec_mix64(k as u64, 1)),
            spec_mix64(k as u64, 2),
        ),
        spec_mix64(k as u64, 3),
    )
}

/// The built-in 64-bit round transform for the span engine: a four-round
/// Feistel network whose round keys are mixed from the key byte of the
/// block's absolute position.
pub struct Mixer64;

impl BlockTransform for Mixer64 {
    open spec fn spec_apply(&self, b: Block<u64>, k: u8) -> Block<u64> {
        spec_forward64(b, k)
    }

    fn apply(&self, b: Block<u64>, k: u8) -> (r: Block<u64>) {
        let k0 = mix64(k as u64, 0);
        let k1 = mix64(k as u64, 1);
        let k2 = mix64(k as u64, 2);
        let k3 = mix64(k as u64, 3);
        let b1 = Block { l: b.r, r: b.l ^ mix64(b.r, k0) };
        let b2 = Block { l: b1.r, r: b1.l ^ mix64(b1.r, k1) };
        let b3 = Block { l: b2.r, r: b2.l ^ mix64(b2.r, k2) };
        Block { l: b3.r, r: b3.l ^ mix64(b3.r, k3) }
    }
}

} // verus!
