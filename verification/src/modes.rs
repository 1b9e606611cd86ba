//! The two modes of operation: ECB and CBC.
use crate::block::{lemma_full_injective, lemma_xor_facts, Block};
use crate::feistel::FeistelNetwork;
use crate::mode_of_operation::{
    lemma_pair32_index, lemma_pair32_len, lemma_pair_unpair32, lemma_unpair32_len,
    spec_pair32, spec_unpair32, ModeOfOperation,
};
use std::collections::VecDeque;
use vstd::assert_seqs_equal;
use vstd::prelude::*;

verus! {

/// Every block of the pairing of `msg`, forward-transformed
/// independently.
pub open spec fn spec_ecb_run<F: FeistelNetwork>(msg: Seq<u32>, f: F) -> Seq<Block<u32>> {
    Seq::new(spec_pair32(msg).len(), |i: int| f.spec_run(spec_pair32(msg)[i]))
}

/// Every block of the pairing of `msg`, inverse-transformed
/// independently.
pub open spec fn spec_ecb_unrun<F: FeistelNetwork>(msg: Seq<u32>, f: F) -> Seq<Block<u32>> {
    Seq::new(spec_pair32(msg).len(), |i: int| f.spec_unrun(spec_pair32(msg)[i]))
}

/// The 64-bit initialization value split into one block, high half in
/// `l`.
pub open spec fn spec_iv_block(iv: u64) -> Block<u32> {
    Block { l: (iv >> 32) as u32, r: (iv as u32) }
}

/// The full register of the IV block is the IV itself.
pub proof fn lemma_iv_block_full(iv: u64)
    ensures
        spec_iv_block(iv).spec_full() == iv,
{
    assert(((((iv >> 32) as u32) as u64) << 32) | (((iv as u32)) as u64) == iv) by (bit_vector);
}

/// Ciphertext block `i` of the CBC chain over the plaintext blocks `bs`:
/// block 0 is XOR-merged with the IV, every later block with the
/// ciphertext of its predecessor, then forward-transformed.
pub open spec fn spec_cbc_ct<F: FeistelNetwork>(bs: Seq<Block<u32>>, iv: u64, f: F, i: int) -> Block<
    u32,
>
    recommends
        0 <= i < bs.len(),
    decreases i,
{
    if i <= 0 {
        f.spec_run(bs[0].spec_xor(iv))
    } else {
        f.spec_run(bs[i].spec_xor(spec_cbc_ct(bs, iv, f, i - 1).spec_full()))
    }
}

/// Mode where each block is chained to its predecessor's ciphertext via
/// XOR, starting from an externally supplied initialization value.
///
/// The IV travels in the ciphertext stream itself: encryption prepends
/// it as the first block-width unit, and decryption reads it from there,
/// so no out-of-band IV transport exists.  `init_vec` must be present
/// for encryption; decryption ignores it.
#[derive(Clone, Copy)]
pub struct CBC {
    pub init_vec: Option<u64>,
}

/// Mode where blocks are transformed independently of one another.
#[derive(Clone, Copy)]
pub struct ECB;

impl<F: FeistelNetwork> ModeOfOperation<F> for ECB {
    open spec fn spec_encrypt(&self, msg: Seq<u32>, f: F) -> Seq<Block<u32>> {
        spec_ecb_run(msg, f)
    }

    open spec fn spec_decrypt(&self, msg: Seq<u32>, f: F) -> Seq<Block<u32>> {
        spec_ecb_unrun(msg, f)
    }

    open spec fn enc_req(&self, msg: Seq<u32>) -> bool {
        msg.len() % 2 == 0
    }

    open spec fn dec_req(&self, msg: Seq<u32>) -> bool {
        msg.len() % 2 == 0
    }

    fn encrypt(&self, message: VecDeque<u32>, boxes: &F) -> (r: Vec<Block<u32>>) {
        let n = message.len();
        let mut out: Vec<Block<u32>> = Vec::new();
        let mut i: usize = 0;
        proof {
            lemma_pair32_len(message@);
        }
        while i < n
            invariant
                n == message@.len(),
                n % 2 == 0,
                i % 2 == 0,
                i <= n,
                boxes.wf(),
                spec_pair32(message@).len() == n / 2,
                out@.len() == i / 2,
                forall|j: int|
                    0 <= j < i / 2 ==> out@[j] == boxes.spec_run(spec_pair32(message@)[j]),
            decreases n - i,
        {
            let mut b = Block { l: message[i], r: message[i + 1] };
            proof {
                lemma_pair32_index(message@, (i / 2) as int);
            }
            boxes.run(&mut b);
            out.push(b);
            i = i + 2;
        }
        proof {
            assert_seqs_equal!(out@ == self.spec_encrypt(message@, *boxes));
        }
        out
    }

    fn decrypt(&self, message: VecDeque<u32>, boxes: &F) -> (r: Vec<Block<u32>>) {
        let ghost msg = message@;
        let rev = boxes.with_reversal();
        let out = self.encrypt(message, &rev);
        proof {
            assert_seqs_equal!(self.spec_encrypt(msg, rev) == self.spec_decrypt(msg, *boxes));
        }
        out
    }

    proof fn lemma_mode_round_trip(&self, msg: Seq<u32>, f: F) {
        let enc = self.spec_encrypt(msg, f);
        let u = spec_unpair32(enc);
        lemma_pair32_len(msg);
        lemma_unpair32_len(enc);
        lemma_pair_unpair32(enc);
        assert forall|i: int| 0 <= i < enc.len() implies f.spec_unrun(enc[i]) == spec_pair32(
            msg,
        )[i] by {
            f.lemma_reversal(spec_pair32(msg)[i]);
        }
        assert_seqs_equal!(self.spec_decrypt(u, f) == spec_pair32(msg));
    }
}

impl<F: FeistelNetwork> ModeOfOperation<F> for CBC {
    open spec fn spec_encrypt(&self, msg: Seq<u32>, f: F) -> Seq<Block<u32>> {
        seq![spec_iv_block(self.init_vec->0)] + Seq::new(
            spec_pair32(msg).len(),
            |i: int| spec_cbc_ct(spec_pair32(msg), self.init_vec->0, f, i),
        )
    }

    open spec fn spec_decrypt(&self, msg: Seq<u32>, f: F) -> Seq<Block<u32>> {
        let all = spec_pair32(msg);
        let cts = all.skip(1);
        Seq::new(
            cts.len(),
            |i: int|
                f.spec_unrun(cts[i]).spec_xor(
                    if i == 0 {
                        all[0].spec_full()
                    } else {
                        cts[i - 1].spec_full()
                    },
                ),
        )
    }

    open spec fn enc_req(&self, msg: Seq<u32>) -> bool {
        msg.len() % 2 == 0 && msg.len() >= 2 && self.init_vec is Some
    }

    open spec fn dec_req(&self, msg: Seq<u32>) -> bool {
        msg.len() % 2 == 0 && msg.len() >= 4
    }

    fn encrypt(&self, message: VecDeque<u32>, boxes: &F) -> (r: Vec<Block<u32>>) {
        let iv = self.init_vec.unwrap();
        let ghost pairs = spec_pair32(message@);
        let n = message.len();
        let mut out: Vec<Block<u32>> = Vec::new();
        out.push(Block { l: (iv >> 32) as u32, r: iv as u32 });
        let mut prev: u64 = iv;
        let mut i: usize = 0;
        proof {
            lemma_pair32_len(message@);
        }
        while i < n
            invariant
                n == message@.len(),
                n % 2 == 0,
                i % 2 == 0,
                i <= n,
                boxes.wf(),
                pairs == spec_pair32(message@),
                pairs.len() == n / 2,
                out@.len() == i / 2 + 1,
                out@[0] == spec_iv_block(iv),
                forall|j: int|
                    0 <= j < i / 2 ==> out@[j + 1] == spec_cbc_ct(pairs, iv, *boxes, j),
                prev == if i == 0 {
                    iv
                } else {
                    spec_cbc_ct(pairs, iv, *boxes, i / 2 - 1).spec_full()
                },
            decreases n - i,
        {
            let mut b = Block { l: message[i], r: message[i + 1] };
            proof {
                lemma_pair32_index(message@, (i / 2) as int);
            }
            b.cbc_mode_xor(prev);
            boxes.run(&mut b);
            prev = b.full_block();
            out.push(b);
            i = i + 2;
        }
        proof {
            assert_seqs_equal!(out@ == self.spec_encrypt(message@, *boxes));
        }
        out
    }

    fn decrypt(&self, message: VecDeque<u32>, boxes: &F) -> (r: Vec<Block<u32>>) {
        let ghost all = spec_pair32(message@);
        let n = message.len();
        proof {
            lemma_pair32_len(message@);
            lemma_pair32_index(message@, 0);
        }
        let ivl = message[0];
        let ivr = message[1];
        let iv: u64 = ((ivl as u64) << 32) | (ivr as u64);
        proof {
            assert(iv == all[0].spec_full());
        }
        let mut cts: Vec<Block<u32>> = Vec::new();
        let mut i: usize = 2;
        while i < n
            invariant
                n == message@.len(),
                n % 2 == 0,
                n >= 4,
                i % 2 == 0,
                2 <= i <= n,
                all == spec_pair32(message@),
                all.len() == n / 2,
                cts@.len() == i / 2 - 1,
                forall|j: int| 0 <= j < i / 2 - 1 ==> cts@[j] == all[j + 1],
            decreases n - i,
        {
            proof {
                lemma_pair32_index(message@, (i / 2) as int);
            }
            cts.push(Block { l: message[i], r: message[i + 1] });
            i = i + 2;
        }
        proof {
            assert_seqs_equal!(cts@ == all.skip(1));
        }
        let rev = boxes.with_reversal();
        let mut out: Vec<Block<u32>> = Vec::new();
        let mut idx: usize = 0;
        while idx < cts.len()
            invariant
                boxes.wf(),
                rev.wf(),
                forall|b: Block<u32>| (#[trigger] rev.spec_run(b)) == boxes.spec_unrun(b),
                cts@ == all.skip(1),
                all == spec_pair32(message@),
                iv == all[0].spec_full(),
                all.len() >= 1,
                idx <= cts@.len(),
                out@.len() == idx,
                forall|j: int|
                    0 <= j < idx ==> out@[j] == boxes.spec_unrun(cts@[j]).spec_xor(
                        if j == 0 {
                            all[0].spec_full()
                        } else {
                            cts@[j - 1].spec_full()
                        },
                    ),
            decreases cts@.len() - idx,
        {
            let mut b = cts[idx];
            rev.run(&mut b);
            let p: u64 = if idx == 0 {
                iv
            } else {
                cts[idx - 1].full_block()
            };
            b.cbc_mode_xor(p);
            out.push(b);
            idx = idx + 1;
        }
        proof {
            assert_seqs_equal!(out@ == self.spec_decrypt(message@, *boxes));
        }
        out
    }

    proof fn lemma_mode_round_trip(&self, msg: Seq<u32>, f: F) {
        let iv = self.init_vec->0;
        let pairs = spec_pair32(msg);
        let enc = self.spec_encrypt(msg, f);
        let u = spec_unpair32(enc);
        lemma_pair32_len(msg);
        lemma_unpair32_len(enc);
        lemma_pair_unpair32(enc);
        lemma_iv_block_full(iv);
        assert(enc.len() == pairs.len() + 1);
        assert(pairs.len() >= 1);
        let all = spec_pair32(u);
        assert(all == enc);
        let cts = all.skip(1);
        assert_seqs_equal!(cts == Seq::new(pairs.len(),
            |i: int| spec_cbc_ct(pairs, iv, f, i)));
        let dec = self.spec_decrypt(u, f);
        assert forall|i: int| 0 <= i < pairs.len() implies dec[i] == pairs[i] by {
            let p = if i == 0 {
                iv
            } else {
                spec_cbc_ct(pairs, iv, f, i - 1).spec_full()
            };
            assert(cts[i] == spec_cbc_ct(pairs, iv, f, i));
            assert(cts[i] == f.spec_run(pairs[i].spec_xor(p)));
            f.lemma_reversal(pairs[i].spec_xor(p));
            assert(f.spec_unrun(cts[i]) == pairs[i].spec_xor(p));
            lemma_xor_facts(pairs[i], p);
            if i == 0 {
                assert(all[0].spec_full() == iv);
            } else {
                assert(cts[i - 1].spec_full() == p);
            }
        }
        assert_seqs_equal!(dec == pairs);
    }
}

/// ECB block independence: two identical plaintext blocks in the same
/// message, under the same key, encrypt to identical ciphertext blocks.
pub proof fn lemma_ecb_block_independence<F: FeistelNetwork>(
    ecb: ECB,
    msg: Seq<u32>,
    f: F,
    i: int,
    j: int,
)
    requires
        msg.len() % 2 == 0,
        0 <= i,
        0 <= j,
        2 * i + 1 < msg.len(),
        2 * j + 1 < msg.len(),
        msg[2 * i] == msg[2 * j],
        msg[2 * i + 1] == msg[2 * j + 1],
    ensures
        ecb.spec_encrypt(msg, f)[i] == ecb.spec_encrypt(msg, f)[j],
{
    lemma_pair32_len(msg);
    lemma_pair32_index(msg, i);
    lemma_pair32_index(msg, j);
}

/// CBC chaining: two identical plaintext blocks whose predecessors in
/// the ciphertext stream differ encrypt to different ciphertext blocks --
/// what distinguishes CBC output from ECB output.  (When the two
/// predecessor ciphertexts happen to coincide, the chain inputs coincide
/// too, and the conclusion cannot hold.)
pub proof fn lemma_cbc_chaining<F: FeistelNetwork>(cbc: CBC, msg: Seq<u32>, f: F, i: int, j: int)
    requires
        msg.len() % 2 == 0,
        msg.len() >= 2,
        cbc.init_vec is Some,
        f.wf(),
        0 <= i < j,
        2 * j + 1 < msg.len(),
        msg[2 * i] == msg[2 * j],
        msg[2 * i + 1] == msg[2 * j + 1],
        cbc.spec_encrypt(msg, f)[i].spec_full() != cbc.spec_encrypt(msg, f)[j].spec_full(),
    ensures
        cbc.spec_encrypt(msg, f)[i + 1] != cbc.spec_encrypt(msg, f)[j + 1],
{
    let iv = cbc.init_vec->0;
    let pairs = spec_pair32(msg);
    let enc = cbc.spec_encrypt(msg, f);
    lemma_pair32_len(msg);
    lemma_pair32_index(msg, i);
    lemma_pair32_index(msg, j);
    lemma_iv_block_full(iv);
    let pi = if i == 0 {
        iv
    } else {
        spec_cbc_ct(pairs, iv, f, i - 1).spec_full()
    };
    let pj = spec_cbc_ct(pairs, iv, f, j - 1).spec_full();
    assert(enc[i].spec_full() == pi);
    assert(enc[j].spec_full() == pj);
    assert(enc[i + 1] == f.spec_run(pairs[i].spec_xor(pi)));
    assert(enc[j + 1] == f.spec_run(pairs[j].spec_xor(pj)));
    if enc[i + 1] == enc[j + 1] {
        f.lemma_reversal(pairs[i].spec_xor(pi));
        f.lemma_reversal(pairs[j].spec_xor(pj));
        assert(pairs[i].spec_xor(pi) == pairs[j].spec_xor(pj));
        lemma_xor_facts(pairs[i], pi);
        lemma_xor_facts(pairs[j], pj);
        lemma_full_injective(pairs[i].spec_xor(pi), pairs[j].spec_xor(pj));
        let a = pairs[i].spec_full();
        assert(a ^ pi == a ^ pj);
        assert(a ^ pi == a ^ pj ==> pi == pj) by (bit_vector);
        assert(false);
    }
}

} // verus!
