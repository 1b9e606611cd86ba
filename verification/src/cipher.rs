//! The orchestrator: whole-message encryption and decryption, composing
//! the packer, a mode of operation and a round transform.
use crate::block::Block;
use crate::errors::CipherError;
use crate::feistel::FeistelNetwork;
use crate::mode_of_operation::{
    lemma_unpair_pair32, spec_pair32, spec_unpair32, ModeOfOperation,
};
use crate::packer::{
    lemma_pack_unpack32, lemma_pad_strip, lemma_unpack32_len, lemma_unpack_pack32, spec_pack32,
    spec_pad, spec_strip_data, spec_strip_malformed, spec_strip_ok, spec_unpack32, PackBytes,
    Packer,
};
use vstd::assert_seqs_equal;
use vstd::prelude::*;

verus! {

/// Blocks serialized to bytes: each block's little-endian wire
/// representation, in block order.
pub open spec fn spec_blocks_to_bytes(bs: Seq<Block<u32>>) -> Seq<u8>
    decreases bs.len(),
{
    if bs.len() == 0 {
        Seq::empty()
    } else {
        bs[0].spec_bytes() + spec_blocks_to_bytes(bs.skip(1))
    }
}

/// Serializing blocks is serializing their flattened subblocks.
pub proof fn lemma_blocks_to_bytes(bs: Seq<Block<u32>>)
    ensures
        spec_blocks_to_bytes(bs) == spec_unpack32(spec_unpair32(bs)),
    decreases bs.len(),
{
    if bs.len() == 0 {
        assert_seqs_equal!(spec_blocks_to_bytes(bs) == spec_unpack32(spec_unpair32(bs)));
    } else {
        lemma_blocks_to_bytes(bs.skip(1));
        let u = spec_unpair32(bs);
        assert(u == seq![bs[0].l, bs[0].r] + spec_unpair32(bs.skip(1)));
        let u1 = u.skip(1);
        assert_seqs_equal!(u1 == seq![bs[0].r] + spec_unpair32(bs.skip(1)));
        assert_seqs_equal!(u1.skip(1) == spec_unpair32(bs.skip(1)));
        assert(spec_unpack32(u) == vstd::bytes::spec_u32_to_le_bytes(bs[0].l) + spec_unpack32(u1));
        assert(spec_unpack32(u1) == vstd::bytes::spec_u32_to_le_bytes(bs[0].r) + spec_unpack32(
            u1.skip(1),
        ));
        assert_seqs_equal!(spec_blocks_to_bytes(bs) == spec_unpack32(spec_unpair32(bs)));
    }
}

/// Serialize a block sequence to its wire bytes.
pub fn blocks_to_vec(blocks: Vec<Block<u32>>) -> (r: Vec<u8>)
    ensures
        r@ == spec_blocks_to_bytes(blocks@),
{
    let mut bytes: Vec<u8> = Vec::new();
    let mut i: usize = 0;
    proof {
        assert(blocks@.skip(0) =~= blocks@);
        assert_seqs_equal!(spec_blocks_to_bytes(blocks@) == bytes@
            + spec_blocks_to_bytes(blocks@.skip(0)));
    }
    while i < blocks.len()
        invariant
            i <= blocks@.len(),
            spec_blocks_to_bytes(blocks@) == bytes@ + spec_blocks_to_bytes(
                blocks@.skip(i as int),
            ),
        decreases blocks@.len() - i,
    {
        let mut bb = blocks[i].to_bytes();
        proof {
            let rest = blocks@.skip(i as int);
            assert(rest[0] == blocks@[i as int]);
            assert(rest.skip(1) =~= blocks@.skip(i as int + 1));
            assert(spec_blocks_to_bytes(rest) == rest[0].spec_bytes() + spec_blocks_to_bytes(
                rest.skip(1),
            ));
        }
        bytes.append(&mut bb);
        proof {
            assert_seqs_equal!(spec_blocks_to_bytes(blocks@) == bytes@
                + spec_blocks_to_bytes(blocks@.skip(i as int + 1)));
        }
        i = i + 1;
    }
    proof {
        assert(blocks@.skip(i as int) =~= Seq::<Block<u32>>::empty());
        assert_seqs_equal!(bytes@ == spec_blocks_to_bytes(blocks@));
    }
    bytes
}

/// The orchestrator: a mode of operation paired with a round transform.
/// Owns the whole-message encrypt and decrypt operations and their
/// error surface.
#[derive(Clone, Copy)]
pub struct Cipher<M, F>(pub M, pub F) where M: ModeOfOperation<F>, F: FeistelNetwork;

impl<M: ModeOfOperation<F>, F: FeistelNetwork> Cipher<M, F> {
    /// Pad, pack, run the mode, serialize.  Never fails; the `Result` is
    /// the uniform error surface.
    pub fn encrypt<P: PackBytes<u32>>(&self, message: Vec<u8>) -> (r: Result<
        Vec<u8>,
        CipherError,
    >)
        requires
            self.0.enc_req(P::spec_pack(spec_pad(message@, 8))),
            self.1.wf(),
            message@.len() + 8 <= usize::MAX,
        ensures
            r is Ok,
            r->Ok_0@ == spec_blocks_to_bytes(
                self.0.spec_encrypt(P::spec_pack(spec_pad(message@, 8)), self.1),
            ),
    {
        let padded: Vec<u8> = match Packer::pad_bytes::<8>(message) {
            Ok(p) => p,
            Err(e) => {
                return Err(e);
            },
        };
        let encoded = P::u8s_to_vecdeque(padded);
        let blocks = self.0.encrypt(encoded, &self.1);
        Ok(blocks_to_vec(blocks))
    }

    /// Pack, run the mode with the reversed transform, serialize, strip
    /// padding.  Succeeds exactly when the decrypted stream carries valid
    /// padding; a malformed pad count is a `PaddingError`, and padding
    /// bytes that do not validate are a `DecryptionError`.
    pub fn decrypt<P: PackBytes<u32>>(&self, message: Vec<u8>) -> (r: Result<
        Vec<u8>,
        CipherError,
    >)
        requires
            self.0.dec_req(P::spec_pack(message@)),
            self.1.wf(),
        ensures
            ({
                let padded = spec_blocks_to_bytes(
                    self.0.spec_decrypt(P::spec_pack(message@), self.1),
                );
                match r {
                    Ok(d) => spec_strip_ok(padded) && d@ == spec_strip_data(padded),
                    Err(e) => !spec_strip_ok(padded) && (spec_strip_malformed(padded)
                        ==> e is PaddingError) && (!spec_strip_malformed(padded)
                        ==> e is DecryptionError),
                }
            }),
    {
        let encoded = P::u8s_to_vecdeque(message);
        let blocks = self.0.decrypt(encoded, &self.1);
        let dec_bytes = blocks_to_vec(blocks);
        Packer::strip_padding_vec(dec_bytes)
    }
}

/// The round trip of the whole pipeline: for every byte stream and every
/// mode and transform the mode's obligations admit, decrypting the
/// encryption of the stream strips cleanly and returns the stream
/// unchanged.
pub proof fn lemma_cipher_round_trip<M: ModeOfOperation<F>, F: FeistelNetwork>(
    m: M,
    f: F,
    data: Seq<u8>,
)
    requires
        m.enc_req(spec_pack32(spec_pad(data, 8))),
        f.wf(),
    ensures
        ({
            let ct = spec_blocks_to_bytes(m.spec_encrypt(spec_pack32(spec_pad(data, 8)), f));
            let padded = spec_blocks_to_bytes(m.spec_decrypt(spec_pack32(ct), f));
            m.dec_req(spec_pack32(ct)) && spec_strip_ok(padded) && spec_strip_data(padded)
                == data
        }),
{
    let padded = spec_pad(data, 8);
    lemma_pad_strip(data, 8);
    let msg = spec_pack32(padded);
    assert(padded.len() % 4 == 0) by {
        let l = padded.len() as int;
        vstd::arithmetic::div_mod::lemma_fundamental_div_mod(l, 8);
        let k = l / 8;
        assert(l == 8 * k);
        vstd::arithmetic::div_mod::lemma_mod_multiples_basic(2 * k, 4);
        assert(((2 * k) * 4) % 4 == 0);
        assert((2 * k) * 4 == 8 * k) by (nonlinear_arith);
    }
    lemma_unpack_pack32(padded);
    assert(spec_unpack32(msg) == padded);
    lemma_unpack32_len(msg);
    assert(4 * msg.len() == padded.len());
    assert(msg.len() % 2 == 0) by {
        let l = padded.len() as int;
        let n = msg.len() as int;
        vstd::arithmetic::div_mod::lemma_fundamental_div_mod(l, 8);
        let k = l / 8;
        assert(4 * n == 8 * k);
        assert(n == 2 * k);
        vstd::arithmetic::div_mod::lemma_mod_multiples_basic(k, 2);
        assert((k * 2) % 2 == 0);
        assert(k * 2 == 2 * k) by (nonlinear_arith);
    }
    let enc = m.spec_encrypt(msg, f);
    let ct = spec_blocks_to_bytes(enc);
    lemma_blocks_to_bytes(enc);
    lemma_pack_unpack32(spec_unpair32(enc));
    assert(spec_pack32(ct) == spec_unpair32(enc));
    m.lemma_mode_round_trip(msg, f);
    assert(m.spec_decrypt(spec_pack32(ct), f) == spec_pair32(msg));
    lemma_blocks_to_bytes(spec_pair32(msg));
    lemma_unpair_pair32(msg);
    assert(spec_blocks_to_bytes(spec_pair32(msg)) == spec_unpack32(msg));
}

} // verus!
