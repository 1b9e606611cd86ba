//! A pluggable block-cipher engine.
//!
//! Bytes are padded and packed into fixed-width subblocks, grouped into
//! two-register blocks, and driven through a caller-supplied round
//! transform under a mode of operation (ECB or CBC).  An independent-block
//! (ECB) workload can additionally be partitioned into spans for parallel
//! execution with deterministic, order-preserving reassembly.
//!
//! All multi-byte values on the wire are little-endian, and a CBC stream
//! carries its initialization value as its first block: both are fixed,
//! documented conventions of the library.
pub mod block;
pub mod block_span;
pub mod cipher;
pub mod cli;
pub mod decryptor;
pub mod encryptor;
pub mod errors;
pub mod feistel;
pub mod key_fncs;
pub mod mixer;
pub mod mode_of_operation;
pub mod modes;
pub mod packer;

use crate::block::Block;
use crate::cipher::{lemma_blocks_to_bytes, spec_blocks_to_bytes, Cipher};
use crate::errors::CipherError;
use crate::feistel::FeistelNetwork;
use crate::mixer::{lemma_forward_backward, spec_backward, spec_forward, Mixer};
use crate::mode_of_operation::{
    lemma_pair32_len, lemma_pair_unpair32, lemma_unpair32_len, lemma_unpair_pair32, spec_pair32,
    spec_unpair32, ModeOfOperation,
};
use crate::modes::{lemma_iv_block_full, spec_cbc_ct, spec_iv_block, CBC, ECB};
use crate::packer::{
    lemma_pack_unpack32, lemma_pad_strip, lemma_unpack32_len, lemma_unpack_pack32, spec_pack32,
    spec_pad, spec_strip_data, spec_strip_malformed, spec_strip_ok, spec_unpack32, Packer,
};
use vstd::assert_seqs_equal;
use vstd::prelude::*;

verus! {

/// A byte stream whose length is a multiple of eight packs into an even
/// number of 32-bit subblocks, and unpacking them restores the stream.
pub proof fn lemma_pack32_aligned(b: Seq<u8>)
    requires
        b.len() % 8 == 0,
    ensures
        spec_unpack32(spec_pack32(b)) == b,
        4 * spec_pack32(b).len() == b.len(),
        spec_pack32(b).len() % 2 == 0,
{
    let l = b.len() as int;
    vstd::arithmetic::div_mod::lemma_fundamental_div_mod(l, 8);
    let k = l / 8;
    assert(l == 8 * k);
    assert(l % 4 == 0) by {
        vstd::arithmetic::div_mod::lemma_mod_multiples_basic(2 * k, 4);
        assert(((2 * k) * 4) % 4 == 0);
        assert((2 * k) * 4 == 8 * k) by (nonlinear_arith);
    }
    lemma_unpack_pack32(b);
    lemma_unpack32_len(spec_pack32(b));
    let n = spec_pack32(b).len() as int;
    assert(4 * n == 8 * k);
    assert(n == 2 * k);
    assert(n % 2 == 0) by {
        vstd::arithmetic::div_mod::lemma_mod_multiples_basic(k, 2);
        assert((k * 2) % 2 == 0);
        assert(k * 2 == 2 * k) by (nonlinear_arith);
    }
}

/// The ECB ciphertext of `data` under `key`: pad, pack, pair, transform
/// every block forward, serialize.
pub open spec fn spec_ecb_encrypt_bytes(key: Seq<u8>, data: Seq<u8>) -> Seq<u8> {
    let pairs = spec_pair32(spec_pack32(spec_pad(data, 8)));
    spec_blocks_to_bytes(Seq::new(pairs.len(), |i: int| spec_forward(key, pairs[i])))
}

/// The still-padded ECB decryption of `ct` under `key`.
pub open spec fn spec_ecb_decrypt_padded(key: Seq<u8>, ct: Seq<u8>) -> Seq<u8> {
    let pairs = spec_pair32(spec_pack32(ct));
    spec_blocks_to_bytes(Seq::new(pairs.len(), |i: int| spec_backward(key, pairs[i])))
}

/// Ciphertext block `i` of the CBC chain under the built-in mixer.
pub open spec fn spec_cbc_ct_mixed(key: Seq<u8>, bs: Seq<Block<u32>>, iv: u64, i: int) -> Block<
    u32,
>
    decreases i,
{
    if i <= 0 {
        spec_forward(key, bs[0].spec_xor(iv))
    } else {
        spec_forward(key, bs[i].spec_xor(spec_cbc_ct_mixed(key, bs, iv, i - 1).spec_full()))
    }
}

/// The CBC ciphertext of `data` under `key` and the initialization value
/// `iv`: the IV block first, then the chained blocks.
pub open spec fn spec_cbc_encrypt_bytes(key: Seq<u8>, data: Seq<u8>, iv: u64) -> Seq<u8> {
    let pairs = spec_pair32(spec_pack32(spec_pad(data, 8)));
    spec_blocks_to_bytes(
        seq![spec_iv_block(iv)] + Seq::new(
            pairs.len(),
            |i: int| spec_cbc_ct_mixed(key, pairs, iv, i),
        ),
    )
}

/// The still-padded CBC decryption of `ct` under `key`, reading the IV
/// from the first block of the stream.
pub open spec fn spec_cbc_decrypt_padded(key: Seq<u8>, ct: Seq<u8>) -> Seq<u8> {
    let all = spec_pair32(spec_pack32(ct));
    let cts = all.skip(1);
    spec_blocks_to_bytes(
        Seq::new(
            cts.len(),
            |i: int|
                spec_backward(key, cts[i]).spec_xor(
                    if i == 0 {
                        all[0].spec_full()
                    } else {
                        cts[i - 1].spec_full()
                    },
                ),
        ),
    )
}

/// The CBC chain under a forward mixer capability is the CBC chain under
/// its key.
proof fn lemma_cbc_ct_mixer(f: Mixer, bs: Seq<Block<u32>>, iv: u64, i: int)
    requires
        f.inverted == false,
    ensures
        spec_cbc_ct(bs, iv, f, i) == spec_cbc_ct_mixed(f.key@, bs, iv, i),
    decreases i,
{
    if i > 0 {
        lemma_cbc_ct_mixer(f, bs, iv, i - 1);
    }
}

fn enc<M: ModeOfOperation<F>, F: FeistelNetwork>(cipher: Cipher<M, F>, data: Vec<u8>) -> (r:
    Result<Vec<u8>, CipherError>)
    requires
        cipher.0.enc_req(spec_pack32(spec_pad(data@, 8))),
        cipher.1.wf(),
        data@.len() + 8 <= usize::MAX,
    ensures
        r is Ok,
        r->Ok_0@ == spec_blocks_to_bytes(
            cipher.0.spec_encrypt(spec_pack32(spec_pad(data@, 8)), cipher.1),
        ),
{
    cipher.encrypt::<Packer>(data)
}

fn dec<M: ModeOfOperation<F>, F: FeistelNetwork>(cipher: Cipher<M, F>, data: Vec<u8>) -> (r:
    Result<Vec<u8>, CipherError>)
    requires
        cipher.0.dec_req(spec_pack32(data@)),
        cipher.1.wf(),
    ensures
        ({
            let padded = spec_blocks_to_bytes(
                cipher.0.spec_decrypt(spec_pack32(data@), cipher.1),
            );
            match r {
                Ok(d) => spec_strip_ok(padded) && d@ == spec_strip_data(padded),
                Err(e) => !spec_strip_ok(padded) && (spec_strip_malformed(padded)
                    ==> e is PaddingError) && (!spec_strip_malformed(padded)
                    ==> e is DecryptionError),
            }
        }),
{
    cipher.decrypt::<Packer>(data)
}

/// Encrypt `data` under `key` in ECB mode with the built-in mixer.
/// Fails exactly on empty key material.
pub fn ecb_encode(key: Vec<u8>, data: Vec<u8>) -> (r: Result<Vec<u8>, CipherError>)
    requires
        data@.len() + 8 <= usize::MAX,
    ensures
        r is Ok <==> key@.len() > 0,
        r is Err ==> r->Err_0 is KeyLen,
        r is Ok ==> r->Ok_0@ == spec_ecb_encrypt_bytes(key@, data@),
{
    let ghost gkey = key@;
    let ghost gdata = data@;
    let mixer = match Mixer::initialize(key) {
        Ok(m) => m,
        Err(e) => {
            return Err(e);
        },
    };
    proof {
        lemma_pad_strip(gdata, 8);
        lemma_pack32_aligned(spec_pad(gdata, 8));
    }
    let r = enc(Cipher::<ECB, Mixer>(ECB, mixer), data);
    proof {
        let msg = spec_pack32(spec_pad(gdata, 8));
        let pairs = spec_pair32(msg);
        assert_seqs_equal!(ECB.spec_encrypt(msg, mixer)
            == Seq::new(pairs.len(), |i: int| spec_forward(gkey, pairs[i])));
    }
    r
}

/// Decrypt an ECB ciphertext under `key` with the built-in mixer.  The
/// ciphertext must be whole blocks; success and the error kinds follow
/// the padding validation of the decrypted stream.
pub fn ecb_decode(key: Vec<u8>, data: Vec<u8>) -> (r: Result<Vec<u8>, CipherError>)
    requires
        data@.len() % 8 == 0,
    ensures
        key@.len() == 0 ==> r is Err && r->Err_0 is KeyLen,
        key@.len() > 0 ==> ({
            let padded = spec_ecb_decrypt_padded(key@, data@);
            match r {
                Ok(d) => spec_strip_ok(padded) && d@ == spec_strip_data(padded),
                Err(e) => !spec_strip_ok(padded) && (spec_strip_malformed(padded)
                    ==> e is PaddingError) && (!spec_strip_malformed(padded)
                    ==> e is DecryptionError),
            }
        }),
{
    let ghost gkey = key@;
    let ghost gdata = data@;
    let mixer = match Mixer::initialize(key) {
        Ok(m) => m,
        Err(e) => {
            return Err(e);
        },
    };
    proof {
        lemma_pack32_aligned(gdata);
    }
    let r = dec(Cipher::<ECB, Mixer>(ECB, mixer), data);
    proof {
        let pairs = spec_pair32(spec_pack32(gdata));
        assert_seqs_equal!(ECB.spec_decrypt(spec_pack32(gdata), mixer)
            == Seq::new(pairs.len(), |i: int| spec_backward(gkey, pairs[i])));
    }
    r
}

/// Encrypt `data` under `key` in CBC mode with the built-in mixer, using
/// the externally supplied initialization value `iv`.  The IV is
/// prepended to the ciphertext as its first block.  Fails exactly on
/// empty key material.
pub fn cbc_encode(key: Vec<u8>, data: Vec<u8>, iv: u64) -> (r: Result<Vec<u8>, CipherError>)
    requires
        data@.len() + 8 <= usize::MAX,
    ensures
        r is Ok <==> key@.len() > 0,
        r is Err ==> r->Err_0 is KeyLen,
        r is Ok ==> r->Ok_0@ == spec_cbc_encrypt_bytes(key@, data@, iv),
{
    let ghost gkey = key@;
    let ghost gdata = data@;
    let mixer = match Mixer::initialize(key) {
        Ok(m) => m,
        Err(e) => {
            return Err(e);
        },
    };
    proof {
        lemma_pad_strip(gdata, 8);
        lemma_pack32_aligned(spec_pad(gdata, 8));
        assert(spec_pad(gdata, 8).len() >= 8);
    }
    let cbc = CBC { init_vec: Some(iv) };
    let r = enc(Cipher::<CBC, Mixer>(cbc, mixer), data);
    proof {
        let msg = spec_pack32(spec_pad(gdata, 8));
        let pairs = spec_pair32(msg);
        assert forall|i: int| 0 <= i < pairs.len() implies spec_cbc_ct(pairs, iv, mixer, i)
            == spec_cbc_ct_mixed(gkey, pairs, iv, i) by {
            lemma_cbc_ct_mixer(mixer, pairs, iv, i);
        }
        assert_seqs_equal!(cbc.spec_encrypt(msg, mixer)
            == seq![spec_iv_block(iv)]
                + Seq::new(pairs.len(), |i: int| spec_cbc_ct_mixed(gkey, pairs, iv, i)));
    }
    r
}

/// Decrypt a CBC ciphertext under `key` with the built-in mixer, reading
/// the IV from the stream's first block.  The ciphertext must hold the
/// IV block and at least one data block; success and the error kinds
/// follow the padding validation of the decrypted stream.
pub fn cbc_decode(key: Vec<u8>, data: Vec<u8>) -> (r: Result<Vec<u8>, CipherError>)
    requires
        data@.len() % 8 == 0,
        data@.len() >= 16,
    ensures
        key@.len() == 0 ==> r is Err && r->Err_0 is KeyLen,
        key@.len() > 0 ==> ({
            let padded = spec_cbc_decrypt_padded(key@, data@);
            match r {
                Ok(d) => spec_strip_ok(padded) && d@ == spec_strip_data(padded),
                Err(e) => !spec_strip_ok(padded) && (spec_strip_malformed(padded)
                    ==> e is PaddingError) && (!spec_strip_malformed(padded)
                    ==> e is DecryptionError),
            }
        }),
{
    let ghost gkey = key@;
    let ghost gdata = data@;
    let mixer = match Mixer::initialize(key) {
        Ok(m) => m,
        Err(e) => {
            return Err(e);
        },
    };
    proof {
        lemma_pack32_aligned(gdata);
    }
    let cbc = CBC { init_vec: None };
    let r = dec(Cipher::<CBC, Mixer>(cbc, mixer), data);
    proof {
        let all = spec_pair32(spec_pack32(gdata));
        let cts = all.skip(1);
        assert_seqs_equal!(cbc.spec_decrypt(spec_pack32(gdata), mixer)
            == Seq::new(cts.len(), |i: int| spec_backward(gkey, cts[i]).spec_xor(
                if i == 0 { all[0].spec_full() } else { cts[i - 1].spec_full() })));
    }
    r
}

/// The ECB round trip: for every key and every byte stream, decrypting
/// the encryption strips cleanly and returns the stream unchanged.
pub proof fn lemma_ecb_round_trip(key: Seq<u8>, data: Seq<u8>)
    ensures
        ({
            let ct = spec_ecb_encrypt_bytes(key, data);
            let padded = spec_ecb_decrypt_padded(key, ct);
            ct.len() % 8 == 0 && spec_strip_ok(padded) && spec_strip_data(padded) == data
        }),
{
    let padded0 = spec_pad(data, 8);
    lemma_pad_strip(data, 8);
    lemma_pack32_aligned(padded0);
    let msg = spec_pack32(padded0);
    let pairs = spec_pair32(msg);
    let enc_blocks = Seq::new(pairs.len(), |i: int| spec_forward(key, pairs[i]));
    let ct = spec_blocks_to_bytes(enc_blocks);
    lemma_blocks_to_bytes(enc_blocks);
    lemma_pair32_len(msg);
    lemma_unpair32_len(enc_blocks);
    lemma_unpack32_len(spec_unpair32(enc_blocks));
    assert(ct.len() == 8 * pairs.len());
    assert(ct.len() % 8 == 0) by {
        vstd::arithmetic::div_mod::lemma_mod_multiples_basic(pairs.len() as int, 8);
        assert(((pairs.len() as int) * 8) % 8 == 0);
        assert((pairs.len() as int) * 8 == 8 * (pairs.len() as int)) by (nonlinear_arith);
    }
    lemma_pack_unpack32(spec_unpair32(enc_blocks));
    assert(spec_pack32(ct) == spec_unpair32(enc_blocks));
    lemma_pair_unpair32(enc_blocks);
    let dec_pairs = spec_pair32(spec_pack32(ct));
    assert(dec_pairs == enc_blocks);
    let dec_blocks = Seq::new(dec_pairs.len(), |i: int| spec_backward(key, dec_pairs[i]));
    assert forall|i: int| 0 <= i < pairs.len() implies dec_blocks[i] == pairs[i] by {
        lemma_forward_backward(key, pairs[i]);
    }
    assert_seqs_equal!(dec_blocks == pairs);
    lemma_blocks_to_bytes(pairs);
    lemma_unpair_pair32(msg);
    assert(spec_ecb_decrypt_padded(key, ct) == spec_unpack32(msg));
}

/// Tamper detection at the decryption surface: when a ciphertext
/// decrypts to a stream that matches the padded form of `data` at every
/// byte except one strictly inside the padding region -- any padding
/// byte but the trailing count byte itself -- the stream is not
/// malformed, yet its padding no longer validates.  By the contract of
/// `ecb_decode`, decryption then fails with `DecryptionError`.
pub proof fn lemma_decrypt_tamper(key: Seq<u8>, data: Seq<u8>, ct2: Seq<u8>, i: int)
    requires
        spec_ecb_decrypt_padded(key, ct2).len() == spec_pad(data, 8).len(),
        forall|j: int|
            0 <= j < spec_ecb_decrypt_padded(key, ct2).len() && j != i
                ==> spec_ecb_decrypt_padded(key, ct2)[j] == spec_pad(data, 8)[j],
        data.len() <= i < spec_ecb_decrypt_padded(key, ct2).len() - 1,
        spec_ecb_decrypt_padded(key, ct2)[i] != spec_pad(data, 8)[i],
    ensures
        !spec_strip_ok(spec_ecb_decrypt_padded(key, ct2)),
        !spec_strip_malformed(spec_ecb_decrypt_padded(key, ct2)),
{
    crate::packer::lemma_strip_tamper(data, 8, spec_ecb_decrypt_padded(key, ct2), i);
}

/// The CBC round trip: for every key, every IV and every byte stream,
/// decrypting the encryption strips cleanly and returns the stream
/// unchanged.
pub proof fn lemma_cbc_round_trip(key: Seq<u8>, data: Seq<u8>, iv: u64)
    ensures
        ({
            let ct = spec_cbc_encrypt_bytes(key, data, iv);
            let padded = spec_cbc_decrypt_padded(key, ct);
            ct.len() % 8 == 0 && ct.len() >= 16 && spec_strip_ok(padded) && spec_strip_data(
                padded,
            ) == data
        }),
{
    let padded0 = spec_pad(data, 8);
    lemma_pad_strip(data, 8);
    lemma_pack32_aligned(padded0);
    let msg = spec_pack32(padded0);
    let pairs = spec_pair32(msg);
    let chain = Seq::new(pairs.len(), |i: int| spec_cbc_ct_mixed(key, pairs, iv, i));
    let enc_blocks = seq![spec_iv_block(iv)] + chain;
    let ct = spec_blocks_to_bytes(enc_blocks);
    lemma_blocks_to_bytes(enc_blocks);
    lemma_pair32_len(msg);
    lemma_unpair32_len(enc_blocks);
    lemma_unpack32_len(spec_unpair32(enc_blocks));
    assert(ct.len() == 8 * enc_blocks.len());
    assert(enc_blocks.len() >= 2);
    assert(ct.len() % 8 == 0) by {
        vstd::arithmetic::div_mod::lemma_mod_multiples_basic(enc_blocks.len() as int, 8);
        assert(((enc_blocks.len() as int) * 8) % 8 == 0);
        assert((enc_blocks.len() as int) * 8 == 8 * (enc_blocks.len() as int))
            by (nonlinear_arith);
    }
    lemma_pack_unpack32(spec_unpair32(enc_blocks));
    assert(spec_pack32(ct) == spec_unpair32(enc_blocks));
    lemma_pair_unpair32(enc_blocks);
    let all = spec_pair32(spec_pack32(ct));
    assert(all == enc_blocks);
    let cts = all.skip(1);
    assert_seqs_equal!(cts == chain);
    lemma_iv_block_full(iv);
    let dec_blocks = Seq::new(
        cts.len(),
        |i: int|
            spec_backward(key, cts[i]).spec_xor(
                if i == 0 {
                    all[0].spec_full()
                } else {
                    cts[i - 1].spec_full()
                },
            ),
    );
    assert forall|i: int| 0 <= i < pairs.len() implies dec_blocks[i] == pairs[i] by {
        let p = if i == 0 {
            iv
        } else {
            spec_cbc_ct_mixed(key, pairs, iv, i - 1).spec_full()
        };
        assert(cts[i] == spec_cbc_ct_mixed(key, pairs, iv, i));
        assert(cts[i] == spec_forward(key, pairs[i].spec_xor(p)));
        lemma_forward_backward(key, pairs[i].spec_xor(p));
        crate::block::lemma_xor_facts(pairs[i], p);
        if i != 0 {
            assert(cts[i - 1].spec_full() == p);
        }
    }
    assert_seqs_equal!(dec_blocks == pairs);
    lemma_blocks_to_bytes(pairs);
    lemma_unpair_pair32(msg);
    assert(spec_cbc_decrypt_padded(key, ct) == spec_unpack32(msg));
}

} // verus!


