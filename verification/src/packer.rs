//! Conversion between byte streams and fixed-width subblock sequences,
//! and the self-describing padding scheme.
//!
//! Subblocks are read and written in little-endian byte order: a fixed,
//! documented convention, independent of the platform.
use crate::errors::{msg_corrupted, msg_decryption_failed, msg_empty_padding, CipherError};
use std::collections::VecDeque;
use vstd::assert_seqs_equal;
use vstd::bytes::*;
use vstd::prelude::*;
use vstd::seq_lib::*;

verus! {

/// Number of bytes the padding scheme appends to a stream of length `len`
/// for block size `bs`: enough to reach the next multiple of `bs`, or one
/// whole extra block when `len` is already aligned, so that padding is
/// always present and always removable unambiguously.
pub open spec fn spec_pad_count(len: nat, bs: nat) -> nat
    recommends
        bs > 0,
{
    if len % bs == 0 {
        bs
    } else {
        (bs - (len % bs)) as nat
    }
}

/// The padded stream: `data` followed by `spec_pad_count` bytes, each
/// holding that same count as its value.
pub open spec fn spec_pad(data: Seq<u8>, bs: u8) -> Seq<u8>
    recommends
        bs > 0,
{
    data + Seq::new(
        spec_pad_count(data.len(), bs as nat),
        |i: int| spec_pad_count(data.len(), bs as nat) as u8,
    )
}

/// Whether `data` carries valid padding: it is non-empty, its last byte
/// `p` is a count no larger than the whole length, and the last `p` bytes
/// all hold the value `p`.
pub open spec fn spec_strip_ok(data: Seq<u8>) -> bool {
    &&& data.len() > 0
    &&& data.last() as nat <= data.len()
    &&& forall|i: int|
        data.len() - data.last() as nat <= i < data.len() ==> data[i] == data.last()
}

/// Whether `data` is rejected outright as malformed padding: empty input,
/// or a declared count that exceeds the buffer.
pub open spec fn spec_strip_malformed(data: Seq<u8>) -> bool {
    data.len() == 0 || data.last() as nat > data.len()
}

/// The stream with its padding removed (meaningful when `spec_strip_ok`).
pub open spec fn spec_strip_data(data: Seq<u8>) -> Seq<u8>
    recommends
        spec_strip_ok(data),
{
    data.take(data.len() - data.last() as nat)
}

/// One subblock read from up to four little-endian bytes; a short chunk
/// is zero-extended.
pub open spec fn spec_subblock32(b: Seq<u8>) -> u32 {
    spec_u32_from_le_bytes(spec_zero_ext(b, 4))
}

/// The byte stream packed into 32-bit subblocks, four bytes at a time.
pub open spec fn spec_pack32(b: Seq<u8>) -> Seq<u32>
    decreases b.len(),
{
    if b.len() == 0 {
        Seq::empty()
    } else if b.len() <= 4 {
        seq![spec_subblock32(b)]
    } else {
        seq![spec_subblock32(b.take(4))] + spec_pack32(b.skip(4))
    }
}

/// The inverse of packing: each subblock written as four little-endian
/// bytes, in order.
pub open spec fn spec_unpack32(s: Seq<u32>) -> Seq<u8>
    decreases s.len(),
{
    if s.len() == 0 {
        Seq::empty()
    } else {
        spec_u32_to_le_bytes(s[0]) + spec_unpack32(s.skip(1))
    }
}

/// `b` brought to exactly `n` bytes: truncated when longer, zero-extended
/// when shorter.
pub open spec fn spec_zero_ext(b: Seq<u8>, n: nat) -> Seq<u8> {
    if b.len() >= n {
        b.take(n as int)
    } else {
        b + Seq::new((n - b.len()) as nat, |i: int| 0u8)
    }
}

/// One subblock read from up to eight little-endian bytes; a short chunk
/// is zero-extended.
pub open spec fn spec_subblock64(b: Seq<u8>) -> u64 {
    spec_u64_from_le_bytes(spec_zero_ext(b, 8))
}

/// The byte stream packed into 64-bit subblocks, eight bytes at a time.
pub open spec fn spec_pack64(b: Seq<u8>) -> Seq<u64>
    decreases b.len(),
{
    if b.len() == 0 {
        Seq::empty()
    } else if b.len() <= 8 {
        seq![spec_subblock64(b)]
    } else {
        seq![spec_subblock64(b.take(8))] + spec_pack64(b.skip(8))
    }
}

/// Converts a byte stream to and from an ordered sequence of fixed-width
/// subblocks, and implements the padding scheme.
pub struct Packer;

impl Packer {
    /// Pad `pt` to a multiple of `MAX_PADDING` bytes.  When the length is
    /// not aligned, the missing count is appended, each byte holding that
    /// count; when it is aligned, one whole extra block of bytes holding
    /// `MAX_PADDING` is appended.  Never fails; the `Result` is the
    /// orchestrator's uniform error surface.
    pub fn pad_bytes<const MAX_PADDING: u8>(pt: Vec<u8>) -> (r: Result<Vec<u8>, CipherError>)
        requires
            MAX_PADDING > 0,
            pt@.len() + MAX_PADDING <= usize::MAX,
        ensures
            r is Ok,
            r->Ok_0@ == spec_pad(pt@, MAX_PADDING),
    {
        let mut pt = pt;
        let ghost orig: Seq<u8> = pt@;
        let bs: usize = MAX_PADDING as usize;
        let rem: usize = pt.len() % bs;
        let count: u8 = if rem == 0 {
            MAX_PADDING
        } else {
            (bs - rem) as u8
        };
        assert(count as nat == spec_pad_count(orig.len(), MAX_PADDING as nat));
        let n: usize = count as usize;
        let mut i: usize = 0;
        while i < n
            invariant
                i <= n,
                n == spec_pad_count(orig.len(), MAX_PADDING as nat),
                orig.len() + n <= usize::MAX,
                pt@ == orig + Seq::new(i as nat, |j: int| count),
            decreases n - i,
        {
            pt.push(count);
            i = i + 1;
            proof {
                assert_seqs_equal!(pt@ == orig + Seq::new(i as nat, |j: int| count));
            }
        }
        proof {
            assert_seqs_equal!(pt@ == spec_pad(orig, MAX_PADDING));
        }
        Ok(pt)
    }

    /// Read the trailing pad count and remove the padding.  Fails with
    /// `PaddingError` when the input is empty or the declared count
    /// exceeds the buffer, and with `DecryptionError` when the declared
    /// padding bytes do not all hold the count -- the signature of a wrong
    /// key or a corrupted ciphertext.
    pub fn strip_padding_vec(vec: Vec<u8>) -> (r: Result<Vec<u8>, CipherError>)
        ensures
            r is Ok <==> spec_strip_ok(vec@),
            r is Ok ==> r->Ok_0@ == spec_strip_data(vec@),
            r is Err && spec_strip_malformed(vec@) ==> r->Err_0 is PaddingError,
            r is Err && !spec_strip_malformed(vec@) ==> r->Err_0 is DecryptionError,
    {
        if vec.len() == 0 {
            return Err(CipherError::PaddingError(msg_empty_padding()));
        }
        let padding_indication_byte: u8 = vec[vec.len() - 1];
        let pad_width = padding_indication_byte as usize;
        if pad_width > vec.len() {
            return Err(CipherError::PaddingError(msg_corrupted()));
        }
        let b = vec.len() - pad_width;
        let mut i: usize = b;
        while i < vec.len()
            invariant
                b <= i <= vec@.len(),
                vec@.len() > 0,
                b == vec@.len() - vec@.last() as nat,
                padding_indication_byte == vec@.last(),
                forall|j: int| b <= j < i ==> vec@[j] == vec@.last(),
            decreases vec@.len() - i,
        {
            if vec[i] != padding_indication_byte {
                return Err(CipherError::DecryptionError(msg_decryption_failed()));
            }
            i = i + 1;
        }
        let mut data = vec;
        data.truncate(b);
        Ok(data)
    }
}

/// Conversion from a byte stream to subblocks of width `T`, in the
/// documented little-endian order.
pub trait PackBytes<T> {
    /// One subblock read from one chunk of bytes.
    spec fn spec_subblock(b: Seq<u8>) -> T;

    /// The whole stream packed into subblocks.
    spec fn spec_pack(b: Seq<u8>) -> Seq<T>;

    /// Read one chunk as a little-endian subblock, zero-extending a short
    /// chunk.
    fn u8s_to_subblock(u8s: &[u8]) -> (r: T)
        ensures
            r == Self::spec_subblock(u8s@),
    ;

    /// Pack the whole stream, one chunk at a time, in order.
    fn u8s_to_vecdeque(padded: Vec<u8>) -> (r: VecDeque<T>)
        ensures
            r@ == Self::spec_pack(padded@),
    ;
}

impl PackBytes<u32> for Packer {
    open spec fn spec_subblock(b: Seq<u8>) -> u32 {
        spec_subblock32(b)
    }

    open spec fn spec_pack(b: Seq<u8>) -> Seq<u32> {
        spec_pack32(b)
    }

    fn u8s_to_subblock(u8s: &[u8]) -> (r: u32) {
        let n: usize = u8s.len();
        let take: usize = if n < 4 {
            n
        } else {
            4
        };
        let mut buf: Vec<u8> = Vec::new();
        let mut j: usize = 0;
        while j < take
            invariant
                j <= take,
                take <= u8s@.len(),
                buf@ == u8s@.take(j as int),
            decreases take - j,
        {
            buf.push(u8s[j]);
            j = j + 1;
            proof {
                assert_seqs_equal!(buf@ == u8s@.take(j as int));
            }
        }
        proof {
            assert_seqs_equal!(buf@ == u8s@.take(take as int)
                + Seq::new((buf@.len() - take) as nat, |i: int| 0u8));
        }
        while buf.len() < 4
            invariant
                take <= buf@.len() <= 4,
                take <= u8s@.len(),
                buf@ == u8s@.take(take as int) + Seq::new(
                    (buf@.len() - take) as nat,
                    |i: int| 0u8,
                ),
            decreases 4 - buf@.len(),
        {
            buf.push(0u8);
            proof {
                assert_seqs_equal!(buf@ == u8s@.take(take as int)
                    + Seq::new((buf@.len() - take) as nat, |i: int| 0u8));
            }
        }
        proof {
            if n < 4 {
                assert(u8s@.take(take as int) =~= u8s@);
            }
            assert_seqs_equal!(buf@ == spec_zero_ext(u8s@, 4));
        }
        u32_from_le_bytes(buf.as_slice())
    }

    fn u8s_to_vecdeque(padded: Vec<u8>) -> (r: VecDeque<u32>) {
        let mut out: VecDeque<u32> = VecDeque::new();
        let mut i: usize = 0;
        proof {
            assert(padded@.skip(0) =~= padded@);
            assert_seqs_equal!(spec_pack32(padded@) == out@ + spec_pack32(padded@.skip(0)));
        }
        while i < padded.len()
            invariant
                i <= padded@.len(),
                spec_pack32(padded@) == out@ + spec_pack32(padded@.skip(i as int)),
            decreases padded@.len() - i,
        {
            let end: usize = if padded.len() - i >= 4 {
                i + 4
            } else {
                padded.len()
            };
            let chunk: &[u8] = &padded.as_slice()[i..end];
            let sb = <Packer as PackBytes<u32>>::u8s_to_subblock(chunk);
            proof {
                let rest = padded@.skip(i as int);
                assert(chunk@ == padded@.subrange(i as int, end as int));
                if rest.len() > 4 {
                    assert(chunk@ =~= rest.take(4));
                    assert(rest.skip(4) =~= padded@.skip(end as int));
                    assert(spec_pack32(rest) == seq![spec_subblock32(rest.take(4))]
                        + spec_pack32(rest.skip(4)));
                } else {
                    assert(chunk@ =~= rest);
                    assert(spec_pack32(rest) == seq![spec_subblock32(rest)]);
                    assert(padded@.skip(end as int) =~= Seq::<u8>::empty());
                    assert_seqs_equal!(spec_pack32(rest) == seq![spec_subblock32(chunk@)]
                        + spec_pack32(padded@.skip(end as int)));
                }
            }
            out.push_back(sb);
            proof {
                assert_seqs_equal!(spec_pack32(padded@) == out@
                    + spec_pack32(padded@.skip(end as int)));
            }
            i = end;
        }
        proof {
            assert(padded@.skip(i as int) =~= Seq::<u8>::empty());
            assert_seqs_equal!(out@ == spec_pack32(padded@));
        }
        out
    }
}

impl PackBytes<u64> for Packer {
    open spec fn spec_subblock(b: Seq<u8>) -> u64 {
        spec_subblock64(b)
    }

    open spec fn spec_pack(b: Seq<u8>) -> Seq<u64> {
        spec_pack64(b)
    }

    fn u8s_to_subblock(u8s: &[u8]) -> (r: u64) {
        convert(u8s)
    }

    fn u8s_to_vecdeque(padded: Vec<u8>) -> (r: VecDeque<u64>) {
        let mut out: VecDeque<u64> = VecDeque::new();
        let mut i: usize = 0;
        proof {
            assert(padded@.skip(0) =~= padded@);
            assert_seqs_equal!(spec_pack64(padded@) == out@ + spec_pack64(padded@.skip(0)));
        }
        while i < padded.len()
            invariant
                i <= padded@.len(),
                spec_pack64(padded@) == out@ + spec_pack64(padded@.skip(i as int)),
            decreases padded@.len() - i,
        {
            let end: usize = if padded.len() - i >= 8 {
                i + 8
            } else {
                padded.len()
            };
            let chunk: &[u8] = &padded.as_slice()[i..end];
            let sb = convert(chunk);
            proof {
                let rest = padded@.skip(i as int);
                assert(chunk@ == padded@.subrange(i as int, end as int));
                if rest.len() > 8 {
                    assert(chunk@ =~= rest.take(8));
                    assert(rest.skip(8) =~= padded@.skip(end as int));
                    assert(spec_pack64(rest) == seq![spec_subblock64(rest.take(8))]
                        + spec_pack64(rest.skip(8)));
                } else {
                    assert(chunk@ =~= rest);
                    assert(spec_pack64(rest) == seq![spec_subblock64(rest)]);
                    assert(padded@.skip(end as int) =~= Seq::<u8>::empty());
                    assert_seqs_equal!(spec_pack64(rest) == seq![spec_subblock64(chunk@)]
                        + spec_pack64(padded@.skip(end as int)));
                }
            }
            out.push_back(sb);
            proof {
                assert_seqs_equal!(spec_pack64(padded@) == out@
                    + spec_pack64(padded@.skip(end as int)));
            }
            i = end;
        }
        proof {
            assert(padded@.skip(i as int) =~= Seq::<u8>::empty());
            assert_seqs_equal!(out@ == spec_pack64(padded@));
        }
        out
    }
}

/// Read up to eight little-endian bytes as one 64-bit subblock,
/// zero-extending a short chunk.
pub fn convert(s: &[u8]) -> (r: u64)
    ensures
        r == spec_subblock64(s@),
{
    let n: usize = s.len();
    let take: usize = if n < 8 {
        n
    } else {
        8
    };
    let mut buf: Vec<u8> = Vec::new();
    let mut j: usize = 0;
    while j < take
        invariant
            j <= take,
            take <= s@.len(),
            buf@ == s@.take(j as int),
        decreases take - j,
    {
        buf.push(s[j]);
        j = j + 1;
        proof {
            assert_seqs_equal!(buf@ == s@.take(j as int));
        }
    }
    proof {
        assert_seqs_equal!(buf@ == s@.take(take as int)
            + Seq::new((buf@.len() - take) as nat, |i: int| 0u8));
    }
    while buf.len() < 8
        invariant
            take <= buf@.len() <= 8,
            take <= s@.len(),
            buf@ == s@.take(take as int) + Seq::new((buf@.len() - take) as nat, |i: int| 0u8),
        decreases 8 - buf@.len(),
    {
        buf.push(0u8);
        proof {
            assert_seqs_equal!(buf@ == s@.take(take as int)
                + Seq::new((buf@.len() - take) as nat, |i: int| 0u8));
        }
    }
    proof {
        if n < 8 {
            assert(s@.take(take as int) =~= s@);
        }
        assert_seqs_equal!(buf@ == spec_zero_ext(s@, 8));
    }
    u64_from_le_bytes(buf.as_slice())
}

/// Unpacking a 32-bit subblock sequence yields four bytes per subblock.
pub proof fn lemma_unpack32_len(s: Seq<u32>)
    ensures
        spec_unpack32(s).len() == 4 * s.len(),
    decreases s.len(),
{
    if s.len() > 0 {
        lemma_unpack32_len(s.skip(1));
        lemma_auto_spec_u32_to_from_le_bytes();
    }
}

/// Packing the little-endian serialization of a subblock sequence yields
/// that same sequence: pack is a left inverse of unpack.
pub proof fn lemma_pack_unpack32(s: Seq<u32>)
    ensures
        spec_pack32(spec_unpack32(s)) == s,
    decreases s.len(),
{
    lemma_auto_spec_u32_to_from_le_bytes();
    if s.len() == 0 {
        assert_seqs_equal!(spec_pack32(spec_unpack32(s)) == s);
    } else {
        let u = spec_unpack32(s);
        let head = spec_u32_to_le_bytes(s[0]);
        lemma_unpack32_len(s.skip(1));
        if s.len() == 1 {
            assert_seqs_equal!(u == head);
            assert(spec_zero_ext(u, 4) =~= head);
            assert(spec_subblock32(u) == s[0]);
            assert_seqs_equal!(spec_pack32(u) == s);
        } else {
            assert(u.len() > 4);
            assert_seqs_equal!(u.take(4) == head);
            assert_seqs_equal!(u.skip(4) == spec_unpack32(s.skip(1)));
            assert(spec_zero_ext(head, 4) =~= head);
            assert(spec_subblock32(u.take(4)) == s[0]);
            lemma_pack_unpack32(s.skip(1));
            assert_seqs_equal!(spec_pack32(u) == s);
        }
    }
}

/// Serializing the packed form of a block-aligned byte stream yields the
/// stream itself: unpack is a left inverse of pack on aligned input.
pub proof fn lemma_unpack_pack32(b: Seq<u8>)
    requires
        b.len() % 4 == 0,
    ensures
        spec_unpack32(spec_pack32(b)) == b,
    decreases b.len(),
{
    lemma_auto_spec_u32_to_from_le_bytes();
    if b.len() == 0 {
        assert_seqs_equal!(spec_unpack32(spec_pack32(b)) == b);
    } else if b.len() == 4 {
        assert(spec_zero_ext(b, 4) =~= b);
        let p = spec_pack32(b);
        assert(p == seq![spec_subblock32(b)]);
        assert(spec_u32_to_le_bytes(spec_subblock32(b)) == b);
        assert(p.skip(1) =~= Seq::<u32>::empty());
        assert(spec_unpack32(p) == spec_u32_to_le_bytes(p[0]) + spec_unpack32(p.skip(1)));
        assert_seqs_equal!(spec_unpack32(p) == b);
    } else {
        let head = b.take(4);
        let tail = b.skip(4);
        assert(b.len() >= 8);
        assert(tail.len() % 4 == 0) by {
            assert(tail.len() + 4 == b.len());
            vstd::arithmetic::div_mod::lemma_mod_add_multiples_vanish(tail.len() as int, 4);
        }
        lemma_unpack_pack32(tail);
        assert(spec_zero_ext(head, 4) =~= head);
        assert(spec_u32_to_le_bytes(spec_subblock32(head)) == head);
        let p = spec_pack32(b);
        assert(p == seq![spec_subblock32(head)] + spec_pack32(tail));
        assert(p[0] == spec_subblock32(head));
        assert(p.len() >= 1);
        assert(spec_unpack32(p) == spec_u32_to_le_bytes(p[0]) + spec_unpack32(p.skip(1)));
        assert_seqs_equal!(p.skip(1) == spec_pack32(tail));
        assert(spec_unpack32(p.skip(1)) == tail);
        assert(spec_unpack32(p) == head + tail);
        assert_seqs_equal!(head + tail == b);
    }
}

/// The padded stream is block-aligned, strictly longer than the input,
/// carries valid padding, and stripping it returns the input unchanged.
pub proof fn lemma_pad_strip(data: Seq<u8>, bs: u8)
    requires
        bs > 0,
    ensures
        spec_pad(data, bs).len() % (bs as nat) == 0,
        spec_pad(data, bs).len() >= data.len() + 1,
        spec_strip_ok(spec_pad(data, bs)),
        spec_strip_data(spec_pad(data, bs)) == data,
{
    let len = data.len() as int;
    let b = bs as int;
    let c = spec_pad_count(data.len(), bs as nat) as int;
    let padded = spec_pad(data, bs);
    assert(padded.len() == data.len() + c);
    if len % b == 0 {
        vstd::arithmetic::div_mod::lemma_mod_add_multiples_vanish(len, b);
        assert((len + c) % b == 0);
    } else {
        let q = len / b;
        vstd::arithmetic::div_mod::lemma_fundamental_div_mod(len, b);
        assert(len + c == (q + 1) * b) by (nonlinear_arith)
            requires
                len == b * q + len % b,
                c == b - len % b,
        ;
        vstd::arithmetic::div_mod::lemma_mod_multiples_basic(q + 1, b);
        assert((len + c) % b == 0);
    }
    assert(padded.len() % (bs as nat) == 0);
    assert(padded.last() == c as u8);
    assert(forall|i: int| len <= i < padded.len() ==> padded[i] == c as u8);
    assert(spec_strip_ok(padded));
    assert_seqs_equal!(spec_strip_data(padded) == data);
}

/// Changing any byte strictly inside the padding region of a padded
/// stream -- any padding byte other than the trailing count byte itself --
/// leaves a stream that strip rejects as a decryption failure: it is not
/// malformed (the count still fits), but the declared padding no longer
/// validates.
pub proof fn lemma_strip_tamper(data: Seq<u8>, bs: u8, t: Seq<u8>, i: int)
    requires
        bs > 0,
        t.len() == spec_pad(data, bs).len(),
        forall|j: int| 0 <= j < t.len() && j != i ==> t[j] == spec_pad(data, bs)[j],
        data.len() <= i < t.len() - 1,
        t[i] != spec_pad(data, bs)[i],
    ensures
        !spec_strip_ok(t),
        !spec_strip_malformed(t),
{
    let padded = spec_pad(data, bs);
    let c = spec_pad_count(data.len(), bs as nat);
    lemma_pad_strip(data, bs);
    assert(t.last() == padded.last());
    assert(t.last() as nat == c);
    assert(t.len() - t.last() as nat == data.len());
    assert(t[i] != t.last());
}

} // verus!
