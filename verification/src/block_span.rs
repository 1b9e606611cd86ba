//! The parallel block engine: partition an independent-block workload
//! into contiguous spans, transform each span's blocks under the key
//! byte of their absolute position, and reassemble the tagged results in
//! span order -- bit-exact with the sequential path for every span size
//! and every arrival order.
//!
//! The engine computes; dispatching spans to worker threads and carrying
//! payloads back over a channel is the launcher's concern, outside the
//! library.  A missing, duplicated or out-of-range span surfaces as a
//! `WorkerFailure`, never as a hang or a truncated result.
use crate::block::Block;
use crate::errors::{msg_worker_failure, CipherError};
use crate::key_fncs::{key_segment, spec_key_segment};
use vstd::assert_seqs_equal;
use vstd::prelude::*;

verus! {

/// A per-block transform over 64-bit register pairs, keyed by one key
/// byte.
pub trait BlockTransform: Sized {
    /// What the transform computes.
    spec fn spec_apply(&self, b: Block<u64>, k: u8) -> Block<u64>;

    /// Apply the transform to one block under one key byte.
    fn apply(&self, b: Block<u64>, k: u8) -> (r: Block<u64>)
        ensures
            r == self.spec_apply(b, k),
    ;
}

/// The documented test-double transform: XOR the key byte into both
/// registers.
pub struct XorKey;

impl BlockTransform for XorKey {
    open spec fn spec_apply(&self, b: Block<u64>, k: u8) -> Block<u64> {
        Block { l: b.l ^ (k as u64), r: b.r ^ (k as u64) }
    }

    fn apply(&self, b: Block<u64>, k: u8) -> (r: Block<u64>) {
        Block { l: b.l ^ (k as u64), r: b.r ^ (k as u64) }
    }
}

/// The blocks of `span`, taken pairwise, each transformed under the key
/// byte of its absolute position `start + j`.
pub open spec fn spec_span_work<T: BlockTransform>(
    span: Seq<u64>,
    key: Seq<u8>,
    start: int,
    t: T,
) -> Seq<Block<u64>> {
    Seq::new(
        span.len() / 2,
        |j: int|
            t.spec_apply(
                Block { l: span[2 * j], r: span[2 * j + 1] },
                spec_key_segment(key, start + j),
            ),
    )
}

/// The fully sequential independent-block path over the whole message.
pub open spec fn spec_seq_ecb<T: BlockTransform>(msg: Seq<u64>, key: Seq<u8>, t: T) -> Seq<
    Block<u64>,
> {
    spec_span_work(msg, key, 0, t)
}

/// Splitting the message after an even number of subblocks splits the
/// work, the second part starting at the matching absolute block offset.
/// This must hold for the parallel partition to be equivalent to the
/// sequential path, whatever the span size.
pub proof fn lemma_span_split<T: BlockTransform>(
    msg: Seq<u64>,
    key: Seq<u8>,
    start: int,
    c: int,
    t: T,
)
    requires
        msg.len() % 2 == 0,
        0 <= c <= msg.len(),
        c % 2 == 0,
    ensures
        spec_span_work(msg, key, start, t) == spec_span_work(msg.take(c), key, start, t)
            + spec_span_work(msg.skip(c), key, start + c / 2, t),
{
    let n = msg.len() as int;
    vstd::arithmetic::div_mod::lemma_fundamental_div_mod(n, 2);
    vstd::arithmetic::div_mod::lemma_fundamental_div_mod(c, 2);
    vstd::arithmetic::div_mod::lemma_fundamental_div_mod(n - c, 2);
    assert((n - c) % 2 == 0) by {
        assert(n == 2 * (n / 2));
        assert(c == 2 * (c / 2));
        assert(n - c == 2 * (n / 2 - c / 2));
        vstd::arithmetic::div_mod::lemma_mod_multiples_basic(n / 2 - c / 2, 2);
        assert(((n / 2 - c / 2) * 2) % 2 == 0);
        assert((n / 2 - c / 2) * 2 == 2 * (n / 2 - c / 2)) by (nonlinear_arith);
    }
    assert(n - c == 2 * ((n - c) / 2));
    let a = spec_span_work(msg.take(c), key, start, t);
    let b = spec_span_work(msg.skip(c), key, start + c / 2, t);
    assert(a.len() == c / 2);
    assert(b.len() == (n - c) / 2);
    assert(a.len() + b.len() == n / 2);
    assert forall|j: int| 0 <= j < n / 2 implies (a + b)[j] == spec_span_work(msg, key, start, t)[j]
        by {
        if j < c / 2 {
            assert(2 * j + 1 < c);
            assert(msg.take(c)[2 * j] == msg[2 * j]);
            assert(msg.take(c)[2 * j + 1] == msg[2 * j + 1]);
        } else {
            let j2 = j - c / 2;
            assert(b[j2] == t.spec_apply(
                Block { l: msg.skip(c)[2 * j2], r: msg.skip(c)[2 * j2 + 1] },
                spec_key_segment(key, start + c / 2 + j2),
            ));
            assert(msg.skip(c)[2 * j2] == msg[2 * j2 + c]);
            assert(msg.skip(c)[2 * j2 + 1] == msg[2 * j2 + 1 + c]);
            assert(2 * j2 + c == 2 * j);
            assert(start + c / 2 + j2 == start + j);
        }
    }
    assert_seqs_equal!(spec_span_work(msg, key, start, t) == a + b);
}

/// A tagged span result: the span index used only for reassembly
/// ordering, and the span's transformed blocks.
#[derive(Clone)]
pub struct Payload(pub usize, pub Vec<Block<u64>>);

/// A contiguous partition of the subblock sequence assigned to one
/// worker: its reassembly index, its starting absolute block offset for
/// key derivation, its subblocks and its key slice.
pub struct BlockSpan {
    pub idx: usize,
    pub start: usize,
    pub span: Vec<u64>,
    pub key_span: Vec<u8>,
}

/// How many subblocks a span of up to `length` blocks takes from a
/// message of `len` subblocks.
pub open spec fn spec_consumed(len: int, length: int) -> int {
    if 2 * length <= len {
        2 * length
    } else {
        len
    }
}

impl BlockSpan {
    /// Take up to `length` blocks (two subblocks each) off the front of
    /// `msg`, as span number `idx` starting at absolute block offset
    /// `start`.
    pub fn consume(idx: usize, length: usize, start: usize, msg: &mut Vec<u64>, ks: &[u8]) -> (r:
        Self)
        requires
            old(msg)@.len() % 2 == 0,
            ks@.len() > 0,
            length <= usize::MAX / 2,
        ensures
            r.idx == idx,
            r.start == start,
            r.key_span@ == ks@,
            r.span@ == old(msg)@.take(spec_consumed(old(msg)@.len() as int, length as int)),
            final(msg)@ == old(msg)@.skip(spec_consumed(old(msg)@.len() as int, length as int)),
            r.span@.len() % 2 == 0,
    {
        let c: usize = if 2 * length <= msg.len() {
            2 * length
        } else {
            msg.len()
        };
        proof {
            if 2 * length <= msg@.len() {
                vstd::arithmetic::div_mod::lemma_mod_multiples_basic(length as int, 2);
                assert(((length as int) * 2) % 2 == 0);
                assert((length as int) * 2 == 2 * (length as int)) by (nonlinear_arith);
            }
        }
        let mut consumed: Vec<u64> = Vec::new();
        let mut i: usize = 0;
        while i < c
            invariant
                i <= c,
                c <= msg@.len(),
                consumed@ == msg@.take(i as int),
            decreases c - i,
        {
            consumed.push(msg[i]);
            i = i + 1;
            proof {
                assert_seqs_equal!(consumed@ == msg@.take(i as int));
            }
        }
        let mut rest: Vec<u64> = Vec::new();
        let mut j: usize = c;
        while j < msg.len()
            invariant
                c <= j <= msg@.len(),
                rest@ == msg@.subrange(c as int, j as int),
            decreases msg@.len() - j,
        {
            rest.push(msg[j]);
            j = j + 1;
            proof {
                assert_seqs_equal!(rest@ == msg@.subrange(c as int, j as int));
            }
        }
        proof {
            assert(rest@ =~= msg@.skip(c as int));
        }
        let mut key_span: Vec<u8> = Vec::new();
        let mut q: usize = 0;
        while q < ks.len()
            invariant
                q <= ks@.len(),
                key_span@ == ks@.take(q as int),
            decreases ks@.len() - q,
        {
            key_span.push(ks[q]);
            q = q + 1;
            proof {
                assert_seqs_equal!(key_span@ == ks@.take(q as int));
            }
        }
        proof {
            assert(ks@.take(ks@.len() as int) =~= ks@);
        }
        *msg = rest;
        BlockSpan { idx, start, span: consumed, key_span }
    }

    /// Transform every block of the span under the key byte of its
    /// absolute position `start + j`: the index is the block's position
    /// in the whole message, never a span-local one.
    pub fn do_work<T: BlockTransform>(&self, t: &T) -> (r: Payload)
        requires
            self.key_span@.len() > 0,
            self.span@.len() % 2 == 0,
            self.start + self.span@.len() / 2 <= usize::MAX,
        ensures
            r.0 == self.idx,
            r.1@ == spec_span_work(self.span@, self.key_span@, self.start as int, *t),
    {
        proof {
            vstd::arithmetic::div_mod::lemma_fundamental_div_mod(self.span@.len() as int, 2);
        }
        let sl: usize = self.span.len();
        let nb: usize = sl / 2;
        let mut out: Vec<Block<u64>> = Vec::new();
        let mut j: usize = 0;
        while j < nb
            invariant
                self.span@.len() % 2 == 0,
                self.span@.len() <= usize::MAX,
                2 * (nb as int) == self.span@.len(),
                j <= nb,
                self.key_span@.len() > 0,
                self.start + nb <= usize::MAX,
                out@.len() == j,
                forall|q: int|
                    0 <= q < j ==> out@[q] == t.spec_apply(
                        Block { l: self.span@[2 * q], r: self.span@[2 * q + 1] },
                        spec_key_segment(self.key_span@, self.start + q),
                    ),
            decreases nb - j,
        {
            proof {
                assert(2 * (j as int) + 1 < self.span@.len());
            }
            let b = Block { l: self.span[2 * j], r: self.span[2 * j + 1] };
            let k = key_segment(self.key_span.as_slice(), self.start + j);
            out.push(t.apply(b, k));
            j = j + 1;
        }
        proof {
            assert_seqs_equal!(out@ == spec_span_work(self.span@, self.key_span@,
                self.start as int, *t));
        }
        Payload(self.idx, out)
    }
}

/// The fully sequential independent-block path: every block of the
/// message transformed under the key byte of its absolute position.
pub fn sequential_ecb<T: BlockTransform>(msg: &Vec<u64>, ks: &[u8], t: &T) -> (r: Vec<Block<u64>>)
    requires
        msg@.len() % 2 == 0,
        ks@.len() > 0,
    ensures
        r@ == spec_seq_ecb(msg@, ks@, *t),
{
    proof {
        vstd::arithmetic::div_mod::lemma_fundamental_div_mod(msg@.len() as int, 2);
    }
    let ml: usize = msg.len();
    let nb: usize = ml / 2;
    let mut out: Vec<Block<u64>> = Vec::new();
    let mut j: usize = 0;
    while j < nb
        invariant
            msg@.len() % 2 == 0,
            msg@.len() <= usize::MAX,
            2 * (nb as int) == msg@.len(),
            j <= nb,
            ks@.len() > 0,
            out@.len() == j,
            forall|q: int|
                0 <= q < j ==> out@[q] == t.spec_apply(
                    Block { l: msg@[2 * q], r: msg@[2 * q + 1] },
                    spec_key_segment(ks@, q),
                ),
        decreases nb - j,
    {
        proof {
            assert(2 * (j as int) + 1 < msg@.len());
        }
        let b = Block { l: msg[2 * j], r: msg[2 * j + 1] };
        let k = key_segment(ks, j);
        out.push(t.apply(b, k));
        j = j + 1;
    }
    proof {
        assert_seqs_equal!(out@ == spec_seq_ecb(msg@, ks@, *t));
    }
    out
}

/// Whether some payload carries span index `k`.
pub open spec fn spec_has_idx(ps: Seq<Payload>, k: int) -> bool {
    exists|i: int| 0 <= i < ps.len() && (#[trigger] ps[i].0) == k
}

/// Whether the payloads are exactly one report per span: `n` of them,
/// every index in range, no index twice, every index present.
pub open spec fn spec_complete(ps: Seq<Payload>, n: int) -> bool {
    &&& ps.len() == n
    &&& forall|i: int| 0 <= i < ps.len() ==> (#[trigger] ps[i].0) < n
    &&& forall|i: int, j: int|
        0 <= i < j < ps.len() ==> (#[trigger] ps[i].0) != (#[trigger] ps[j].0)
    &&& forall|k: int| 0 <= k < n ==> spec_has_idx(ps, k)
}

/// The payload contents indexed by span number: slot `k` holds the
/// blocks of the payload tagged `k`, wherever it arrived in the input.
pub open spec fn spec_gather(ps: Seq<Payload>, n: int) -> Seq<Seq<Block<u64>>> {
    Seq::new(
        n as nat,
        |k: int| ps[choose|i: int| 0 <= i < ps.len() && (#[trigger] ps[i].0) == k].1@,
    )
}

/// All slots concatenated in span order.
pub open spec fn spec_concat_all(s: Seq<Seq<Block<u64>>>) -> Seq<Block<u64>>
    decreases s.len(),
{
    if s.len() == 0 {
        Seq::empty()
    } else {
        s[0] + spec_concat_all(s.skip(1))
    }
}

/// Appending one slot appends its blocks.
pub proof fn lemma_concat_all_snoc(s: Seq<Seq<Block<u64>>>, x: Seq<Block<u64>>)
    ensures
        spec_concat_all(s.push(x)) == spec_concat_all(s) + x,
    decreases s.len(),
{
    if s.len() == 0 {
        assert(s.push(x).skip(1) =~= Seq::<Seq<Block<u64>>>::empty());
        assert(s.push(x)[0] == x);
        assert(spec_concat_all(s.push(x)) == s.push(x)[0] + spec_concat_all(s.push(x).skip(1)));
        assert_seqs_equal!(spec_concat_all(s.push(x)) == spec_concat_all(s) + x);
    } else {
        assert(s.push(x).skip(1) =~= s.skip(1).push(x));
        assert(s.push(x)[0] == s[0]);
        assert(spec_concat_all(s.push(x)) == s.push(x)[0] + spec_concat_all(s.push(x).skip(1)));
        lemma_concat_all_snoc(s.skip(1), x);
        assert_seqs_equal!(spec_concat_all(s.push(x)) == spec_concat_all(s) + x);
    }
}

/// Reassembly is arrival-order independent: whenever the payloads are
/// complete and each carries the blocks expected for its span index, the
/// gathered table is exactly the expected table, whatever order the
/// payloads stand in.
pub proof fn lemma_gather_expected(ps: Seq<Payload>, n: int, expected: Seq<Seq<Block<u64>>>)
    requires
        spec_complete(ps, n),
        expected.len() == n,
        forall|i: int| 0 <= i < ps.len() ==> (#[trigger] ps[i].1)@ == expected[ps[i].0 as int],
    ensures
        spec_gather(ps, n) == expected,
{
    assert forall|k: int| 0 <= k < n implies spec_gather(ps, n)[k] == expected[k] by {
        assert(spec_has_idx(ps, k));
        let i = choose|i: int| 0 <= i < ps.len() && (#[trigger] ps[i].0) == k;
        assert(ps[i].1@ == expected[ps[i].0 as int]);
    }
    assert_seqs_equal!(spec_gather(ps, n) == expected);
}

/// Index the tagged results by span number and concatenate them in span
/// order.  No partial result is returned: the reassembly succeeds
/// exactly when every span reported once, and any missing, duplicated or
/// out-of-range report is a `WorkerFailure`.
pub fn reassemble(payloads: Vec<Payload>, n_spans: usize) -> (r: Result<
    Vec<Block<u64>>,
    CipherError,
>)
    ensures
        r is Ok <==> spec_complete(payloads@, n_spans as int),
        r is Ok ==> r->Ok_0@ == spec_concat_all(spec_gather(payloads@, n_spans as int)),
        r is Err ==> r->Err_0 is WorkerFailure,
{
    let ghost gps = payloads@;
    let ghost n = n_spans as int;
    if payloads.len() != n_spans {
        return Err(CipherError::WorkerFailure(msg_worker_failure()));
    }
    let mut i: usize = 0;
    while i < payloads.len()
        invariant
            gps == payloads@,
            n == n_spans as int,
            i <= gps.len(),
            forall|q: int| 0 <= q < i ==> (#[trigger] gps[q].0) < n,
        decreases gps.len() - i,
    {
        let p0: usize = payloads[i].0;
        proof {
            assert(gps[i as int].0 == p0 as int);
        }
        if p0 >= n_spans {
            return Err(CipherError::WorkerFailure(msg_worker_failure()));
        }
        i = i + 1;
    }
    let mut a: usize = 0;
    while a < payloads.len()
        invariant
            gps == payloads@,
            a <= gps.len(),
            forall|q1: int, q2: int|
                0 <= q1 < q2 < gps.len() && q1 < a ==> (#[trigger] gps[q1].0) != (
                #[trigger] gps[q2].0),
        decreases gps.len() - a,
    {
        let mut b: usize = a + 1;
        while b < payloads.len()
            invariant
                gps == payloads@,
                a < b <= gps.len() || (a + 1 > gps.len() && b == a + 1),
                a < gps.len(),
                forall|q2: int| a < q2 < b ==> (#[trigger] gps[q2].0) != gps[a as int].0,
            decreases gps.len() - b,
        {
            if payloads[a].0 == payloads[b].0 {
                return Err(CipherError::WorkerFailure(msg_worker_failure()));
            }
            b = b + 1;
        }
        a = a + 1;
    }
    let mut out: Vec<Block<u64>> = Vec::new();
    let mut k: usize = 0;
    let ghost gather = spec_gather(gps, n);
    proof {
        assert(gather.skip(0) =~= gather);
        assert_seqs_equal!(spec_concat_all(gather) == out@ + spec_concat_all(gather.skip(0)));
    }
    while k < n_spans
        invariant
            gps == payloads@,
            n == n_spans as int,
            gps.len() == n,
            gather == spec_gather(gps, n),
            forall|q: int| 0 <= q < gps.len() ==> (#[trigger] gps[q].0) < n,
            forall|q1: int, q2: int|
                0 <= q1 < q2 < gps.len() ==> (#[trigger] gps[q1].0) != (#[trigger] gps[q2].0),
            k <= n_spans,
            forall|q: int| 0 <= q < k ==> spec_has_idx(gps, q),
            spec_concat_all(gather) == out@ + spec_concat_all(gather.skip(k as int)),
        decreases n_spans - k,
    {
        let mut fi: usize = 0;
        let mut found: bool = false;
        let mut s: usize = 0;
        while s < payloads.len()
            invariant
                gps == payloads@,
                n == n_spans as int,
                k < n_spans,
                s <= gps.len(),
                found ==> fi < gps.len() && gps[fi as int].0 == k as int,
                !found ==> forall|q: int| 0 <= q < s ==> (#[trigger] gps[q].0) != k as int,
            decreases gps.len() - s,
        {
            if !found && payloads[s].0 == k {
                found = true;
                fi = s;
            }
            s = s + 1;
        }
        if !found {
            proof {
                assert(!spec_has_idx(gps, k as int));
            }
            return Err(CipherError::WorkerFailure(msg_worker_failure()));
        }
        proof {
            let ci = choose|i: int| 0 <= i < gps.len() && (#[trigger] gps[i].0) == k as int;
            assert(gps[ci].0 == k as int && gps[fi as int].0 == k as int);
            assert(ci == fi as int);
            assert(gather[k as int] == gps[fi as int].1@);
            let rest = gather.skip(k as int);
            assert(rest[0] == gather[k as int]);
            assert(rest.skip(1) =~= gather.skip(k as int + 1));
            assert(spec_concat_all(rest) == rest[0] + spec_concat_all(rest.skip(1)));
        }
        let ghost out0 = out@;
        let src_len: usize = payloads[fi].1.len();
        let mut q: usize = 0;
        while q < src_len
            invariant
                gps == payloads@,
                fi < gps.len(),
                src_len == gps[fi as int].1@.len(),
                q <= src_len,
                out@ == out0 + gps[fi as int].1@.take(q as int),
            decreases src_len - q,
        {
            let item: Block<u64> = payloads[fi].1[q];
            out.push(item);
            q = q + 1;
            proof {
                assert_seqs_equal!(out@ == out0 + gps[fi as int].1@.take(q as int));
            }
        }
        proof {
            assert(gps[fi as int].1@.take(src_len as int) =~= gps[fi as int].1@);
            assert_seqs_equal!(spec_concat_all(gather) == out@
                + spec_concat_all(gather.skip(k as int + 1)));
        }
        k = k + 1;
    }
    proof {
        assert(gather.skip(n) =~= Seq::<Seq<Block<u64>>>::empty());
        assert_seqs_equal!(out@ == spec_concat_all(gather));
        assert(spec_complete(gps, n));
    }
    Ok(out)
}

/// The slot contents the spans of a run produce, in order.
pub open spec fn spec_payload_contents(ps: Seq<Payload>) -> Seq<Seq<Block<u64>>> {
    Seq::new(ps.len(), |i: int| ps[i].1@)
}

/// Partition the message into spans of up to `span_size` blocks, work
/// each span, and reassemble the tagged results.  The result is
/// byte-identical to the fully sequential path, whatever span size is
/// chosen: the round key of a block depends only on its absolute
/// position in the whole message.
pub fn run_spans<T: BlockTransform>(msg: Vec<u64>, ks: &[u8], t: &T, span_size: usize) -> (r:
    Result<Vec<Block<u64>>, CipherError>)
    requires
        msg@.len() % 2 == 0,
        ks@.len() > 0,
        span_size > 0,
        span_size <= usize::MAX / 2,
    ensures
        r is Ok,
        r->Ok_0@ == spec_seq_ecb(msg@, ks@, *t),
{
    let ghost orig = msg@;
    let mut msg = msg;
    let total: usize = msg.len();
    let mut payloads: Vec<Payload> = Vec::new();
    let mut idx: usize = 0;
    let mut start: usize = 0;
    proof {
        assert(orig.skip(0) =~= orig);
        assert(spec_payload_contents(payloads@) =~= Seq::<Seq<Block<u64>>>::empty());
        assert_seqs_equal!(spec_seq_ecb(orig, ks@, *t)
            == spec_concat_all(spec_payload_contents(payloads@))
                + spec_span_work(msg@, ks@, start as int, *t));
    }
    while msg.len() > 0
        invariant
            msg@.len() % 2 == 0,
            orig.len() % 2 == 0,
            ks@.len() > 0,
            span_size > 0,
            span_size <= usize::MAX / 2,
            orig.len() <= usize::MAX,
            2 * (start as int) + msg@.len() == orig.len(),
            idx as int <= start as int || (idx == 0 && start == 0),
            payloads@.len() == idx,
            forall|q: int| 0 <= q < idx ==> (#[trigger] payloads@[q].0) == q,
            spec_seq_ecb(orig, ks@, *t) == spec_concat_all(spec_payload_contents(payloads@))
                + spec_span_work(msg@, ks@, start as int, *t),
        decreases msg@.len(),
    {
        let ghost before = msg@;
        let ghost c = spec_consumed(before.len() as int, span_size as int);
        let bs = BlockSpan::consume(idx, span_size, start, &mut msg, ks);
        proof {
            assert(c >= 2);
            vstd::arithmetic::div_mod::lemma_fundamental_div_mod(bs.span@.len() as int, 2);
            assert(bs.span@.len() == c);
            assert(2 * ((start as int) + c / 2) <= orig.len());
            assert((start as int) + c / 2 <= usize::MAX);
        }
        let p = bs.do_work(t);
        let nb: usize = bs.span.len() / 2;
        proof {
            assert(nb as int == c / 2);
            assert(nb >= 1);
        }
        proof {
            lemma_span_split(before, ks@, start as int, c, *t);
            assert(bs.span@ == before.take(c));
            assert(msg@ == before.skip(c));
            assert(p.1@ == spec_span_work(before.take(c), ks@, start as int, *t));
            lemma_concat_all_snoc(spec_payload_contents(payloads@), p.1@);
        }
        let ghost old_payloads = payloads@;
        payloads.push(p);
        proof {
            assert(spec_payload_contents(payloads@) =~= spec_payload_contents(old_payloads).push(
                payloads@[old_payloads.len() as int].1@,
            ));
            assert_seqs_equal!(spec_seq_ecb(orig, ks@, *t)
                == spec_concat_all(spec_payload_contents(payloads@))
                    + spec_span_work(msg@, ks@, (start + nb) as int, *t));
        }
        idx = idx + 1;
        start = start + nb;
    }
    proof {
        assert(spec_span_work(msg@, ks@, start as int, *t) =~= Seq::<Block<u64>>::empty());
        assert_seqs_equal!(spec_seq_ecb(orig, ks@, *t)
            == spec_concat_all(spec_payload_contents(payloads@)));
    }
    let ghost gps = payloads@;
    let n: usize = idx;
    proof {
        assert forall|k: int| 0 <= k < n as int implies spec_has_idx(gps, k) by {
            assert(gps[k].0 == k);
        }
        assert(spec_complete(gps, n as int));
        lemma_gather_expected(gps, n as int, spec_payload_contents(gps));
    }
    reassemble(payloads, n)
}

} // verus!
