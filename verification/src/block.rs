//! The cipher block: a pair of equal-width unsigned registers.
use vstd::bytes::*;
use vstd::prelude::*;

verus! {

/// One cipher block: two registers of the same width, processed together
/// by one round of the cipher.
#[derive(Copy, Clone, PartialEq, Eq, Structural, Debug)]
pub struct Block<T> {
    pub l: T,
    pub r: T,
}

impl Block<u32> {
    /// The little-endian wire representation: the bytes of `l`, then the
    /// bytes of `r`.
    pub open spec fn spec_bytes(self) -> Seq<u8> {
        spec_u32_to_le_bytes(self.l) + spec_u32_to_le_bytes(self.r)
    }

    /// Both registers concatenated into one double-width register,
    /// `l` in the high half.
    pub open spec fn spec_full(self) -> u64 {
        ((self.l as u64) << 32) | (self.r as u64)
    }

    /// XOR of the full register with `x`, re-split into the two halves.
    pub open spec fn spec_xor(self, x: u64) -> Block<u32> {
        Block { l: self.l ^ ((x >> 32) as u32), r: self.r ^ (x as u32) }
    }

    /// Serialize the block: little-endian bytes of `l`, then of `r`.
    pub fn to_bytes(&self) -> (v: Vec<u8>)
        ensures
            v@ == self.spec_bytes(),
            v@.len() == 8,
    {
        proof {
            lemma_auto_spec_u32_to_from_le_bytes();
        }
        let mut v: Vec<u8> = u32_to_le_bytes(self.l);
        let mut rb: Vec<u8> = u32_to_le_bytes(self.r);
        v.append(&mut rb);
        proof {
            assert(v@ == self.spec_bytes());
        }
        v
    }

    /// Concatenation of `l` then `r` into a single 64-bit register.
    pub fn full_block(&self) -> (p: u64)
        ensures
            p == self.spec_full(),
    {
        let l = self.l as u64;
        let r = self.r as u64;
        (l << 32) | r
    }

    /// XOR the full register with `xor_with`, then re-split it into `l`
    /// and `r`.  Used for chaining in CBC mode.
    pub fn cbc_mode_xor(&mut self, xor_with: u64)
        ensures
            *final(self) == old(self).spec_xor(xor_with),
    {
        let l = self.l as u64;
        let r = self.r as u64;
        let p = ((l << 32) | r) ^ xor_with;
        let nl = ((p & (0xffff_ffff_0000_0000u64)) >> 32) as u32;
        let nr = (p & 0xffff_ffffu64) as u32;
        proof {
            let l0 = old(self).l;
            let r0 = old(self).r;
            assert((((((l0 as u64) << 32) | (r0 as u64)) ^ xor_with) & 0xffff_ffff_0000_0000u64)
                >> 32 == (l0 ^ ((xor_with >> 32) as u32)) as u64) by (bit_vector);
            assert(((((l0 as u64) << 32) | (r0 as u64)) ^ xor_with) & 0xffff_ffffu64 == (r0 ^ (
            xor_with as u32)) as u64) by (bit_vector);
        }
        self.l = nl;
        self.r = nr;
    }
}

impl Block<u64> {
    /// The little-endian wire representation: the bytes of `l`, then the
    /// bytes of `r`.
    pub open spec fn spec_bytes64(self) -> Seq<u8> {
        spec_u64_to_le_bytes(self.l) + spec_u64_to_le_bytes(self.r)
    }

    /// Serialize the block: little-endian bytes of `l`, then of `r`.
    pub fn to_bytes(&self) -> (v: Vec<u8>)
        ensures
            v@ == self.spec_bytes64(),
            v@.len() == 16,
    {
        proof {
            lemma_auto_spec_u64_to_from_le_bytes();
        }
        let mut v: Vec<u8> = u64_to_le_bytes(self.l);
        let mut rb: Vec<u8> = u64_to_le_bytes(self.r);
        v.append(&mut rb);
        proof {
            assert(v@ == self.spec_bytes64());
        }
        v
    }
}

/// Joining a block into its full register and splitting it again by a
/// double XOR returns the original block; and the full register of an
/// XOR-merged block is the XOR of the registers.
pub proof fn lemma_xor_facts(b: Block<u32>, x: u64)
    ensures
        b.spec_xor(x).spec_xor(x) == b,
        b.spec_xor(x).spec_full() == b.spec_full() ^ x,
        b.spec_xor(b.spec_full() ^ x).spec_full() == x,
{
    let l = b.l;
    let r = b.r;
    assert(l ^ ((x >> 32) as u32) ^ ((x >> 32) as u32) == l) by (bit_vector);
    assert(r ^ (x as u32) ^ (x as u32) == r) by (bit_vector);
    assert((((l ^ ((x >> 32) as u32)) as u64) << 32) | ((r ^ (x as u32)) as u64) == (((l as u64)
        << 32) | (r as u64)) ^ x) by (bit_vector);
    let f = (((l as u64) << 32) | (r as u64)) ^ x;
    assert((((l ^ ((f >> 32) as u32)) as u64) << 32) | ((r ^ (f as u32)) as u64) == (((l as u64)
        << 32) | (r as u64)) ^ f) by (bit_vector);
    assert((((l as u64) << 32) | (r as u64)) ^ ((((l as u64) << 32) | (r as u64)) ^ x) == x)
        by (bit_vector);
}

/// Two blocks with distinct full registers are distinct, and conversely.
pub proof fn lemma_full_injective(a: Block<u32>, b: Block<u32>)
    ensures
        (a.spec_full() == b.spec_full()) <==> (a == b),
{
    let (al, ar, bl, br) = (a.l, a.r, b.l, b.r);
    assert(((((al as u64) << 32) | (ar as u64)) == (((bl as u64) << 32) | (br as u64))) <==> (al
        == bl && ar == br)) by (bit_vector);
}

} // verus!
