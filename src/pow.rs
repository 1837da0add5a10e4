//! The hash/difficulty primitive: the bytes a header commits to, the 128-bit
//! digest built from two seeded rapidhash rounds, and its leading zero bits.
use vstd::prelude::*;
use vstd::std_specs::bits::u64_leading_zeros;

verus! {

/// 2^64, the weight of the high half of a 128-bit digest.
pub const HALF: u128 = 0x1_0000_0000_0000_0000;

/// What `rapidhash::RapidHasher` returns after being seeded with `seed` and
/// fed `data` in one write.
pub uninterp spec fn rapidhash_of(seed: u64, data: Seq<u8>) -> u64;

/// Relies on `rapidhash::RapidHasher::{new, write_const, finish_const}`: a
/// deterministic function of the seed and the bytes written.
#[verifier::external_body]
pub(crate) fn rapidhash_seeded(seed: u64, data: &[u8]) -> (r: u64)
    ensures
        r == rapidhash_of(seed, data@),
{
    rapidhash::RapidHasher::new(seed).write_const(data).finish_const()
}

/// `x` shifted right by `k` whole bytes.
pub open spec fn shr_bytes(x: nat, k: nat) -> nat
    decreases k,
{
    if k == 0 {
        x
    } else {
        shr_bytes(x, (k - 1) as nat) / 256
    }
}

/// The `n` low bytes of `x`, least significant first.
pub open spec fn le_bytes(x: nat, n: nat) -> Seq<u8> {
    Seq::new(n, |j: int| (shr_bytes(x, j as nat) % 256) as u8)
}

/// Appends the `n` low bytes of `x` to `data`, least significant first.
pub fn push_le(data: &mut Vec<u8>, x: u128, n: usize)
    ensures
        final(data)@ == old(data)@ + le_bytes(x as nat, n as nat),
{
    let mut y: u128 = x;
    let mut i: usize = 0;
    while i < n
        invariant
            i <= n,
            y as nat == shr_bytes(x as nat, i as nat),
            data@ == old(data)@ + le_bytes(x as nat, i as nat),
        decreases n - i,
    {
        data.push((y % 256) as u8);
        proof {
            assert(le_bytes(x as nat, (i + 1) as nat) =~= le_bytes(x as nat, i as nat).push(
                (y % 256) as u8,
            ));
        }
        y = y / 256;
        i = i + 1;
    }
}

/// The fields of a block header.
#[derive(Clone, Copy, Debug, PartialEq, Eq, Structural)]
pub struct BlockHeader {
    pub version: u32,
    pub prev_hash: u128,
    pub merkle_root: u128,
    pub timestamp: u64,
    pub difficulty: u32,
    pub height: u64,
}

/// The bytes the digest is taken over: version, previous hash, merkle root,
/// timestamp and nonce, each little-endian at its fixed width.
pub open spec fn pow_input(h: BlockHeader, nonce: u64) -> Seq<u8> {
    le_bytes(h.version as nat, 4) + le_bytes(h.prev_hash as nat, 16) + le_bytes(
        h.merkle_root as nat,
        16,
    ) + le_bytes(h.timestamp as nat, 8) + le_bytes(nonce as nat, 8)
}

/// The low half of the digest: rapidhash with seed 0 over the header bytes.
pub open spec fn digest_low(h: BlockHeader, nonce: u64) -> u64 {
    rapidhash_of(0, pow_input(h, nonce))
}

/// The high half: rapidhash seeded with the low half, over its 8 bytes.
pub open spec fn digest_high(h: BlockHeader, nonce: u64) -> u64 {
    let lo = digest_low(h, nonce);
    rapidhash_of(lo, le_bytes(lo as nat, 8))
}

/// The 128-bit digest `(high << 64) | low`.
pub open spec fn digest(h: BlockHeader, nonce: u64) -> u128 {
    (digest_high(h, nonce) * HALF + digest_low(h, nonce)) as u128
}

/// Number of most significant zero bits of a 128-bit value.
pub open spec fn leading_zero_bits(v: u128) -> int {
    let hi = (v / HALF) as u64;
    let lo = (v % HALF) as u64;
    if hi != 0 {
        u64_leading_zeros(hi)
    } else {
        64 + u64_leading_zeros(lo)
    }
}

/// The proof-of-work predicate: at least `difficulty` leading zero bits.
pub open spec fn meets_difficulty(v: u128, difficulty: u32) -> bool {
    leading_zero_bits(v) >= difficulty
}

/// Leading zero bits of `v`.
pub fn leading_zeros_u128(v: u128) -> (r: u32)
    ensures
        r as int == leading_zero_bits(v),
{
    let hi = (v / HALF) as u64;
    let lo = (v % HALF) as u64;
    if hi != 0 {
        hi.leading_zeros()
    } else {
        proof {
            vstd::std_specs::bits::axiom_u64_leading_zeros(lo);
        }
        64 + lo.leading_zeros()
    }
}

/// Whether `v` satisfies the proof-of-work predicate at `difficulty`.
pub fn check_difficulty(v: u128, difficulty: u32) -> (r: bool)
    ensures
        r == meets_difficulty(v, difficulty),
{
    leading_zeros_u128(v) >= difficulty
}

/// The bytes the digest of `header` with `nonce` is taken over.
pub fn header_bytes(header: &BlockHeader, nonce: u64) -> (r: Vec<u8>)
    ensures
        r@ == pow_input(*header, nonce),
{
    let mut data: Vec<u8> = Vec::new();
    push_le(&mut data, header.version as u128, 4);
    push_le(&mut data, header.prev_hash, 16);
    push_le(&mut data, header.merkle_root, 16);
    push_le(&mut data, header.timestamp as u128, 8);
    push_le(&mut data, nonce as u128, 8);
    proof {
        assert(data@ =~= pow_input(*header, nonce));
    }
    data
}

/// Recomputes the 128-bit digest of `header` with `nonce`.
pub fn block_digest(header: &BlockHeader, nonce: u64) -> (r: u128)
    ensures
        r == digest(*header, nonce),
{
    let data = header_bytes(header, nonce);
    let lo = rapidhash_seeded(0, data.as_slice());
    let mut lo_bytes: Vec<u8> = Vec::new();
    push_le(&mut lo_bytes, lo as u128, 8);
    proof {
        assert(lo_bytes@ =~= le_bytes(lo as nat, 8));
    }
    let hi = rapidhash_seeded(lo, lo_bytes.as_slice());
    assert((hi as u128) * HALF + (lo as u128) <= u128::MAX) by (nonlinear_arith)
        requires
            hi <= u64::MAX,
            lo <= u64::MAX,
    ;
    (hi as u128) * HALF + (lo as u128)
}

} // verus!
