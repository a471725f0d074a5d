//! A frozen, byte-oriented mixing function: every validator derives the same
//! pseudo-random value from the same bytes.
use vstd::prelude::*;

verus! {

/// FNV-1a 64-bit offset basis.
pub const FNV_OFFSET: u64 = 0xcbf29ce484222325;

/// FNV-1a 64-bit prime.
pub const FNV_PRIME: u64 = 0x100000001b3;

/// Multiplication modulo 2^64.
pub open spec fn mul64(x: u64, y: u64) -> u64 {
    ((x as nat * y as nat) % 0x1_0000_0000_0000_0000nat) as u64
}

/// One FNV-1a step: fold a byte into the running hash.
pub open spec fn fnv_step(h: u64, b: u8) -> u64 {
    mul64(h ^ (b as u64), FNV_PRIME)
}

/// FNV-1a over a byte sequence, folding from the first byte to the last.
pub open spec fn fnv_hash(bytes: Seq<u8>) -> u64
    decreases bytes.len(),
{
    if bytes.len() == 0 {
        FNV_OFFSET
    } else {
        fnv_step(fnv_hash(bytes.drop_last()), bytes.last())
    }
}

/// The 64-bit finaliser of SplitMix64, which spreads every input bit over the output.
pub open spec fn finalize(z: u64) -> u64 {
    let a = mul64(z ^ (z >> 30u64), 0xbf58476d1ce4e5b9u64);
    let b = mul64(a ^ (a >> 27u64), 0x94d049bb133111ebu64);
    b ^ (b >> 31u64)
}

/// The value derived from a byte string.
pub open spec fn mix_spec(bytes: Seq<u8>) -> u64 {
    finalize(fnv_hash(bytes))
}

/// The little-endian encoding of a 64-bit value.
pub open spec fn le_bytes(x: u64) -> Seq<u8> {
    Seq::new(8, |i: int| ((x >> (8 * i) as u64) & 0xffu64) as u8)
}

/// The value that selection draws for a round: the mix of the round's
/// little-endian bytes.
pub open spec fn round_value(round: u64) -> u64 {
    mix_spec(le_bytes(round))
}

/// Mixes a byte string into a 64-bit value.
pub fn mix_bytes(bytes: &Vec<u8>) -> (r: u64)
    ensures
        r == mix_spec(bytes@),
{
    let mut h: u64 = FNV_OFFSET;
    let mut i: usize = 0;
    while i < bytes.len()
        invariant
            0 <= i <= bytes.len(),
            h == fnv_hash(bytes@.take(i as int)),
        decreases bytes.len() - i,
    {
        assert(bytes@.take(i as int + 1).drop_last() =~= bytes@.take(i as int));
        h = (h ^ (bytes[i] as u64)).wrapping_mul(FNV_PRIME);
        i = i + 1;
    }
    assert(bytes@.take(bytes.len() as int) =~= bytes@);
    let a = (h ^ (h >> 30u64)).wrapping_mul(0xbf58476d1ce4e5b9u64);
    let b = (a ^ (a >> 27u64)).wrapping_mul(0x94d049bb133111ebu64);
    b ^ (b >> 31u64)
}

/// The little-endian bytes of `x`.
pub fn to_le_bytes(x: u64) -> (r: Vec<u8>)
    ensures
        r@ == le_bytes(x),
{
    let mut r: Vec<u8> = Vec::new();
    let mut i: u64 = 0;
    while i < 8
        invariant
            0 <= i <= 8,
            r@ =~= le_bytes(x).take(i as int),
        decreases 8 - i,
    {
        let s: u64 = 8 * i;
        let byte = (x >> s) & 0xffu64;
        assert(byte <= 0xff) by (bit_vector)
            requires
                byte == (x >> s) & 0xffu64,
        ;
        r.push(byte as u8);
        i = i + 1;
    }
    r
}

/// Draws the next value from `state` and replaces `state` with the bytes of
/// that value, so that repeated calls walk a fixed sequence.
pub fn next(state: &mut Vec<u8>) -> (r: u64)
    ensures
        r == mix_spec(old(state)@),
        final(state)@ == le_bytes(r),
{
    let r = mix_bytes(state);
    *state = to_le_bytes(r);
    r
}

/// The value that selection draws for `round`.
pub fn round_seed(round: u64) -> (r: u64)
    ensures
        r == round_value(round),
{
    let mut state = to_le_bytes(round);
    next(&mut state)
}

} // verus!
