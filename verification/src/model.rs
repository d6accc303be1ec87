//! Mathematical model of the xxHash64 algorithm.
//!
//! Every function here is specification-only.  The digest of a byte sequence
//! is [`xxh64`]; the executable code in [`crate::hasher`] is verified against
//! these definitions.  All arithmetic is modulo 2^64 and all multi-byte words
//! are read little-endian, as the algorithm demands.

use vstd::bytes::spec_u32_from_le_bytes;
use vstd::bytes::spec_u64_from_le_bytes;
use vstd::prelude::*;
use vstd::wrapping::u64_specs;

verus! {

/// First multiplicative prime constant of xxHash64.
pub const PRIME1: u64 = 11400714785074694791;

/// Second multiplicative prime constant of xxHash64.
pub const PRIME2: u64 = 14029467366897019727;

/// Third multiplicative prime constant of xxHash64.
pub const PRIME3: u64 = 1609587929392839161;

/// Fourth (additive) prime constant of xxHash64.
pub const PRIME4: u64 = 9650029242287828579;

/// Fifth prime constant of xxHash64, folded into short digests.
pub const PRIME5: u64 = 2870177450012600261;

/// Seed used when the caller does not supply one: an arbitrary odd
/// constant, chosen only so that the unseeded hasher is not the seed-zero one.
pub const HAPPY_SEED: u64 = 18446744073709551557;

/// Addition modulo 2^64.
pub open spec fn w_add(a: u64, b: u64) -> u64 {
    u64_specs::wrapping_add(a, b)
}

/// Subtraction modulo 2^64.
pub open spec fn w_sub(a: u64, b: u64) -> u64 {
    u64_specs::wrapping_sub(a, b)
}

/// Multiplication modulo 2^64.
pub open spec fn w_mul(a: u64, b: u64) -> u64 {
    u64_specs::wrapping_mul(a, b)
}

/// Rotation of a 64-bit word left by `s` bits.
pub open spec fn w_rotl(x: u64, s: u64) -> u64
    recommends
        0 < s < 64,
{
    (x << s) | (x >> ((64 - s) as u64))
}

/// A sequence length reduced modulo 2^64, as the 64-bit byte counter holds it.
pub open spec fn wrapped_len(n: nat) -> u64 {
    (n % 0x1_0000_0000_0000_0000) as u64
}

/// The little-endian 64-bit word starting at byte offset `off` of `b`.
pub open spec fn word64_at(b: Seq<u8>, off: int) -> u64
    recommends
        0 <= off,
        off + 8 <= b.len(),
{
    spec_u64_from_le_bytes(b.subrange(off, off + 8))
}

/// The little-endian 32-bit word starting at byte offset `off` of `b`.
pub open spec fn word32_at(b: Seq<u8>, off: int) -> u32
    recommends
        0 <= off,
        off + 4 <= b.len(),
{
    spec_u32_from_le_bytes(b.subrange(off, off + 4))
}

/// The four independent 64-bit accumulator lanes.
pub struct Lanes {
    pub v1: u64,
    pub v2: u64,
    pub v3: u64,
    pub v4: u64,
}

/// Lane values fixed by the seed before any stripe has been consumed.
pub open spec fn init_lanes(seed: u64) -> Lanes {
    Lanes {
        v1: w_add(w_add(seed, PRIME1), PRIME2),
        v2: w_add(seed, PRIME2),
        v3: seed,
        v4: w_sub(seed, PRIME1),
    }
}

/// One lane update: fold an 8-byte word `w` into the lane value `v`.
pub open spec fn lane_step(v: u64, w: u64) -> u64 {
    w_mul(w_rotl(w_add(v, w_mul(w, PRIME2)), 31), PRIME1)
}

/// Consume the 32-byte stripe of `b` starting at `off`: each lane folds in
/// its own 8-byte word, independently of the other lanes.
pub open spec fn eat_stripe(l: Lanes, b: Seq<u8>, off: int) -> Lanes
    recommends
        0 <= off,
        off + 32 <= b.len(),
{
    Lanes {
        v1: lane_step(l.v1, word64_at(b, off)),
        v2: lane_step(l.v2, word64_at(b, off + 8)),
        v3: lane_step(l.v3, word64_at(b, off + 16)),
        v4: lane_step(l.v4, word64_at(b, off + 24)),
    }
}

/// Lane values after the first `n` stripes of `b` have been consumed.
pub open spec fn lanes_after(seed: u64, b: Seq<u8>, n: nat) -> Lanes
    recommends
        32 * n <= b.len(),
    decreases n,
{
    if n == 0 {
        init_lanes(seed)
    } else {
        let m: nat = (n - 1) as nat;
        eat_stripe(lanes_after(seed, b, m), b, 32 * m as int)
    }
}

/// Fold one lane value into the merged accumulator during finalization.
/// This step exists only in the 64-bit variant of the algorithm.
pub open spec fn merge_lane(h: u64, v: u64) -> u64 {
    w_add(w_mul(h ^ w_mul(w_rotl(w_mul(v, PRIME2), 31), PRIME1), PRIME1), PRIME4)
}

/// Merge the four lanes into a single 64-bit accumulator.
pub open spec fn merged_lanes(l: Lanes) -> u64 {
    let h: u64 = w_add(
        w_add(w_add(w_rotl(l.v1, 1), w_rotl(l.v2, 7)), w_rotl(l.v3, 12)),
        w_rotl(l.v4, 18),
    );
    merge_lane(merge_lane(merge_lane(merge_lane(h, l.v1), l.v2), l.v3), l.v4)
}

/// Tail finalization round over one 8-byte word.
pub open spec fn tail_round8(h: u64, k: u64) -> u64 {
    let k1: u64 = w_mul(w_rotl(w_mul(k, PRIME2), 31), PRIME1);
    w_add(w_mul(w_rotl(h ^ k1, 27), PRIME1), PRIME4)
}

/// Tail finalization round over one 4-byte word.
pub open spec fn tail_round4(h: u64, k: u32) -> u64 {
    w_add(w_mul(w_rotl(h ^ w_mul(k as u64, PRIME1), 23), PRIME2), PRIME3)
}

/// Tail finalization round over one byte.
pub open spec fn tail_round1(h: u64, b: u8) -> u64 {
    w_mul(w_rotl(h ^ w_mul(b as u64, PRIME5), 11), PRIME1)
}

/// Fold the tail bytes `t` (the bytes after the last full stripe) into the
/// accumulator `h`: whole 8-byte words first, then at most one 4-byte word,
/// then the remaining bytes one at a time.
pub open spec fn tail_mix(h: u64, t: Seq<u8>) -> u64
    decreases t.len(),
{
    if t.len() >= 8 {
        tail_mix(tail_round8(h, word64_at(t, 0)), t.skip(8))
    } else if t.len() >= 4 {
        tail_mix(tail_round4(h, word32_at(t, 0)), t.skip(4))
    } else if t.len() >= 1 {
        tail_mix(tail_round1(h, t[0]), t.skip(1))
    } else {
        h
    }
}

/// One 8-byte round of tail processing, seen from offset `off` of `t`.
pub proof fn lemma_tail_step8(h: u64, t: Seq<u8>, off: int)
    requires
        0 <= off,
        off + 8 <= t.len(),
    ensures
        tail_mix(h, t.skip(off)) == tail_mix(tail_round8(h, word64_at(t, off)), t.skip(off + 8)),
{
    lemma_word_cover(t.skip(off), t, 0, off);
    assert(t.skip(off).skip(8) =~= t.skip(off + 8));
}

/// One 4-byte round of tail processing, seen from offset `off` of `t`.
pub proof fn lemma_tail_step4(h: u64, t: Seq<u8>, off: int)
    requires
        0 <= off,
        off + 4 <= t.len(),
        t.len() - off < 8,
    ensures
        tail_mix(h, t.skip(off)) == tail_mix(tail_round4(h, word32_at(t, off)), t.skip(off + 4)),
{
    lemma_word32_cover(t.skip(off), t, 0, off);
    assert(t.skip(off).skip(4) =~= t.skip(off + 4));
}

/// One single-byte round of tail processing, seen from offset `off` of `t`.
pub proof fn lemma_tail_step1(h: u64, t: Seq<u8>, off: int)
    requires
        0 <= off,
        off < t.len(),
        t.len() - off < 4,
    ensures
        tail_mix(h, t.skip(off)) == tail_mix(tail_round1(h, t[off]), t.skip(off + 1)),
{
    assert(t.skip(off)[0] == t[off]);
    assert(t.skip(off).skip(1) =~= t.skip(off + 1));
}

/// The final avalanche: spread every input bit difference across the whole
/// 64-bit digest by alternating xor-with-shifted-self and prime multiplies.
pub open spec fn avalanche(h: u64) -> u64 {
    let h1: u64 = w_mul(h ^ (h >> 33), PRIME2);
    let h2: u64 = w_mul(h1 ^ (h1 >> 29), PRIME3);
    h2 ^ (h2 >> 32)
}

/// The lane values after `n` stripes depend only on the first `32 * n`
/// bytes of the stream: two streams that agree there have equal lanes.
pub proof fn lemma_lanes_after_prefix(seed: u64, b1: Seq<u8>, b2: Seq<u8>, n: nat)
    requires
        32 * n <= b1.len(),
        32 * n <= b2.len(),
        forall|i: int| 0 <= i < 32 * n ==> b1[i] == b2[i],
    ensures
        lanes_after(seed, b1, n) == lanes_after(seed, b2, n),
    decreases n,
{
    if n > 0 {
        let m: nat = (n - 1) as nat;
        lemma_lanes_after_prefix(seed, b1, b2, m);
        let off: int = 32 * (m as int);
        assert(b1.subrange(off, off + 8) =~= b2.subrange(off, off + 8));
        assert(b1.subrange(off + 8, off + 16) =~= b2.subrange(off + 8, off + 16));
        assert(b1.subrange(off + 16, off + 24) =~= b2.subrange(off + 16, off + 24));
        assert(b1.subrange(off + 24, off + 32) =~= b2.subrange(off + 24, off + 32));
    }
}

/// Two sequences that agree on an 8-byte window hold the same word there.
pub proof fn lemma_word_cover(a: Seq<u8>, b: Seq<u8>, offa: int, offb: int)
    requires
        0 <= offa,
        offa + 8 <= a.len(),
        0 <= offb,
        offb + 8 <= b.len(),
        forall|t: int| 0 <= t < 8 ==> a[offa + t] == #[trigger] b[offb + t],
    ensures
        word64_at(a, offa) == word64_at(b, offb),
{
    assert forall|t: int| 0 <= t < 8 implies #[trigger] a.subrange(offa, offa + 8)[t]
        == b.subrange(offb, offb + 8)[t] by {
        assert(a[offa + t] == b[offb + t]);
    }
    assert(a.subrange(offa, offa + 8) =~= b.subrange(offb, offb + 8));
}

/// Two sequences that agree on a 4-byte window hold the same 32-bit word there.
pub proof fn lemma_word32_cover(a: Seq<u8>, b: Seq<u8>, offa: int, offb: int)
    requires
        0 <= offa,
        offa + 4 <= a.len(),
        0 <= offb,
        offb + 4 <= b.len(),
        forall|t: int| 0 <= t < 4 ==> a[offa + t] == #[trigger] b[offb + t],
    ensures
        word32_at(a, offa) == word32_at(b, offb),
{
    assert forall|t: int| 0 <= t < 4 implies #[trigger] a.subrange(offa, offa + 4)[t]
        == b.subrange(offb, offb + 4)[t] by {
        assert(a[offa + t] == b[offb + t]);
    }
    assert(a.subrange(offa, offa + 4) =~= b.subrange(offb, offb + 4));
}

/// When carried-over bytes are topped up to a full stripe by the head of the
/// next chunk, that stripe reads the same words as the whole stream does at
/// the stripe's offset.
pub proof fn lemma_bump_words(old_fed: Seq<u8>, input: Seq<u8>, j: int)
    requires
        0 <= j,
        j + 8 <= 32,
        old_fed.len() % 32 != 0,
        old_fed.len() % 32 + input.len() >= 32,
    ensures
        word64_at(old_fed + input, 32 * ((old_fed.len() / 32) as int) + j) == word64_at(
            old_fed.skip(32 * ((old_fed.len() / 32) as int)) + input.subrange(
                0,
                32 - ((old_fed.len() % 32) as int),
            ),
            j,
        ),
{
    let os: int = (old_fed.len() / 32) as int;
    let bump: int = 32 - ((old_fed.len() % 32) as int);
    let full: Seq<u8> = old_fed.skip(32 * os) + input.subrange(0, bump);
    vstd::arithmetic::div_mod::lemma_fundamental_div_mod(old_fed.len() as int, 32);
    assert forall|t: int| 0 <= t < 8 implies (old_fed + input)[32 * os + j + t] == #[trigger] full[
        j + t
    ] by {
        assert(full.len() == 32);
    }
    lemma_word_cover(old_fed + input, full, 32 * os + j, j);
}

/// One unfolding of [`lanes_after`]: stripe `k` is consumed at offset `32 * k`.
pub proof fn lemma_lanes_after_unfold(seed: u64, b: Seq<u8>, k: nat)
    ensures
        lanes_after(seed, b, k + 1) == eat_stripe(lanes_after(seed, b, k), b, 32 * (k as int)),
{
}

/// Adding `m` bytes to a stream of length `n` moves the wrapped 64-bit byte
/// counter by `m`, whatever the true lengths are.
pub proof fn lemma_wrapped_len_add(n: nat, m: nat)
    requires
        m < 0x1_0000_0000_0000_0000,
    ensures
        w_add(wrapped_len(n), m as u64) == wrapped_len(n + m),
{
    let r: int = 0x1_0000_0000_0000_0000;
    let x: int = (n as int) % r;
    vstd::arithmetic::div_mod::lemma_add_mod_noop(n as int, m as int, r as int);
    vstd::arithmetic::div_mod::lemma_small_mod(m, r as nat);
    if x + m < r {
        vstd::arithmetic::div_mod::lemma_small_mod((x + m) as nat, r as nat);
    } else {
        vstd::arithmetic::div_mod::lemma_fundamental_div_mod_converse(
            x + m,
            r as int,
            1,
            x + m - r,
        );
    }
}

/// The xxHash64 digest of the byte sequence `b` under `seed`.
///
/// Full 32-byte stripes feed the four lanes, which are merged unless the
/// 64-bit byte counter stayed below 32; the wrapped length and the tail
/// bytes are folded in; the avalanche concludes.
pub open spec fn xxh64(b: Seq<u8>, seed: u64) -> u64 {
    let nstripes: nat = b.len() / 32;
    let total: u64 = wrapped_len(b.len());
    let h0: u64 = if total < 32 {
        w_add(seed, PRIME5)
    } else {
        merged_lanes(lanes_after(seed, b, nstripes))
    };
    avalanche(tail_mix(w_add(h0, total), b.skip((32 * nstripes) as int)))
}

} // verus!
