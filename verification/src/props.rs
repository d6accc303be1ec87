//! Laws of the digest, proved once and for all over the model.
//!
//! The digest of an empty stream is pinned to its closed form, and for
//! streams shorter than one stripe the digest is injective in the seed, so
//! any two distinct seeds give distinct digests there.

use crate::model::avalanche;
use crate::model::tail_mix;
use crate::model::tail_round1;
use crate::model::tail_round4;
use crate::model::tail_round8;
use crate::model::w_add;
use crate::model::w_mul;
use crate::model::w_rotl;
use crate::model::word32_at;
use crate::model::word64_at;
use crate::model::xxh64;
use crate::model::PRIME1;
use crate::model::PRIME2;
use crate::model::PRIME3;
use crate::model::wrapped_len;
use crate::model::PRIME4;
use crate::model::PRIME5;
use vstd::arithmetic::div_mod::lemma_mul_mod_noop_left;
use vstd::arithmetic::div_mod::lemma_mul_mod_noop_right;
use vstd::arithmetic::div_mod::lemma_small_mod;
use vstd::arithmetic::mul::lemma_mul_is_associative;
use vstd::prelude::*;

verus! {

/// Multiplicative inverse of [`PRIME1`] modulo 2^64.
pub const PRIME1_INV: u64 = 614540362697595703;

/// Multiplicative inverse of [`PRIME2`] modulo 2^64.
pub const PRIME2_INV: u64 = 839798700976720815;

/// Multiplicative inverse of [`PRIME3`] modulo 2^64.
pub const PRIME3_INV: u64 = 16855272203555305545;

/// Multiplying modulo 2^64 by a constant with a known modular inverse is
/// undone by multiplying with that inverse.
proof fn lemma_mul_inverse(x: u64, c: u64, cinv: u64)
    requires
        w_mul(c, cinv) == 1,
    ensures
        w_mul(w_mul(x, c), cinv) == x,
{
    let r: int = 0x1_0000_0000_0000_0000;
    let xc: int = (x as int) * (c as int);
    lemma_mul_mod_noop_left(xc, cinv as int, r);
    lemma_mul_is_associative(x as int, c as int, cinv as int);
    lemma_mul_mod_noop_right(x as int, (c as int) * (cinv as int), r);
    lemma_small_mod(x as nat, r as nat);
}

/// Multiplication modulo 2^64 by an odd constant (one with an inverse) is
/// injective.
proof fn lemma_mul_injective(a: u64, b: u64, c: u64, cinv: u64)
    requires
        w_mul(c, cinv) == 1,
        w_mul(a, c) == w_mul(b, c),
    ensures
        a == b,
{
    lemma_mul_inverse(a, c, cinv);
    lemma_mul_inverse(b, c, cinv);
}

/// Addition modulo 2^64 of a constant is injective.
proof fn lemma_add_injective(a: u64, b: u64, c: u64)
    requires
        w_add(a, c) == w_add(b, c),
    ensures
        a == b,
{
}

/// Rotation left by a fixed amount is injective.
proof fn lemma_rotl_injective(a: u64, b: u64, s: u64)
    requires
        0 < s < 64,
        w_rotl(a, s) == w_rotl(b, s),
    ensures
        a == b,
{
    assert(a == b) by (bit_vector)
        requires
            0 < s < 64,
            ((a << s) | (a >> ((64 - s) as u64))) == ((b << s) | (b >> ((64 - s) as u64))),
    ;
}

/// Xor with a fixed word is injective.
proof fn lemma_xor_injective(a: u64, b: u64, k: u64)
    requires
        a ^ k == b ^ k,
    ensures
        a == b,
{
    assert(a == b) by (bit_vector)
        requires
            a ^ k == b ^ k,
    ;
}

/// Xor with the own value shifted right is injective.
proof fn lemma_xorshift_injective(a: u64, b: u64, s: u64)
    requires
        0 < s < 64,
        a ^ (a >> s) == b ^ (b >> s),
    ensures
        a == b,
{
    assert(a == b) by (bit_vector)
        requires
            0 < s < 64,
            a ^ (a >> s) == b ^ (b >> s),
    ;
}

/// The 8-byte tail round is injective in the accumulator.
proof fn lemma_round8_injective(h1: u64, h2: u64, k: u64)
    requires
        tail_round8(h1, k) == tail_round8(h2, k),
    ensures
        h1 == h2,
{
    let k1: u64 = w_mul(w_rotl(w_mul(k, PRIME2), 31), PRIME1);
    lemma_add_injective(
        w_mul(w_rotl(h1 ^ k1, 27), PRIME1),
        w_mul(w_rotl(h2 ^ k1, 27), PRIME1),
        PRIME4,
    );
    lemma_mul_injective(w_rotl(h1 ^ k1, 27), w_rotl(h2 ^ k1, 27), PRIME1, PRIME1_INV);
    lemma_rotl_injective(h1 ^ k1, h2 ^ k1, 27);
    lemma_xor_injective(h1, h2, k1);
}

/// The 4-byte tail round is injective in the accumulator.
proof fn lemma_round4_injective(h1: u64, h2: u64, k: u32)
    requires
        tail_round4(h1, k) == tail_round4(h2, k),
    ensures
        h1 == h2,
{
    let k1: u64 = w_mul(k as u64, PRIME1);
    lemma_add_injective(
        w_mul(w_rotl(h1 ^ k1, 23), PRIME2),
        w_mul(w_rotl(h2 ^ k1, 23), PRIME2),
        PRIME3,
    );
    lemma_mul_injective(w_rotl(h1 ^ k1, 23), w_rotl(h2 ^ k1, 23), PRIME2, PRIME2_INV);
    lemma_rotl_injective(h1 ^ k1, h2 ^ k1, 23);
    lemma_xor_injective(h1, h2, k1);
}

/// The single-byte tail round is injective in the accumulator.
proof fn lemma_round1_injective(h1: u64, h2: u64, b: u8)
    requires
        tail_round1(h1, b) == tail_round1(h2, b),
    ensures
        h1 == h2,
{
    let k1: u64 = w_mul(b as u64, PRIME5);
    lemma_mul_injective(w_rotl(h1 ^ k1, 11), w_rotl(h2 ^ k1, 11), PRIME1, PRIME1_INV);
    lemma_rotl_injective(h1 ^ k1, h2 ^ k1, 11);
    lemma_xor_injective(h1, h2, k1);
}

/// Tail processing of fixed bytes is injective in the accumulator.
proof fn lemma_tail_mix_injective(h1: u64, h2: u64, t: Seq<u8>)
    requires
        tail_mix(h1, t) == tail_mix(h2, t),
    ensures
        h1 == h2,
    decreases t.len(),
{
    if t.len() >= 8 {
        lemma_tail_mix_injective(
            tail_round8(h1, word64_at(t, 0)),
            tail_round8(h2, word64_at(t, 0)),
            t.skip(8),
        );
        lemma_round8_injective(h1, h2, word64_at(t, 0));
    } else if t.len() >= 4 {
        lemma_tail_mix_injective(
            tail_round4(h1, word32_at(t, 0)),
            tail_round4(h2, word32_at(t, 0)),
            t.skip(4),
        );
        lemma_round4_injective(h1, h2, word32_at(t, 0));
    } else if t.len() >= 1 {
        lemma_tail_mix_injective(tail_round1(h1, t[0]), tail_round1(h2, t[0]), t.skip(1));
        lemma_round1_injective(h1, h2, t[0]);
    }
}

/// The avalanche is injective: it spreads bits but loses none.
proof fn lemma_avalanche_injective(a: u64, b: u64)
    requires
        avalanche(a) == avalanche(b),
    ensures
        a == b,
{
    let a1: u64 = w_mul(a ^ (a >> 33), PRIME2);
    let a2: u64 = w_mul(a1 ^ (a1 >> 29), PRIME3);
    let b1: u64 = w_mul(b ^ (b >> 33), PRIME2);
    let b2: u64 = w_mul(b1 ^ (b1 >> 29), PRIME3);
    lemma_xorshift_injective(a2, b2, 32);
    lemma_mul_injective(a1 ^ (a1 >> 29), b1 ^ (b1 >> 29), PRIME3, PRIME3_INV);
    lemma_xorshift_injective(a1, b1, 29);
    lemma_mul_injective(a ^ (a >> 33), b ^ (b >> 33), PRIME2, PRIME2_INV);
    lemma_xorshift_injective(a, b, 33);
}

/// Seed sensitivity: on any stream shorter than one stripe the digest is
/// injective in the seed, so any two distinct seeds disagree — in
/// particular a pair of seeds with distinct digests always exists.
pub proof fn lemma_seed_sensitivity(b: Seq<u8>, s1: u64, s2: u64)
    requires
        b.len() < 32,
        s1 != s2,
    ensures
        xxh64(b, s1) != xxh64(b, s2),
{
    let total: u64 = wrapped_len(b.len());
    lemma_small_mod(b.len(), 0x1_0000_0000_0000_0000);
    assert(b.skip(0) =~= b);
    if xxh64(b, s1) == xxh64(b, s2) {
        lemma_avalanche_injective(
            tail_mix(w_add(w_add(s1, PRIME5), total), b),
            tail_mix(w_add(w_add(s2, PRIME5), total), b),
        );
        lemma_tail_mix_injective(
            w_add(w_add(s1, PRIME5), total),
            w_add(w_add(s2, PRIME5), total),
            b,
        );
        lemma_add_injective(w_add(s1, PRIME5), w_add(s2, PRIME5), total);
        lemma_add_injective(s1, s2, PRIME5);
    }
}

/// The digest of the empty stream: no stripes, no tail, zero length — only
/// the seed, the fifth prime and the avalanche remain.
pub proof fn lemma_empty_digest(seed: u64)
    ensures
        xxh64(Seq::<u8>::empty(), seed) == avalanche(w_add(w_add(seed, PRIME5), 0)),
{
    assert(Seq::<u8>::empty().skip(0) =~= Seq::<u8>::empty());
}

} // verus!
