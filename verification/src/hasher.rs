//! The streaming hasher: four accumulator lanes, a carry-over buffer for
//! bytes that do not yet fill a stripe, and the byte counter.
//!
//! The abstract state of a hasher is the pair (seed, bytes fed since the last
//! reset); the ghost field `fed` records the bytes, and [`XXHasher::wf`] ties
//! every concrete field to that abstract state.  `finish` is then proved to
//! return [`xxh64`] of the abstract state, however the bytes arrived.

use crate::model::lane_step;
use crate::model::lanes_after;
use crate::model::lemma_lanes_after_prefix;
use crate::model::lemma_bump_words;
use crate::model::lemma_lanes_after_unfold;
use crate::model::lemma_word_cover;
use crate::model::lemma_tail_step1;
use crate::model::lemma_tail_step4;
use crate::model::lemma_tail_step8;
use crate::model::lemma_wrapped_len_add;
use crate::model::avalanche;
use crate::model::merged_lanes;
use crate::model::tail_mix;
use crate::model::xxh64;
use crate::model::PRIME3;
use crate::model::PRIME4;
use crate::model::PRIME5;
use crate::model::w_rotl;
use crate::model::word32_at;
use crate::model::word64_at;
use crate::model::wrapped_len;
use crate::model::Lanes;
use crate::model::HAPPY_SEED;
use crate::model::PRIME1;
use crate::model::PRIME2;
use vstd::arithmetic::div_mod::lemma_fundamental_div_mod;
use vstd::arithmetic::div_mod::lemma_fundamental_div_mod_converse;
use vstd::bytes::u32_from_le_bytes;
use vstd::bytes::u64_from_le_bytes;
use vstd::prelude::*;
use vstd::slice::slice_index_get;
use vstd::slice::slice_subrange;

verus! {

/// Rotate a 64-bit word left by `s` bits, `0 < s < 64`.
fn rotl64(x: u64, s: u64) -> (r: u64)
    requires
        0 < s < 64,
    ensures
        r == w_rotl(x, s),
{
    (x << s) | (x >> (64 - s))
}

/// Read the little-endian 64-bit word at byte offset `off` of `b`.
fn read_word64(b: &[u8], off: usize) -> (r: u64)
    requires
        off + 8 <= b@.len(),
    ensures
        r == word64_at(b@, off as int),
{
    // The slice's length bounds `off + 8` within usize.
    let len = b.len();
    u64_from_le_bytes(slice_subrange(b, off, off + 8))
}

/// Read the little-endian 32-bit word at byte offset `off` of `b`.
fn read_word32(b: &[u8], off: usize) -> (r: u32)
    requires
        off + 4 <= b@.len(),
    ensures
        r == word32_at(b@, off as int),
{
    // The slice's length bounds `off + 4` within usize.
    let len = b.len();
    u32_from_le_bytes(slice_subrange(b, off, off + 4))
}

/// After the carry-over bytes (the tail of `old_fed`, which does not end on
/// a stripe boundary) are topped up with the head of `input`, folding the
/// completed stripe's words into the lanes is exactly one more stripe of the
/// extended stream.
proof fn lemma_bump_lanes(seed: u64, old_fed: Seq<u8>, input: Seq<u8>, l: Lanes, l2: Lanes, pos: int)
    requires
        old_fed.len() % 32 != 0,
        (old_fed.len() % 32) + input.len() >= 32,
        pos == 32 - ((old_fed.len() % 32) as int),
        l == lanes_after(seed, old_fed, old_fed.len() / 32),
        l2.v1 == lane_step(
            l.v1,
            word64_at(
                old_fed.skip(32 * ((old_fed.len() / 32) as int)) + input.subrange(0, pos),
                0,
            ),
        ),
        l2.v2 == lane_step(
            l.v2,
            word64_at(
                old_fed.skip(32 * ((old_fed.len() / 32) as int)) + input.subrange(0, pos),
                8,
            ),
        ),
        l2.v3 == lane_step(
            l.v3,
            word64_at(
                old_fed.skip(32 * ((old_fed.len() / 32) as int)) + input.subrange(0, pos),
                16,
            ),
        ),
        l2.v4 == lane_step(
            l.v4,
            word64_at(
                old_fed.skip(32 * ((old_fed.len() / 32) as int)) + input.subrange(0, pos),
                24,
            ),
        ),
    ensures
        l2 == lanes_after(seed, old_fed + input, old_fed.len() / 32 + 1),
        32 * ((old_fed.len() / 32 + 1) as int) == old_fed.len() + pos,
{
    let os: nat = old_fed.len() / 32;
    lemma_fundamental_div_mod(old_fed.len() as int, 32);
    lemma_bump_words(old_fed, input, 0);
    lemma_bump_words(old_fed, input, 8);
    lemma_bump_words(old_fed, input, 16);
    lemma_bump_words(old_fed, input, 24);
    lemma_lanes_after_prefix(seed, old_fed + input, old_fed, os);
    lemma_lanes_after_unfold(seed, old_fed + input, os);
}

/// Streaming xxHash64 state.  Create it with a seed, feed byte slices with
/// [`XXHasher::write`], and read the running digest with [`XXHasher::finish`].
pub struct XXHasher {
    v1: u64,
    v2: u64,
    v3: u64,
    v4: u64,
    /// Bytes fed but not yet consumed as part of a 32-byte stripe.
    buffer: Vec<u8>,
    /// Count of all bytes fed since the last reset, modulo 2^64.
    total_len: u64,
    seed: u64,
    /// The whole byte stream fed since the last reset.
    fed: Ghost<Seq<u8>>,
}

impl XXHasher {
    /// The bytes fed since the last reset: the abstract stream this hasher
    /// has consumed so far.
    pub closed spec fn bytes(&self) -> Seq<u8> {
        self.fed@
    }

    /// The seed this hasher was created with.
    pub closed spec fn seed_spec(&self) -> u64 {
        self.seed
    }

    /// The four concrete lane values, bundled.
    closed spec fn lanes(&self) -> Lanes {
        Lanes { v1: self.v1, v2: self.v2, v3: self.v3, v4: self.v4 }
    }

    /// Well-formedness: every concrete field is the value the model assigns
    /// to it for the stream fed so far.  The buffer holds exactly the bytes
    /// after the last full stripe, so it always has fewer than 32 bytes.
    pub closed spec fn wf(&self) -> bool {
        let stripes = self.fed@.len() / 32;
        &&& self.buffer@ == self.fed@.skip((32 * stripes) as int)
        &&& self.total_len == wrapped_len(self.fed@.len())
        &&& self.lanes() == lanes_after(self.seed, self.fed@, stripes)
    }

    /// Create a hasher that will digest a fresh stream under `seed`.
    pub fn new_with_seed(seed: u64) -> (r: XXHasher)
        ensures
            r.wf(),
            r.bytes() == Seq::<u8>::empty(),
            r.seed_spec() == seed,
    {
        let r = XXHasher {
            v1: seed.wrapping_add(PRIME1).wrapping_add(PRIME2),
            v2: seed.wrapping_add(PRIME2),
            v3: seed,
            v4: seed.wrapping_sub(PRIME1),
            buffer: Vec::new(),
            total_len: 0,
            seed,
            fed: Ghost(Seq::empty()),
        };
        proof {
            assert(r.buffer@ =~= r.fed@.skip(0));
        }
        r
    }

    /// Create a hasher with the fixed default seed.
    pub fn new() -> (r: XXHasher)
        ensures
            r.wf(),
            r.bytes() == Seq::<u8>::empty(),
            r.seed_spec() == HAPPY_SEED,
    {
        XXHasher::new_with_seed(HAPPY_SEED)
    }

    /// Reinitialize for a new stream under the same seed: the lanes return
    /// to their seed-determined values and the counters to zero.
    pub fn reset(&mut self)
        ensures
            final(self).wf(),
            final(self).bytes() == Seq::<u8>::empty(),
            final(self).seed_spec() == old(self).seed_spec(),
    {
        self.v1 = self.seed.wrapping_add(PRIME1).wrapping_add(PRIME2);
        self.v2 = self.seed.wrapping_add(PRIME2);
        self.v3 = self.seed;
        self.v4 = self.seed.wrapping_sub(PRIME1);
        self.buffer = Vec::new();
        self.total_len = 0;
        self.fed = Ghost(Seq::empty());
        proof {
            assert(self.buffer@ =~= self.fed@.skip(0));
        }
    }

    /// Append `input[from..to]` to the carry-over buffer; nothing else moves.
    fn push_bytes(&mut self, input: &[u8], from: usize, to: usize)
        requires
            from <= to <= input@.len(),
        ensures
            final(self).buffer@ == old(self).buffer@ + input@.subrange(
                from as int,
                to as int,
            ),
            final(self).v1 == old(self).v1,
            final(self).v2 == old(self).v2,
            final(self).v3 == old(self).v3,
            final(self).v4 == old(self).v4,
            final(self).total_len == old(self).total_len,
            final(self).seed == old(self).seed,
            final(self).fed@ == old(self).fed@,
    {
        let mut i: usize = from;
        proof {
            assert(self.buffer@ =~= old(self).buffer@ + input@.subrange(
                from as int,
                from as int,
            ));
        }
        while i < to
            invariant
                from <= i <= to <= input@.len(),
                self.buffer@ == old(self).buffer@ + input@.subrange(from as int, i as int),
                self.v1 == old(self).v1,
                self.v2 == old(self).v2,
                self.v3 == old(self).v3,
                self.v4 == old(self).v4,
                self.total_len == old(self).total_len,
                self.seed == old(self).seed,
                self.fed@ == old(self).fed@,
            decreases to - i,
        {
            let b = *slice_index_get(input, i);
            self.buffer.push(b);
            i = i + 1;
            proof {
                assert(self.buffer@ =~= old(self).buffer@ + input@.subrange(
                    from as int,
                    i as int,
                ));
            }
        }
    }

    /// Fold one stripe's four words into the four lanes; nothing else moves.
    fn eat_words(&mut self, w1: u64, w2: u64, w3: u64, w4: u64)
        ensures
            final(self).v1 == lane_step(old(self).v1, w1),
            final(self).v2 == lane_step(old(self).v2, w2),
            final(self).v3 == lane_step(old(self).v3, w3),
            final(self).v4 == lane_step(old(self).v4, w4),
            final(self).buffer@ == old(self).buffer@,
            final(self).total_len == old(self).total_len,
            final(self).seed == old(self).seed,
            final(self).fed@ == old(self).fed@,
    {
        self.v1 = rotl64(self.v1.wrapping_add(w1.wrapping_mul(PRIME2)), 31).wrapping_mul(PRIME1);
        self.v2 = rotl64(self.v2.wrapping_add(w2.wrapping_mul(PRIME2)), 31).wrapping_mul(PRIME1);
        self.v3 = rotl64(self.v3.wrapping_add(w3.wrapping_mul(PRIME2)), 31).wrapping_mul(PRIME1);
        self.v4 = rotl64(self.v4.wrapping_add(w4.wrapping_mul(PRIME2)), 31).wrapping_mul(PRIME1);
    }

    /// Absorb a chunk that does not complete a stripe: it is only buffered.
    fn buffer_only(&mut self, input: &[u8])
        requires
            old(self).wf(),
            old(self).buffer@.len() + input@.len() < 32,
        ensures
            final(self).wf(),
            final(self).bytes() == old(self).bytes() + input@,
            final(self).seed_spec() == old(self).seed_spec(),
    {
        let ghost old_fed: Seq<u8> = self.fed@;
        let ghost new_fed: Seq<u8> = self.fed@ + input@;
        let ghost old_stripes: nat = old_fed.len() / 32;
        proof {
            lemma_wrapped_len_add(old_fed.len(), input@.len());
            lemma_fundamental_div_mod(old_fed.len() as int, 32);
        }
        self.fed = Ghost(new_fed);
        self.total_len = self.total_len.wrapping_add(input.len() as u64);
        self.push_bytes(input, 0, input.len());
        proof {
            let n: int = old_fed.len() as int;
            let m: int = input@.len() as int;
            lemma_fundamental_div_mod_converse(n + m, 32, n / 32, n % 32 + m);
            assert(new_fed.len() / 32 == old_stripes);
            lemma_lanes_after_prefix(self.seed, new_fed, old_fed, old_stripes);
            assert(input@.subrange(0, m) =~= input@);
            assert(self.buffer@ =~= new_fed.skip(32 * (old_stripes as int)));
        }
    }

    /// Top the buffer up to one full stripe with the head of `input` and
    /// consume that stripe into the lanes; nothing else moves.
    fn fill_and_eat(&mut self, input: &[u8]) -> (bump: usize)
        requires
            0 < old(self).buffer@.len() < 32,
            old(self).buffer@.len() + input@.len() >= 32,
        ensures
            bump == 32 - old(self).buffer@.len(),
            bump <= input@.len(),
            final(self).buffer@.len() == 0,
            final(self).v1 == lane_step(
                old(self).v1,
                word64_at(old(self).buffer@ + input@.subrange(0, bump as int), 0),
            ),
            final(self).v2 == lane_step(
                old(self).v2,
                word64_at(old(self).buffer@ + input@.subrange(0, bump as int), 8),
            ),
            final(self).v3 == lane_step(
                old(self).v3,
                word64_at(old(self).buffer@ + input@.subrange(0, bump as int), 16),
            ),
            final(self).v4 == lane_step(
                old(self).v4,
                word64_at(old(self).buffer@ + input@.subrange(0, bump as int), 24),
            ),
            final(self).total_len == old(self).total_len,
            final(self).seed == old(self).seed,
            final(self).fed@ == old(self).fed@,
    {
        let buffered = self.buffer.len();
        let bump = 32 - buffered;
        self.push_bytes(input, 0, bump);
        let w1 = read_word64(self.buffer.as_slice(), 0);
        let w2 = read_word64(self.buffer.as_slice(), 8);
        let w3 = read_word64(self.buffer.as_slice(), 16);
        let w4 = read_word64(self.buffer.as_slice(), 24);
        self.eat_words(w1, w2, w3, w4);
        self.buffer.clear();
        bump
    }

    /// Consume every remaining full stripe of `input` starting at `start`,
    /// then buffer the few bytes that are left.  `input` is the tail of the
    /// stream recorded in `fed`, and `k0` stripes of that stream are already
    /// in the lanes.
    #[verifier::rlimit(100)]
    fn eat_from(&mut self, input: &[u8], start: usize, Ghost(k0): Ghost<nat>)
        requires
            old(self).buffer@.len() == 0,
            start <= input@.len(),
            input@.len() <= old(self).fed@.len(),
            input@ == old(self).fed@.skip(old(self).fed@.len() - input@.len()),
            32 * (k0 as int) == old(self).fed@.len() - input@.len() + start,
            old(self).lanes() == lanes_after(old(self).seed, old(self).fed@, k0),
            old(self).total_len == wrapped_len(old(self).fed@.len()),
        ensures
            final(self).wf(),
            final(self).fed@ == old(self).fed@,
            final(self).seed == old(self).seed,
            final(self).total_len == old(self).total_len,
    {
        let ghost fed: Seq<u8> = self.fed@;
        let ghost mut k: nat = k0;
        let mut pos: usize = start;
        while input.len() - pos >= 32
            invariant
                start <= pos <= input@.len(),
                input@.len() <= fed.len(),
                input@ == fed.skip(fed.len() - input@.len()),
                self.buffer@.len() == 0,
                32 * (k as int) == fed.len() - input@.len() + pos as int,
                self.lanes() == lanes_after(self.seed, fed, k),
                self.fed@ == fed,
                self.seed == old(self).seed,
                self.total_len == old(self).total_len,
            decreases input@.len() - pos,
        {
            let w1 = read_word64(input, pos);
            let w2 = read_word64(input, pos + 8);
            let w3 = read_word64(input, pos + 16);
            let w4 = read_word64(input, pos + 24);
            self.eat_words(w1, w2, w3, w4);
            proof {
                let kk: int = k as int;
                let p: int = pos as int;
                lemma_word_cover(fed, input@, 32 * kk, p);
                lemma_word_cover(fed, input@, 32 * kk + 8, p + 8);
                lemma_word_cover(fed, input@, 32 * kk + 16, p + 16);
                lemma_word_cover(fed, input@, 32 * kk + 24, p + 24);
                lemma_lanes_after_unfold(self.seed, fed, k);
                k = k + 1;
                assert(self.lanes() == lanes_after(self.seed, fed, k));
            }
            pos = pos + 32;
        }
        // Fewer than 32 bytes are left: they wait in the buffer.
        self.push_bytes(input, pos, input.len());
        proof {
            let n: int = fed.len() as int;
            let kk: int = k as int;
            lemma_fundamental_div_mod_converse(n, 32, kk, n - 32 * kk);
            assert(fed.len() / 32 == k);
            assert(self.buffer@ =~= fed.skip(32 * kk));
        }
    }

    /// Record the new chunk in the stream and counters, and drain the
    /// carry-over buffer through its completed stripe if there is one.
    /// Returns how many head bytes of `input` went into that stripe, and the
    /// count of stripes of the extended stream now folded into the lanes.
    #[verifier::rlimit(100)]
    fn start_stripes(&mut self, input: &[u8]) -> (r: (usize, Ghost<nat>))
        requires
            old(self).wf(),
            old(self).buffer@.len() + input@.len() >= 32,
        ensures
            final(self).fed@ == old(self).fed@ + input@,
            final(self).seed == old(self).seed,
            final(self).total_len == wrapped_len(final(self).fed@.len()),
            final(self).buffer@.len() == 0,
            r.0 as int <= input@.len(),
            32 * (r.1@ as int) == old(self).fed@.len() + r.0 as int,
            final(self).lanes() == lanes_after(final(self).seed, final(self).fed@, r.1@),
    {
        let ghost old_fed: Seq<u8> = self.fed@;
        let ghost new_fed: Seq<u8> = self.fed@ + input@;
        let ghost old_stripes: nat = old_fed.len() / 32;
        let ilen = input.len();
        proof {
            lemma_wrapped_len_add(old_fed.len(), input@.len());
            lemma_fundamental_div_mod(old_fed.len() as int, 32);
        }
        self.fed = Ghost(new_fed);
        self.total_len = self.total_len.wrapping_add(ilen as u64);
        if self.buffer.len() > 0 {
            let ghost l: Lanes = self.lanes();
            let pos = self.fill_and_eat(input);
            proof {
                lemma_bump_lanes(self.seed, old_fed, input@, l, self.lanes(), pos as int);
            }
            (pos, Ghost((old_stripes + 1) as nat))
        } else {
            proof {
                lemma_lanes_after_prefix(self.seed, new_fed, old_fed, old_stripes);
            }
            (0, Ghost(old_stripes))
        }
    }

    /// Absorb a chunk that completes at least one stripe.
    fn write_stripes(&mut self, input: &[u8])
        requires
            old(self).wf(),
            old(self).buffer@.len() + input@.len() >= 32,
        ensures
            final(self).wf(),
            final(self).bytes() == old(self).bytes() + input@,
            final(self).seed_spec() == old(self).seed_spec(),
    {
        let r = self.start_stripes(input);
        let pos = r.0;
        let ghost k: nat = r.1@;
        proof {
            assert(input@ =~= self.fed@.skip(self.fed@.len() - input@.len()));
        }
        self.eat_from(input, pos, Ghost(k));
    }

    /// Feed the next chunk of the stream.  The abstract stream grows by
    /// exactly `input`; chunk boundaries leave no other trace in the state,
    /// which is why splitting a stream differently cannot change its digest.
    pub fn write(&mut self, input: &[u8])
        requires
            old(self).wf(),
        ensures
            final(self).wf(),
            final(self).bytes() == old(self).bytes() + input@,
            final(self).seed_spec() == old(self).seed_spec(),
    {
        let buffered = self.buffer.len();
        proof {
            lemma_fundamental_div_mod(self.fed@.len() as int, 32);
        }
        if input.len() < 32 - buffered {
            self.buffer_only(input);
        } else {
            self.write_stripes(input);
        }
    }

    /// Merge the four lanes into one 64-bit accumulator, as finalization
    /// does once at least one full stripe has been consumed.
    fn merge(&self) -> (h: u64)
        ensures
            h == merged_lanes(self.lanes()),
    {
        let mut h: u64 = rotl64(self.v1, 1).wrapping_add(rotl64(self.v2, 7)).wrapping_add(
            rotl64(self.v3, 12),
        ).wrapping_add(rotl64(self.v4, 18));
        h = (h ^ rotl64(self.v1.wrapping_mul(PRIME2), 31).wrapping_mul(PRIME1)).wrapping_mul(
            PRIME1,
        ).wrapping_add(PRIME4);
        h = (h ^ rotl64(self.v2.wrapping_mul(PRIME2), 31).wrapping_mul(PRIME1)).wrapping_mul(
            PRIME1,
        ).wrapping_add(PRIME4);
        h = (h ^ rotl64(self.v3.wrapping_mul(PRIME2), 31).wrapping_mul(PRIME1)).wrapping_mul(
            PRIME1,
        ).wrapping_add(PRIME4);
        h = (h ^ rotl64(self.v4.wrapping_mul(PRIME2), 31).wrapping_mul(PRIME1)).wrapping_mul(
            PRIME1,
        ).wrapping_add(PRIME4);
        h
    }

    /// Compute the running digest of all bytes fed since the last reset.
    /// Pure read: it can be called mid-stream, and again after more input.
    pub fn finish(&self) -> (r: u64)
        requires
            self.wf(),
        ensures
            r == xxh64(self.bytes(), self.seed_spec()),
    {
        let mut h: u64;
        if self.total_len < 32 {
            h = self.seed.wrapping_add(PRIME5);
        } else {
            h = self.merge();
        }
        h = h.wrapping_add(self.total_len);
        h = tail_mix_exec(h, self.buffer.as_slice());
        avalanche_exec(h)
    }
}

/// Fold the 0 to 31 tail bytes of `t` into the accumulator `h`: whole
/// 8-byte words, then at most one 4-byte word, then single bytes.
fn tail_mix_exec(h0: u64, t: &[u8]) -> (r: u64)
    ensures
        r == tail_mix(h0, t@),
{
    let len = t.len();
    let mut h = h0;
    let mut off: usize = 0;
    proof {
        assert(t@.skip(0) =~= t@);
    }
    while len - off >= 8
        invariant
            off <= len,
            len == t@.len(),
            tail_mix(h, t@.skip(off as int)) == tail_mix(h0, t@),
        decreases len - off,
    {
        let k = read_word64(t, off);
        proof {
            lemma_tail_step8(h, t@, off as int);
        }
        let k1 = rotl64(k.wrapping_mul(PRIME2), 31).wrapping_mul(PRIME1);
        h = rotl64(h ^ k1, 27).wrapping_mul(PRIME1).wrapping_add(PRIME4);
        off = off + 8;
    }
    if len - off >= 4 {
        let k = read_word32(t, off);
        proof {
            lemma_tail_step4(h, t@, off as int);
        }
        h = rotl64(h ^ (k as u64).wrapping_mul(PRIME1), 23).wrapping_mul(PRIME2).wrapping_add(
            PRIME3,
        );
        off = off + 4;
    }
    while off < len
        invariant
            off <= len,
            len == t@.len(),
            len - off < 4,
            tail_mix(h, t@.skip(off as int)) == tail_mix(h0, t@),
        decreases len - off,
    {
        let b = *slice_index_get(t, off);
        proof {
            lemma_tail_step1(h, t@, off as int);
        }
        h = rotl64(h ^ (b as u64).wrapping_mul(PRIME5), 11).wrapping_mul(PRIME1);
        off = off + 1;
    }
    proof {
        assert(t@.skip(len as int) =~= Seq::<u8>::empty());
    }
    h
}

/// The final avalanche mix of the digest.
fn avalanche_exec(h: u64) -> (r: u64)
    ensures
        r == avalanche(h),
{
    let h1 = (h ^ (h >> 33u64)).wrapping_mul(PRIME2);
    let h2 = (h1 ^ (h1 >> 29u64)).wrapping_mul(PRIME3);
    h2 ^ (h2 >> 32u64)
}

/// The xxHash64 digest of `input` under `seed`, in one call: the same value
/// a fresh hasher returns after one `write` of the whole input.
pub fn oneshot(input: &[u8], seed: u64) -> (r: u64)
    ensures
        r == xxh64(input@, seed),
{
    let mut state = XXHasher::new_with_seed(seed);
    state.write(input);
    proof {
        assert(state.bytes() =~= input@);
    }
    state.finish()
}

impl Clone for XXHasher {
    /// An independent hasher with the same seed and the same bytes fed:
    /// both go on to produce the same digests.
    fn clone(&self) -> (r: XXHasher)
        ensures
            r.bytes() == self.bytes(),
            r.seed_spec() == self.seed_spec(),
            self.wf() ==> r.wf(),
    {
        XXHasher {
            v1: self.v1,
            v2: self.v2,
            v3: self.v3,
            v4: self.v4,
            buffer: self.buffer.clone(),
            total_len: self.total_len,
            seed: self.seed,
            fed: self.fed,
        }
    }
}

impl Default for XXHasher {
    /// A fresh hasher with the default seed.
    fn default() -> (r: XXHasher)
        ensures
            r.wf(),
            r.bytes() == Seq::<u8>::empty(),
            r.seed_spec() == HAPPY_SEED,
    {
        XXHasher::new()
    }
}

/// Lets `core::hash::Hash` implementations drive this hasher.  Both methods
/// only forward to the verified inherent `write` and `finish`; they are
/// opaque to the verifier because the trait declares no contracts.
impl core::hash::Hasher for XXHasher {
    #[verifier::external_body]
    fn write(&mut self, bytes: &[u8]) {
        XXHasher::write(self, bytes)
    }

    #[verifier::external_body]
    fn finish(&self) -> u64 {
        XXHasher::finish(self)
    }
}

/// Digest of an arbitrary hashable value under `seed`.
///
/// Relies on `core::hash::Hash::hash`: it feeds the value's canonical byte
/// representation to the hasher through `core::hash::Hasher::write`, which
/// forwards to the verified `write`.  Which bytes a type feeds is the
/// unspecified business of its `Hash` implementation, so nothing is promised
/// of the result here.
#[verifier::external_body]
pub fn hash_with_seed<T: ?Sized + core::hash::Hash>(seed: u64, value: &T) -> u64 {
    let mut state = XXHasher::new_with_seed(seed);
    value.hash(&mut state);
    state.finish()
}

/// Digest of an arbitrary hashable value under the default seed.
pub fn hash<T: ?Sized + core::hash::Hash>(value: &T) -> u64 {
    hash_with_seed(HAPPY_SEED, value)
}

} // verus!
