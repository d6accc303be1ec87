//! Streaming behaviour: chunking invariance, determinism, seed sensitivity,
//! the empty stream, reset, and stripe-boundary sizes.

use xxhash::hash_with_seed;
use xxhash::oneshot;
use xxhash::XXHasher;

/// The 101-byte reference buffer from the squaring recurrence.
fn reference_buf() -> Vec<u8> {
    let mut random: u32 = 2654435761;
    let mut buf: Vec<u8> = Vec::with_capacity(101);
    for _ in 0..101 {
        buf.push((random >> 24) as u8);
        random = random.wrapping_mul(random);
    }
    buf
}

#[test]
fn test_oneshot_reference_vectors() {
    let buf = reference_buf();
    let prime: u64 = 2654435761;
    assert_eq!(oneshot(&buf[0..1], 0), 0x4FCE394CC88952D8);
    assert_eq!(oneshot(&buf[0..1], prime), 0x739840CB819FA723);
    assert_eq!(oneshot(&buf[0..14], 0), 0xCFFA8DB881BC3A3D);
    assert_eq!(oneshot(&buf[0..14], prime), 0x5B9611585EFCC9CB);
    assert_eq!(oneshot(&buf[0..101], 0), 0x0EAB543384F878AD);
    assert_eq!(oneshot(&buf[0..101], prime), 0xCAA65939306F1E21);
}

#[test]
fn test_determinism() {
    let buf = reference_buf();
    for seed in [0u64, 1, 2654435761, 18446744073709551557] {
        assert_eq!(oneshot(&buf, seed), oneshot(&buf, seed));
    }
    assert_eq!(oneshot(&[], 7), oneshot(&[], 7));
}

#[test]
fn test_single_byte_chunks() {
    let buf = reference_buf();
    for seed in [0u64, 2654435761] {
        let mut state = XXHasher::new_with_seed(seed);
        for b in buf.iter() {
            state.write(std::slice::from_ref(b));
        }
        assert_eq!(state.finish(), oneshot(&buf, seed));
    }
}

#[test]
fn test_fifteen_byte_chunks() {
    let buf = reference_buf();
    for seed in [0u64, 2654435761] {
        let mut state = XXHasher::new_with_seed(seed);
        for chunk in buf.chunks(15) {
            state.write(chunk);
        }
        assert_eq!(state.finish(), oneshot(&buf, seed));
    }
}

#[test]
fn test_single_piece() {
    let buf = reference_buf();
    let mut state = XXHasher::new_with_seed(0);
    state.write(&buf);
    assert_eq!(state.finish(), oneshot(&buf, 0));
}

#[test]
fn test_empty_input() {
    // The short-input finalization path with no tail bytes.
    assert_eq!(oneshot(&[], 0), 0xEF46DB3751D8E999);
    assert_eq!(oneshot(&[], 18446744073709551557), 0x487D0FF80433C535);
    let state = XXHasher::new_with_seed(0);
    assert_eq!(state.finish(), 0xEF46DB3751D8E999);
    let fresh = XXHasher::new();
    assert_eq!(fresh.finish(), oneshot(&[], 18446744073709551557));
}

#[test]
fn test_seed_sensitivity() {
    let buf = reference_buf();
    assert!(oneshot(&buf[0..1], 0) != oneshot(&buf[0..1], 1));
    assert!(oneshot(&buf[0..14], 0) != oneshot(&buf[0..14], 1));
    assert!(oneshot(&buf, 0) != oneshot(&buf, 2654435761));
}

#[test]
fn test_stripe_boundary_sizes() {
    let buf = reference_buf();
    assert_eq!(oneshot(&buf[0..31], 0), 0xAD09D9A6941DD847);
    assert_eq!(oneshot(&buf[0..32], 0), 0xAF5753D39159EDEE);
    assert_eq!(oneshot(&buf[0..33], 0), 0x6711CBDD8543BAA8);
    for size in [31usize, 32, 33] {
        let mut state = XXHasher::new_with_seed(0);
        for chunk in buf[0..size].chunks(7) {
            state.write(chunk);
        }
        assert_eq!(state.finish(), oneshot(&buf[0..size], 0));
    }
}

#[test]
fn test_digest_midstream() {
    // finish is a pure read: it can be called repeatedly and mid-stream.
    let buf = reference_buf();
    let mut state = XXHasher::new_with_seed(0);
    state.write(&buf[0..14]);
    let first = state.finish();
    assert_eq!(first, state.finish());
    assert_eq!(first, oneshot(&buf[0..14], 0));
    state.write(&buf[14..101]);
    assert_eq!(state.finish(), oneshot(&buf[0..101], 0));
}

#[test]
fn test_reset_starts_over() {
    let buf = reference_buf();
    let mut state = XXHasher::new_with_seed(0);
    state.write(&buf);
    state.reset();
    assert_eq!(state.finish(), oneshot(&[], 0));
    state.write(&buf[0..14]);
    assert_eq!(state.finish(), oneshot(&buf[0..14], 0));
}

#[test]
fn test_zero_length_chunks() {
    let buf = reference_buf();
    let mut state = XXHasher::new_with_seed(0);
    state.write(&[]);
    state.write(&buf[0..14]);
    state.write(&[]);
    assert_eq!(state.finish(), oneshot(&buf[0..14], 0));
}

#[test]
fn test_hash_with_seed_matches_bytes() {
    // A u64 feeds its 8 native-endian bytes through the Hash trait.
    let val: u64 = 0x0123456789ABCDEF;
    assert_eq!(hash_with_seed(5, &val), oneshot(&val.to_ne_bytes(), 5));
}

#[test]
fn test_flip_any_byte_changes_digest() {
    let buf = reference_buf();
    for size in [1usize, 14, 31, 32, 33, 101] {
        let base = oneshot(&buf[0..size], 0);
        for i in 0..size {
            let mut copy = buf[0..size].to_vec();
            copy[i] ^= 0x55;
            assert!(oneshot(&copy, 0) != base);
        }
    }
}
