//! The hasher's own acceptance tests: the canonical reference vectors, fed
//! whole and in chunks, and the hash-of-value helpers.

use xxhash::hash;
use xxhash::XXHasher;

/// The canonical sanity test: a 101-byte buffer from a squaring recurrence,
/// six prefixes and seeds with pinned digests.
fn test_base<F>(f: F)
where
    F: Fn(&[u8], u64) -> u64,
{
    let bufsize: usize = 101;
    let prime: u32 = 2654435761;

    let mut random: u32 = prime;
    let mut buf: Vec<u8> = Vec::with_capacity(bufsize);
    for _ in 0..bufsize {
        buf.push((random >> 24) as u8);
        random = random.wrapping_mul(random);
    }

    let test = |size: usize, seed: u64, expected: u64| {
        let result = f(buf.split_at(size).0, seed);
        assert_eq!(result, expected);
    };

    test(1, 0, 0x4FCE394CC88952D8);
    test(1, prime as u64, 0x739840CB819FA723);
    test(14, 0, 0xCFFA8DB881BC3A3D);
    test(14, prime as u64, 0x5B9611585EFCC9CB);
    test(bufsize, 0, 0x0EAB543384F878AD);
    test(bufsize, prime as u64, 0xCAA65939306F1E21);
}

#[test]
fn test_oneshot() {
    test_base(|v, seed| {
        let mut state = XXHasher::new_with_seed(seed);
        state.write(v);
        state.finish()
    })
}

#[test]
fn test_chunks() {
    test_base(|v, seed| {
        let mut state = XXHasher::new_with_seed(seed);
        for chunk in v.chunks(15) {
            state.write(chunk);
        }
        state.finish()
    })
}

#[test]
fn test_hash_usize() {
    let val = 0xdeadbeef_deadbeef_u64;
    assert_eq!(hash(&(val as u64)), hash(&(val as usize)));
    assert!(hash(&(val as u32)) != hash(&(val as usize)));
}

#[test]
fn test_hash_idempotent() {
    let val64 = 0xdeadbeef_deadbeef_u64;
    assert_eq!(hash(&val64), hash(&val64));
    let val32 = 0xdeadbeef_u32;
    assert_eq!(hash(&val32), hash(&val32));
}

fn zero_byte_of_u64(val: u64, byte: usize) -> u64 {
    assert!(byte < 8);
    val & !(0xff << (byte * 8))
}

#[test]
fn test_hash_no_bytes_dropped_64() {
    let val = 0xdeadbeef_deadbeef_u64;

    assert!(hash(&val) != hash(&zero_byte_of_u64(val, 0)));
    assert!(hash(&val) != hash(&zero_byte_of_u64(val, 1)));
    assert!(hash(&val) != hash(&zero_byte_of_u64(val, 2)));
    assert!(hash(&val) != hash(&zero_byte_of_u64(val, 3)));
    assert!(hash(&val) != hash(&zero_byte_of_u64(val, 4)));
    assert!(hash(&val) != hash(&zero_byte_of_u64(val, 5)));
    assert!(hash(&val) != hash(&zero_byte_of_u64(val, 6)));
    assert!(hash(&val) != hash(&zero_byte_of_u64(val, 7)));
}

fn zero_byte_of_u32(val: u32, byte: usize) -> u32 {
    assert!(byte < 4);
    val & !(0xff << (byte * 8))
}

#[test]
fn test_hash_no_bytes_dropped_32() {
    let val = 0xdeadbeef_u32;

    assert!(hash(&val) != hash(&zero_byte_of_u32(val, 0)));
    assert!(hash(&val) != hash(&zero_byte_of_u32(val, 1)));
    assert!(hash(&val) != hash(&zero_byte_of_u32(val, 2)));
    assert!(hash(&val) != hash(&zero_byte_of_u32(val, 3)));
}

#[test]
fn test_hash_no_concat_alias() {
    let s = ("aa", "bb");
    let t = ("aabb", "");
    let u = ("a", "abb");

    assert!(s != t && t != u);
    assert!(hash(&s) != hash(&t) && hash(&s) != hash(&u));

    let a = [1u8, 0, 0, 0];
    let v: (&[u8], &[u8], &[u8]) = (&a[0..1], &a[1..3], &a[1..2]);
    let w: (&[u8], &[u8], &[u8]) = (&a[..], &a[0..0], &a[0..0]);

    assert!(v != w);
    assert!(hash(&v) != hash(&w));
}
