use xxhash2::{hash32, hash64, Hash32, Hash64, State32, State64};

fn sample(len: usize) -> Vec<u8> {
    let mut v = Vec::with_capacity(len);
    for i in 0..len {
        v.push((i as u8).wrapping_mul(31).wrapping_add(7));
    }
    v
}

#[test]
fn known_vectors_multi_block() {
    // digests of inputs that exercise the block loop and every tail width
    assert_eq!(hash32(&sample(16), 5), 1300533137);
    assert_eq!(hash64(&sample(16), 5), 9614774471735711022);
    assert_eq!(hash32(&sample(17), 5), 220858207);
    assert_eq!(hash64(&sample(17), 5), 7790311919448804713);
    assert_eq!(hash32(&sample(33), 5), 3705945392);
    assert_eq!(hash64(&sample(33), 5), 12165937788505854833);
    assert_eq!(hash32(&sample(100), 5), 1365061824);
    assert_eq!(hash64(&sample(100), 5), 13705522036953636390);
    assert_eq!(hash32(&sample(100), 0), 1972596408);
    assert_eq!(hash64(&sample(100), 0), 17266991381171192145);
    assert_eq!(hash32(&sample(100), 9), 841068225);
    assert_eq!(hash64(&sample(100), 9), 4358638364705088876);
}

#[test]
fn determinism() {
    let data = sample(100);
    assert_eq!(hash32(&data, 42), hash32(&data, 42));
    assert_eq!(hash64(&data, 42), hash64(&data, 42));
}

#[test]
fn seed_sensitivity() {
    let data = sample(20);
    assert_ne!(hash32(&data, 0), hash32(&data, 1));
    assert_ne!(hash64(&data, 0), hash64(&data, 1));
    assert_ne!(hash32(&[1, 2, 3, 4], 0), hash32(&[1, 2, 3, 4], 0xDEAD));
    assert_ne!(hash64(&[1, 2, 3, 4], 0), hash64(&[1, 2, 3, 4], 0xDEAD));
}

#[test]
fn empty_input_constants() {
    assert_eq!(hash32(&[], 0), 46947589);
    assert_eq!(hash64(&[], 0), 17241709254077376921);
    let mut s32 = State32::new();
    s32.reset(7);
    assert_eq!(s32.finish(), hash32(&[], 7));
    let mut s64 = State64::new();
    s64.reset(7);
    assert_eq!(s64.finish(), hash64(&[], 7));
}

#[test]
fn fresh_state_matches_seed_zero() {
    let s32 = State32::new();
    assert_eq!(s32.finish(), hash32(&[], 0));
    let s64 = State64::new();
    assert_eq!(s64.finish(), hash64(&[], 0));
}

#[test]
fn chunking_invariance_32() {
    // lengths around the 16-byte block boundary and well past it
    for &len in &[0usize, 1, 4, 15, 16, 17, 31, 32, 33, 100] {
        let data = sample(len);
        let expected = hash32(&data, 5);
        for &cut in &[0usize, 1, 7, 15, 16] {
            if cut > len {
                continue;
            }
            let mut s = State32::new();
            s.reset(5);
            s.update(&data[..cut]);
            s.update(&data[cut..]);
            assert_eq!(s.finish(), expected);
        }
    }
}

#[test]
fn chunking_invariance_64() {
    // lengths around the 32-byte block boundary and well past it
    for &len in &[0usize, 1, 8, 31, 32, 33, 63, 64, 65, 100] {
        let data = sample(len);
        let expected = hash64(&data, 5);
        for &cut in &[0usize, 1, 7, 31, 32] {
            if cut > len {
                continue;
            }
            let mut s = State64::new();
            s.reset(5);
            s.update(&data[..cut]);
            s.update(&data[cut..]);
            assert_eq!(s.finish(), expected);
        }
    }
}

#[test]
fn single_byte_feed_multi_block() {
    let data = sample(100);
    let mut s32 = State32::new();
    s32.reset(9);
    for i in 0..data.len() {
        s32.update(&data[i..i + 1]);
    }
    assert_eq!(s32.finish(), hash32(&data, 9));

    let mut s64 = State64::new();
    s64.reset(9);
    for i in 0..data.len() {
        s64.update(&data[i..i + 1]);
    }
    assert_eq!(s64.finish(), hash64(&data, 9));
}

#[test]
fn finish_is_idempotent_and_resumable() {
    let data = sample(40);
    let mut s = State32::new();
    s.reset(1);
    s.update(&data[..20]);
    let first = s.finish();
    assert_eq!(s.finish(), first);
    s.update(&data[20..]);
    assert_eq!(s.finish(), hash32(&data, 1));

    let mut s = State64::new();
    s.reset(1);
    s.update(&data[..20]);
    let first = s.finish();
    assert_eq!(s.finish(), first);
    s.update(&data[20..]);
    assert_eq!(s.finish(), hash64(&data, 1));
}

#[test]
fn reset_discards_prior_input() {
    let data = sample(50);
    let mut s = State32::new();
    s.reset(3);
    s.update(&data);
    s.reset(8);
    s.update(&data);
    assert_eq!(s.finish(), hash32(&data, 8));

    let mut s = State64::new();
    s.reset(3);
    s.update(&data);
    s.reset(8);
    s.update(&data);
    assert_eq!(s.finish(), hash64(&data, 8));
}

#[test]
fn clone_snapshots_the_session() {
    let data = sample(70);
    let mut s = State32::new();
    s.reset(2);
    s.update(&data[..30]);
    let mut t = s.clone();
    assert_eq!(t.finish(), s.finish());
    s.update(&data[30..]);
    t.update(&data[30..]);
    assert_eq!(s.finish(), hash32(&data, 2));
    assert_eq!(t.finish(), s.finish());

    let mut s = State64::new();
    s.reset(2);
    s.update(&data[..30]);
    let mut t = s.clone();
    assert_eq!(t.finish(), s.finish());
    s.update(&data[30..]);
    t.update(&data[30..]);
    assert_eq!(s.finish(), hash64(&data, 2));
    assert_eq!(t.finish(), s.finish());
}

#[test]
fn canonical_round_trip_32() {
    for &v in &[0u32, 1, 0x12345678, 0xFFFFFFFF, 46947589, 4271296924] {
        let h = Hash32::from(v);
        assert_eq!(h.value(), v);
        assert_eq!(Hash32::from(*h.bytes()).value(), v);
    }
    let b = [0xDEu8, 0xAD, 0xBE, 0xEF];
    let h = Hash32::from(b);
    assert_eq!(h.bytes(), &b);
    assert_eq!(Hash32::from(h.value()).bytes(), &b);
    assert_eq!(h.value(), 0xDEADBEEF);
}

#[test]
fn canonical_round_trip_64() {
    for &v in &[
        0u64,
        1,
        0x123456789ABCDEF0,
        0xFFFFFFFFFFFFFFFF,
        17241709254077376921,
    ] {
        let h = Hash64::from(v);
        assert_eq!(h.value(), v);
        assert_eq!(Hash64::from(*h.bytes()).value(), v);
    }
    let b = [1u8, 2, 3, 4, 5, 6, 7, 8];
    let h = Hash64::from(b);
    assert_eq!(h.bytes(), &b);
    assert_eq!(Hash64::from(h.value()).bytes(), &b);
    assert_eq!(h.value(), 0x0102030405060708);
}

#[test]
fn one_shot_matches_streaming_across_seeds() {
    let data = sample(64);
    for seed in 0..4u32 {
        let mut s = State32::new();
        s.reset(seed);
        s.update(&data);
        assert_eq!(s.finish(), hash32(&data, seed));
    }
    for seed in 0..4u64 {
        let mut s = State64::new();
        s.reset(seed);
        s.update(&data);
        assert_eq!(s.finish(), hash64(&data, seed));
    }
}
