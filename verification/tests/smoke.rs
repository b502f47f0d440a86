use xxhash2::{hash32, hash64, Hash32, Hash64, State32, State64};

fn test32(data: &[u8], seed: u32, expected: u32) {
    assert_eq!(hash32(data, seed), expected);
    let mut state = State32::new();
    state.reset(seed);
    state.update(data);
    assert_eq!(state.finish(), expected);
    assert_eq!(state.finish(), expected);

    state.reset(seed);
    for i in 0..data.len() {
        state.update(&data[i..i + 1]);
    }
    assert_eq!(state.finish(), expected);
}

fn test64(data: &[u8], seed: u64, expected: u64) {
    assert_eq!(hash64(data, seed), expected);
    let mut state = State64::new();
    state.reset(seed);
    state.update(data);
    assert_eq!(state.finish(), expected);
    assert_eq!(state.finish(), expected);

    state.reset(seed);
    for i in 0..data.len() {
        state.update(&data[i..i + 1]);
    }
    assert_eq!(state.finish(), expected);
}

#[test]
fn smoke() {
    test32(&[], 0, 46947589);
    test64(&[], 0, 17241709254077376921);
    test32(&[1], 0, 949155633);
    test64(&[1], 0, 9962287286179718960);
    test32(&[1, 2, 3, 4], 0, 4271296924);
    test64(&[1, 2, 3, 4], 0, 6063570110359613137);
}

#[test]
fn hash() {
    assert_eq!(Hash32::from(0).bytes(), &[0, 0, 0, 0]);
    assert_eq!(Hash32::from(0).value(), 0);
    assert_eq!(Hash32::from(0x12345678).bytes(), &[0x12, 0x34, 0x56, 0x78]);
    assert_eq!(Hash32::from(0x12345678).value(), 0x12345678);
    assert_eq!(Hash64::from(0).bytes(), &[0, 0, 0, 0, 0, 0, 0, 0]);
    assert_eq!(Hash64::from(0).value(), 0);
    assert_eq!(
        Hash64::from(0x12345678).bytes(),
        &[0, 0, 0, 0, 0x12, 0x34, 0x56, 0x78]
    );
    assert_eq!(Hash64::from(0x12345678).value(), 0x12345678);
}
