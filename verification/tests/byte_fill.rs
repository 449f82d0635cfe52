use rand_isaac::isaac::IsaacRng;
use rand_isaac::isaac64::Isaac64Rng;
use rand_isaac::source::{combine_u32, combine_u64, fill_bytes_via_u32, fill_bytes_via_u64,
                         next_u128_via_u64, next_u64_via_u32, Rng};

fn le32(w: u32) -> [u8; 4] {
    [
        (w % 256) as u8,
        ((w / 256) % 256) as u8,
        ((w / 65536) % 256) as u8,
        ((w / 16777216) % 256) as u8,
    ]
}

fn le64(w: u64) -> [u8; 8] {
    let mut out = [0u8; 8];
    let mut v = w;
    for slot in out.iter_mut() {
        *slot = (v % 256) as u8;
        v /= 256;
    }
    out
}

#[test]
fn fill_bytes_32_matches_words_exact_multiple() {
    let seed: &[u32] = &[3, 1, 4, 1, 5];
    let mut filler = IsaacRng::from_seed(seed);
    let mut worder = IsaacRng::from_seed(seed);
    let mut buf = vec![0u8; 12];
    filler.fill_bytes(&mut buf);
    let mut expected: Vec<u8> = Vec::new();
    for _ in 0..3 {
        expected.extend_from_slice(&le32(worder.next_u32()));
    }
    assert_eq!(buf, expected);
    // both generators consumed the same amount of stream
    assert_eq!(filler.next_u32(), worder.next_u32());
}

#[test]
fn fill_bytes_32_partial_trailing_chunk() {
    let seed: &[u32] = &[3, 1, 4, 1, 5];
    for len in [1usize, 2, 3, 5, 6, 7, 9, 10, 11] {
        let mut filler = IsaacRng::from_seed(seed);
        let mut worder = IsaacRng::from_seed(seed);
        let mut buf = vec![0u8; len];
        filler.fill_bytes(&mut buf);
        let mut expected: Vec<u8> = Vec::new();
        while expected.len() < len {
            expected.extend_from_slice(&le32(worder.next_u32()));
        }
        expected.truncate(len);
        assert_eq!(buf, expected, "buffer length {}", len);
        // the extra word's unused bytes are discarded, not replayed
        assert_eq!(filler.next_u32(), worder.next_u32());
    }
}

#[test]
fn fill_bytes_64_matches_words() {
    let seed: &[u64] = &[3, 1, 4, 1, 5];
    for len in [1usize, 7, 8, 16, 20, 33] {
        let mut filler = Isaac64Rng::from_seed(seed);
        let mut worder = Isaac64Rng::from_seed(seed);
        let mut buf = vec![0u8; len];
        filler.fill_bytes(&mut buf);
        let mut expected: Vec<u8> = Vec::new();
        while expected.len() < len {
            expected.extend_from_slice(&le64(worder.next_u64()));
        }
        expected.truncate(len);
        assert_eq!(buf, expected, "buffer length {}", len);
        assert_eq!(filler.next_u64(), worder.next_u64());
    }
}

#[test]
fn try_fill_always_succeeds_and_matches_fill() {
    let seed: &[u32] = &[2, 7, 1, 8];
    let mut a = IsaacRng::from_seed(seed);
    let mut b = IsaacRng::from_seed(seed);
    let mut buf_a = vec![0u8; 17];
    let mut buf_b = vec![0u8; 17];
    a.fill_bytes(&mut buf_a);
    assert!(b.try_fill(&mut buf_b).is_ok());
    assert_eq!(buf_a, buf_b);

    let seed64: &[u64] = &[2, 7, 1, 8];
    let mut c = Isaac64Rng::from_seed(seed64);
    let mut d = Isaac64Rng::from_seed(seed64);
    let mut buf_c = vec![0u8; 17];
    let mut buf_d = vec![0u8; 17];
    c.fill_bytes(&mut buf_c);
    assert!(d.try_fill(&mut buf_d).is_ok());
    assert_eq!(buf_c, buf_d);
}

#[test]
fn derivation_helpers_little_endian() {
    assert_eq!(combine_u32(1, 2), 1u64 | (2u64 << 32));
    assert_eq!(combine_u32(0xffff_ffff, 0), 0xffff_ffffu64);
    assert_eq!(combine_u64(1, 2), 1u128 | (2u128 << 64));

    let seed: &[u32] = &[6, 2, 8];
    let mut derived = IsaacRng::from_seed(seed);
    let mut direct = IsaacRng::from_seed(seed);
    let w = next_u64_via_u32(&mut derived);
    let low = direct.next_u32() as u64;
    let high = direct.next_u32() as u64;
    assert_eq!(w, low | (high << 32));

    let mut derived = IsaacRng::from_seed(seed);
    let mut direct = IsaacRng::from_seed(seed);
    let w = next_u128_via_u64(&mut derived);
    let low = direct.next_u64() as u128;
    let high = direct.next_u64() as u128;
    assert_eq!(w, low | (high << 64));
}

#[test]
fn generic_fill_helpers_little_endian() {
    let seed: &[u32] = &[6, 2, 8];
    let mut filler = IsaacRng::from_seed(seed);
    let mut worder = IsaacRng::from_seed(seed);
    let mut buf = vec![0u8; 9];
    fill_bytes_via_u32(&mut filler, &mut buf);
    let mut expected: Vec<u8> = Vec::new();
    while expected.len() < 9 {
        expected.extend_from_slice(&le32(worder.next_u32()));
    }
    expected.truncate(9);
    assert_eq!(buf, expected);

    let seed64: &[u64] = &[6, 2, 8];
    let mut filler = Isaac64Rng::from_seed(seed64);
    let mut worder = Isaac64Rng::from_seed(seed64);
    let mut buf = vec![0u8; 13];
    fill_bytes_via_u64(&mut filler, &mut buf);
    let mut expected: Vec<u8> = Vec::new();
    while expected.len() < 13 {
        expected.extend_from_slice(&le64(worder.next_u64()));
    }
    expected.truncate(13);
    assert_eq!(buf, expected);
}

#[test]
fn a_mutable_reference_is_itself_a_source() {
    let seed: &[u32] = &[6, 2, 8];
    let mut rng = IsaacRng::from_seed(seed);
    let mut direct = IsaacRng::from_seed(seed);
    // every call through the reference forwards unchanged
    let mut by_ref: &mut IsaacRng = &mut rng;
    let w = next_u64_via_u32(&mut by_ref);
    let low = direct.next_u32() as u64;
    let high = direct.next_u32() as u64;
    assert_eq!(w, low | (high << 32));

    let mut boxed: Box<IsaacRng> = Box::new(IsaacRng::from_seed(seed));
    let mut fresh = IsaacRng::from_seed(seed);
    let mut buf_a = vec![0u8; 10];
    let mut buf_b = vec![0u8; 10];
    Rng::fill_bytes(&mut boxed, &mut buf_a);
    fresh.fill_bytes(&mut buf_b);
    assert_eq!(buf_a, buf_b);
}
