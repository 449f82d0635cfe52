use rand_isaac::isaac::IsaacRng;
use rand_isaac::source::{SeedFromRng, SeedableRng};

#[test]
fn test_rng_32_rand_seeded() {
    let mut src = IsaacRng::new_unseeded();
    let mut s: Vec<u32> = Vec::new();
    for _ in 0..256 {
        s.push(src.next_u32());
    }
    let mut ra: IsaacRng = SeedableRng::from_seed(&s[..]);
    let mut rb: IsaacRng = SeedableRng::from_seed(&s[..]);
    for _ in 0..100 {
        assert_eq!(ra.next_u32(), rb.next_u32());
    }
}

#[test]
fn test_rng_32_seeded() {
    let seed: &[u32] = &[1, 23, 456, 7890, 12345];
    let mut ra: IsaacRng = SeedableRng::from_seed(seed);
    let mut rb: IsaacRng = SeedableRng::from_seed(seed);
    for _ in 0..100 {
        assert_eq!(ra.next_u32(), rb.next_u32());
    }
}

#[test]
fn test_rng_32_reseed() {
    let mut src = IsaacRng::new_unseeded();
    let mut s: Vec<u32> = Vec::new();
    for _ in 0..256 {
        s.push(src.next_u32());
    }
    let mut r: IsaacRng = SeedableRng::from_seed(&s[..]);
    let first: Vec<u32> = (0..100).map(|_| r.next_u32()).collect();

    r.reseed(&s[..]);

    let second: Vec<u32> = (0..100).map(|_| r.next_u32()).collect();
    assert_eq!(first, second);
}

#[test]
fn test_rng_32_true_values() {
    let seed: &[u32] = &[1, 23, 456, 7890, 12345];
    let mut ra: IsaacRng = SeedableRng::from_seed(seed);
    // Regression test that the generator is actually using the above vector
    let v = (0..10).map(|_| ra.next_u32()).collect::<Vec<_>>();
    assert_eq!(
        v,
        vec![
            2558573138, 873787463, 263499565, 2103644246, 3595684709, 4203127393, 264982119,
            2765226902, 2737944514, 3900253796
        ]
    );

    let seed: &[u32] = &[12345, 67890, 54321, 9876];
    let mut rb: IsaacRng = SeedableRng::from_seed(seed);
    // skip forward to the 10000th number
    for _ in 0..10000 {
        rb.next_u32();
    }

    let v = (0..10).map(|_| rb.next_u32()).collect::<Vec<_>>();
    assert_eq!(
        v,
        vec![
            3676831399, 3183332890, 2834741178, 3854698763, 2717568474, 1576568959, 3507990155,
            179069555, 141456972, 2478885421
        ]
    );
}

#[test]
fn determinism_32_ten_thousand_words() {
    let seed: &[u32] = &[42, 7, 1000000, 3];
    let mut ra = IsaacRng::from_seed(seed);
    let mut rb = IsaacRng::from_seed(seed);
    for _ in 0..10000 {
        assert_eq!(ra.next_u32(), rb.next_u32());
    }
}

#[test]
fn clone_fidelity_32_after_draws() {
    let seed: &[u32] = &[9, 8, 7];
    let mut rng = IsaacRng::from_seed(seed);
    // cross a refill boundary before cloning
    for _ in 0..300 {
        rng.next_u32();
    }
    let mut duplicate = rng.clone();
    for _ in 0..600 {
        assert_eq!(rng.next_u32(), duplicate.next_u32());
    }
}

#[test]
fn reseed_32_matches_fresh() {
    let seed: &[u32] = &[11, 22, 33, 44];
    let mut reseeded = IsaacRng::from_seed(seed);
    for _ in 0..37 {
        reseeded.next_u32();
    }
    reseeded.reseed(seed);
    let mut fresh = IsaacRng::from_seed(seed);
    for _ in 0..300 {
        assert_eq!(reseeded.next_u32(), fresh.next_u32());
    }
}

#[test]
fn seed_truncation_32() {
    let long: Vec<u32> = (0..300u32).map(|i| i * 17 + 1).collect();
    let mut ra = IsaacRng::from_seed(&long[..]);
    let mut rb = IsaacRng::from_seed(&long[..256]);
    for _ in 0..300 {
        assert_eq!(ra.next_u32(), rb.next_u32());
    }
}

#[test]
fn seed_padding_32() {
    let short: &[u32] = &[1, 2, 3];
    let mut padded_seed: Vec<u32> = vec![1, 2, 3];
    padded_seed.resize(256, 0);
    let mut ra = IsaacRng::from_seed(short);
    let mut rb = IsaacRng::from_seed(&padded_seed[..]);
    for _ in 0..300 {
        assert_eq!(ra.next_u32(), rb.next_u32());
    }
}

#[test]
fn next_u64_is_two_u32_low_first() {
    let seed: &[u32] = &[5, 4, 3, 2, 1];
    let mut wide = IsaacRng::from_seed(seed);
    let mut narrow = IsaacRng::from_seed(seed);
    for _ in 0..20 {
        let w = wide.next_u64();
        let low = narrow.next_u32() as u64;
        let high = narrow.next_u32() as u64;
        assert_eq!(w, low | (high << 32));
    }
}

#[test]
fn next_u128_is_two_u64_low_first() {
    let seed: &[u32] = &[5, 4, 3, 2, 1];
    let mut wide = IsaacRng::from_seed(seed);
    let mut narrow = IsaacRng::from_seed(seed);
    for _ in 0..20 {
        let w = wide.next_u128();
        let low = narrow.next_u64() as u128;
        let high = narrow.next_u64() as u128;
        assert_eq!(w, low | (high << 64));
    }
}

#[test]
fn from_rng_32_deterministic_in_source() {
    let seed: &[u32] = &[77, 88, 99];
    let mut src1 = IsaacRng::from_seed(seed);
    let mut src2 = IsaacRng::from_seed(seed);
    let mut g1 = <IsaacRng as SeedFromRng>::from_rng(&mut src1).unwrap();
    let mut g2 = <IsaacRng as SeedFromRng>::from_rng(&mut src2).unwrap();
    for _ in 0..300 {
        assert_eq!(g1.next_u32(), g2.next_u32());
    }
    // the sources were advanced identically while being drawn from
    for _ in 0..10 {
        assert_eq!(src1.next_u32(), src2.next_u32());
    }
}

#[test]
fn from_rng_32_differs_from_source_stream() {
    let seed: &[u32] = &[77, 88, 99];
    let mut src = IsaacRng::from_seed(seed);
    let mut g = IsaacRng::from_rng(&mut src).unwrap();
    let mut fresh = IsaacRng::from_seed(seed);
    // the derived generator does not replay the seed generator's stream
    let derived: Vec<u32> = (0..16).map(|_| g.next_u32()).collect();
    let source_stream: Vec<u32> = (0..16).map(|_| fresh.next_u32()).collect();
    assert_ne!(derived, source_stream);
}

#[test]
fn debug_label_is_only_a_type_tag() {
    let rng = IsaacRng::new_unseeded();
    assert_eq!(rng.debug_label(), "IsaacRng");
}
