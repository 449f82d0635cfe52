use rand_isaac::isaac64::Isaac64Rng;
use rand_isaac::source::{SeedFromRng, SeedableRng};

#[test]
fn test_rng_64_rand_seeded() {
    let mut src = Isaac64Rng::new_unseeded();
    let mut s: Vec<u64> = Vec::new();
    for _ in 0..256 {
        s.push(src.next_u64());
    }
    let mut ra: Isaac64Rng = SeedableRng::from_seed(&s[..]);
    let mut rb: Isaac64Rng = SeedableRng::from_seed(&s[..]);
    for _ in 0..100 {
        assert_eq!(ra.next_u64(), rb.next_u64());
    }
}

#[test]
fn test_rng_64_seeded() {
    let seed: &[u64] = &[1, 23, 456, 7890, 12345];
    let mut ra: Isaac64Rng = SeedableRng::from_seed(seed);
    let mut rb: Isaac64Rng = SeedableRng::from_seed(seed);
    for _ in 0..100 {
        assert_eq!(ra.next_u64(), rb.next_u64());
    }
}

#[test]
fn test_rng_64_reseed() {
    let mut src = Isaac64Rng::new_unseeded();
    let mut s: Vec<u64> = Vec::new();
    for _ in 0..256 {
        s.push(src.next_u64());
    }
    let mut r: Isaac64Rng = SeedableRng::from_seed(&s[..]);
    let first: Vec<u64> = (0..100).map(|_| r.next_u64()).collect();

    r.reseed(&s[..]);

    let second: Vec<u64> = (0..100).map(|_| r.next_u64()).collect();
    assert_eq!(first, second);
}

#[test]
fn test_rng_64_true_values() {
    let seed: &[u64] = &[1, 23, 456, 7890, 12345];
    let mut ra: Isaac64Rng = SeedableRng::from_seed(seed);
    // Regression test that the generator is actually using the above vector
    let v = (0..10).map(|_| ra.next_u64()).collect::<Vec<_>>();
    assert_eq!(
        v,
        vec![
            547121783600835980,
            14377643087320773276,
            17351601304698403469,
            1238879483818134882,
            11952566807690396487,
            13970131091560099343,
            4469761996653280935,
            15552757044682284409,
            6860251611068737823,
            13722198873481261842
        ]
    );

    let seed: &[u64] = &[12345, 67890, 54321, 9876];
    let mut rb: Isaac64Rng = SeedableRng::from_seed(seed);
    // skip forward to the 10000th number
    for _ in 0..10000 {
        rb.next_u64();
    }

    let v = (0..10).map(|_| rb.next_u64()).collect::<Vec<_>>();
    assert_eq!(
        v,
        vec![
            18143823860592706164,
            8491801882678285927,
            2699425367717515619,
            17196852593171130876,
            2606123525235546165,
            15790932315217671084,
            596345674630742204,
            9947027391921273664,
            11788097613744130851,
            10391409374914919106
        ]
    );
}

#[test]
fn test_rng_clone() {
    let seed: &[u64] = &[1, 23, 456, 7890, 12345];
    let mut rng: Isaac64Rng = SeedableRng::from_seed(seed);
    let mut duplicate = rng.clone();
    for _ in 0..16 {
        assert_eq!(rng.next_u64(), duplicate.next_u64());
    }
}

#[test]
fn determinism_64_ten_thousand_words() {
    let seed: &[u64] = &[42, 7, 1000000, 3];
    let mut ra = Isaac64Rng::from_seed(seed);
    let mut rb = Isaac64Rng::from_seed(seed);
    for _ in 0..10000 {
        assert_eq!(ra.next_u64(), rb.next_u64());
    }
}

#[test]
fn clone_fidelity_64_after_draws() {
    let seed: &[u64] = &[9, 8, 7];
    let mut rng = Isaac64Rng::from_seed(seed);
    // cross a refill boundary before cloning
    for _ in 0..300 {
        rng.next_u64();
    }
    let mut duplicate = rng.clone();
    for _ in 0..600 {
        assert_eq!(rng.next_u64(), duplicate.next_u64());
    }
}

#[test]
fn reseed_64_matches_fresh() {
    let seed: &[u64] = &[11, 22, 33, 44];
    let mut reseeded = Isaac64Rng::from_seed(seed);
    for _ in 0..37 {
        reseeded.next_u64();
    }
    reseeded.reseed(seed);
    let mut fresh = Isaac64Rng::from_seed(seed);
    for _ in 0..300 {
        assert_eq!(reseeded.next_u64(), fresh.next_u64());
    }
}

#[test]
fn seed_truncation_64() {
    let long: Vec<u64> = (0..300u64).map(|i| i * 17 + 1).collect();
    let mut ra = Isaac64Rng::from_seed(&long[..]);
    let mut rb = Isaac64Rng::from_seed(&long[..256]);
    for _ in 0..300 {
        assert_eq!(ra.next_u64(), rb.next_u64());
    }
}

#[test]
fn seed_padding_64() {
    let short: &[u64] = &[1, 2, 3];
    let mut padded_seed: Vec<u64> = vec![1, 2, 3];
    padded_seed.resize(256, 0);
    let mut ra = Isaac64Rng::from_seed(short);
    let mut rb = Isaac64Rng::from_seed(&padded_seed[..]);
    for _ in 0..300 {
        assert_eq!(ra.next_u64(), rb.next_u64());
    }
}

#[test]
fn next_u32_truncates_a_fresh_u64() {
    let seed: &[u64] = &[5, 4, 3, 2, 1];
    let mut narrow = Isaac64Rng::from_seed(seed);
    let mut wide = Isaac64Rng::from_seed(seed);
    for _ in 0..20 {
        assert_eq!(narrow.next_u32() as u64, wide.next_u64() & 0xffff_ffff);
    }
}

#[test]
fn next_u128_is_two_u64_low_first_64() {
    let seed: &[u64] = &[5, 4, 3, 2, 1];
    let mut wide = Isaac64Rng::from_seed(seed);
    let mut narrow = Isaac64Rng::from_seed(seed);
    for _ in 0..20 {
        let w = wide.next_u128();
        let low = narrow.next_u64() as u128;
        let high = narrow.next_u64() as u128;
        assert_eq!(w, low | (high << 64));
    }
}

#[test]
fn from_rng_64_deterministic_in_source() {
    let seed: &[u64] = &[77, 88, 99];
    let mut src1 = Isaac64Rng::from_seed(seed);
    let mut src2 = Isaac64Rng::from_seed(seed);
    let mut g1 = <Isaac64Rng as SeedFromRng>::from_rng(&mut src1).unwrap();
    let mut g2 = <Isaac64Rng as SeedFromRng>::from_rng(&mut src2).unwrap();
    for _ in 0..300 {
        assert_eq!(g1.next_u64(), g2.next_u64());
    }
    for _ in 0..10 {
        assert_eq!(src1.next_u64(), src2.next_u64());
    }
}

#[test]
fn debug_label_is_only_a_type_tag_64() {
    let rng = Isaac64Rng::new_unseeded();
    assert_eq!(rng.debug_label(), "Isaac64Rng");
}
