use blackjack::pcg::{PCG32, PCG32Seed};

#[test]
fn stream_is_deterministic() {
    let mut a = PCG32::new(42, 54);
    let mut b = PCG32::new(42, 54);
    for _ in 0..64 {
        assert_eq!(a.next_u64(), b.next_u64());
    }
}

#[test]
fn known_stream_for_fixed_seed() {
    let mut rng = PCG32::new(42, 54);
    assert_eq!(rng.next_u64(), 8827446495239300);
    assert_eq!(rng.next_u64(), 51286403595941);
    assert_eq!(rng.next_u64(), 3750745690089);
}

#[test]
fn seed_round_trip_resumes_the_stream() {
    let mut original = PCG32::new(42, 54);
    let mut restored = PCG32::from_seed(original.to_seed());
    for _ in 0..32 {
        assert_eq!(original.next_u64(), restored.next_u64());
    }
    // and mid-stream as well
    let saved = original.to_seed();
    let mut resumed = PCG32::from_seed(saved);
    for _ in 0..32 {
        assert_eq!(original.next_u64(), resumed.next_u64());
    }
}

#[test]
fn to_seed_exposes_state_and_selector() {
    let rng = PCG32::new(42, 54);
    assert_eq!(rng.to_seed(), PCG32Seed::new(42, 54));
}

#[test]
fn gen_range_stays_below_bound() {
    let mut rng = PCG32::new(7, 11);
    for bound in 1u64..100 {
        let v = rng.gen_range(bound);
        assert!(v < bound);
    }
    for _ in 0..100 {
        assert!(rng.gen_range(1) == 0);
        assert!(rng.gen_range(52) < 52);
    }
}

#[test]
fn seed_commitment_is_stable() {
    // the digest of the sixteen-byte little-endian pair (42, 54)
    let seed = PCG32Seed::new(42, 54);
    let digest = seed.sha256();
    assert_eq!(
        digest,
        "ef7ee464ea66f29c2d1ebb66f276782b9f95ba88b2ebb55bdd88d2ba20bb539a"
    );
    // repeated runs give the identical commitment
    assert_eq!(seed.sha256(), digest);
    assert_eq!(PCG32::new(42, 54).to_seed().sha256(), digest);
    assert_eq!(digest.len(), 64);
    assert!(digest.chars().all(|c| c.is_ascii_hexdigit() && !c.is_ascii_uppercase()));
}

#[test]
fn different_seeds_commit_differently() {
    let a = PCG32Seed::new(42, 54).sha256();
    let b = PCG32Seed::new(42, 55).sha256();
    let c = PCG32Seed::new(43, 54).sha256();
    assert_ne!(a, b);
    assert_ne!(a, c);
    assert_ne!(b, c);
}
