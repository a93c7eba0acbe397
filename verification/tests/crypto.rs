use data_encoding::BASE32_NOPAD;
use ovds::crypto::{
    check_prefix_fast, derive_address, generate_keypair, validate_pattern, Backend, MatchType,
    SigningKey,
};
use sha3::Digest;

#[test]
fn address_is_56_chars() {
    let key = generate_keypair();
    let addr = derive_address(&key);
    assert_eq!(addr.len(), 56, "Tor v3 address must be 56 chars, got: {}", addr);
    assert!(addr
        .chars()
        .all(|c| "abcdefghijklmnopqrstuvwxyz234567".contains(c)));
}

#[test]
fn prefix_fast_check_works() {
    // Generate a known keypair and verify fast-prefix agrees with full address
    for _ in 0..50 {
        let key = generate_keypair();
        let pubkey = key.public_bytes();
        let full = derive_address(&key);
        let pat = full.as_bytes()[..4].to_vec();
        assert!(check_prefix_fast(&pubkey, &pat), "fast prefix must match own address");
        // pattern that shouldn't match
        let wrong: Vec<u8> = pat
            .iter()
            .map(|&b| if b == b'a' { b'b' } else { b'a' })
            .collect();
        let full_starts = full.as_bytes().starts_with(&wrong);
        assert_eq!(check_prefix_fast(&pubkey, &wrong), full_starts);
    }
}

#[test]
fn validate_rejects_invalid_chars() {
    let (ok, _) = validate_pattern("abc234");
    assert!(ok);
    let (ok, bad) = validate_pattern("abc89z");
    assert!(!ok);
    assert!(bad.contains(&3) || bad.contains(&4)); // '8' and '9' are at index 3,4
}

#[test]
fn validate_extra_cases() {
    // empty is "valid" (no invalid chars), even though pattern_valid in app rejects it
    let (ok, bad) = validate_pattern("");
    assert!(ok);
    assert!(bad.is_empty());
    // uppercase is rejected (base32 lowercase only)
    let (ok, _) = validate_pattern("ABC");
    assert!(!ok);
    // 0, 1, 8, 9 are not in base32 alphabet
    let (ok, bad) = validate_pattern("a0b1c8d9e");
    assert!(!ok);
    assert_eq!(bad, vec![1, 3, 5, 7]);
}

/// For a fixed seed the derived address must never change.
#[test]
fn address_is_deterministic_for_known_seed() {
    let seed = [0u8; 32];
    let key = SigningKey::from_bytes(&seed);
    let a = derive_address(&key);
    let b = derive_address(&key);
    assert_eq!(a, b);
    assert_eq!(a.len(), 56);
    // Independent re-derivation using only sha3 + base32 directly.
    let pubkey = ed25519_dalek::SigningKey::from_bytes(&seed).verifying_key().to_bytes();
    assert_eq!(key.public_bytes(), pubkey);
    let mut hasher = sha3::Sha3_256::new();
    hasher.update(b".onion checksum");
    hasher.update(pubkey);
    hasher.update([0x03u8]);
    let h = hasher.finalize();
    let mut payload = [0u8; 35];
    payload[..32].copy_from_slice(&pubkey);
    payload[32] = h[0];
    payload[33] = h[1];
    payload[34] = 0x03;
    let mut expected = [0u8; 56];
    BASE32_NOPAD.encode_mut(&payload, &mut expected);
    for c in expected.iter_mut() {
        *c = c.to_ascii_lowercase();
    }
    assert_eq!(a.as_bytes(), &expected);
}

/// For every prefix length the fast-path supports, fast-path on the address's
/// own prefix must agree with the truth (true), and fast-path on a deliberately
/// mutated prefix must agree with the slow-path starts_with check.
#[test]
fn prefix_fast_sweep_matches_full() {
    for _ in 0..16 {
        let key = generate_keypair();
        let pubkey = key.public_bytes();
        let full = derive_address(&key);
        let full_bytes = full.as_bytes();
        // Fast path is valid for n where ceil(n*5/8) <= 32, i.e. n <= 51.
        for n in 1..=51 {
            let pat = &full_bytes[..n];
            assert!(check_prefix_fast(&pubkey, pat), "self prefix len={n} must match");
            // mutate one char and confirm fast-path mirrors full path
            let mut wrong = pat.to_vec();
            let last = wrong[n - 1];
            wrong[n - 1] = if last == b'a' { b'b' } else { b'a' };
            let truth = full_bytes.starts_with(&wrong);
            assert_eq!(
                check_prefix_fast(&pubkey, &wrong),
                truth,
                "fast vs full disagree at n={n}"
            );
        }
        // Patterns past 51 chars need checksum bytes; fast path must bail.
        for n in [52, 53, 56] {
            if n <= full_bytes.len() {
                assert!(
                    !check_prefix_fast(&pubkey, &full_bytes[..n]),
                    "fast path should bail for n>{}",
                    51
                );
            }
        }
    }
}

#[test]
fn check_prefix_fast_empty_is_true() {
    let pubkey = [0u8; 32];
    assert!(check_prefix_fast(&pubkey, b""));
}

#[test]
fn match_type_cycle() {
    let p = MatchType::Prefix;
    assert_eq!(p.next(), MatchType::Suffix);
    assert_eq!(p.next().next(), MatchType::Anywhere);
    assert_eq!(p.next().next().next(), MatchType::Prefix);
    assert_eq!(p.prev(), MatchType::Anywhere);
    assert_eq!(MatchType::Suffix.prev(), MatchType::Prefix);
    assert_eq!(MatchType::Prefix.label(), "Prefix");
}

#[test]
fn backend_toggle() {
    assert_eq!(Backend::Cpu.toggle(), Backend::Gpu);
    assert_eq!(Backend::Gpu.toggle(), Backend::Cpu);
    assert_eq!(Backend::Cpu.label(), "CPU");
    assert_eq!(Backend::Gpu.label(), "GPU");
}
