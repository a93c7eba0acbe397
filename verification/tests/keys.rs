//! Keys, addresses, matching and key files.

use data_encoding::BASE32_NOPAD;
use ovds::base32::encode_lower;
use ovds::crypto::{
    address_contains, address_ends_with, address_from_pubkey, address_starts_with, address_text,
    address_with_hash, assemble_files, clamp_expanded, derive_address, derive_address_into, expand_seed,
    generate_keypair, key_files, key_files_expanded, key_files_with_prefix, key_matches,
    MatchType, SigningKey,
};
use ovds::gpu::{rebuild_pubkey, GpuKeyPair};
use ovds::search::{found_key, found_pair, search_round, try_key};
use sha2::Digest;

fn unhex(s: &str) -> [u8; 32] {
    let mut out = [0u8; 32];
    for (i, b) in out.iter_mut().enumerate() {
        *b = u8::from_str_radix(&s[2 * i..2 * i + 2], 16).unwrap();
    }
    out
}

fn known_seed() -> [u8; 32] {
    unhex("9d61b19deffd5a60ba844af492ec2cc44449c5697b326919703bac031cae7f60")
}

fn known_public() -> [u8; 32] {
    unhex("d75a980182b10ab7d54bfed3c964073a0ee172f3daa62325af021a68f707511a")
}

#[test]
fn public_key_of_a_known_seed() {
    let key = SigningKey::from_bytes(&known_seed());
    assert_eq!(key.to_bytes(), known_seed());
    assert_eq!(key.public_bytes(), known_public());
}

#[test]
fn scalar_of_a_seed_gives_its_public_key() {
    let expanded = expand_seed(&known_seed());
    let mut scalar = [0u8; 32];
    scalar.copy_from_slice(&expanded[..32]);
    assert_eq!(rebuild_pubkey(&scalar), known_public());
    for _ in 0..10 {
        let key = generate_keypair();
        let kept = found_key(&key);
        scalar.copy_from_slice(&kept.files.secret_key[32..64]);
        assert_eq!(rebuild_pubkey(&scalar), key.public_bytes());
        assert_eq!(kept.files.public_key[32..], key.public_bytes());
    }
}

#[test]
fn fresh_keys_differ() {
    let a = generate_keypair();
    let b = generate_keypair();
    assert_ne!(a.to_bytes(), b.to_bytes());
    assert_eq!(SigningKey::from_bytes(&a.to_bytes()).public_bytes(), a.public_bytes());
}

#[test]
fn seeds_expand_by_sha512() {
    let seed = known_seed();
    let hash = sha2::Sha512::digest(seed);
    let expanded = expand_seed(&seed);
    assert_eq!(expanded[0], hash[0] & 248);
    assert_eq!(expanded[31], (hash[31] & 63) | 64);
    assert_eq!(&expanded[1..31], &hash[1..31]);
    assert_eq!(&expanded[32..], &hash[32..]);
    assert_ne!(&expanded[..32], &seed[..]);
}

#[test]
fn clamping_fixes_five_bits() {
    let all = clamp_expanded(&[0xFF; 64]);
    assert_eq!((all[0], all[31], all[32]), (0xF8, 0x7F, 0xFF));
    let none = clamp_expanded(&[0; 64]);
    assert_eq!((none[0], none[31], none[32]), (0, 0x40, 0));
}

#[test]
fn base32_in_lower_case() {
    assert_eq!(encode_lower(&[0x00, 0x44, 0x32, 0x14, 0xC7]), b"abcdefgh".to_vec());
    assert_eq!(encode_lower(&[0xFF]), b"74".to_vec());
    assert_eq!(encode_lower(&[]), Vec::<u8>::new());
    let bytes: Vec<u8> = (0..35).collect();
    let upper = BASE32_NOPAD.encode(&bytes);
    assert_eq!(encode_lower(&bytes), upper.to_lowercase().into_bytes());
}

#[test]
fn address_of_a_known_key() {
    let public = known_public();
    let mut message = b".onion checksum".to_vec();
    message.extend_from_slice(&public);
    message.push(3);
    let hash: [u8; 32] = sha3::Sha3_256::digest(&message).into();
    let mut payload = public.to_vec();
    payload.extend_from_slice(&hash[..2]);
    payload.push(3);
    let want = BASE32_NOPAD.encode(&payload).to_lowercase();
    assert_eq!(address_text(&public), want);
    assert_eq!(address_with_hash(&public, &hash).to_vec(), want.clone().into_bytes());
    assert_eq!(address_from_pubkey(&public).to_vec(), want.clone().into_bytes());
    let key = SigningKey::from_bytes(&known_seed());
    assert_eq!(derive_address(&key), want);
    let mut buf = [0u8; 56];
    derive_address_into(&key, &mut buf);
    assert_eq!(buf.to_vec(), want.into_bytes());
}

#[test]
fn addresses_end_in_d() {
    for _ in 0..5 {
        let address = derive_address(&generate_keypair());
        assert!(address.ends_with('d'), "version byte 3 shows as d: {}", address);
    }
}

#[test]
fn matching_by_type() {
    let public = known_public();
    let addr = address_from_pubkey(&public);
    let head = addr[..5].to_vec();
    let tail = addr[50..].to_vec();
    let middle = addr[20..30].to_vec();
    assert!(key_matches(&MatchType::Prefix, &head, &public));
    assert!(!key_matches(&MatchType::Prefix, &middle, &public));
    assert!(key_matches(&MatchType::Suffix, &tail, &public));
    assert!(!key_matches(&MatchType::Suffix, &middle, &public));
    assert!(key_matches(&MatchType::Anywhere, &middle, &public));
    assert!(key_matches(&MatchType::Anywhere, &head, &public));
    assert!(key_matches(&MatchType::Anywhere, &tail, &public));
    assert!(!key_matches(&MatchType::Anywhere, b"0", &public));
    assert!(address_ends_with(&addr, &addr));
    assert!(address_ends_with(&addr, b""));
    assert!(address_contains(&addr, &addr));
    let long = [b'a'; 57];
    assert!(!address_ends_with(&addr, &long));
    assert!(!address_contains(&addr, &long));
    // A prefix that reaches into the checksum takes the whole address.
    for n in [51, 52, 56] {
        assert!(key_matches(&MatchType::Prefix, &addr[..n], &public));
        let mut other = addr[..n].to_vec();
        other[n - 1] = b'0';
        assert!(!key_matches(&MatchType::Prefix, &other, &public));
    }
    assert!(!key_matches(&MatchType::Prefix, &long, &public));
    assert!(address_starts_with(&addr, b""));
}

#[test]
fn key_files_as_tor_wants_them() {
    let key = SigningKey::from_bytes(&known_seed());
    let address = derive_address(&key);
    let files = key_files(&key, &address);
    assert_eq!(files.dir_name, format!("{}.onion", &address[..16]));
    assert_eq!(files.hostname, format!("{}.onion\n", address));
    assert_eq!(files.public_key.len(), 64);
    assert_eq!(files.secret_key.len(), 96);
    assert_eq!(&files.public_key[..32], b"== ed25519v1-public: type0 ==\0\0\0");
    assert_eq!(&files.secret_key[..32], b"== ed25519v1-secret: type0 ==\0\0\0");
    assert_eq!(&files.public_key[32..], &known_public()[..]);
    assert_eq!(&files.secret_key[32..], &expand_seed(&known_seed())[..]);
}

#[test]
fn short_names_keep_their_length() {
    let files = assemble_files(&[1; 32], &[2; 64], "abc");
    assert_eq!(files.dir_name, "abc.onion");
    assert_eq!(files.hostname, "abc.onion\n");
}

#[test]
fn device_keys_get_a_random_prefix() {
    let scalar = [7u8; 32];
    let public = rebuild_pubkey(&scalar);
    let address = address_text(&public);
    let fixed = key_files_with_prefix(&public, &scalar, &[9; 32], &address);
    assert_eq!(&fixed.secret_key[32..64], &scalar[..]);
    assert_eq!(&fixed.secret_key[64..], &[9u8; 32][..]);
    let a = key_files_expanded(&public, &scalar, &address);
    let b = key_files_expanded(&public, &scalar, &address);
    assert_eq!(a.secret_key[..64], b.secret_key[..64]);
    assert_ne!(a.secret_key[64..], b.secret_key[64..]);
    assert_eq!(a.public_key, b.public_key);
}

#[test]
fn round_finds_a_short_prefix() {
    let mut found = false;
    for _ in 0..200 {
        let round = search_round(&MatchType::Prefix, b"a");
        assert!(round.attempts >= 1 && round.attempts <= 64);
        if let Some(key) = round.hit {
            let kept = found_key(&key);
            assert!(kept.address.starts_with('a'));
            assert!(try_key(&key, &MatchType::Prefix, b"a"));
            assert_eq!(kept.files.hostname, format!("{}.onion\n", kept.address));
            found = true;
            break;
        }
        assert_eq!(round.attempts, 64);
    }
    assert!(found, "one key in 32 starts with a");
}

#[test]
fn round_without_a_find_tries_sixty_four() {
    let round = search_round(&MatchType::Suffix, b"a");
    assert_eq!(round.attempts, 64);
    assert!(round.hit.is_none(), "every address ends in d");
    let round = search_round(&MatchType::Anywhere, b"d");
    assert_eq!(round.attempts, 1);
    assert!(round.hit.is_some());
}

#[test]
fn patterns_of_every_key_are_found_at_once() {
    let certain: [(MatchType, &[u8]); 4] = [
        (MatchType::Suffix, b"d"),
        (MatchType::Prefix, b""),
        (MatchType::Suffix, b""),
        (MatchType::Anywhere, b"d"),
    ];
    for (match_type, pattern) in certain {
        for _ in 0..8 {
            let round = search_round(&match_type, pattern);
            assert_eq!(round.attempts, 1);
            assert!(try_key(&round.hit.unwrap(), &match_type, pattern));
        }
    }
}

#[test]
fn device_find_is_kept() {
    let scalar = [11u8; 32];
    let pair = GpuKeyPair { pubkey: rebuild_pubkey(&scalar), scalar };
    let kept = found_pair(&pair);
    assert_eq!(kept.address, address_text(&pair.pubkey));
    assert_eq!(&kept.files.secret_key[32..64], &scalar[..]);
    assert_eq!(&kept.files.public_key[32..], &pair.pubkey[..]);
}
