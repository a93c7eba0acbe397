//! One worker's share of a search on the CPU, and what is kept of a find.

use crate::crypto;
use crate::crypto::{
    address_text, derive_address, generate_keypair, key_files, key_files_expanded, key_matches,
    KeyFiles, MatchType, SigningKey,
};
use crate::gpu::GpuKeyPair;
use crate::text;
use vstd::prelude::*;
use vstd::utf8::*;

verus! {

/// Keys tried between two looks at the stop flag.
pub const ROUND_LEN: u64 = 64;

/// A key that matched: its address and the files to write for it.
pub struct FoundKey {
    pub address: String,
    pub files: KeyFiles,
}

/// What a round of the search came to.
pub struct Round {
    /// Keys tried.
    pub attempts: u64,
    /// The key that matched, if one did.
    pub hit: Option<SigningKey>,
}

/// The public key that belongs to a key's seed.
pub open spec fn public_of(key: &SigningKey) -> Seq<u8> {
    crypto::ed25519_public_key(key.seed_bytes())
}

/// Whether a key matches.
pub fn try_key(key: &SigningKey, match_type: &MatchType, pattern: &[u8]) -> (r: bool)
    requires
        match_type is Anywhere ==> pattern@.len() > 0,
    ensures
        r == crypto::accepts(*match_type, pattern@, public_of(key)),
{
    let public: [u8; 32] = key.public_bytes();
    key_matches(match_type, pattern, &public)
}

/// What a round came to on the seeds that were drawn, in their order: every seed but the
/// last has a key that does not match. Either the last one's key matches and is the hit, or
/// it does not match either and the round is at its end.
pub open spec fn round_over(
    seeds: Seq<Seq<u8>>,
    match_type: MatchType,
    pattern: Seq<u8>,
    r: Round,
) -> bool {
    &&& seeds.len() == r.attempts
    &&& forall|k: int| 0 <= k < seeds.len() ==> (#[trigger] seeds[k]).len() == 32
    &&& forall|k: int|
        0 <= k < seeds.len() - 1 ==> !crypto::accepts(
            match_type,
            pattern,
            crypto::ed25519_public_key(#[trigger] seeds[k]),
        )
    &&& match r.hit {
        Some(key) => key.seed_bytes() == seeds.last() && crypto::accepts(
            match_type,
            pattern,
            public_of(&key),
        ),
        None => r.attempts == ROUND_LEN && !crypto::accepts(
            match_type,
            pattern,
            crypto::ed25519_public_key(seeds.last()),
        ),
    }
}

/// Tries fresh keys until one matches or the round is over. Which keys is up to chance;
/// the first of them that matches is the hit.
pub fn search_round(match_type: &MatchType, pattern: &[u8]) -> (r: Round)
    requires
        match_type is Anywhere ==> pattern@.len() > 0,
    ensures
        1 <= r.attempts <= ROUND_LEN,
        exists|seeds: Seq<Seq<u8>>| #[trigger] round_over(seeds, *match_type, pattern@, r),
{
    let mut attempts: u64 = 0;
    let ghost mut seeds: Seq<Seq<u8>> = Seq::empty();
    while attempts < ROUND_LEN
        invariant
            match_type is Anywhere ==> pattern@.len() > 0,
            attempts <= ROUND_LEN,
            seeds.len() == attempts,
            forall|k: int| 0 <= k < seeds.len() ==> (#[trigger] seeds[k]).len() == 32,
            forall|k: int|
                0 <= k < seeds.len() ==> !crypto::accepts(
                    *match_type,
                    pattern@,
                    crypto::ed25519_public_key(#[trigger] seeds[k]),
                ),
        decreases ROUND_LEN - attempts,
    {
        let key: SigningKey = generate_keypair();
        attempts = attempts + 1;
        let ghost before = seeds;
        proof {
            seeds = seeds.push(key.seed_bytes());
        }
        if try_key(&key, match_type, pattern) {
            let r: Round = Round { attempts, hit: Some(key) };
            assert forall|k: int| 0 <= k < seeds.len() - 1 implies !crypto::accepts(
                *match_type,
                pattern@,
                crypto::ed25519_public_key(#[trigger] seeds[k]),
            ) by {
                assert(seeds[k] == before[k]);
            }
            assert(round_over(seeds, *match_type, pattern@, r));
            return r;
        }
        assert forall|k: int| 0 <= k < seeds.len() implies !crypto::accepts(
            *match_type,
            pattern@,
            crypto::ed25519_public_key(#[trigger] seeds[k]),
        ) by {
            if k < before.len() {
                assert(seeds[k] == before[k]);
            }
        }
    }
    let r: Round = Round { attempts, hit: None };
    assert(round_over(seeds, *match_type, pattern@, r));
    r
}

/// A pattern that every key has is found at the first attempt.
pub proof fn law_certain_pattern(
    seeds: Seq<Seq<u8>>,
    match_type: MatchType,
    pattern: Seq<u8>,
    r: Round,
)
    requires
        round_over(seeds, match_type, pattern, r),
        r.attempts >= 1,
        forall|public: Seq<u8>|
            public.len() == 32 ==> #[trigger] crypto::accepts(match_type, pattern, public),
    ensures
        r.attempts == 1,
        r.hit is Some,
{
    assert forall|k: int| 0 <= k < seeds.len() implies crypto::accepts(
        match_type,
        pattern,
        crypto::ed25519_public_key(#[trigger] seeds[k]),
    ) by {
        assert(crypto::ed25519_public_key(seeds[k]).len() == 32);
    }
    if seeds.len() > 1 {
        assert(!crypto::accepts(match_type, pattern, crypto::ed25519_public_key(seeds[0])));
    }
    assert(seeds[seeds.len() - 1] == seeds.last());
}

/// Every key has the empty prefix and the empty suffix, and a `d` at the end of its address.
pub proof fn law_every_key(public: Seq<u8>)
    requires
        public.len() == 32,
    ensures
        crypto::accepts(MatchType::Prefix, Seq::empty(), public),
        crypto::accepts(MatchType::Suffix, Seq::empty(), public),
        crypto::accepts(MatchType::Suffix, seq![100u8], public),
        crypto::accepts(MatchType::Anywhere, seq![100u8], public),
{
    let addr = crypto::onion_address(public);
    crypto::law_address_shape(public);
    crypto::law_address_ends_in_d(public);
    assert(addr.subrange(56, 56) =~= Seq::<u8>::empty());
    assert(addr.subrange(55, 56) =~= seq![100u8]);
    assert(crypto::occurs_at(seq![100u8], addr, 55));
}

/// An address is ASCII text of 56 characters.
proof fn lemma_address_text(public: Seq<u8>)
    requires
        public.len() == 32,
    ensures
        is_ascii_chars(text::chars_of(crypto::onion_address(public))),
        text::chars_of(crypto::onion_address(public)).len() == 56,
{
    crypto::law_address_shape(public);
    let addr = crypto::onion_address(public);
    let c = text::chars_of(addr);
    assert forall|i: int| 0 <= i < c.len() implies '\0' <= #[trigger] c[i] <= '\u{7f}' by {
        assert(addr[i] < 128);
        assert(text::base32_char(addr[i] as char));
    }
}

/// What to keep of a key that matched. The secret that is saved opens the public key.
pub fn found_key(key: &SigningKey) -> (r: FoundKey)
    ensures
        r.address@ == text::chars_of(crypto::onion_address(public_of(key))),
        crypto::files_hold(
            r.files,
            r.address@,
            public_of(key),
            crypto::clamped(crypto::sha512(key.seed_bytes())),
        ),
        crypto::sha512(key.seed_bytes()).len() == 64,
        crypto::secret_opens(r.files),
{
    let address: String = derive_address(key);
    let public: [u8; 32] = key.public_bytes();
    proof {
        lemma_address_text(public@);
        crypto::law_dir_name(address@);
    }
    let files: KeyFiles = key_files(key, address.as_str());
    proof {
        let expanded = crypto::clamped(crypto::sha512(key.seed_bytes()));
        assert(files.secret_key@.len() == 32 + expanded.len());
        crypto::law_seed_opens(key.seed_bytes());
        crypto::law_saved_secret_opens(files, address@, public_of(key), expanded);
    }
    FoundKey { address, files }
}

/// What to keep of a key from the device. The nonce prefix is drawn by chance.
pub fn found_pair(kp: &GpuKeyPair) -> (r: FoundKey)
    ensures
        r.address@ == text::chars_of(crypto::onion_address(kp.pubkey@)),
        exists|prefix: Seq<u8>|
            prefix.len() == 32 && #[trigger] crypto::files_hold(
                r.files,
                r.address@,
                kp.pubkey@,
                kp.scalar@ + prefix,
            ),
        crypto::scalar_opens(kp.scalar@, kp.pubkey@) ==> crypto::secret_opens(r.files),
{
    let address: String = address_text(&kp.pubkey);
    proof {
        lemma_address_text(kp.pubkey@);
        crypto::law_dir_name(address@);
    }
    let files: KeyFiles = key_files_expanded(&kp.pubkey, &kp.scalar, address.as_str());
    let ghost prefix = choose|prefix: Seq<u8>|
        prefix.len() == 32 && #[trigger] crypto::files_hold(
            files,
            address@,
            kp.pubkey@,
            kp.scalar@ + prefix,
        );
    proof {
        if crypto::scalar_opens(kp.scalar@, kp.pubkey@) {
            assert((kp.scalar@ + prefix).take(32) =~= kp.scalar@);
            crypto::law_saved_secret_opens(files, address@, kp.pubkey@, kp.scalar@ + prefix);
        }
    }
    let r: FoundKey = FoundKey { address, files };
    assert(crypto::files_hold(r.files, r.address@, kp.pubkey@, kp.scalar@ + prefix));
    r
}

/// What a search finds, its address shows: the pattern stands in the address where the
/// match type wants it.
pub proof fn law_find_shows_pattern(match_type: MatchType, pattern: Seq<u8>, public: Seq<u8>)
    requires
        public.len() == 32,
        crypto::accepts(match_type, pattern, public),
    ensures
        match match_type {
            MatchType::Prefix => crypto::is_prefix(pattern, crypto::onion_address(public)),
            MatchType::Suffix => crypto::is_suffix(pattern, crypto::onion_address(public)),
            MatchType::Anywhere => crypto::occurs(pattern, crypto::onion_address(public)),
        },
        pattern.len() <= 56,
{
    crypto::law_address_shape(public);
}

/// What a round comes to, said of addresses: the hit has the pattern in its address where
/// the match type wants it, every key that was tried before it has not, and a round without
/// a hit tried sixty-four keys that all have not.
pub proof fn law_round(match_type: MatchType, pattern: &[u8], r: Round)
    requires
        call_ensures(search_round, (&match_type, pattern), r),
    ensures
        1 <= r.attempts <= 64,
        r.hit is None ==> r.attempts == 64,
        exists|seeds: Seq<Seq<u8>>| #[trigger]
            seeds.len() == r.attempts && (r.hit matches Some(key) ==> key.seed_bytes()
                == seeds.last()) && forall|k: int|
                0 <= k < seeds.len() ==> (#[trigger] seeds[k]).len() == 32 && shows(
                    match_type,
                    pattern@,
                    crypto::onion_address(crypto::ed25519_public_key(seeds[k])),
                ) == (r.hit is Some && k == r.attempts - 1),
{
    let seeds = choose|seeds: Seq<Seq<u8>>| #[trigger] round_over(seeds, match_type, pattern@, r);
    assert forall|k: int| 0 <= k < seeds.len() implies (#[trigger] seeds[k]).len() == 32 && shows(
        match_type,
        pattern@,
        crypto::onion_address(crypto::ed25519_public_key(seeds[k])),
    ) == (r.hit is Some && k == r.attempts - 1) by {
        let public = crypto::ed25519_public_key(seeds[k]);
        law_shown_is_accepted(match_type, pattern@, public);
        if k < seeds.len() - 1 {
            assert(!crypto::accepts(match_type, pattern@, public));
        }
    }
    assert(seeds.len() == r.attempts);
}

/// `addr` has `pattern` where `match_type` wants it.
pub open spec fn shows(match_type: MatchType, pattern: Seq<u8>, addr: Seq<u8>) -> bool {
    let n = pattern.len() as int;
    &&& n <= addr.len()
    &&& match_type is Prefix ==> addr.take(n) == pattern
    &&& match_type is Suffix ==> addr.skip(addr.len() - n) == pattern
    &&& match_type is Anywhere ==> exists|i: int|
        0 <= i <= addr.len() - n && #[trigger] addr.subrange(i, i + n) == pattern
}

/// What the search accepts are the keys whose address shows the pattern: no other, and
/// every one of them.
pub proof fn law_shown_is_accepted(match_type: MatchType, pattern: Seq<u8>, public: Seq<u8>)
    requires
        public.len() == 32,
    ensures
        crypto::accepts(match_type, pattern, public) <==> shows(
            match_type,
            pattern,
            crypto::onion_address(public),
        ),
{
    crypto::law_accepted_exactly(match_type, pattern, public);
}

/// Trying a key says whether its address shows the pattern.
pub proof fn law_try_key(key: SigningKey, match_type: MatchType, pattern: &[u8], r: bool)
    requires
        call_ensures(try_key, (&key, &match_type, pattern), r),
    ensures
        r == shows(
            match_type,
            pattern@,
            crypto::onion_address(crypto::ed25519_public_key(key.seed_bytes())),
        ),
{
    law_shown_is_accepted(
        match_type,
        pattern@,
        crypto::ed25519_public_key(key.seed_bytes()),
    );
}

/// What is kept of a find belongs together: the address is that of the public key on file,
/// it is the one in `hostname`, and its first sixteen characters name the directory.
pub proof fn law_find_belongs_together(key: SigningKey, kp: GpuKeyPair, r: FoundKey)
    requires
        call_ensures(found_key, (&key,), r) || call_ensures(found_pair, (&kp,), r),
    ensures
        r.address@.len() == 56,
        forall|i: int|
            0 <= i < 56 ==> (#[trigger] r.address@[i]) as int == crypto::onion_address(
                r.files.public_key@.skip(32),
            )[i],
        r.files.hostname@ == r.address@ + ".onion\n"@,
        r.files.dir_name@ == r.address@.take(16) + ".onion"@,
        call_ensures(found_key, (&key,), r) ==> r.files.public_key@.skip(32)
            == crypto::ed25519_public_key(key.seed_bytes()),
        call_ensures(found_pair, (&kp,), r) ==> r.files.public_key@.skip(32) == kp.pubkey@
            && r.files.secret_key@.subrange(32, 64) == kp.scalar@,
{
    if call_ensures(found_key, (&key,), r) {
        let public = crypto::ed25519_public_key(key.seed_bytes());
        lemma_find(
            r,
            public,
            crypto::clamped(crypto::sha512(key.seed_bytes())),
        );
    }
    if call_ensures(found_pair, (&kp,), r) {
        let prefix = choose|prefix: Seq<u8>|
            prefix.len() == 32 && #[trigger] crypto::files_hold(
                r.files,
                r.address@,
                kp.pubkey@,
                kp.scalar@ + prefix,
            );
        lemma_find(r, kp.pubkey@, kp.scalar@ + prefix);
        assert(r.files.secret_key@.subrange(32, 64) =~= kp.scalar@);
    }
}

proof fn lemma_find(r: FoundKey, public: Seq<u8>, expanded: Seq<u8>)
    requires
        public.len() == 32,
        expanded.len() == 64,
        r.address@ == text::chars_of(crypto::onion_address(public)),
        crypto::files_hold(r.files, r.address@, public, expanded),
    ensures
        r.address@.len() == 56,
        r.files.public_key@.skip(32) == public,
        r.files.hostname@ == r.address@ + ".onion\n"@,
        r.files.dir_name@ == r.address@.take(16) + ".onion"@,
        forall|i: int|
            0 <= i < 56 ==> (#[trigger] r.address@[i]) as int == crypto::onion_address(
                r.files.public_key@.skip(32),
            )[i],
{
    lemma_address_text(public);
    crypto::law_address_shape(public);
    crypto::law_dir_name(r.address@);
    crypto::law_files_read_back(r.files, r.address@, public, expanded);
    assert(r.address@.take(16) =~= r.address@.subrange(0, 16));
    assert forall|i: int| 0 <= i < 56 implies (#[trigger] r.address@[i]) as int
        == crypto::onion_address(public)[i] by {
        assert(crypto::onion_address(public)[i] < 128);
    }
}

} // verus!
