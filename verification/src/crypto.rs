//! Keys, Tor v3 addresses and patterns.

use crate::base32;
use crate::base32::encode_lower;
use crate::curve;
use crate::gpu;
use crate::radix;
use crate::text;
use crate::text::{ascii_string, is_base32_char, joined};
use rand::RngCore;
use sha2::Sha512;
use sha3::{Digest, Sha3_256};
use vstd::prelude::*;
use vstd::string::StrSliceExecFns;
use vstd::string::StringExecFns;
use vstd::string::StringSliceAdditionalSpecFns;
use vstd::utf8::*;

verus! {

// ---- outside functions ----

/// The SHA3-256 hash of a message.
pub uninterp spec fn sha3_256(message: Seq<u8>) -> Seq<u8>;

/// The SHA-512 hash of a message.
pub uninterp spec fn sha512(message: Seq<u8>) -> Seq<u8>;

/// The secret scalar of a seed: the clamped first half of its hash.
pub open spec fn seed_scalar(seed: Seq<u8>) -> nat {
    radix::le_value(clamped(sha512(seed)).take(32)) as nat
}

/// The Ed25519 public key of a seed: the multiple of the base point by the secret scalar,
/// compressed.
pub open spec fn ed25519_public_key(seed: Seq<u8>) -> Seq<u8> {
    radix::le_bytes(curve::compressed(curve::ladder(gpu::base_ext(), seed_scalar(seed))), 32)
}

/// `Sha3_256::digest`: the hash depends on the message alone.
#[verifier::external_body]
fn sha3_256_digest(message: &[u8]) -> (hash: [u8; 32])
    ensures
        hash@ == sha3_256(message@),
{
    Sha3_256::digest(message).into()
}

/// `Sha512::digest`: the hash depends on the message alone.
#[verifier::external_body]
fn sha512_digest(message: &[u8]) -> (hash: [u8; 64])
    ensures
        hash@ == sha512(message@),
{
    Sha512::digest(message).into()
}

/// `ed25519_dalek::SigningKey::from_bytes` and the bytes of its `verifying_key`: the
/// public key of the seed. The crate takes the scalar modulo the order of the base point,
/// which changes no multiple of it.
#[verifier::external_body]
fn dalek_public_key(seed: &[u8; 32]) -> (public: [u8; 32])
    ensures
        public@ == ed25519_public_key(seed@),
{
    ed25519_dalek::SigningKey::from_bytes(seed).verifying_key().to_bytes()
}

/// `ed25519_dalek::SigningKey::generate` from the thread's generator: `from_bytes` of a
/// seed by chance, so the public key is that of the seed.
#[verifier::external_body]
fn dalek_generate() -> (r: ([u8; 32], [u8; 32]))
    ensures
        r.1@ == ed25519_public_key(r.0@),
{
    let key = ed25519_dalek::SigningKey::generate(&mut rand::thread_rng());
    (key.to_bytes(), key.verifying_key().to_bytes())
}

/// `fill_bytes` of the thread's generator: 32 bytes by chance, of which nothing is known.
#[verifier::external_body]
pub(crate) fn random_bytes() -> (r: [u8; 32]) {
    let mut bytes = [0u8; 32];
    rand::thread_rng().fill_bytes(&mut bytes);
    bytes
}

// ---- keys ----

/// A signing key: its seed, and the public key that belongs to it.
#[derive(Clone, Copy)]
pub struct SigningKey {
    seed: [u8; 32],
    public: [u8; 32],
}

impl SigningKey {
    #[verifier::type_invariant]
    spec fn inv(self) -> bool {
        self.public@ == ed25519_public_key(self.seed@)
    }

    /// The seed.
    pub closed spec fn seed_bytes(&self) -> Seq<u8> {
        self.seed@
    }

    /// The public key that is held with the seed.
    pub closed spec fn held_public(&self) -> Seq<u8> {
        self.public@
    }

    /// The key of a seed.
    pub fn from_bytes(seed: &[u8; 32]) -> (key: SigningKey)
        ensures
            key.seed_bytes() == seed@,
    {
        SigningKey { seed: *seed, public: dalek_public_key(seed) }
    }

    /// The seed.
    pub fn to_bytes(&self) -> (seed: [u8; 32])
        ensures
            seed@ == self.seed_bytes(),
    {
        self.seed
    }

    /// The compressed public key.
    pub fn public_bytes(&self) -> (public: [u8; 32])
        ensures
            public@ == self.held_public(),
            public@ == ed25519_public_key(self.seed_bytes()),
    {
        proof {
            use_type_invariant(self);
        }
        self.public
    }
}

/// A fresh key. Which one is up to chance; its public key always belongs to its seed.
pub fn generate_keypair() -> (key: SigningKey)
    ensures
        key.seed_bytes().len() == 32,
        key.held_public() == ed25519_public_key(key.seed_bytes()),
{
    let (seed, public) = dalek_generate();
    SigningKey { seed, public }
}

// ---- addresses ----

/// Length of an address, without `.onion`.
pub const ADDRESS_LEN: usize = 56;

/// Version byte of a v3 address.
pub const VERSION: u8 = 3;

/// `.onion checksum`
pub const CHECKSUM_PREFIX: [u8; 15] = [
    0x2e, 0x6f, 0x6e, 0x69, 0x6f, 0x6e, 0x20, 0x63, 0x68, 0x65, 0x63, 0x6b, 0x73, 0x75, 0x6d,
];

/// What the checksum of an address hashes: the prefix, the public key and the version.
pub open spec fn checksum_message(public: Seq<u8>) -> Seq<u8> {
    CHECKSUM_PREFIX@ + public + seq![VERSION]
}

/// What an address encodes: the public key, two bytes of hash and the version.
pub open spec fn payload(public: Seq<u8>, hash: Seq<u8>) -> Seq<u8> {
    public + seq![hash[0], hash[1], VERSION]
}

/// The address of a public key.
pub open spec fn onion_address(public: Seq<u8>) -> Seq<u8> {
    base32::lower_encoding(payload(public, sha3_256(checksum_message(public))))
}

/// An address is 56 characters of the base32 alphabet.
pub proof fn law_address_shape(public: Seq<u8>)
    requires
        public.len() == 32,
    ensures
        onion_address(public).len() == 56,
        forall|i: int|
            0 <= i < 56 ==> text::base32_char(#[trigger] onion_address(public)[i] as char)
                && onion_address(public)[i] < 128,
{
    let p = payload(public, sha3_256(checksum_message(public)));
    assert forall|i: int| 0 <= i < 56 implies text::base32_char(
        #[trigger] onion_address(public)[i] as char,
    ) && onion_address(public)[i] < 128 by {
        base32::lemma_group_range(p, i);
    }
}

/// The address of a public key, given the hash for its checksum.
pub fn address_with_hash(public: &[u8; 32], hash: &[u8; 32]) -> (addr: [u8; 56])
    ensures
        addr@ == base32::lower_encoding(payload(public@, hash@)),
{
    let mut bytes: Vec<u8> = Vec::new();
    bytes.extend_from_slice(public.as_slice());
    bytes.push(hash[0]);
    bytes.push(hash[1]);
    bytes.push(VERSION);
    assert(bytes@ =~= payload(public@, hash@));
    let encoded: Vec<u8> = encode_lower(bytes.as_slice());
    let mut addr: [u8; 56] = [0u8; 56];
    for i in 0..56usize
        invariant
            encoded@.len() == 56,
            forall|k: int| 0 <= k < i ==> #[trigger] addr@[k] == encoded@[k],
    {
        addr[i] = encoded[i];
    }
    assert(addr@ =~= encoded@);
    addr
}

/// The address of a compressed public key.
pub fn address_from_pubkey(pubkey: &[u8; 32]) -> (addr: [u8; 56])
    ensures
        addr@ == onion_address(pubkey@),
{
    let mut message: Vec<u8> = Vec::new();
    message.extend_from_slice(CHECKSUM_PREFIX.as_slice());
    message.extend_from_slice(pubkey.as_slice());
    message.push(VERSION);
    assert(message@ =~= checksum_message(pubkey@));
    let hash: [u8; 32] = sha3_256_digest(message.as_slice());
    address_with_hash(pubkey, &hash)
}

/// Fills a buffer with the address of a key.
pub fn derive_address_into(key: &SigningKey, buf: &mut [u8; 56])
    ensures
        final(buf)@ == onion_address(ed25519_public_key(key.seed_bytes())),
{
    let public: [u8; 32] = key.public_bytes();
    *buf = address_from_pubkey(&public);
}

/// The address of a key.
pub fn derive_address(key: &SigningKey) -> (s: String)
    ensures
        s@ == text::chars_of(onion_address(ed25519_public_key(key.seed_bytes()))),
{
    let mut buf: [u8; 56] = [0u8; 56];
    derive_address_into(key, &mut buf);
    let public: [u8; 32] = key.public_bytes();
    proof {
        law_address_shape(public@);
    }
    ascii_string(buf.as_slice())
}

/// The address of a compressed public key, as text.
pub fn address_text(pubkey: &[u8; 32]) -> (s: String)
    ensures
        s@ == text::chars_of(onion_address(pubkey@)),
{
    let addr: [u8; 56] = address_from_pubkey(pubkey);
    proof {
        law_address_shape(pubkey@);
    }
    ascii_string(addr.as_slice())
}

/// Longest prefix that comes from the public key alone.
pub const FAST_PREFIX_LEN: usize = 51;

/// Whether the first characters of the address that come from the public key alone
/// spell `pattern`. No hash is needed for up to 51 characters; longer patterns are
/// refused.
pub fn check_prefix_fast(pubkey: &[u8; 32], pattern: &[u8]) -> (r: bool)
    ensures
        r == (pattern@.len() <= 51 && forall|j: int|
            0 <= j < pattern@.len() ==> #[trigger] pattern@[j] == base32::lower_symbol(
                base32::group(pubkey@, j),
            )),
{
    let n: usize = pattern.len();
    if n == 0 {
        return true;
    }
    if n > FAST_PREFIX_LEN {
        return false;
    }
    let bytes_needed: usize = (n * 5 + 7) / 8;
    let head: &[u8] = vstd::slice::slice_subrange(pubkey.as_slice(), 0, bytes_needed);
    let enc: Vec<u8> = encode_lower(head);
    proof {
        assert(head@ =~= pubkey@.take(bytes_needed as int));
        assert forall|j: int| 0 <= j < n implies #[trigger] enc@[j] == base32::lower_symbol(
            base32::group(pubkey@, j),
        ) by {
            base32::lemma_group_prefix(pubkey@, bytes_needed as int, j);
        }
    }
    for j in 0..n
        invariant
            n == pattern@.len(),
            n <= 51,
            enc@.len() >= n,
            forall|k: int|
                0 <= k < n ==> #[trigger] enc@[k] == base32::lower_symbol(base32::group(pubkey@, k)),
            forall|k: int| 0 <= k < j ==> #[trigger] pattern@[k] == enc@[k],
    {
        if enc[j] != pattern[j] {
            assert(pattern@[j as int] != base32::lower_symbol(base32::group(pubkey@, j as int)));
            return false;
        }
    }
    true
}

/// The last character of every address is `d`: the version byte, 3.
pub proof fn law_address_ends_in_d(public: Seq<u8>)
    requires
        public.len() == 32,
    ensures
        onion_address(public)[55] == 100,
{
    let p = payload(public, sha3_256(checksum_message(public)));
    assert(p.len() == 35);
    assert(p[34] == 3);
    assert(base32::group(p, 55) == 3);
}

/// The first 51 characters of an address come from the public key alone.
pub proof fn law_address_head(public: Seq<u8>, j: int)
    requires
        public.len() == 32,
        0 <= j < 51,
    ensures
        onion_address(public)[j] == base32::lower_symbol(base32::group(public, j)),
{
    let p = payload(public, sha3_256(checksum_message(public)));
    assert(p.take(32) =~= public);
    base32::lemma_group_prefix(p, 32, j);
}

/// For patterns of up to 51 characters the fast check agrees with the full address.
pub proof fn law_fast_prefix_is_prefix(public: Seq<u8>, pattern: Seq<u8>)
    requires
        public.len() == 32,
        pattern.len() <= 51,
    ensures
        (forall|j: int|
            0 <= j < pattern.len() ==> #[trigger] pattern[j] == base32::lower_symbol(
                base32::group(public, j),
            )) <==> is_prefix(pattern, onion_address(public)),
{
    let addr = onion_address(public);
    assert forall|j: int| 0 <= j < 51 implies #[trigger] addr[j] == base32::lower_symbol(
        base32::group(public, j),
    ) by {
        law_address_head(public, j);
    }
    if is_prefix(pattern, addr) {
        assert forall|j: int| 0 <= j < pattern.len() implies #[trigger] pattern[j]
            == base32::lower_symbol(base32::group(public, j)) by {
            assert(pattern[j] == addr[j]);
        }
    }
}

// ---- matching ----

/// `pattern` stands at the start of `s`.
pub open spec fn is_prefix(pattern: Seq<u8>, s: Seq<u8>) -> bool {
    pattern.len() <= s.len() && forall|j: int|
        0 <= j < pattern.len() ==> #[trigger] pattern[j] == s[j]
}

/// `pattern` stands at position `i` of `s`.
pub open spec fn occurs_at(pattern: Seq<u8>, s: Seq<u8>, i: int) -> bool {
    0 <= i && i + pattern.len() <= s.len() && s.subrange(i, i + pattern.len()) == pattern
}

/// `pattern` stands at the end of `s`.
pub open spec fn is_suffix(pattern: Seq<u8>, s: Seq<u8>) -> bool {
    occurs_at(pattern, s, s.len() - pattern.len())
}

/// `pattern` stands somewhere in `s`.
pub open spec fn occurs(pattern: Seq<u8>, s: Seq<u8>) -> bool {
    exists|i: int| #[trigger] occurs_at(pattern, s, i)
}

/// Where a pattern has to stand in an address.
#[derive(Clone, Copy, PartialEq, Eq, Hash, Debug, Structural)]
pub enum MatchType {
    Prefix,
    Suffix,
    Anywhere,
}

impl MatchType {
    pub fn label(&self) -> (r: &'static str)
        ensures
            r@ == match self {
                MatchType::Prefix => "Prefix"@,
                MatchType::Suffix => "Suffix"@,
                MatchType::Anywhere => "Anywhere"@,
            },
    {
        match self {
            MatchType::Prefix => "Prefix",
            MatchType::Suffix => "Suffix",
            MatchType::Anywhere => "Anywhere",
        }
    }

    pub open spec fn spec_next(self) -> MatchType {
        match self {
            MatchType::Prefix => MatchType::Suffix,
            MatchType::Suffix => MatchType::Anywhere,
            MatchType::Anywhere => MatchType::Prefix,
        }
    }

    pub open spec fn spec_prev(self) -> MatchType {
        match self {
            MatchType::Prefix => MatchType::Anywhere,
            MatchType::Suffix => MatchType::Prefix,
            MatchType::Anywhere => MatchType::Suffix,
        }
    }

    pub fn next(&self) -> (r: MatchType)
        ensures
            r == self.spec_next(),
    {
        match self {
            MatchType::Prefix => MatchType::Suffix,
            MatchType::Suffix => MatchType::Anywhere,
            MatchType::Anywhere => MatchType::Prefix,
        }
    }

    pub fn prev(&self) -> (r: MatchType)
        ensures
            r == self.spec_prev(),
    {
        match self {
            MatchType::Prefix => MatchType::Anywhere,
            MatchType::Suffix => MatchType::Prefix,
            MatchType::Anywhere => MatchType::Suffix,
        }
    }
}

/// `next` and `prev` undo each other, and three steps come full circle.
pub proof fn law_match_type_cycle(m: MatchType)
    ensures
        m.spec_next().spec_prev() == m,
        m.spec_prev().spec_next() == m,
        m.spec_next().spec_next().spec_next() == m,
{
}

/// What computes the keys.
#[derive(Clone, Copy, PartialEq, Eq, Hash, Debug, Structural)]
pub enum Backend {
    Cpu,
    Gpu,
}

impl Backend {
    pub open spec fn spec_label(self) -> Seq<char> {
        match self {
            Backend::Cpu => "CPU"@,
            Backend::Gpu => "GPU"@,
        }
    }

    pub fn label(&self) -> (r: &'static str)
        ensures
            r@ == self.spec_label(),
    {
        match self {
            Backend::Cpu => "CPU",
            Backend::Gpu => "GPU",
        }
    }

    pub open spec fn spec_toggle(self) -> Backend {
        match self {
            Backend::Cpu => Backend::Gpu,
            Backend::Gpu => Backend::Cpu,
        }
    }

    pub fn toggle(&self) -> (r: Backend)
        ensures
            r == self.spec_toggle(),
    {
        match self {
            Backend::Cpu => Backend::Gpu,
            Backend::Gpu => Backend::Cpu,
        }
    }
}

/// Toggling twice changes nothing.
pub proof fn law_backend_toggle(b: Backend)
    ensures
        b.spec_toggle().spec_toggle() == b,
        b.spec_toggle() != b,
{
}

/// What a search accepts: the address of `public` has `pattern` where `match_type` wants
/// it.
pub open spec fn accepts(match_type: MatchType, pattern: Seq<u8>, public: Seq<u8>) -> bool {
    let addr = onion_address(public);
    match match_type {
        MatchType::Prefix => is_prefix(pattern, addr),
        MatchType::Suffix => is_suffix(pattern, addr),
        MatchType::Anywhere => occurs(pattern, addr),
    }
}

/// Whether `pattern` stands at position `i` of `s`.
fn stands_at(pattern: &[u8], s: &[u8], i: usize) -> (r: bool)
    requires
        i + pattern@.len() <= s@.len(),
    ensures
        r == occurs_at(pattern@, s@, i as int),
{
    let ghost sub = s@.subrange(i as int, i + pattern@.len());
    assert(s@.len() == s.len());
    for j in 0..pattern.len()
        invariant
            s@.len() == s.len(),
            i + pattern@.len() <= s@.len(),
            sub == s@.subrange(i as int, i + pattern@.len()),
            forall|k: int| 0 <= k < j ==> #[trigger] sub[k] == pattern@[k],
    {
        if s[i + j] != pattern[j] {
            assert(sub[j as int] != pattern@[j as int]);
            return false;
        }
    }
    assert(sub =~= pattern@);
    true
}

/// Whether an address starts with `pattern`.
pub fn address_starts_with(addr: &[u8; 56], pattern: &[u8]) -> (r: bool)
    ensures
        r == is_prefix(pattern@, addr@),
{
    let n: usize = pattern.len();
    if n > ADDRESS_LEN {
        return false;
    }
    let r: bool = stands_at(pattern, addr.as_slice(), 0);
    proof {
        let head = addr@.subrange(0, n as int);
        if r {
            assert forall|j: int| 0 <= j < n implies #[trigger] pattern@[j] == addr@[j] by {
                assert(head[j] == addr@[j]);
            }
        } else if is_prefix(pattern@, addr@) {
            assert(head =~= pattern@);
        }
    }
    r
}

/// Whether an address ends in `pattern`.
pub fn address_ends_with(addr: &[u8; 56], pattern: &[u8]) -> (r: bool)
    ensures
        r == is_suffix(pattern@, addr@),
{
    let n: usize = pattern.len();
    if n > 56 {
        return false;
    }
    stands_at(pattern, addr.as_slice(), 56 - n)
}

/// Whether an address contains `pattern`.
pub fn address_contains(addr: &[u8; 56], pattern: &[u8]) -> (r: bool)
    requires
        pattern@.len() > 0,
    ensures
        r == occurs(pattern@, addr@),
{
    let n: usize = pattern.len();
    if n > 56 {
        return false;
    }
    let mut i: usize = 0;
    while i <= 56 - n
        invariant
            n == pattern@.len(),
            0 < n <= 56,
            i <= 57 - n,
            forall|k: int| 0 <= k < i ==> !#[trigger] occurs_at(pattern@, addr@, k),
        decreases 57 - n - i,
    {
        if stands_at(pattern, addr.as_slice(), i) {
            return true;
        }
        i = i + 1;
    }
    assert forall|k: int| !#[trigger] occurs_at(pattern@, addr@, k) by {
        if 0 <= k < i {
        } else {
            assert(k < 0 || k + n > 56);
        }
    }
    false
}

/// Whether the search accepts a public key. A prefix short enough to come from the public
/// key alone is checked without the hash.
pub fn key_matches(match_type: &MatchType, pattern: &[u8], pubkey: &[u8; 32]) -> (r: bool)
    requires
        match_type is Anywhere ==> pattern@.len() > 0,
    ensures
        r == accepts(*match_type, pattern@, pubkey@),
{
    match match_type {
        MatchType::Prefix => {
            if pattern.len() <= FAST_PREFIX_LEN {
                proof {
                    law_fast_prefix_is_prefix(pubkey@, pattern@);
                }
                check_prefix_fast(pubkey, pattern)
            } else {
                let addr: [u8; 56] = address_from_pubkey(pubkey);
                address_starts_with(&addr, pattern)
            }
        },
        MatchType::Suffix => {
            let addr: [u8; 56] = address_from_pubkey(pubkey);
            address_ends_with(&addr, pattern)
        },
        MatchType::Anywhere => {
            let addr: [u8; 56] = address_from_pubkey(pubkey);
            address_contains(&addr, pattern)
        },
    }
}

// ---- patterns ----

/// The characters of an address.
pub const VALID_CHARS: &'static str = "abcdefghijklmnopqrstuvwxyz234567";

/// Longest prefix that can be matched from two neighbouring bytes of the public key per
/// character: the last window still lies within the 32 bytes.
pub const MAX_DEVICE_PREFIX: usize = 48;

/// The valid characters are those of the base32 alphabet, in symbol order.
pub proof fn law_valid_chars(c: char)
    ensures
        VALID_CHARS@.len() == 32,
        VALID_CHARS@.contains(c) <==> text::base32_char(c),
        forall|v: int|
            0 <= v < 32 ==> #[trigger] VALID_CHARS@[v] == base32::lower_symbol(v) as char,
{
    reveal_strlit("abcdefghijklmnopqrstuvwxyz234567");
    assert forall|v: int| 0 <= v < 32 implies #[trigger] VALID_CHARS@[v] == base32::lower_symbol(
        v,
    ) as char by {}
    if text::base32_char(c) {
        if 'a' <= c && c <= 'z' {
            let v = c as int - 97;
            assert(VALID_CHARS@[v] == c);
        } else {
            let v = c as int - 24;
            assert(VALID_CHARS@[v] == c);
        }
    } else if VALID_CHARS@.contains(c) {
        let v = choose|v: int| 0 <= v < 32 && VALID_CHARS@[v] == c;
        assert(VALID_CHARS@[v] == base32::lower_symbol(v) as char);
    }
}

/// Positions of the characters among the first `n` that are not valid, in order.
pub open spec fn invalid_positions(s: Seq<char>, n: nat) -> Seq<usize>
    decreases n,
{
    if n == 0 {
        Seq::empty()
    } else {
        let rest = invalid_positions(s, (n - 1) as nat);
        if text::base32_char(s[n - 1]) {
            rest
        } else {
            rest.push((n - 1) as usize)
        }
    }
}

/// No position is reported exactly when every character is valid.
pub proof fn law_valid_pattern(s: Seq<char>, n: nat)
    requires
        n <= s.len(),
    ensures
        invalid_positions(s, n).len() == 0 <==> forall|i: int|
            0 <= i < n ==> text::base32_char(#[trigger] s[i]),
    decreases n,
{
    if n > 0 {
        law_valid_pattern(s, (n - 1) as nat);
        if invalid_positions(s, n).len() == 0 {
            assert forall|i: int| 0 <= i < n implies text::base32_char(#[trigger] s[i]) by {}
        }
    }
}

/// Whether every character is valid, and the positions of those that are not.
pub fn validate_pattern(s: &str) -> (r: (bool, Vec<usize>))
    ensures
        r.1@ == invalid_positions(s@, s@.len()),
        r.0 == (r.1@.len() == 0),
{
    let n: usize = s.unicode_len();
    let mut invalid: Vec<usize> = Vec::new();
    let mut i: usize = 0;
    for c in it: s.chars()
        invariant
            i == it.index(),
            it.seq() == s@,
            n == s@.len(),
            invalid@ == invalid_positions(s@, i as nat),
    {
        if !is_base32_char(c) {
            invalid.push(i);
        }
        i = i + 1;
    }
    (invalid.len() == 0, invalid)
}

// ---- key files ----

/// Header of Tor's public key file.
pub const PUBLIC_HEADER: [u8; 32] = [
    61, 61, 32, 101, 100, 50, 53, 53, 49, 57, 118, 49, 45, 112, 117, 98, 108, 105, 99, 58, 32, 116,
    121, 112, 101, 48, 32, 61, 61, 0, 0, 0,
];

/// Header of Tor's secret key file.
pub const SECRET_HEADER: [u8; 32] = [
    61, 61, 32, 101, 100, 50, 53, 53, 49, 57, 118, 49, 45, 115, 101, 99, 114, 101, 116, 58, 32, 116,
    121, 112, 101, 48, 32, 61, 61, 0, 0, 0,
];

/// The files of a hidden service: the directory's name, and what each file in it holds.
pub struct KeyFiles {
    pub dir_name: String,
    pub hostname: String,
    pub public_key: Vec<u8>,
    pub secret_key: Vec<u8>,
}

/// How many bytes of the address name the directory: 16, or all of a shorter one.
pub open spec fn dir_cut(address: Seq<char>) -> int {
    let n = encode_utf8(address).len();
    if n < 16 {
        n as int
    } else {
        16
    }
}

/// The name of the directory: the first 16 bytes of the address and `.onion`.
pub open spec fn dir_name_of(address: Seq<char>) -> Seq<char> {
    decode_utf8(encode_utf8(address).subrange(0, dir_cut(address))) + ".onion"@
}

/// The expanded secret with the scalar half clamped.
pub open spec fn clamped(hash: Seq<u8>) -> Seq<u8> {
    hash.update(0, hash[0] & 248).update(31, (hash[31] & 63) | 64)
}

/// What every set of key files holds.
pub open spec fn files_hold(
    files: KeyFiles,
    address: Seq<char>,
    public: Seq<u8>,
    expanded: Seq<u8>,
) -> bool {
    &&& files.dir_name@ == dir_name_of(address)
    &&& files.hostname@ == address + ".onion\n"@
    &&& files.public_key@ == PUBLIC_HEADER@ + public
    &&& files.secret_key@ == SECRET_HEADER@ + expanded
}

/// The files for a public key and an expanded secret.
pub fn assemble_files(public: &[u8; 32], expanded: &[u8; 64], address: &str) -> (files: KeyFiles)
    requires
        is_char_boundary(encode_utf8(address@), dir_cut(address@)),
    ensures
        files_hold(files, address@, public@, expanded@),
        files.public_key@.len() == 64,
        files.secret_key@.len() == 96,
{
    let n: usize = address.as_bytes().len();
    let cut: usize = if n < 16 {
        n
    } else {
        16
    };
    let head: &str = address.split_at(cut).0;
    proof {
        encode_utf8_decode_utf8(head@);
    }
    let dir_name: String = joined(head, ".onion");
    let hostname: String = joined(address, ".onion\n");
    let mut public_key: Vec<u8> = Vec::new();
    public_key.extend_from_slice(PUBLIC_HEADER.as_slice());
    public_key.extend_from_slice(public.as_slice());
    let mut secret_key: Vec<u8> = Vec::new();
    secret_key.extend_from_slice(SECRET_HEADER.as_slice());
    secret_key.extend_from_slice(expanded.as_slice());
    assert(public_key@ =~= PUBLIC_HEADER@ + public@);
    assert(secret_key@ =~= SECRET_HEADER@ + expanded@);
    KeyFiles { dir_name, hostname, public_key, secret_key }
}

/// Clamps the scalar half of a hashed seed.
pub fn clamp_expanded(hash: &[u8; 64]) -> (expanded: [u8; 64])
    ensures
        expanded@ == clamped(hash@),
{
    let mut expanded: [u8; 64] = *hash;
    expanded[0] = expanded[0] & 248;
    expanded[31] = expanded[31] & 63;
    expanded[31] = expanded[31] | 64;
    assert(expanded@ =~= clamped(hash@));
    expanded
}

/// The expanded secret of a seed.
pub fn expand_seed(seed: &[u8; 32]) -> (expanded: [u8; 64])
    ensures
        expanded@ == clamped(sha512(seed@)),
        sha512(seed@).len() == 64,
{
    let hash: [u8; 64] = sha512_digest(seed.as_slice());
    clamp_expanded(&hash)
}

/// The files of a key with its seed.
pub fn key_files(key: &SigningKey, address: &str) -> (files: KeyFiles)
    requires
        is_char_boundary(encode_utf8(address@), dir_cut(address@)),
    ensures
        files_hold(
            files,
            address@,
            ed25519_public_key(key.seed_bytes()),
            clamped(sha512(key.seed_bytes())),
        ),
        sha512(key.seed_bytes()).len() == 64,
        files.public_key@.len() == 64,
        files.secret_key@.len() == 96,
{
    let public: [u8; 32] = key.public_bytes();
    let seed: [u8; 32] = key.to_bytes();
    let expanded: [u8; 64] = expand_seed(&seed);
    assemble_files(&public, &expanded, address)
}

/// The files of a key known by its scalar, with a given nonce prefix.
pub fn key_files_with_prefix(
    pubkey: &[u8; 32],
    scalar: &[u8; 32],
    prefix: &[u8; 32],
    address: &str,
) -> (files: KeyFiles)
    requires
        is_char_boundary(encode_utf8(address@), dir_cut(address@)),
    ensures
        files_hold(files, address@, pubkey@, scalar@ + prefix@),
{
    let mut expanded: [u8; 64] = [0u8; 64];
    for i in 0..32usize
        invariant
            forall|k: int| 0 <= k < i ==> #[trigger] expanded@[k] == scalar@[k],
            forall|k: int| 0 <= k < i ==> #[trigger] expanded@[32 + k] == prefix@[k],
    {
        expanded[i] = scalar[i];
        expanded[32 + i] = prefix[i];
    }
    proof {
        assert forall|k: int| 0 <= k < 64 implies expanded@[k] == (scalar@ + prefix@)[k] by {
            if k >= 32 {
                assert(expanded@[32 + (k - 32)] == prefix@[k - 32]);
            }
        }
        assert(expanded@ =~= scalar@ + prefix@);
    }
    assemble_files(pubkey, &expanded, address)
}

/// The files of a key known by its scalar. The nonce prefix is drawn by chance.
pub fn key_files_expanded(pubkey: &[u8; 32], scalar: &[u8; 32], address: &str) -> (files: KeyFiles)
    requires
        is_char_boundary(encode_utf8(address@), dir_cut(address@)),
    ensures
        exists|prefix: Seq<u8>|
            prefix.len() == 32 && #[trigger] files_hold(
                files,
                address@,
                pubkey@,
                scalar@ + prefix,
            ),
{
    let prefix: [u8; 32] = random_bytes();
    let files: KeyFiles = key_files_with_prefix(pubkey, scalar, &prefix, address);
    assert(files_hold(files, address@, pubkey@, scalar@ + prefix@));
    files
}

/// A public key and the scalar that it is the multiple of.
pub open spec fn scalar_opens(scalar: Seq<u8>, public: Seq<u8>) -> bool {
    radix::le_value(public) == curve::compressed(
        curve::ladder(gpu::base_ext(), radix::le_value(scalar) as nat),
    )
}

/// The scalar of a seed opens its public key.
pub proof fn law_seed_opens(seed: Seq<u8>)
    ensures
        scalar_opens(clamped(sha512(seed)).take(32), ed25519_public_key(seed)),
{
    let point = curve::ladder(gpu::base_ext(), seed_scalar(seed));
    let n = curve::compressed(point);
    gpu::law_base_point();
    curve::law_multiple_is_valid(gpu::base_ext(), seed_scalar(seed));
    curve::lemma_affine(point);
    radix::lemma_weight_limits();
    radix::lemma_le_bytes(n, 32);
    assert(0 <= n < radix::two256());
    vstd::arithmetic::div_mod::lemma_small_mod(n as nat, radix::two256() as nat);
}

/// The secret in a set of key files opens the public key in it.
pub open spec fn secret_opens(files: KeyFiles) -> bool {
    scalar_opens(files.secret_key@.subrange(32, 64), files.public_key@.skip(32))
}

/// Files written for a public key and a scalar that opens it have a secret that does.
pub proof fn law_saved_secret_opens(
    files: KeyFiles,
    address: Seq<char>,
    public: Seq<u8>,
    expanded: Seq<u8>,
)
    requires
        files_hold(files, address, public, expanded),
        expanded.len() == 64,
        scalar_opens(expanded.take(32), public),
    ensures
        secret_opens(files),
{
    assert(files.public_key@.skip(32) =~= public);
    assert(files.secret_key@.subrange(32, 64) =~= expanded.take(32));
}

/// Tor's file sizes: 64 bytes for the public key, 96 for the secret.
pub proof fn law_file_sizes(
    files: KeyFiles,
    address: Seq<char>,
    public: Seq<u8>,
    expanded: Seq<u8>,
)
    requires
        files_hold(files, address, public, expanded),
        public.len() == 32,
        expanded.len() == 64,
    ensures
        files.public_key@.len() == 64,
        files.secret_key@.len() == 96,
{
}

/// For an address, the directory is its first 16 characters and `.onion`.
pub proof fn law_dir_name(address: Seq<char>)
    requires
        is_ascii_chars(address),
        address.len() >= 16,
    ensures
        is_char_boundary(encode_utf8(address), dir_cut(address)),
        dir_name_of(address) == address.subrange(0, 16) + ".onion"@,
{
    is_ascii_chars_encode_utf8(address);
    let head = address.subrange(0, 16);
    is_ascii_chars_encode_utf8(head);
    encode_utf8_decode_utf8(head);
    assert(encode_utf8(address).subrange(0, 16) =~= encode_utf8(head));
    encode_utf8_valid_utf8(address);
    if address.len() > 16 {
        is_char_boundary_iff_not_is_continuation_byte(encode_utf8(address), 16);
    }
    is_char_boundary_start_end_of_seq(encode_utf8(address));
}

/// A clamped scalar is a multiple of 8 between 2^254 and 2^255.
pub proof fn law_clamped_scalar(hash: Seq<u8>)
    requires
        hash.len() == 64,
    ensures
        ({
            let v = radix::le_value(clamped(hash).take(32));
            &&& v % 8 == 0
            &&& 0x4000000000000000000000000000000000000000000000000000000000000000int <= v
            &&& v < 0x8000000000000000000000000000000000000000000000000000000000000000int
        }),
{
    let a = hash[0];
    let b = hash[31];
    let c = clamped(hash).take(32);
    let s = radix::byte_ints(c);
    assert((a & 248) % 8 == 0) by (bit_vector);
    assert(64 <= ((b & 63) | 64) && ((b & 63) | 64) < 128) by (bit_vector);
    assert(s[0] == a & 248);
    assert(s[31] == (b & 63) | 64);
    radix::lemma_eval_cons(256, s, 31);
    let rest = radix::eval(256, s.skip(1), 31);
    assert((s[0] + 256 * rest) % 8 == 0);
    radix::lemma_weight_limits();
    let w = radix::weight(256, 31);
    assert(radix::weight(256, 32) == 256 * w);
    radix::lemma_eval_bound(256, s, 31);
    assert(radix::eval(256, s, 32) == radix::eval(256, s, 31) + s[31] * w);
    vstd::arithmetic::mul::lemma_mul_inequality(64, s[31], w);
    vstd::arithmetic::mul::lemma_mul_inequality(s[31], 127, w);
}

// ---- what an address says ----

/// An address spells out the public key: its 56 symbols, as digits to base 32, are the
/// number that the key, two bytes of hash and the version byte 3 make to base 256, five
/// bytes at a time. The hash is that of `.onion checksum`, the key and the version byte.
pub proof fn law_address_spells_key(public: [u8; 32], addr: [u8; 56], message: Seq<u8>, b: int)
    requires
        call_ensures(address_from_pubkey, (&public,), addr),
        message.len() == 48,
        forall|i: int|
            0 <= i < 15 ==> #[trigger] message[i] as char == ".onion checksum"@[i] && message[i]
                < 128,
        message.subrange(15, 47) == public@,
        message[47] == 3,
        0 <= b < 7,
    ensures
        ({
            let s = public@.push(sha3_256(message)[0]).push(sha3_256(message)[1]).push(3u8);
            let j = 8 * b;
            let k = 5 * b;
            0x8_0000_0000 * base32::symbol_value(addr[j]) + 0x4000_0000 * base32::symbol_value(
                addr[j + 1],
            ) + 0x200_0000 * base32::symbol_value(addr[j + 2]) + 0x10_0000 * base32::symbol_value(
                addr[j + 3],
            ) + 0x8000 * base32::symbol_value(addr[j + 4]) + 1024 * base32::symbol_value(
                addr[j + 5],
            ) + 32 * base32::symbol_value(addr[j + 6]) + base32::symbol_value(addr[j + 7])
                == 0x1_0000_0000 * s[k] + 0x100_0000 * s[k + 1] + 0x1_0000 * s[k + 2] + 256 * s[k
                + 3] + s[k + 4]
        }),
{
    let s = public@.push(sha3_256(message)[0]).push(sha3_256(message)[1]).push(3u8);
    reveal_strlit(".onion checksum");
    assert(message =~= checksum_message(public@)) by {
        assert forall|i: int| 0 <= i < 48 implies message[i] == checksum_message(public@)[i] by {
            if i < 15 {
                assert(message[i] as char == ".onion checksum"@[i]);
            } else if i < 47 {
                assert(message.subrange(15, 47)[i - 15] == public@[i - 15]);
            }
        }
    }
    assert(s =~= payload(public@, sha3_256(message)));
    base32::law_blocks_keep_value(s, b);
}

/// Different public keys have different addresses.
pub proof fn law_address_tells_key(p: Seq<u8>, q: Seq<u8>)
    requires
        p.len() == 32,
        q.len() == 32,
        onion_address(p) == onion_address(q),
    ensures
        p == q,
{
    let s = payload(p, sha3_256(checksum_message(p)));
    let t = payload(q, sha3_256(checksum_message(q)));
    assert forall|i: int| 0 <= i < 32 implies #[trigger] p[i] == q[i] by {
        let b = i / 5;
        let k = 5 * b;
        base32::law_blocks_keep_value(s, b);
        base32::law_blocks_keep_value(t, b);
        base32::lemma_same_bytes(
            (s[k] as int, s[k + 1] as int, s[k + 2] as int, s[k + 3] as int, s[k + 4] as int),
            (t[k] as int, t[k + 1] as int, t[k + 2] as int, t[k + 3] as int, t[k + 4] as int),
        );
        assert(s[i] == p[i] && t[i] == q[i]);
        assert(i == k || i == k + 1 || i == k + 2 || i == k + 3 || i == k + 4);
    }
    assert(p =~= q);
}

/// What a search takes, said of the address alone. A prefix is taken exactly where the
/// address starts with it, a suffix exactly where it ends in it, and a pattern anywhere
/// exactly where some stretch of the address is the pattern, the last characters included.
pub proof fn law_key_matches(
    match_type: MatchType,
    pattern: &[u8],
    public: [u8; 32],
    addr: [u8; 56],
    r: bool,
)
    requires
        call_ensures(key_matches, (&match_type, pattern, &public), r),
        call_ensures(address_from_pubkey, (&public,), addr),
    ensures
        match_type is Prefix ==> r == (pattern@.len() <= 56 && addr@.take(pattern@.len() as int)
            == pattern@),
        match_type is Suffix ==> r == (pattern@.len() <= 56 && addr@.skip(56 - pattern@.len())
            == pattern@),
        match_type is Anywhere ==> r == exists|i: int|
            0 <= i <= 56 - pattern@.len() && #[trigger] addr@.subrange(i, i + pattern@.len())
                == pattern@,
{
    law_accepted_exactly(match_type, pattern@, public@);
}

/// The same of what a search accepts.
pub proof fn law_accepted_exactly(match_type: MatchType, pattern: Seq<u8>, public: Seq<u8>)
    requires
        public.len() == 32,
    ensures
        onion_address(public).len() == 56,
        match_type is Prefix ==> accepts(match_type, pattern, public) == (pattern.len() <= 56
            && onion_address(public).take(pattern.len() as int) == pattern),
        match_type is Suffix ==> accepts(match_type, pattern, public) == (pattern.len() <= 56
            && onion_address(public).skip(56 - pattern.len()) == pattern),
        match_type is Anywhere ==> accepts(match_type, pattern, public) == exists|i: int|
            0 <= i <= 56 - pattern.len() && #[trigger] onion_address(public).subrange(
                i,
                i + pattern.len(),
            ) == pattern,
{
    let addr = onion_address(public);
    let n = pattern.len() as int;
    law_address_shape(public);
    if n <= 56 {
        let head = addr.take(n);
        if is_prefix(pattern, addr) {
            assert(head =~= pattern);
        }
        if head == pattern {
            assert forall|j: int| 0 <= j < n implies #[trigger] pattern[j] == addr[j] by {
                assert(head[j] == addr[j]);
            }
        }
        assert(addr.subrange(56 - n, 56) =~= addr.skip(56 - n));
    }
    if occurs(pattern, addr) {
        let i = choose|i: int| #[trigger] occurs_at(pattern, addr, i);
        assert(addr.subrange(i, i + n) == pattern);
    }
    if exists|i: int| 0 <= i <= 56 - n && #[trigger] addr.subrange(i, i + n) == pattern {
        let i = choose|i: int| 0 <= i <= 56 - n && #[trigger] addr.subrange(i, i + n) == pattern;
        assert(occurs_at(pattern, addr, i));
    }
}

/// No key is missed: every start of an address is accepted as a prefix, every end as a
/// suffix and every stretch anywhere, whatever their lengths.
pub proof fn law_every_part_is_accepted(public: Seq<u8>, from: int, to: int)
    requires
        public.len() == 32,
        0 <= from <= to <= 56,
    ensures
        accepts(MatchType::Prefix, onion_address(public).take(to), public),
        accepts(MatchType::Suffix, onion_address(public).skip(from), public),
        accepts(MatchType::Anywhere, onion_address(public).subrange(from, to), public),
{
    let addr = onion_address(public);
    law_address_shape(public);
    law_accepted_exactly(MatchType::Prefix, addr.take(to), public);
    law_accepted_exactly(MatchType::Suffix, addr.skip(from), public);
    law_accepted_exactly(MatchType::Anywhere, addr.subrange(from, to), public);
    assert(addr.subrange(from, from + (to - from)) == addr.subrange(from, to));
}

/// The fast check says of up to 51 characters whether the address starts with them, and
/// refuses more.
pub proof fn law_fast_check(public: [u8; 32], pattern: &[u8], addr: [u8; 56], r: bool)
    requires
        call_ensures(check_prefix_fast, (&public, pattern), r),
        call_ensures(address_from_pubkey, (&public,), addr),
    ensures
        pattern@.len() <= 51 ==> r == (addr@.take(pattern@.len() as int) == pattern@),
        pattern@.len() > 51 ==> !r,
{
    if pattern@.len() <= 51 {
        law_fast_prefix_is_prefix(public@, pattern@);
        law_accepted_exactly(MatchType::Prefix, pattern@, public@);
    }
}

/// Comparing with the start and with the end of an address.
pub proof fn law_address_comparisons(addr: [u8; 56], pattern: &[u8], start: bool, end: bool)
    requires
        call_ensures(address_starts_with, (&addr, pattern), start),
        call_ensures(address_ends_with, (&addr, pattern), end),
    ensures
        start == (pattern@.len() <= 56 && addr@.take(pattern@.len() as int) == pattern@),
        end == (pattern@.len() <= 56 && addr@.skip(56 - pattern@.len()) == pattern@),
{
    let n = pattern@.len() as int;
    if n <= 56 {
        let head = addr@.take(n);
        if start {
            assert(head =~= pattern@);
        }
        if head == pattern@ {
            assert forall|j: int| 0 <= j < n implies #[trigger] pattern@[j] == addr@[j] by {
                assert(head[j] == addr@[j]);
            }
        }
        assert(addr@.subrange(56 - n, 56) =~= addr@.skip(56 - n));
    }
}

/// A pattern occurs in an address exactly if some stretch of it is the pattern.
pub proof fn law_address_contains(addr: [u8; 56], pattern: &[u8], r: bool)
    requires
        call_ensures(address_contains, (&addr, pattern), r),
    ensures
        r == exists|i: int|
            0 <= i <= 56 - pattern@.len() && #[trigger] addr@.subrange(i, i + pattern@.len())
                == pattern@,
{
    let n = pattern@.len() as int;
    if r {
        let i = choose|i: int| #[trigger] occurs_at(pattern@, addr@, i);
        assert(addr@.subrange(i, i + n) == pattern@);
    }
    if exists|i: int| 0 <= i <= 56 - n && #[trigger] addr@.subrange(i, i + n) == pattern@ {
        let i = choose|i: int| 0 <= i <= 56 - n && #[trigger] addr@.subrange(i, i + n) == pattern@;
        assert(occurs_at(pattern@, addr@, i));
    }
}

// ---- what the files say ----

/// The header of a key file: its text, in ASCII, and three zero bytes.
pub open spec fn is_header(bytes: Seq<u8>, label: Seq<char>) -> bool {
    &&& bytes.len() >= 32
    &&& label.len() == 29
    &&& forall|i: int|
        0 <= i < 29 ==> (#[trigger] bytes[i]) as char == label[i] && bytes[i] < 128
    &&& bytes[29] == 0 && bytes[30] == 0 && bytes[31] == 0
}

/// What Tor reads back from the files: after its header each key file holds the key, and
/// `hostname` is the address with `.onion` on a line.
pub proof fn law_files_read_back(
    files: KeyFiles,
    address: Seq<char>,
    public: Seq<u8>,
    expanded: Seq<u8>,
)
    requires
        files_hold(files, address, public, expanded),
        public.len() == 32,
        expanded.len() == 64,
    ensures
        is_header(files.public_key@, "== ed25519v1-public: type0 =="@),
        is_header(files.secret_key@, "== ed25519v1-secret: type0 =="@),
        files.public_key@.skip(32) == public,
        files.secret_key@.skip(32) == expanded,
        files.hostname@.len() == address.len() + 7,
        files.hostname@.take(address.len() as int) == address,
        files.hostname@.skip(address.len() as int) == ".onion\n"@,
{
    reveal_strlit("== ed25519v1-public: type0 ==");
    reveal_strlit("== ed25519v1-secret: type0 ==");
    reveal_strlit(".onion\n");
    let p = "== ed25519v1-public: type0 =="@;
    let s = "== ed25519v1-secret: type0 =="@;
    assert forall|i: int| 0 <= i < 29 implies (#[trigger] files.public_key@[i]) as char == p[i]
        && files.public_key@[i] < 128 by {
        assert(files.public_key@[i] == PUBLIC_HEADER@[i]);
        assert(PUBLIC_HEADER@[i] as char == p[i] && PUBLIC_HEADER@[i] < 128);
    }
    assert forall|i: int| 0 <= i < 29 implies (#[trigger] files.secret_key@[i]) as char == s[i]
        && files.secret_key@[i] < 128 by {
        assert(files.secret_key@[i] == SECRET_HEADER@[i]);
        assert(SECRET_HEADER@[i] as char == s[i] && SECRET_HEADER@[i] < 128);
    }
    assert(files.public_key@.skip(32) =~= public);
    assert(files.secret_key@.skip(32) =~= expanded);
    assert(files.hostname@.take(address.len() as int) =~= address);
    assert(files.hostname@.skip(address.len() as int) =~= ".onion\n"@);
}

/// Clamping clears the three lowest bits of a scalar, clears its highest bit and sets the
/// one below, and leaves the rest of the hash as it is.
pub proof fn law_clamp(hash: [u8; 64], r: [u8; 64])
    requires
        call_ensures(clamp_expanded, (&hash,), r),
    ensures
        r[0] == hash[0] - hash[0] % 8,
        r[31] == 64 + hash[31] % 64,
        forall|i: int| 0 <= i < 64 && i != 0 && i != 31 ==> #[trigger] r[i] == hash[i],
{
    let a = hash[0];
    let b = hash[31];
    assert((a & 248) == a - a % 8) by (bit_vector);
    assert(((b & 63) | 64) == 64 + b % 64) by (bit_vector);
    assert(r@[0] == a & 248);
    assert(r@[31] == (b & 63) | 64);
    assert forall|i: int| 0 <= i < 64 && i != 0 && i != 31 implies #[trigger] r[i] == hash[i] by {
        assert(r@[i] == hash@[i]);
    }
}

/// The files of a seed: the scalar half is the clamped half of the seed's hash, the other
/// half is the hash's own.
pub proof fn law_seed_files(key: SigningKey, address: &str, files: KeyFiles)
    requires
        call_ensures(key_files, (&key, address), files),
    ensures
        files.public_key@.skip(32) == ed25519_public_key(key.seed_bytes()),
        files.secret_key@.skip(64) == sha512(key.seed_bytes()).skip(32),
        files.secret_key@[32] == sha512(key.seed_bytes())[0] - sha512(key.seed_bytes())[0] % 8,
        files.secret_key@[63] == 64 + sha512(key.seed_bytes())[31] % 64,
        files.secret_key@.subrange(33, 63) == sha512(key.seed_bytes()).subrange(1, 31),
{
    let hash = sha512(key.seed_bytes());
    let a = hash[0];
    let b = hash[31];
    assert((a & 248) == a - a % 8) by (bit_vector);
    assert(((b & 63) | 64) == 64 + b % 64) by (bit_vector);
    let secret = files.secret_key@;
    assert(files.public_key@.skip(32) =~= ed25519_public_key(key.seed_bytes()));
    assert(secret.skip(64) =~= hash.skip(32));
    assert(secret.subrange(33, 63) =~= hash.subrange(1, 31));
}

/// The files of a scalar hold it as it is, with the nonce prefix behind it.
pub proof fn law_scalar_files(
    public: [u8; 32],
    scalar: [u8; 32],
    prefix: [u8; 32],
    address: &str,
    files: KeyFiles,
)
    requires
        call_ensures(key_files_with_prefix, (&public, &scalar, &prefix, address), files),
    ensures
        files.public_key@.skip(32) == public@,
        files.secret_key@.subrange(32, 64) == scalar@,
        files.secret_key@.skip(64) == prefix@,
{
    assert(files.public_key@.skip(32) =~= public@);
    assert(files.secret_key@.subrange(32, 64) =~= scalar@);
    assert(files.secret_key@.skip(64) =~= prefix@);
}

/// A position is reported exactly where the character is not in the alphabet, and the
/// positions come in order.
pub proof fn law_reported_positions(s: &str, r: (bool, Vec<usize>))
    requires
        call_ensures(validate_pattern, (s,), r),
        s@.len() <= usize::MAX,
    ensures
        forall|i: usize|
            #![trigger r.1@.contains(i)]
            r.1@.contains(i) <==> i < s@.len() && !"abcdefghijklmnopqrstuvwxyz234567"@.contains(
                s@[i as int],
            ),
        forall|i: int, j: int| 0 <= i < j < r.1@.len() ==> r.1@[i] < r.1@[j],
        r.0 <==> forall|i: int|
            0 <= i < s@.len() ==> "abcdefghijklmnopqrstuvwxyz234567"@.contains(#[trigger] s@[i]),
{
    lemma_positions(s@, s@.len());
    assert forall|i: int| 0 <= i < s@.len() implies (text::base32_char(#[trigger] s@[i])
        <==> "abcdefghijklmnopqrstuvwxyz234567"@.contains(s@[i])) by {
        law_valid_chars(s@[i]);
    }
    if r.1@.len() > 0 {
        assert(r.1@.contains(r.1@[0]));
        assert(!text::base32_char(s@[r.1@[0] as int]));
    }
    law_valid_pattern(s@, s@.len());
}

proof fn lemma_positions(s: Seq<char>, n: nat)
    requires
        n <= s.len() <= usize::MAX,
    ensures
        forall|i: usize|
            #![trigger invalid_positions(s, n).contains(i)]
            invalid_positions(s, n).contains(i) <==> i < n && !text::base32_char(s[i as int]),
        forall|i: int, j: int|
            0 <= i < j < invalid_positions(s, n).len() ==> invalid_positions(s, n)[i]
                < invalid_positions(s, n)[j],
    decreases n,
{
    if n > 0 {
        let m = (n - 1) as nat;
        let rest = invalid_positions(s, m);
        let all = invalid_positions(s, n);
        lemma_positions(s, m);
        assert forall|i: int| 0 <= i < rest.len() implies #[trigger] rest[i] < m by {
            assert(rest.contains(rest[i]));
        }
        assert forall|i: usize| #![trigger all.contains(i)] all.contains(i) <==> i < n
            && !text::base32_char(s[i as int]) by {
            if all.contains(i) {
                let k = choose|k: int| 0 <= k < all.len() && all[k] == i;
                if k < rest.len() {
                    assert(rest.contains(rest[k]));
                }
            }
            if i < n && !text::base32_char(s[i as int]) {
                if i < m {
                    assert(rest.contains(i));
                    let k = choose|k: int| 0 <= k < rest.len() && rest[k] == i;
                    assert(all[k] == i);
                } else {
                    assert(all[all.len() - 1] == i);
                }
            }
        }
    }
}

/// The match types stand in a row: prefix, suffix, anywhere, and prefix again.
pub proof fn law_match_type_order(m: MatchType, r: MatchType, s: MatchType)
    requires
        call_ensures(MatchType::next, (&m,), r),
        call_ensures(MatchType::prev, (&m,), s),
    ensures
        m is Prefix <==> r is Suffix,
        m is Suffix <==> r is Anywhere,
        m is Anywhere <==> r is Prefix,
        m is Suffix <==> s is Prefix,
        m is Anywhere <==> s is Suffix,
        m is Prefix <==> s is Anywhere,
{
}

/// The directory's name is `.onion` behind the first sixteen bytes of the address, or behind
/// all of a shorter one, wherever that is a place to cut.
pub proof fn law_any_dir_name(
    files: KeyFiles,
    address: Seq<char>,
    public: Seq<u8>,
    expanded: Seq<u8>,
    head: Seq<char>,
)
    requires
        files_hold(files, address, public, expanded),
        head.len() <= address.len(),
        address.take(head.len() as int) == head,
        encode_utf8(head).len() == 16 || (encode_utf8(head).len() < 16 && head == address),
    ensures
        files.dir_name@ == head + ".onion"@,
{
    let n = head.len() as int;
    let rest = address.skip(n);
    assert(address =~= head + rest);
    lemma_encoding_of_sum(head, rest);
    let bytes = encode_utf8(address);
    if encode_utf8(head).len() < 16 {
        assert(bytes.subrange(0, dir_cut(address)) =~= bytes);
    } else {
        assert(bytes.subrange(0, 16) =~= encode_utf8(head));
    }
    encode_utf8_decode_utf8(head);
}

/// A text is encoded part by part.
proof fn lemma_encoding_of_sum(a: Seq<char>, b: Seq<char>)
    ensures
        encode_utf8(a + b) == encode_utf8(a) + encode_utf8(b),
    decreases a.len(),
{
    let s = a + b;
    if a.len() == 0 {
        assert(s =~= b);
        assert(encode_utf8(a) + encode_utf8(b) =~= encode_utf8(b));
    } else {
        lemma_encoding_of_sum(a.drop_first(), b);
        assert(s.drop_first() =~= a.drop_first() + b);
        assert(s[0] == a[0]);
        assert(encode_utf8(s) =~= encode_utf8(a) + encode_utf8(b));
    }
}

/// A key made from a seed gives the seed back, and its public key is the seed's, as is its
/// address.
pub proof fn law_key_of_seed(
    seed: [u8; 32],
    key: SigningKey,
    back: [u8; 32],
    public: [u8; 32],
    text: String,
    addr: [u8; 56],
)
    requires
        call_ensures(SigningKey::from_bytes, (&seed,), key),
        call_ensures(SigningKey::to_bytes, (&key,), back),
        call_ensures(SigningKey::public_bytes, (&key,), public),
        call_ensures(derive_address, (&key,), text),
        call_ensures(address_from_pubkey, (&public,), addr),
    ensures
        back@ == seed@,
        public@ == ed25519_public_key(seed@),
        text@.len() == 56,
        forall|i: int| 0 <= i < 56 ==> (#[trigger] text@[i]) as int == addr[i],
{
    law_address_shape(public@);
    assert forall|i: int| 0 <= i < 56 implies (#[trigger] text@[i]) as int == addr[i] by {
        assert(onion_address(public@)[i] < 128);
    }
}

/// The names of the match types and the backends.
pub proof fn law_names(m: MatchType, b: Backend, r: &'static str, s: &'static str, t: Backend)
    requires
        call_ensures(MatchType::label, (&m,), r),
        call_ensures(Backend::label, (&b,), s),
        call_ensures(Backend::toggle, (&b,), t),
    ensures
        r@ == (match m {
            MatchType::Prefix => "Prefix"@,
            MatchType::Suffix => "Suffix"@,
            MatchType::Anywhere => "Anywhere"@,
        }),
        s@ == (if b is Cpu {
            "CPU"@
        } else {
            "GPU"@
        }),
        t is Cpu <==> b is Gpu,
{
}

} // verus!
