//! The host side of the GPU search: what goes into a dispatch, what comes out of it, and
//! which results count.

use crate::base32;
use crate::bytefield::field_mul_p;
use crate::crypto;
use crate::crypto::{key_matches, MatchType, MAX_DEVICE_PREFIX};
use crate::curve;
use crate::edwards::{basepoint, ge_compress, ge_scalarmult_base, Ge};
use crate::field::{fe_from_bytes, fe_one, Fe};
use crate::gf;
use crate::group;
use crate::radix;
use crate::search;
use crate::text::joined;
use vstd::prelude::*;
use vstd::string::StringExecFns;

verus! {

/// Affine `x` of the Ed25519 base point, little-endian.
pub const BX_LE: [u8; 32] = [
    0x1A, 0xD5, 0x25, 0x8F, 0x60, 0x2D, 0x56, 0xC9, 0xB2, 0xA7, 0x25, 0x95, 0x60, 0xC7, 0x2C, 0x69,
    0x5C, 0xDC, 0xD6, 0xFD, 0x31, 0xE2, 0xA4, 0xC0, 0xFE, 0x53, 0x6E, 0xCD, 0xD3, 0x36, 0x69, 0x21,
];

/// Affine `y` of the base point, 4/5, little-endian.
pub const BY_LE: [u8; 32] = [
    0x58, 0x66, 0x66, 0x66, 0x66, 0x66, 0x66, 0x66, 0x66, 0x66, 0x66, 0x66, 0x66, 0x66, 0x66, 0x66,
    0x66, 0x66, 0x66, 0x66, 0x66, 0x66, 0x66, 0x66, 0x66, 0x66, 0x66, 0x66, 0x66, 0x66, 0x66, 0x66,
];

/// The device matches prefixes and returns the matches.
pub const MODE_PREFIX: u32 = 0;

/// The device returns every candidate by its index.
pub const MODE_WRITE_ALL: u32 = 1;

/// The device matches anywhere in its part of the address and returns the matches.
pub const MODE_ANYWHERE: u32 = 2;

/// Threads of a dispatch.
pub const KEYGEN_THREADS: u32 = 16384;

/// Threads of a workgroup.
pub const KEYGEN_WORKGROUP_SIZE: u32 = 64;

/// Smallest number of candidates per thread.
pub const BATCH_K: u32 = 64;

/// Bytes of scratch per unit of batch size: for each thread, four field elements of
/// sixteen words.
pub const SCRATCH_BYTES_PER_K: u64 = 0x40_0000;

/// Bytes of output per unit of batch size: for each thread, sixteen words.
pub const OUTPUT_BYTES_PER_K: u64 = 0x10_0000;

/// Words of the comb table: 32 windows of 256 points of 64 words.
pub const TABLE_WORDS: u64 = 524288;

/// Words before the first match in the output.
pub const OUT_HEADER: usize = 4;

/// Matches that the output has room for.
pub const MAX_MATCHES: usize = 256;

/// Words of the parameter block.
pub const PARAMS_WORDS: usize = 128;

/// The graphics interface of an adapter.
#[derive(Clone, Copy, PartialEq, Eq, Debug, Structural)]
pub enum GraphicsApi {
    Metal,
    Vulkan,
    Dx12,
    Gl,
    BrowserWebGpu,
    Empty,
}

impl GraphicsApi {
    pub open spec fn spec_label(self) -> Seq<char> {
        match self {
            GraphicsApi::Metal => "Metal"@,
            GraphicsApi::Vulkan => "Vulkan"@,
            GraphicsApi::Dx12 => "DX12"@,
            GraphicsApi::Gl => "GL"@,
            GraphicsApi::BrowserWebGpu => "WebGPU"@,
            GraphicsApi::Empty => "none"@,
        }
    }

    pub fn label(&self) -> (r: &'static str)
        ensures
            r@ == self.spec_label(),
    {
        match self {
            GraphicsApi::Metal => "Metal",
            GraphicsApi::Vulkan => "Vulkan",
            GraphicsApi::Dx12 => "DX12",
            GraphicsApi::Gl => "GL",
            GraphicsApi::BrowserWebGpu => "WebGPU",
            GraphicsApi::Empty => "none",
        }
    }
}

/// What is known of an adapter.
pub struct GpuInfo {
    pub api: GraphicsApi,
    pub adapter_name: String,
    pub limits: GpuLimits,
}

impl GpuInfo {
    /// The interface and the adapter's name.
    pub open spec fn spec_detail(&self) -> Seq<char> {
        self.api.spec_label() + " · "@ + self.adapter_name@
    }

    /// The interface's name.
    pub fn backend_label(&self) -> (r: &'static str)
        ensures
            r@ == self.api.spec_label(),
    {
        self.api.label()
    }

    /// The interface and the adapter's name.
    pub fn detail(&self) -> (r: String)
        ensures
            r@ == self.spec_detail(),
    {
        let mut r: String = joined(self.api.label(), " · ");
        r.append(self.adapter_name.as_str());
        r
    }
}

// ---- buffers ----

/// Bytes of the output for every candidate: sixteen words each.
pub fn output_size(batch_k: u32) -> (r: u64)
    ensures
        r == 0x10_0000 * batch_k,
{
    OUTPUT_BYTES_PER_K * batch_k as u64
}

/// Bytes of the scratch buffer.
pub fn scratch_size(batch_k: u32) -> (r: u64)
    ensures
        r == 0x40_0000 * batch_k,
{
    SCRATCH_BYTES_PER_K * batch_k as u64
}

/// Bytes of the comb table.
pub fn table_size() -> (r: u64)
    ensures
        r == 4 * TABLE_WORDS,
{
    TABLE_WORDS * 4
}

/// Workgroups of a dispatch: one thread each for every key thread.
pub fn workgroups() -> (r: u32)
    ensures
        r * KEYGEN_WORKGROUP_SIZE == KEYGEN_THREADS,
{
    KEYGEN_THREADS / KEYGEN_WORKGROUP_SIZE
}

/// Candidates of a dispatch.
pub fn per_dispatch(batch_k: u32) -> (r: u64)
    ensures
        r == 16384 * batch_k,
{
    KEYGEN_THREADS as u64 * batch_k as u64
}

/// Estimated device memory of a batch size: scratch, output and staging.
pub fn est_footprint_bytes(batch_k: u32) -> (r: u64)
    ensures
        r == 0x60_0000 * batch_k,
{
    scratch_size(batch_k) + 2 * output_size(batch_k)
}

/// What a device can allocate.
#[derive(Clone, Copy)]
pub struct GpuLimits {
    /// Largest buffer, in bytes.
    pub max_buffer: u64,
    /// Largest buffer that a kernel can bind, in bytes.
    pub max_binding: u64,
}

/// A batch size whose largest buffer the device can allocate and bind.
pub open spec fn batch_fits(limits: GpuLimits, batch_k: int) -> bool {
    &&& 0x40_0000 * batch_k <= limits.max_buffer
    &&& 0x40_0000 * batch_k <= limits.max_binding
}

/// The batch sizes on offer: doubled from 64 up, as far as they fit the device and 32 bits.
/// The smallest is always there.
pub open spec fn is_offer(limits: GpuLimits, s: Seq<u32>) -> bool {
    &&& s.len() >= 1
    &&& s[0] == BATCH_K
    &&& forall|i: int| 1 <= i < s.len() ==> #[trigger] s[i] == 2 * s[i - 1]
    &&& forall|i: int|
        1 <= i < s.len() ==> batch_fits(limits, (#[trigger] s[i]) as int)
    &&& !(batch_fits(limits, 2 * s.last() as int) && 2 * s.last() <= u32::MAX)
}

/// The batch sizes on offer.
pub fn batch_k_options(limits: &GpuLimits) -> (r: Vec<u32>)
    ensures
        is_offer(*limits, r@),
{
    let mut r: Vec<u32> = Vec::new();
    r.push(BATCH_K);
    let mut k: u32 = BATCH_K;
    while k <= u32::MAX / 2 && scratch_size(2 * k) <= limits.max_buffer && scratch_size(2 * k)
        <= limits.max_binding
        invariant
            64 <= k,
            1 <= r@.len(),
            r@[0] == BATCH_K,
            r@.last() == k,
            forall|i: int| 1 <= i < r@.len() ==> #[trigger] r@[i] == 2 * r@[i - 1],
            forall|i: int|
                1 <= i < r@.len() ==> batch_fits(*limits, (#[trigger] r@[i]) as int),
        decreases u32::MAX - k,
    {
        k = 2 * k;
        r.push(k);
    }
    r
}

/// Batch sizes on offer grow.
pub proof fn lemma_offer_grows(limits: GpuLimits, s: Seq<u32>, i: int, j: int)
    requires
        is_offer(limits, s),
        0 <= i < j < s.len(),
    ensures
        64 <= s[i] < s[j],
    decreases j,
{
    assert(s[j] == 2 * s[j - 1]);
    if i < j - 1 {
        lemma_offer_grows(limits, s, i, j - 1);
    } else if i > 0 {
        lemma_offer_grows(limits, s, 0, i);
    }
}

/// There is one offer for a device.
pub proof fn law_offer_unique(limits: GpuLimits, s: Seq<u32>, t: Seq<u32>)
    requires
        is_offer(limits, s),
        is_offer(limits, t),
    ensures
        s == t,
{
    lemma_offer_prefix(limits, s, t);
    lemma_offer_prefix(limits, t, s);
    assert(s =~= t);
}

proof fn lemma_same_entry(limits: GpuLimits, s: Seq<u32>, t: Seq<u32>, i: int)
    requires
        is_offer(limits, s),
        is_offer(limits, t),
        0 <= i < s.len(),
        i < t.len(),
    ensures
        s[i] == t[i],
    decreases i,
{
    if i > 0 {
        lemma_same_entry(limits, s, t, i - 1);
        assert(s[i] == 2 * s[i - 1]);
        assert(t[i] == 2 * t[i - 1]);
    }
}

proof fn lemma_offer_prefix(limits: GpuLimits, s: Seq<u32>, t: Seq<u32>)
    requires
        is_offer(limits, s),
        is_offer(limits, t),
    ensures
        s.len() <= t.len(),
        forall|i: int| 0 <= i < s.len() ==> s[i] == t[i],
{
    if t.len() < s.len() {
        let n = t.len() as int;
        lemma_same_entry(limits, s, t, n - 1);
        assert(s[n] == 2 * s[n - 1]);
        assert(false);
    }
    assert forall|i: int| 0 <= i < s.len() implies s[i] == t[i] by {
        lemma_same_entry(limits, s, t, i);
    }
}

/// The largest batch size on offer.
pub fn max_batch_k(limits: &GpuLimits) -> (r: u32)
    ensures
        exists|s: Seq<u32>| is_offer(*limits, s) && r == #[trigger] s.last(),
{
    let options: Vec<u32> = batch_k_options(limits);
    let r: u32 = options[options.len() - 1];
    assert(is_offer(*limits, options@) && r == options@.last());
    r
}

/// The batch size to start with: 256, or the largest that fits.
pub open spec fn spec_default_batch_k(limits: GpuLimits) -> u32 {
    if batch_fits(limits, 256) {
        256
    } else if batch_fits(limits, 128) {
        128
    } else {
        64
    }
}

/// The batch size to start with: 256, or the largest that fits.
pub fn default_batch_k(limits: &GpuLimits) -> (r: u32)
    ensures
        r == spec_default_batch_k(*limits),
{
    let m: u32 = max_batch_k(limits);
    proof {
        let s = choose|s: Seq<u32>| is_offer(*limits, s) && m == #[trigger] s.last();
        law_default_offered(*limits, s);
        if s.len() >= 4 {
            lemma_offer_grows(*limits, s, 2, s.len() - 1);
        }
    }
    if m < 256 {
        m
    } else {
        256
    }
}

/// The batch size to start with is on offer, and is the largest where it is below 256.
pub proof fn law_default_offered(limits: GpuLimits, s: Seq<u32>)
    requires
        is_offer(limits, s),
    ensures
        s.contains(spec_default_batch_k(limits)),
        s.len() >= 3 ==> s[2] == 256 && spec_default_batch_k(limits) == 256,
        s.len() < 3 ==> s.last() == spec_default_batch_k(limits),
{
    assert(s[0] == 64);
    if s.len() >= 2 {
        assert(s[1] == 2 * s[0]);
    }
    if s.len() >= 3 {
        assert(s[2] == 2 * s[1]);
    }
}

// ---- parameters ----

/// The limbs of a 32-byte field element for the device.
pub fn bytes_to_fe16(b: &[u8; 32]) -> (r: [u32; 16])
    ensures
        forall|i: int| 0 <= i < 16 ==> #[trigger] r[i] == b[2 * i] + 256 * b[2 * i + 1],
{
    fe_from_bytes(b)
}

/// Word `i` of a little-endian byte string.
pub open spec fn le_word(s: Seq<u8>, i: int) -> int {
    s[4 * i] + 256 * s[4 * i + 1] + 65536 * s[4 * i + 2] + 0x100_0000 * s[4 * i + 3]
}

/// Limb `i` of a 32-byte field element.
pub open spec fn limb_of(s: Seq<u8>, i: int) -> int {
    s[2 * i] + 256 * s[2 * i + 1]
}

/// What the parameter block always holds: the thread count, and the base point with
/// `Z = 1` and `T = XY`; `bt` is `T`.
pub open spec fn base_word(bt: Seq<u8>, w: int) -> int {
    if w == 9 {
        16384
    } else if 12 <= w < 28 {
        limb_of(BX_LE@, w - 12)
    } else if 28 <= w < 44 {
        limb_of(BY_LE@, w - 28)
    } else if w == 44 {
        1
    } else if 60 <= w < 76 {
        limb_of(bt, w - 60)
    } else {
        0
    }
}

/// The parameter block before a dispatch fills it in.
pub open spec fn is_base_block(r: Seq<u32>) -> bool {
    exists|bt: Seq<u8>|
        bt.len() == 32 && radix::le_value(bt) == (radix::le_value(BX_LE@) * radix::le_value(
            BY_LE@,
        )) % radix::prime() && forall|w: int|
            0 <= w < 128 ==> #[trigger] r[w] == base_word(bt, w)
}

/// The parameter block with the base point in it.
pub fn base_params() -> (r: [u32; 128])
    ensures
        is_base_block(r@),
{
    let bx: Fe = bytes_to_fe16(&BX_LE);
    let by: Fe = bytes_to_fe16(&BY_LE);
    let bz: Fe = fe_one();
    let t: [u8; 32] = field_mul_p(&BX_LE, &BY_LE);
    let bt: Fe = bytes_to_fe16(&t);
    let mut r: [u32; 128] = [0u32; 128];
    r[9] = KEYGEN_THREADS;
    for i in 0..16usize
        invariant
            forall|k: int| 0 <= k < 16 ==> #[trigger] bx[k] == limb_of(BX_LE@, k),
            forall|k: int| 0 <= k < 16 ==> #[trigger] by[k] == limb_of(BY_LE@, k),
            forall|k: int| 0 <= k < 16 ==> #[trigger] bz[k] == if k == 0 { 1int } else { 0int },
            forall|k: int| 0 <= k < 16 ==> #[trigger] bt[k] == limb_of(t@, k),
            forall|w: int|
                0 <= w < 128 ==> #[trigger] r[w] == if (12 <= w < 76) && (w - 12) % 16 >= i {
                    0
                } else {
                    base_word(t@, w)
                },
    {
        r[12 + i] = bx[i];
        r[28 + i] = by[i];
        r[44 + i] = bz[i];
        r[60 + i] = bt[i];
    }
    proof {
        assert(forall|w: int| 0 <= w < 128 ==> #[trigger] r@[w] == base_word(t@, w));
    }
    r
}

/// Word `w` of the parameter block of a dispatch.
pub open spec fn dispatch_word(
    base: Seq<u32>,
    base_seed: Seq<u8>,
    batch_id: u32,
    mode: u32,
    pattern_syms: Seq<u32>,
    w: int,
) -> int {
    if w < 8 {
        le_word(base_seed, w)
    } else if w == 8 {
        batch_id as int
    } else if w == 10 {
        mode as int
    } else if mode != MODE_WRITE_ALL && w == 11 {
        pattern_syms.len() as int
    } else if mode != MODE_WRITE_ALL && 76 <= w < 76 + pattern_syms.len() {
        pattern_syms[w - 76] as int
    } else {
        base[w] as int
    }
}

/// The parameter block of one dispatch: the seed, the batch number, the mode and, where
/// the device matches, the pattern's symbols go into the base block.
pub fn dispatch_params(
    base: &[u32; 128],
    base_seed: &[u8; 32],
    batch_id: u32,
    mode: u32,
    pattern_syms: &[u32],
) -> (r: [u32; 128])
    requires
        mode != MODE_WRITE_ALL ==> pattern_syms@.len() <= 52,
    ensures
        forall|w: int|
            0 <= w < 128 ==> #[trigger] r[w] == dispatch_word(
                base@,
                base_seed@,
                batch_id,
                mode,
                pattern_syms@,
                w,
            ),
{
    let mut r: [u32; 128] = *base;
    for i in 0..8usize
        invariant
            forall|w: int| 0 <= w < i ==> #[trigger] r[w] == le_word(base_seed@, w),
            forall|w: int| i <= w < 128 ==> #[trigger] r[w] == base[w],
    {
        r[i] = base_seed[4 * i] as u32 + 256 * (base_seed[4 * i + 1] as u32) + 65536 * (
        base_seed[4 * i + 2] as u32) + 0x100_0000 * (base_seed[4 * i + 3] as u32);
    }
    r[8] = batch_id;
    r[10] = mode;
    if mode != MODE_WRITE_ALL {
        let n: usize = pattern_syms.len();
        r[11] = n as u32;
        let ghost before = r;
        for j in 0..n
            invariant
                n == pattern_syms@.len(),
                n <= 52,
                forall|w: int|
                    0 <= w < 128 ==> #[trigger] r[w] == if 76 <= w < 76 + j {
                        pattern_syms@[w - 76]
                    } else {
                        before[w]
                    },
        {
            r[76 + j] = pattern_syms[j];
        }
    }
    r
}

/// Bytes to read back after a dispatch: the header and the matches, or everything.
pub fn readback_size(mode: u32, batch_k: u32) -> (r: u64)
    ensures
        r == if mode != MODE_WRITE_ALL {
            16400int
        } else {
            0x10_0000 * batch_k
        },
{
    if mode != MODE_WRITE_ALL {
        ((OUT_HEADER + MAX_MATCHES * 16) * 4) as u64
    } else {
        output_size(batch_k)
    }
}

// ---- results ----

/// A key as the device returns it: the compressed point and its scalar.
#[derive(Clone, Copy)]
pub struct GpuKeyPair {
    pub pubkey: [u8; 32],
    pub scalar: [u8; 32],
}

/// Byte `k` of a word, least significant first.
pub open spec fn word_byte(w: u32, k: int) -> int {
    if k == 0 {
        w as int % 256
    } else if k == 1 {
        (w as int / 256) % 256
    } else if k == 2 {
        (w as int / 65536) % 256
    } else {
        w as int / 0x100_0000
    }
}

/// Eight words as 32 little-endian bytes.
pub open spec fn word_bytes(words: Seq<u32>, off: int) -> Seq<u8> {
    Seq::new(32, |i: int| word_byte(words[off + i / 4], i % 4) as u8)
}

/// A record is eight words of public key and eight words of scalar.
pub open spec fn is_record(kp: GpuKeyPair, words: Seq<u32>, off: int) -> bool {
    kp.pubkey@ == word_bytes(words, off) && kp.scalar@ == word_bytes(words, off + 8)
}

/// Eight words as bytes.
fn unpack_words(words: &[u32], off: usize) -> (r: [u8; 32])
    requires
        off + 8 <= words@.len(),
    ensures
        r@ == word_bytes(words@, off as int),
{
    assert(words@.len() == words.len());
    let mut r: [u8; 32] = [0u8; 32];
    for j in 0..8usize
        invariant
            words@.len() == words.len(),
            off + 8 <= words@.len(),
            forall|i: int| 0 <= i < 4 * j ==> #[trigger] r@[i] == word_bytes(words@, off as int)[i],
    {
        let w: u32 = words[off + j];
        let ghost before = r@;
        r[4 * j] = (w % 256) as u8;
        r[4 * j + 1] = ((w / 256) % 256) as u8;
        r[4 * j + 2] = ((w / 65536) % 256) as u8;
        r[4 * j + 3] = (w / 0x100_0000) as u8;
        proof {
            assert forall|i: int| 0 <= i < 4 * (j + 1) implies #[trigger] r@[i] == word_bytes(
                words@,
                off as int,
            )[i] by {
                if i < 4 * j {
                    assert(before[i] == word_bytes(words@, off as int)[i]);
                } else {
                    assert(i / 4 == j);
                }
            }
        }
    }
    assert(r@ =~= word_bytes(words@, off as int));
    r
}

/// The record at word `off`.
pub fn parse_pair(words: &[u32], off: usize) -> (kp: GpuKeyPair)
    requires
        off + 16 <= words@.len(),
    ensures
        is_record(kp, words@, off as int),
{
    assert(words@.len() == words.len());
    GpuKeyPair { pubkey: unpack_words(words, off), scalar: unpack_words(words, off + 8) }
}

/// How many records the output of a dispatch holds.
pub open spec fn record_count(words: Seq<u32>, mode: u32, batch_k: u32) -> int {
    if mode != MODE_WRITE_ALL {
        if words[0] < 256 {
            words[0] as int
        } else {
            256
        }
    } else {
        16384 * batch_k as int
    }
}

/// Word of record `i`.
pub open spec fn record_offset(mode: u32, i: int) -> int {
    if mode != MODE_WRITE_ALL {
        4 + 16 * i
    } else {
        16 * i
    }
}

/// The records of a dispatch, in order.
pub fn parse_output(words: &[u32], mode: u32, batch_k: u32) -> (r: Vec<GpuKeyPair>)
    requires
        mode != MODE_WRITE_ALL ==> words@.len() >= 4,
        words@.len() >= record_offset(mode, record_count(words@, mode, batch_k)),
    ensures
        r@.len() == record_count(words@, mode, batch_k),
        forall|i: int|
            0 <= i < r@.len() ==> is_record(#[trigger] r@[i], words@, record_offset(mode, i)),
{
    assert(words@.len() == words.len());
    let compaction: bool = mode != MODE_WRITE_ALL;
    let count: usize = if compaction {
        if words[0] < 256 {
            words[0] as usize
        } else {
            256
        }
    } else {
        per_dispatch(batch_k) as usize
    };
    let mut r: Vec<GpuKeyPair> = Vec::new();
    for i in 0..count
        invariant
            words@.len() == words.len(),
            count == record_count(words@, mode, batch_k),
            compaction == (mode != MODE_WRITE_ALL),
            words@.len() >= record_offset(mode, count as int),
            r@.len() == i,
            forall|k: int|
                0 <= k < i ==> is_record(#[trigger] r@[k], words@, record_offset(mode, k)),
    {
        let off: usize = if compaction {
            4 + 16 * i
        } else {
            16 * i
        };
        r.push(parse_pair(words, off));
    }
    r
}

/// The symbol value of a base32 character.
pub open spec fn symbol_of(b: u8) -> Option<int> {
    if 97 <= b <= 122 {
        Some(b - 97)
    } else if 50 <= b <= 55 {
        Some(b - 24)
    } else {
        None
    }
}

/// The symbol values are the positions in `VALID_CHARS`.
pub proof fn law_symbols_are_positions(b: u8)
    ensures
        symbol_of(b) is Some ==> 0 <= symbol_of(b)->0 < 32 && crypto::VALID_CHARS@[symbol_of(b)->0]
            == b as char,
        symbol_of(b) is None ==> !crypto::VALID_CHARS@.contains(b as char),
{
    crypto::law_valid_chars(b as char);
}

/// The symbol values of a pattern, or nothing if a character is not of the alphabet.
pub fn pattern_to_symbols(pattern: &[u8]) -> (r: Option<Vec<u32>>)
    ensures
        r is Some <==> forall|i: int|
            0 <= i < pattern@.len() ==> symbol_of(#[trigger] pattern@[i]) is Some,
        r matches Some(v) ==> v@.len() == pattern@.len() && forall|i: int|
            0 <= i < pattern@.len() ==> symbol_of(pattern@[i]) == Some(#[trigger] v@[i] as int),
{
    let mut v: Vec<u32> = Vec::new();
    for i in 0..pattern.len()
        invariant
            v@.len() == i,
            forall|k: int|
                0 <= k < i ==> symbol_of(pattern@[k]) == Some(#[trigger] v@[k] as int),
            forall|k: int| 0 <= k < i ==> symbol_of(#[trigger] pattern@[k]) is Some,
    {
        let b: u8 = pattern[i];
        if b >= 97 && b <= 122 {
            v.push((b - 97) as u32);
        } else if b >= 50 && b <= 55 {
            v.push((b - 24) as u32);
        } else {
            assert(symbol_of(pattern@[i as int]) is None);
            return None;
        }
    }
    Some(v)
}

/// A pattern that the device can match.
pub open spec fn device_pattern(pattern: Seq<u8>) -> bool {
    pattern.len() <= 48 && forall|i: int|
        0 <= i < pattern.len() ==> symbol_of(#[trigger] pattern[i]) is Some
}

/// The pattern's symbols stand at position `i` among the five-bit groups of the public key.
pub open spec fn symbols_at(pattern: Seq<u8>, public: Seq<u8>, i: int) -> bool {
    forall|j: int|
        0 <= j < pattern.len() ==> symbol_of(#[trigger] pattern[j]) == Some(
            base32::group(public, i + j),
        )
}

/// Matching symbols against the public key is matching characters against the address:
/// where the symbols stand, the pattern stands, and the other way round.
pub proof fn law_symbols_match_address(pattern: Seq<u8>, public: Seq<u8>, i: int)
    requires
        public.len() == 32,
        0 <= i,
        i + pattern.len() <= 51,
    ensures
        symbols_at(pattern, public, i) <==> crypto::occurs_at(
            pattern,
            crypto::onion_address(public),
            i,
        ),
{
    let addr = crypto::onion_address(public);
    let sub = addr.subrange(i, i + pattern.len());
    crypto::law_address_shape(public);
    assert forall|j: int| 0 <= j < pattern.len() implies (symbol_of(#[trigger] pattern[j]) == Some(
        base32::group(public, i + j),
    ) <==> pattern[j] == sub[j]) by {
        crypto::law_address_head(public, i + j);
        base32::lemma_group_range(public, i + j);
    }
    if symbols_at(pattern, public, i) {
        assert(sub =~= pattern);
    }
    if crypto::occurs_at(pattern, addr, i) {
        assert forall|j: int| 0 <= j < pattern.len() implies symbol_of(#[trigger] pattern[j])
            == Some(base32::group(public, i + j)) by {
            assert(pattern[j] == sub[j]);
        }
    }
}

/// What the device matches, the host accepts: a pattern whose symbols stand at the start
/// is a prefix of the address, and one whose symbols stand anywhere occurs in it.
pub proof fn law_device_match_is_accepted(pattern: Seq<u8>, public: Seq<u8>, i: int)
    requires
        public.len() == 32,
        0 <= i,
        i + pattern.len() <= 51,
        symbols_at(pattern, public, i),
    ensures
        crypto::accepts(MatchType::Anywhere, pattern, public),
        i == 0 ==> crypto::accepts(MatchType::Prefix, pattern, public),
{
    law_symbols_match_address(pattern, public, i);
    if i == 0 {
        let addr = crypto::onion_address(public);
        let head = addr.subrange(0, pattern.len() as int);
        assert forall|j: int| 0 <= j < pattern.len() implies #[trigger] pattern[j] == addr[j] by {
            assert(head[j] == addr[j]);
        }
        crypto::law_address_shape(public);
    }
}

/// The dispatch mode for a search.
pub open spec fn mode_for(match_type: MatchType, pattern: Seq<u8>) -> u32 {
    if device_pattern(pattern) && match_type is Prefix {
        MODE_PREFIX
    } else if device_pattern(pattern) && match_type is Anywhere {
        MODE_ANYWHERE
    } else {
        MODE_WRITE_ALL
    }
}

/// What the device gets of the pattern: its symbols, or nothing where the host matches.
pub open spec fn symbols_for(match_type: MatchType, pattern: Seq<u8>, syms: Seq<u32>) -> bool {
    if mode_for(match_type, pattern) == MODE_WRITE_ALL {
        syms.len() == 0
    } else {
        syms.len() == pattern.len() && forall|i: int|
            0 <= i < pattern.len() ==> symbol_of(pattern[i]) == Some(#[trigger] syms[i] as int)
    }
}

/// The dispatch mode for a search, and the pattern's symbols where the device matches:
/// prefixes and patterns anywhere, if short enough; all else is matched on the host.
pub fn pick_mode(match_type: &MatchType, pattern: &[u8]) -> (r: (u32, Vec<u32>))
    ensures
        r.0 == mode_for(*match_type, pattern@),
        symbols_for(*match_type, pattern@, r.1@),
        r.1@.len() <= 48,
{
    if pattern.len() > MAX_DEVICE_PREFIX {
        return (MODE_WRITE_ALL, Vec::new());
    }
    match pattern_to_symbols(pattern) {
        None => (MODE_WRITE_ALL, Vec::new()),
        Some(syms) => match match_type {
            MatchType::Prefix => (MODE_PREFIX, syms),
            MatchType::Anywhere => (MODE_ANYWHERE, syms),
            MatchType::Suffix => (MODE_WRITE_ALL, Vec::new()),
        },
    }
}

/// Whether a key from the device has the pattern in its address.
pub fn host_match(match_type: &MatchType, pattern: &[u8], kp: &GpuKeyPair) -> (r: bool)
    requires
        match_type is Anywhere ==> pattern@.len() > 0,
    ensures
        r == crypto::accepts(*match_type, pattern@, kp.pubkey@),
{
    key_matches(match_type, pattern, &kp.pubkey)
}

/// `r` is the first of `pairs` that has the pattern in its address, if there is one.
pub open spec fn is_first_hit(
    match_type: MatchType,
    pattern: Seq<u8>,
    pairs: Seq<GpuKeyPair>,
    r: Option<GpuKeyPair>,
) -> bool {
    match r {
        Some(kp) => exists|i: int|
            0 <= i < pairs.len() && #[trigger] pairs[i] == kp && crypto::accepts(
                match_type,
                pattern,
                kp.pubkey@,
            ) && forall|k: int|
                0 <= k < i ==> !crypto::accepts(match_type, pattern, (#[trigger] pairs[k]).pubkey@),
        None => forall|k: int|
            0 <= k < pairs.len() ==> !crypto::accepts(
                match_type,
                pattern,
                (#[trigger] pairs[k]).pubkey@,
            ),
    }
}

/// The first key of a dispatch that has the pattern in its address.
pub fn first_hit(match_type: &MatchType, pattern: &[u8], pairs: &[GpuKeyPair]) -> (r: Option<
    GpuKeyPair,
>)
    requires
        match_type is Anywhere ==> pattern@.len() > 0,
    ensures
        is_first_hit(*match_type, pattern@, pairs@, r),
{
    for i in 0..pairs.len()
        invariant
            match_type is Anywhere ==> pattern@.len() > 0,
            forall|k: int|
                0 <= k < i ==> !crypto::accepts(
                    *match_type,
                    pattern@,
                    (#[trigger] pairs@[k]).pubkey@,
                ),
    {
        if host_match(match_type, pattern, &pairs[i]) {
            assert(pairs@[i as int] == pairs@[i as int]);
            return Some(pairs[i]);
        }
    }
    None
}

// ---- the base point ----

/// The base point in extended coordinates.
pub open spec fn base_ext() -> curve::Ext {
    curve::Ext {
        x: radix::le_value(BX_LE@) % radix::prime(),
        y: radix::le_value(BY_LE@) % radix::prime(),
        z: 1,
        t: gf::times(radix::le_value(BX_LE@), radix::le_value(BY_LE@)),
    }
}

/// The base point's coordinates.
pub open spec fn base_x() -> int {
    0x216936d3cd6e53fec0a4e231fdd6dc5c692cc7609525a7b2c9562d608f25d51aint
}

pub open spec fn base_y() -> int {
    0x6666666666666666666666666666666666666666666666666666666666666658int
}

/// The bytes of `BX_LE` and `BY_LE` are the coordinates, reduced.
pub proof fn lemma_base_values()
    ensures
        radix::le_value(BX_LE@) == base_x(),
        radix::le_value(BY_LE@) == base_y(),
        base_ext().x == base_x(),
        base_ext().y == base_y(),
{
    let s = radix::byte_ints(BX_LE@);
    assert(s.len() == 32);
    radix::lemma_eval_next(256, s, 0, 0x1a, 0x1int, 0x0int);
    radix::lemma_eval_next(256, s, 1, 0xd5, 0x100int, 0x1aint);
    radix::lemma_eval_next(256, s, 2, 0x25, 0x10000int, 0xd51aint);
    radix::lemma_eval_next(256, s, 3, 0x8f, 0x1000000int, 0x25d51aint);
    radix::lemma_eval_next(256, s, 4, 0x60, 0x100000000int, 0x8f25d51aint);
    radix::lemma_eval_next(256, s, 5, 0x2d, 0x10000000000int, 0x608f25d51aint);
    radix::lemma_eval_next(256, s, 6, 0x56, 0x1000000000000int, 0x2d608f25d51aint);
    radix::lemma_eval_next(256, s, 7, 0xc9, 0x100000000000000int, 0x562d608f25d51aint);
    radix::lemma_eval_next(256, s, 8, 0xb2, 0x10000000000000000int, 0xc9562d608f25d51aint);
    radix::lemma_eval_next(256, s, 9, 0xa7, 0x1000000000000000000int, 0xb2c9562d608f25d51aint);
    radix::lemma_eval_next(256, s, 10, 0x25, 0x100000000000000000000int, 0xa7b2c9562d608f25d51aint);
    radix::lemma_eval_next(256, s, 11, 0x95, 0x10000000000000000000000int, 0x25a7b2c9562d608f25d51aint);
    radix::lemma_eval_next(256, s, 12, 0x60, 0x1000000000000000000000000int, 0x9525a7b2c9562d608f25d51aint);
    radix::lemma_eval_next(256, s, 13, 0xc7, 0x100000000000000000000000000int, 0x609525a7b2c9562d608f25d51aint);
    radix::lemma_eval_next(256, s, 14, 0x2c, 0x10000000000000000000000000000int, 0xc7609525a7b2c9562d608f25d51aint);
    radix::lemma_eval_next(256, s, 15, 0x69, 0x1000000000000000000000000000000int, 0x2cc7609525a7b2c9562d608f25d51aint);
    radix::lemma_eval_next(256, s, 16, 0x5c, 0x100000000000000000000000000000000int, 0x692cc7609525a7b2c9562d608f25d51aint);
    radix::lemma_eval_next(256, s, 17, 0xdc, 0x10000000000000000000000000000000000int, 0x5c692cc7609525a7b2c9562d608f25d51aint);
    radix::lemma_eval_next(256, s, 18, 0xd6, 0x1000000000000000000000000000000000000int, 0xdc5c692cc7609525a7b2c9562d608f25d51aint);
    radix::lemma_eval_next(256, s, 19, 0xfd, 0x100000000000000000000000000000000000000int, 0xd6dc5c692cc7609525a7b2c9562d608f25d51aint);
    radix::lemma_eval_next(256, s, 20, 0x31, 0x10000000000000000000000000000000000000000int, 0xfdd6dc5c692cc7609525a7b2c9562d608f25d51aint);
    radix::lemma_eval_next(256, s, 21, 0xe2, 0x1000000000000000000000000000000000000000000int, 0x31fdd6dc5c692cc7609525a7b2c9562d608f25d51aint);
    radix::lemma_eval_next(256, s, 22, 0xa4, 0x100000000000000000000000000000000000000000000int, 0xe231fdd6dc5c692cc7609525a7b2c9562d608f25d51aint);
    radix::lemma_eval_next(256, s, 23, 0xc0, 0x10000000000000000000000000000000000000000000000int, 0xa4e231fdd6dc5c692cc7609525a7b2c9562d608f25d51aint);
    radix::lemma_eval_next(256, s, 24, 0xfe, 0x1000000000000000000000000000000000000000000000000int, 0xc0a4e231fdd6dc5c692cc7609525a7b2c9562d608f25d51aint);
    radix::lemma_eval_next(256, s, 25, 0x53, 0x100000000000000000000000000000000000000000000000000int, 0xfec0a4e231fdd6dc5c692cc7609525a7b2c9562d608f25d51aint);
    radix::lemma_eval_next(256, s, 26, 0x6e, 0x10000000000000000000000000000000000000000000000000000int, 0x53fec0a4e231fdd6dc5c692cc7609525a7b2c9562d608f25d51aint);
    radix::lemma_eval_next(256, s, 27, 0xcd, 0x1000000000000000000000000000000000000000000000000000000int, 0x6e53fec0a4e231fdd6dc5c692cc7609525a7b2c9562d608f25d51aint);
    radix::lemma_eval_next(256, s, 28, 0xd3, 0x100000000000000000000000000000000000000000000000000000000int, 0xcd6e53fec0a4e231fdd6dc5c692cc7609525a7b2c9562d608f25d51aint);
    radix::lemma_eval_next(256, s, 29, 0x36, 0x10000000000000000000000000000000000000000000000000000000000int, 0xd3cd6e53fec0a4e231fdd6dc5c692cc7609525a7b2c9562d608f25d51aint);
    radix::lemma_eval_next(256, s, 30, 0x69, 0x1000000000000000000000000000000000000000000000000000000000000int, 0x36d3cd6e53fec0a4e231fdd6dc5c692cc7609525a7b2c9562d608f25d51aint);
    radix::lemma_eval_next(256, s, 31, 0x21, 0x100000000000000000000000000000000000000000000000000000000000000int, 0x6936d3cd6e53fec0a4e231fdd6dc5c692cc7609525a7b2c9562d608f25d51aint);
    let t = radix::byte_ints(BY_LE@);
    assert(t.len() == 32);
    radix::lemma_eval_next(256, t, 0, 0x58, 0x1int, 0x0int);
    radix::lemma_eval_next(256, t, 1, 0x66, 0x100int, 0x58int);
    radix::lemma_eval_next(256, t, 2, 0x66, 0x10000int, 0x6658int);
    radix::lemma_eval_next(256, t, 3, 0x66, 0x1000000int, 0x666658int);
    radix::lemma_eval_next(256, t, 4, 0x66, 0x100000000int, 0x66666658int);
    radix::lemma_eval_next(256, t, 5, 0x66, 0x10000000000int, 0x6666666658int);
    radix::lemma_eval_next(256, t, 6, 0x66, 0x1000000000000int, 0x666666666658int);
    radix::lemma_eval_next(256, t, 7, 0x66, 0x100000000000000int, 0x66666666666658int);
    radix::lemma_eval_next(256, t, 8, 0x66, 0x10000000000000000int, 0x6666666666666658int);
    radix::lemma_eval_next(256, t, 9, 0x66, 0x1000000000000000000int, 0x666666666666666658int);
    radix::lemma_eval_next(256, t, 10, 0x66, 0x100000000000000000000int, 0x66666666666666666658int);
    radix::lemma_eval_next(256, t, 11, 0x66, 0x10000000000000000000000int, 0x6666666666666666666658int);
    radix::lemma_eval_next(256, t, 12, 0x66, 0x1000000000000000000000000int, 0x666666666666666666666658int);
    radix::lemma_eval_next(256, t, 13, 0x66, 0x100000000000000000000000000int, 0x66666666666666666666666658int);
    radix::lemma_eval_next(256, t, 14, 0x66, 0x10000000000000000000000000000int, 0x6666666666666666666666666658int);
    radix::lemma_eval_next(256, t, 15, 0x66, 0x1000000000000000000000000000000int, 0x666666666666666666666666666658int);
    radix::lemma_eval_next(256, t, 16, 0x66, 0x100000000000000000000000000000000int, 0x66666666666666666666666666666658int);
    radix::lemma_eval_next(256, t, 17, 0x66, 0x10000000000000000000000000000000000int, 0x6666666666666666666666666666666658int);
    radix::lemma_eval_next(256, t, 18, 0x66, 0x1000000000000000000000000000000000000int, 0x666666666666666666666666666666666658int);
    radix::lemma_eval_next(256, t, 19, 0x66, 0x100000000000000000000000000000000000000int, 0x66666666666666666666666666666666666658int);
    radix::lemma_eval_next(256, t, 20, 0x66, 0x10000000000000000000000000000000000000000int, 0x6666666666666666666666666666666666666658int);
    radix::lemma_eval_next(256, t, 21, 0x66, 0x1000000000000000000000000000000000000000000int, 0x666666666666666666666666666666666666666658int);
    radix::lemma_eval_next(256, t, 22, 0x66, 0x100000000000000000000000000000000000000000000int, 0x66666666666666666666666666666666666666666658int);
    radix::lemma_eval_next(256, t, 23, 0x66, 0x10000000000000000000000000000000000000000000000int, 0x6666666666666666666666666666666666666666666658int);
    radix::lemma_eval_next(256, t, 24, 0x66, 0x1000000000000000000000000000000000000000000000000int, 0x666666666666666666666666666666666666666666666658int);
    radix::lemma_eval_next(256, t, 25, 0x66, 0x100000000000000000000000000000000000000000000000000int, 0x66666666666666666666666666666666666666666666666658int);
    radix::lemma_eval_next(256, t, 26, 0x66, 0x10000000000000000000000000000000000000000000000000000int, 0x6666666666666666666666666666666666666666666666666658int);
    radix::lemma_eval_next(256, t, 27, 0x66, 0x1000000000000000000000000000000000000000000000000000000int, 0x666666666666666666666666666666666666666666666666666658int);
    radix::lemma_eval_next(256, t, 28, 0x66, 0x100000000000000000000000000000000000000000000000000000000int, 0x66666666666666666666666666666666666666666666666666666658int);
    radix::lemma_eval_next(256, t, 29, 0x66, 0x10000000000000000000000000000000000000000000000000000000000int, 0x6666666666666666666666666666666666666666666666666666666658int);
    radix::lemma_eval_next(256, t, 30, 0x66, 0x1000000000000000000000000000000000000000000000000000000000000int, 0x666666666666666666666666666666666666666666666666666666666658int);
    radix::lemma_eval_next(256, t, 31, 0x66, 0x100000000000000000000000000000000000000000000000000000000000000int, 0x66666666666666666666666666666666666666666666666666666666666658int);
    gf::lemma_reduced(base_x());
    gf::lemma_reduced(base_y());
}

/// The base point lies on the curve, its `y` is 4/5 and its `x` is even.
pub proof fn law_base_point()
    ensures
        curve::valid(base_ext()),
        gf::times(5, base_y()) == 4,
        base_x() % 2 == 0,
{
    let x = base_x();
    let y = base_y();
    let t = 0x67875f0fd78b766566ea4e8e64abe37d20f09f80775152f56dde8ab3a5b7dda3int;
    lemma_base_values();
    gf::lemma_reduced(1);
    assert((x * y) % radix::prime() == t);
    assert(base_ext().t == t);
    gf::lemma_reduced(t);
    assert((y * y - x * x) % radix::prime() == 0x1805ddb3491df0a9558e2ebbaa02855effa18262f5201aa14f4661759bd03579int);
    assert((1 + curve::d() * (t * t)) % radix::prime() == 0x1805ddb3491df0a9558e2ebbaa02855effa18262f5201aa14f4661759bd03579int);
}

/// The compressed public key of a scalar.
pub fn rebuild_pubkey(scalar: &[u8; 32]) -> (pubkey: [u8; 32])
    ensures
        crypto::scalar_opens(scalar@, pubkey@),
{
    let b: Ge = basepoint(&BX_LE, &BY_LE);
    let q: Ge = ge_scalarmult_base(&b, scalar);
    ge_compress(&q)
}

// ---- what goes over and what comes back ----

/// What the device reads from the parameter block. The seed comes back byte for byte from
/// the first eight words; the batch number, the mode and, whenever the device matches, the
/// number of symbols and the symbols themselves stand in their places; everything else is as
/// in the base block.
pub proof fn law_params_say_it_all(
    base: [u32; 128],
    seed: [u8; 32],
    batch_id: u32,
    mode: u32,
    syms: &[u32],
    r: [u32; 128],
)
    requires
        mode != 1 ==> syms@.len() <= 52,
        call_ensures(dispatch_params, (&base, &seed, batch_id, mode, syms), r),
    ensures
        forall|k: int|
            0 <= k < 8 ==> r[k] % 256 == #[trigger] seed[4 * k] && (r[k] / 256) % 256 == seed[4 * k
                + 1] && (r[k] / 0x1_0000) % 256 == seed[4 * k + 2] && r[k] / 0x100_0000 == seed[4
                * k + 3],
        r[8] == batch_id,
        r[10] == mode,
        mode != 1 ==> r[11] == syms@.len() && r@.subrange(76, 76 + syms@.len() as int)
            == syms@,
        mode != 1 ==> forall|w: int|
            76 + syms@.len() <= w < 128 ==> #[trigger] r[w] == base[w],
        mode == 1 ==> r[11] == base[11] && r@.skip(76) == base@.skip(76),
        r[9] == base[9],
        r@.subrange(12, 76) == base@.subrange(12, 76),
{
    assert forall|k: int| 0 <= k < 8 implies r[k] % 256 == #[trigger] seed[4 * k] && (r[k] / 256)
        % 256 == seed[4 * k + 1] && (r[k] / 0x1_0000) % 256 == seed[4 * k + 2] && r[k]
        / 0x100_0000 == seed[4 * k + 3] by {
        assert(r[k] == le_word(seed@, k));
        lemma_word_digits(seed[4 * k], seed[4 * k + 1], seed[4 * k + 2], seed[4 * k + 3], r[k]);
    }
    let n = syms@.len() as int;
    if mode != 1 {
        assert(r[11] == n);
        assert(r@.subrange(76, 76 + n) =~= syms@);
    }
    if mode == 1 {
        assert(r@.skip(76) =~= base@.skip(76));
    }
    assert(r@.subrange(12, 76) =~= base@.subrange(12, 76));
}

/// Four bytes are the digits of their word.
proof fn lemma_word_digits(a: u8, b: u8, c: u8, d: u8, w: u32)
    requires
        w == a + 256 * b + 65536 * c + 0x100_0000 * d,
    ensures
        w % 256 == a,
        (w / 256) % 256 == b,
        (w / 0x1_0000) % 256 == c,
        w / 0x100_0000 == d,
{
    assert(w / 256 == b + 256 * c + 65536 * d);
    assert(w / 0x1_0000 == c + 256 * d);
}

/// The base block is the thread count and the base point: its coordinates, `Z = 1` and the
/// product `T`, each in sixteen limbs of sixteen bits. All other words are 0.
pub proof fn law_base_block(r: [u32; 128])
    requires
        call_ensures(base_params, (), r),
    ensures
        r[9] == 16384,
        limbs_value(r@.subrange(12, 28))
            == 0x216936d3cd6e53fec0a4e231fdd6dc5c692cc7609525a7b2c9562d608f25d51aint,
        limbs_value(r@.subrange(28, 44))
            == 0x6666666666666666666666666666666666666666666666666666666666666658int,
        r[44] == 1,
        forall|w: int| 45 <= w < 60 ==> #[trigger] r[w] == 0,
        limbs_value(r@.subrange(60, 76))
            == 0x67875f0fd78b766566ea4e8e64abe37d20f09f80775152f56dde8ab3a5b7dda3int,
        forall|w: int| 12 <= w < 76 ==> #[trigger] r[w] < 65536,
        forall|w: int| (0 <= w < 9 || 10 <= w < 12 || 76 <= w < 128) ==> #[trigger] r[w] == 0,
{
    let bt = choose|bt: Seq<u8>|
        bt.len() == 32 && radix::le_value(bt) == (radix::le_value(BX_LE@) * radix::le_value(BY_LE@))
            % radix::prime() && forall|w: int| 0 <= w < 128 ==> #[trigger] r@[w] == base_word(bt, w);
    lemma_base_values();
    lemma_limbs(BX_LE@, r@.subrange(12, 28));
    lemma_limbs(BY_LE@, r@.subrange(28, 44));
    lemma_limbs(bt, r@.subrange(60, 76));
    assert((base_x() * base_y()) % radix::prime()
        == 0x67875f0fd78b766566ea4e8e64abe37d20f09f80775152f56dde8ab3a5b7dda3int);
}

/// The number that limbs of sixteen bits make.
pub open spec fn limbs_value(s: Seq<u32>) -> int {
    radix::eval(65536, Seq::new(s.len(), |i: int| s[i] as int), s.len())
}

/// Limbs make the same number as the bytes that they hold.
proof fn lemma_limbs(bytes: Seq<u8>, s: Seq<u32>)
    requires
        bytes.len() == 32,
        s.len() == 16,
        forall|i: int| 0 <= i < 16 ==> #[trigger] s[i] == limb_of(bytes, i),
    ensures
        limbs_value(s) == radix::le_value(bytes),
{
    let t = Seq::new(16, |i: int| s[i] as int);
    radix::lemma_eval_pairs(256, radix::byte_ints(bytes), t, 16);
}

/// What is on offer: 64, and every doubling of it whose scratch buffer, 4 MiB for each, the
/// device can both allocate and bind, as far as 32 bits go. Nothing else.
pub proof fn law_offer(limits: GpuLimits, r: Vec<u32>, k: u32)
    requires
        call_ensures(batch_k_options, (&limits,), r),
    ensures
        r@.contains(k) <==> k == 64 || exists|e: nat|
            k == 64 * #[trigger] radix::weight(2, e) && 4_194_304 * k <= limits.max_buffer
                && 4_194_304 * k <= limits.max_binding,
        forall|i: int, j: int| 0 <= i < j < r@.len() ==> r@[i] < r@[j],
{
    law_offered_sizes(limits, r@, k);
}

/// The same of any offer.
pub proof fn law_offered_sizes(limits: GpuLimits, s: Seq<u32>, k: u32)
    requires
        is_offer(limits, s),
    ensures
        s.contains(k) <==> k == 64 || exists|e: nat|
            k == 64 * #[trigger] radix::weight(2, e) && 4_194_304 * k <= limits.max_buffer
                && 4_194_304 * k <= limits.max_binding,
        forall|i: int, j: int| 0 <= i < j < s.len() ==> s[i] < s[j],
{
    assert forall|i: int, j: int| 0 <= i < j < s.len() implies s[i] < s[j] by {
        lemma_offer_grows(limits, s, i, j);
    }
    if s.contains(k) {
        let i = choose|i: int| 0 <= i < s.len() && s[i] == k;
        lemma_offer_power(limits, s, i);
    }
    if exists|e: nat|
        k == 64 * #[trigger] radix::weight(2, e) && 4_194_304 * k <= limits.max_buffer
            && 4_194_304 * k <= limits.max_binding {
        let e = choose|e: nat|
            k == 64 * #[trigger] radix::weight(2, e) && 4_194_304 * k <= limits.max_buffer
                && 4_194_304 * k <= limits.max_binding;
        if e < s.len() {
            lemma_offer_power(limits, s, e as int);
            assert(s[e as int] == k);
        } else {
            lemma_offer_power(limits, s, s.len() - 1);
            lemma_weight_grows(s.len(), e);
            assert(false);
        }
    }
    assert(s[0] == 64);
}

proof fn lemma_offer_power(limits: GpuLimits, s: Seq<u32>, i: int)
    requires
        is_offer(limits, s),
        0 <= i < s.len(),
    ensures
        s[i] == 64 * radix::weight(2, i as nat),
        i > 0 ==> batch_fits(limits, s[i] as int),
    decreases i,
{
    if i > 0 {
        lemma_offer_power(limits, s, i - 1);
        assert(s[i] == 2 * s[i - 1]);
    }
}

proof fn lemma_weight_grows(m: nat, n: nat)
    requires
        m <= n,
    ensures
        0 < radix::weight(2, m) <= radix::weight(2, n),
    decreases n,
{
    radix::lemma_weight_pos(2, m);
    if m < n {
        lemma_weight_grows(m, (n - 1) as nat);
    }
}

/// The largest size on offer, and the one to start with: the largest that is on offer up to
/// 256.
pub proof fn law_first_choice(limits: GpuLimits, r: Vec<u32>, largest: u32, first: u32)
    requires
        call_ensures(batch_k_options, (&limits,), r),
        call_ensures(max_batch_k, (&limits,), largest),
        call_ensures(default_batch_k, (&limits,), first),
    ensures
        r@.contains(largest),
        forall|k: u32| #[trigger] r@.contains(k) ==> k <= largest,
        r@.contains(first),
        first <= 256,
        forall|k: u32| #[trigger] r@.contains(k) && k <= 256 ==> k <= first,
{
    let s = r@;
    let t = choose|t: Seq<u32>| is_offer(limits, t) && largest == #[trigger] t.last();
    law_offer_unique(limits, s, t);
    assert(s[s.len() - 1] == largest);
    assert forall|k: u32| #[trigger] s.contains(k) implies k <= largest by {
        let i = choose|i: int| 0 <= i < s.len() && s[i] == k;
        if i < s.len() - 1 {
            lemma_offer_grows(limits, s, i, s.len() - 1);
        }
    }
    law_default_offered(limits, s);
    assert forall|k: u32| #[trigger] s.contains(k) && k <= 256 implies k <= first by {}
}

/// Buffer sizes follow from the candidates of a dispatch, 16384 for each unit of batch size:
/// each has sixteen words of output and four field elements of sixteen words of scratch, and
/// the output is held twice, on the device and for reading back.
pub proof fn law_buffers(
    batch_k: u32,
    keys: u64,
    output: u64,
    scratch: u64,
    footprint: u64,
    groups: u32,
    table: u64,
)
    requires
        call_ensures(per_dispatch, (batch_k,), keys),
        call_ensures(output_size, (batch_k,), output),
        call_ensures(scratch_size, (batch_k,), scratch),
        call_ensures(est_footprint_bytes, (batch_k,), footprint),
        call_ensures(workgroups, (), groups),
        call_ensures(table_size, (), table),
    ensures
        keys == 16384 * batch_k,
        output == keys * 16 * 4,
        scratch == keys * 4 * 16 * 4,
        footprint == scratch + 2 * output,
        groups * 64 * batch_k == keys,
        table == 32 * 256 * 4 * 16 * 4,
{
    assert(groups == 256);
}

/// What is read back is enough for every record: in the modes in which the device matches, a
/// header of four words and 256 records of sixteen words; in the other, a record for every
/// candidate.
pub proof fn law_readback(mode: u32, batch_k: u32, keys: u64, bytes: u64)
    requires
        call_ensures(readback_size, (mode, batch_k), bytes),
        call_ensures(per_dispatch, (batch_k,), keys),
    ensures
        mode != 1 ==> bytes == 4 * (4 + 256 * 16),
        mode == 1 ==> bytes == keys * 16 * 4,
{
    assert(keys == 16384 * batch_k);
    if mode == 1 {
        assert(bytes == 0x10_0000 * batch_k);
    }
}

/// How many records are read: where the device matched, as many as word 0 says, up to 256;
/// where it did not, one for every candidate.
pub proof fn law_record_count(words: &[u32], mode: u32, batch_k: u32, r: Vec<GpuKeyPair>, keys: u64)
    requires
        call_ensures(parse_output, (words, mode, batch_k), r),
        call_ensures(per_dispatch, (batch_k,), keys),
    ensures
        mode != 1 && words@[0] <= 256 ==> r@.len() == words@[0],
        mode != 1 && words@[0] > 256 ==> r@.len() == 256,
        mode == 1 ==> r@.len() == keys,
{
}

/// What the device wrote is what is read: the words of each record come back from the bytes
/// of the public key and the scalar, least significant byte first. Where the device matched,
/// the records start at word 4.
pub proof fn law_records(words: &[u32], mode: u32, batch_k: u32, r: Vec<GpuKeyPair>, i: int, k: int)
    requires
        call_ensures(parse_output, (words, mode, batch_k), r),
        0 <= i < r@.len(),
        0 <= k < 8,
    ensures
        ({
            let off = if mode == 1 {
                16 * i
            } else {
                4 + 16 * i
            };
            let p = r@[i].pubkey@;
            let s = r@[i].scalar@;
            &&& words@[off + k] == p[4 * k] + 256 * p[4 * k + 1] + 0x1_0000 * p[4 * k + 2]
                + 0x100_0000 * p[4 * k + 3]
            &&& words@[off + 8 + k] == s[4 * k] + 256 * s[4 * k + 1] + 0x1_0000 * s[4 * k + 2]
                + 0x100_0000 * s[4 * k + 3]
        }),
{
    let off = record_offset(mode, i);
    assert(is_record(r@[i], words@, off));
    lemma_bytes_of_word(words@, off, k);
    lemma_bytes_of_word(words@, off + 8, k);
}

/// Four bytes make up their word again.
pub proof fn lemma_bytes_of_word(words: Seq<u32>, off: int, k: int)
    requires
        0 <= k < 8,
    ensures
        ({
            let b = word_bytes(words, off);
            words[off + k] == b[4 * k] + 256 * b[4 * k + 1] + 0x1_0000 * b[4 * k + 2] + 0x100_0000
                * b[4 * k + 3]
        }),
{
    let w = words[off + k];
    let b = word_bytes(words, off);
    assert((4 * k) / 4 == k && (4 * k + 1) / 4 == k && (4 * k + 2) / 4 == k && (4 * k + 3) / 4 == k);
    assert((4 * k) % 4 == 0 && (4 * k + 1) % 4 == 1 && (4 * k + 2) % 4 == 2 && (4 * k + 3) % 4
        == 3);
    assert(b[4 * k] == w % 256);
    assert(b[4 * k + 1] == (w / 256) % 256);
    assert(b[4 * k + 2] == (w / 65536) % 256);
    assert(b[4 * k + 3] == w / 0x100_0000);
    assert(w / 65536 == (w / 256) / 256 && w / 0x100_0000 == (w / 65536) / 256);
}

/// One record by itself.
pub proof fn law_record(words: &[u32], off: usize, kp: GpuKeyPair, k: int)
    requires
        call_ensures(parse_pair, (words, off), kp),
        0 <= k < 8,
    ensures
        words@[off + k] == kp.pubkey[4 * k] + 256 * kp.pubkey[4 * k + 1] + 0x1_0000 * kp.pubkey[4
            * k + 2] + 0x100_0000 * kp.pubkey[4 * k + 3],
        words@[off + 8 + k] == kp.scalar[4 * k] + 256 * kp.scalar[4 * k + 1] + 0x1_0000
            * kp.scalar[4 * k + 2] + 0x100_0000 * kp.scalar[4 * k + 3],
{
    lemma_bytes_of_word(words@, off as int, k);
    lemma_bytes_of_word(words@, off + 8, k);
}

/// A pattern has symbols exactly if all its characters are in the alphabet, and the symbols
/// are their places in it.
pub proof fn law_symbols(pattern: &[u8], r: Option<Vec<u32>>)
    requires
        call_ensures(pattern_to_symbols, (pattern,), r),
    ensures
        r is Some <==> forall|i: int|
            0 <= i < pattern@.len() ==> "abcdefghijklmnopqrstuvwxyz234567"@.contains(
                (#[trigger] pattern@[i]) as char,
            ),
        r matches Some(v) ==> v@.len() == pattern@.len() && forall|i: int|
            0 <= i < v@.len() ==> (#[trigger] v@[i]) < 32 && "abcdefghijklmnopqrstuvwxyz234567"@[
            v@[i] as int] == pattern@[i] as char,
{
    assert forall|i: int| 0 <= i < pattern@.len() implies (symbol_of(#[trigger] pattern@[i]) is Some
        <==> "abcdefghijklmnopqrstuvwxyz234567"@.contains(pattern@[i] as char)) by {
        lemma_symbol_is_place(pattern@[i]);
    }
    if let Some(v) = r {
        assert forall|i: int| 0 <= i < v@.len() implies (#[trigger] v@[i]) < 32
            && "abcdefghijklmnopqrstuvwxyz234567"@[v@[i] as int] == pattern@[i] as char by {
            lemma_symbol_is_place(pattern@[i]);
        }
    }
}

/// The symbol of a character is its place in the alphabet.
pub proof fn lemma_symbol_is_place(b: u8)
    ensures
        symbol_of(b) is Some <==> "abcdefghijklmnopqrstuvwxyz234567"@.contains(b as char),
        symbol_of(b) matches Some(v) ==> 0 <= v < 32 && "abcdefghijklmnopqrstuvwxyz234567"@[v]
            == b as char,
{
    let a = "abcdefghijklmnopqrstuvwxyz234567"@;
    crypto::law_valid_chars(b as char);
    if let Some(v) = symbol_of(b) {
        base32::lemma_symbol_value(v);
        assert(a[v] == b as char);
    }
}

/// Who matches: the device takes prefixes and patterns anywhere of up to 48 characters of the
/// alphabet, each in its own mode, and gets a symbol for every character; the host takes
/// everything else, and the device gets no symbols.
pub proof fn law_who_matches(match_type: MatchType, pattern: &[u8], r: (u32, Vec<u32>))
    requires
        call_ensures(pick_mode, (&match_type, pattern), r),
    ensures
        ({
            let a = "abcdefghijklmnopqrstuvwxyz234567"@;
            let short = pattern@.len() <= 48 && forall|i: int|
                0 <= i < pattern@.len() ==> a.contains((#[trigger] pattern@[i]) as char);
            if short && !(match_type is Suffix) {
                &&& match_type is Prefix ==> r.0 == 0
                &&& match_type is Anywhere ==> r.0 == 2
                &&& r.1@.len() == pattern@.len()
                &&& forall|i: int|
                    0 <= i < r.1@.len() ==> (#[trigger] r.1@[i]) < 32 && a[r.1@[i] as int]
                        == pattern@[i] as char
            } else {
                r.0 == 1 && r.1@.len() == 0
            }
        }),
{
    let a = "abcdefghijklmnopqrstuvwxyz234567"@;
    assert forall|i: int| 0 <= i < pattern@.len() implies (symbol_of(#[trigger] pattern@[i]) is Some
        <==> a.contains(pattern@[i] as char)) by {
        lemma_symbol_is_place(pattern@[i]);
    }
    let syms = r.1@;
    if r.0 != 1 {
        assert forall|i: int| 0 <= i < syms.len() implies (#[trigger] syms[i]) < 32 && a[
        syms[i] as int] == pattern@[i] as char by {
            lemma_symbol_is_place(pattern@[i]);
        }
    }
}

/// A key from the device counts exactly if its address shows the pattern.
pub proof fn law_host_match(
    match_type: MatchType,
    pattern: &[u8],
    kp: GpuKeyPair,
    addr: [u8; 56],
    r: bool,
)
    requires
        call_ensures(host_match, (&match_type, pattern, &kp), r),
        call_ensures(crypto::address_from_pubkey, (&kp.pubkey,), addr),
    ensures
        match_type is Prefix ==> r == (pattern@.len() <= 56 && addr@.take(pattern@.len() as int)
            == pattern@),
        match_type is Suffix ==> r == (pattern@.len() <= 56 && addr@.skip(56 - pattern@.len())
            == pattern@),
        match_type is Anywhere ==> r == exists|i: int|
            0 <= i <= 56 - pattern@.len() && #[trigger] addr@.subrange(i, i + pattern@.len())
                == pattern@,
{
    crypto::law_accepted_exactly(match_type, pattern@, kp.pubkey@);
}

/// Of the keys of a dispatch the first whose address shows the pattern is taken, and none is
/// only if there is no such key.
pub proof fn law_first_hit(
    match_type: MatchType,
    pattern: &[u8],
    pairs: &[GpuKeyPair],
    r: Option<GpuKeyPair>,
)
    requires
        call_ensures(first_hit, (&match_type, pattern, pairs), r),
    ensures
        r matches Some(kp) ==> exists|i: int|
            0 <= i < pairs@.len() && #[trigger] pairs@[i] == kp && search::shows(
                match_type,
                pattern@,
                crypto::onion_address(kp.pubkey@),
            ) && forall|k: int|
                0 <= k < i ==> !search::shows(
                    match_type,
                    pattern@,
                    crypto::onion_address((#[trigger] pairs@[k]).pubkey@),
                ),
        r is None ==> forall|k: int|
            0 <= k < pairs@.len() ==> !search::shows(
                match_type,
                pattern@,
                crypto::onion_address((#[trigger] pairs@[k]).pubkey@),
            ),
{
    assert forall|k: int| 0 <= k < pairs@.len() implies crypto::accepts(
        match_type,
        pattern@,
        (#[trigger] pairs@[k]).pubkey@,
    ) == search::shows(match_type, pattern@, crypto::onion_address(pairs@[k].pubkey@)) by {
        search::law_shown_is_accepted(match_type, pattern@, pairs@[k].pubkey@);
    }
    if let Some(kp) = r {
        let i = choose|i: int|
            0 <= i < pairs@.len() && #[trigger] pairs@[i] == kp && crypto::accepts(
                match_type,
                pattern@,
                kp.pubkey@,
            ) && forall|k: int|
                0 <= k < i ==> !crypto::accepts(match_type, pattern@, (#[trigger] pairs@[k]).pubkey@);
        assert(pairs@[i] == kp);
    } else {
        assert forall|k: int| 0 <= k < pairs@.len() implies !search::shows(
            match_type,
            pattern@,
            crypto::onion_address((#[trigger] pairs@[k]).pubkey@),
        ) by {
            assert(!crypto::accepts(match_type, pattern@, pairs@[k].pubkey@));
        }
    }
}

/// The names of the graphics interfaces, and how an adapter is described.
pub proof fn law_adapter_names(info: GpuInfo, api: &'static str, label: &'static str, detail: String)
    requires
        call_ensures(GraphicsApi::label, (&info.api,), api),
        call_ensures(GpuInfo::backend_label, (&info,), label),
        call_ensures(GpuInfo::detail, (&info,), detail),
    ensures
        api@ == (match info.api {
            GraphicsApi::Metal => "Metal"@,
            GraphicsApi::Vulkan => "Vulkan"@,
            GraphicsApi::Dx12 => "DX12"@,
            GraphicsApi::Gl => "GL"@,
            GraphicsApi::BrowserWebGpu => "WebGPU"@,
            GraphicsApi::Empty => "none"@,
        }),
        label@ == api@,
        detail@ == api@ + " · "@ + info.adapter_name@,
{
}

/// A public key that was rebuilt is the scalar's multiple of the base point: packed, it has the
/// multiple's `y` and the parity of its `x`.
pub proof fn law_rebuilt_key(scalar: [u8; 32], public: [u8; 32])
    requires
        call_ensures(rebuild_pubkey, (&scalar,), public),
    ensures
        ({
            let point = group::multiple(
                (
                    0x216936d3cd6e53fec0a4e231fdd6dc5c692cc7609525a7b2c9562d608f25d51aint,
                    0x6666666666666666666666666666666666666666666666666666666666666658int,
                ),
                radix::le_value(scalar@) as nat,
            );
            let n = radix::le_value(public@);
            &&& n % 0x8000000000000000000000000000000000000000000000000000000000000000int == point.1
            &&& n / 0x8000000000000000000000000000000000000000000000000000000000000000int == point.0
                % 2
        }),
{
    let n = radix::le_value(scalar@) as nat;
    let b = base_ext();
    lemma_base_values();
    law_base_point();
    group::law_ladder_is_multiple(b, n);
    curve::law_multiple_is_valid(b, n);
    curve::law_compressed(curve::ladder(b, n));
    curve::lemma_affine(b);
    gf::lemma_over_unique(b.x, 1, b.x);
    gf::lemma_over_unique(b.y, 1, b.y);
    assert(curve::affine(b) == (base_x(), base_y()));
}

} // verus!
