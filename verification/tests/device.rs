//! What goes to the device and what comes back.

use curve25519_dalek::edwards::EdwardsPoint;
use curve25519_dalek::scalar::clamp_integer;
use curve25519_dalek::scalar::Scalar;
use ovds::app::WorkerState;
use ovds::bytefield::field_mul_p;
use ovds::crypto::{address_from_pubkey, MatchType};
use ovds::device::{BenchRun, KeygenRun, BENCH_PATTERN};
use ovds::gpu::{
    base_params, batch_k_options, bytes_to_fe16, default_batch_k, dispatch_params,
    est_footprint_bytes, first_hit, host_match, max_batch_k, output_size, parse_output, parse_pair,
    pattern_to_symbols, per_dispatch, pick_mode, readback_size, rebuild_pubkey, scratch_size,
    table_size, workgroups, GpuInfo, GpuKeyPair, GpuLimits, GraphicsApi, BX_LE, BY_LE,
    MODE_ANYWHERE, MODE_PREFIX, MODE_WRITE_ALL,
};

fn le(words: &[u32]) -> Vec<u8> {
    let mut out = Vec::new();
    for w in words {
        out.extend_from_slice(&w.to_le_bytes());
    }
    out
}

#[test]
fn buffer_sizes() {
    assert_eq!(output_size(64), 16_384 * 64 * 16 * 4);
    assert_eq!(scratch_size(64), 16_384 * 64 * 64 * 4);
    assert_eq!(table_size(), 32 * 256 * 64 * 4);
    assert_eq!(workgroups(), 256);
    assert_eq!(per_dispatch(256), 16_384 * 256);
    assert_eq!(est_footprint_bytes(256), 1_610_612_736);
    assert_eq!(readback_size(MODE_PREFIX, 512), (4 + 256 * 16) * 4);
    assert_eq!(readback_size(MODE_ANYWHERE, 512), (4 + 256 * 16) * 4);
    assert_eq!(readback_size(MODE_WRITE_ALL, 512), output_size(512));
}

#[test]
fn batch_sizes_fit_the_device() {
    let m3 = GpuLimits { max_buffer: 4_294_967_296, max_binding: 2_147_483_648 };
    assert_eq!(batch_k_options(&m3), vec![64, 128, 256, 512]);
    assert_eq!(max_batch_k(&m3), 512);
    assert_eq!(default_batch_k(&m3), 256);
    let small = GpuLimits { max_buffer: 600_000_000, max_binding: 600_000_000 };
    assert_eq!(batch_k_options(&small), vec![64, 128]);
    assert_eq!(default_batch_k(&small), 128);
    let tiny = GpuLimits { max_buffer: 1, max_binding: 1 };
    assert_eq!(batch_k_options(&tiny), vec![64]);
    assert_eq!(default_batch_k(&tiny), 64);
    let huge = GpuLimits { max_buffer: u64::MAX, max_binding: u64::MAX };
    assert_eq!(max_batch_k(&huge), 1 << 31);
    assert_eq!(batch_k_options(&huge).len(), 26);
    let large = GpuLimits { max_buffer: 1 << 40, max_binding: (1 << 40) - 1 };
    assert_eq!(max_batch_k(&large), 131_072);
    let larger = GpuLimits { max_buffer: 1 << 40, max_binding: 1 << 40 };
    assert_eq!(max_batch_k(&larger), 262_144);
}

#[test]
fn base_point_in_the_parameters() {
    let p = base_params();
    assert_eq!(p[9], 16_384);
    assert_eq!(p[12..28], bytes_to_fe16(&BX_LE));
    assert_eq!(p[28..44], bytes_to_fe16(&BY_LE));
    assert_eq!(p[44], 1);
    assert!(p[45..60].iter().all(|w| *w == 0));
    assert_eq!(p[60..76], bytes_to_fe16(&field_mul_p(&BX_LE, &BY_LE)));
    assert!(p[..9].iter().all(|w| *w == 0));
    assert!(p[76..].iter().all(|w| *w == 0));
    assert_eq!(bytes_to_fe16(&BX_LE)[0], 0xD51A);
}

#[test]
fn dispatch_fills_in_the_parameters() {
    let base = base_params();
    let mut seed = [0u8; 32];
    for (i, b) in seed.iter_mut().enumerate() {
        *b = i as u8;
    }
    let p = dispatch_params(&base, &seed, 42, MODE_PREFIX, &[5, 6, 7]);
    assert_eq!(le(&p[..8]), seed.to_vec());
    assert_eq!((p[8], p[9], p[10], p[11]), (42, 16_384, MODE_PREFIX, 3));
    assert_eq!(p[76..79], [5, 6, 7]);
    assert_eq!(p[12..76], base[12..76]);
    let q = dispatch_params(&base, &seed, 42, MODE_WRITE_ALL, &[5, 6, 7]);
    assert_eq!((q[10], q[11], q[76]), (MODE_WRITE_ALL, 0, 0));
}

#[test]
fn symbols_of_patterns() {
    assert_eq!(pattern_to_symbols(b"az27"), Some(vec![0, 25, 26, 31]));
    assert_eq!(pattern_to_symbols(b""), Some(vec![]));
    for bad in [&b"a1"[..], b"A", b"8", b" "] {
        assert_eq!(pattern_to_symbols(bad), None);
    }
}

#[test]
fn symbols_are_groups_of_the_public_key() {
    let public = pair(5).pubkey;
    let addr = address_from_pubkey(&public);
    let symbols = pattern_to_symbols(&addr[..51]).unwrap();
    for (j, symbol) in symbols.iter().enumerate() {
        let mut group = 0;
        for bit in 5 * j..5 * j + 5 {
            group = 2 * group + ((public[bit / 8] >> (7 - bit % 8)) & 1) as u32;
        }
        assert_eq!(*symbol, group, "character {}", j);
    }
}

#[test]
fn modes_by_match_type() {
    assert_eq!(pick_mode(&MatchType::Prefix, b"ab"), (MODE_PREFIX, vec![0, 1]));
    assert_eq!(pick_mode(&MatchType::Anywhere, b"ab"), (MODE_ANYWHERE, vec![0, 1]));
    assert_eq!(pick_mode(&MatchType::Suffix, b"ab"), (MODE_WRITE_ALL, vec![]));
    assert_eq!(pick_mode(&MatchType::Prefix, b"a1"), (MODE_WRITE_ALL, vec![]));
    assert_eq!(pick_mode(&MatchType::Prefix, &[b'a'; 48]).0, MODE_PREFIX);
    assert_eq!(pick_mode(&MatchType::Prefix, &[b'a'; 49]), (MODE_WRITE_ALL, vec![]));
}

#[test]
fn records_are_little_endian() {
    let words: Vec<u32> = (0..40u32).map(|i| 0x0102_0304 + i * 0x1111).collect();
    let kp = parse_pair(&words, 3);
    assert_eq!(kp.pubkey.to_vec(), le(&words[3..11]));
    assert_eq!(kp.scalar.to_vec(), le(&words[11..19]));
}

#[test]
fn output_of_a_dispatch() {
    let mut words = vec![0u32; 4 + 256 * 16];
    words[0] = 2;
    words[4] = 77;
    words[20] = 88;
    let r = parse_output(&words, MODE_PREFIX, 64);
    assert_eq!(r.len(), 2);
    assert_eq!((r[0].pubkey[0], r[1].pubkey[0]), (77, 88));
    words[0] = 1000;
    assert_eq!(parse_output(&words, MODE_ANYWHERE, 64).len(), 256);
    words[0] = 0;
    assert_eq!(parse_output(&words, MODE_PREFIX, 64).len(), 0);
    let mut all = vec![0u32; 16_384 * 16];
    all[16 * 5 + 8] = 9;
    let r = parse_output(&all, MODE_WRITE_ALL, 1);
    assert_eq!(r.len(), 16_384);
    assert_eq!(r[5].scalar[0], 9);
}

#[test]
fn public_key_of_a_scalar() {
    let mut scalar = [0u8; 32];
    scalar[0] = 1;
    assert_eq!(rebuild_pubkey(&scalar), BY_LE);
    for seed in 0..4u8 {
        let mut s = [0u8; 32];
        for (i, b) in s.iter_mut().enumerate() {
            *b = (i as u8).wrapping_mul(37).wrapping_add(seed);
        }
        let s = clamp_integer(s);
        let want = EdwardsPoint::mul_base(&Scalar::from_bytes_mod_order(s)).compress().0;
        assert_eq!(rebuild_pubkey(&s), want);
    }
}

#[test]
fn scalars_add_up_on_the_curve() {
    // 300 B + 45 B = 345 B, and 300 B - 45 B = 255 B.
    let point = |n: u32| {
        let mut s = [0u8; 32];
        s[..4].copy_from_slice(&n.to_le_bytes());
        rebuild_pubkey(&s)
    };
    let b = |n: u32| EdwardsPoint::mul_base(&Scalar::from(n));
    assert_eq!(point(345), (b(300) + b(45)).compress().0);
    assert_eq!(point(255), (b(300) - b(45)).compress().0);
}

fn pair(n: u8) -> GpuKeyPair {
    let scalar = [n; 32];
    GpuKeyPair { pubkey: rebuild_pubkey(&scalar), scalar }
}

#[test]
fn first_of_the_matching_keys() {
    let pairs = [pair(1), pair(2), pair(3)];
    let addr = address_from_pubkey(&pairs[1].pubkey);
    let pattern = &addr[3..40];
    assert!(host_match(&MatchType::Anywhere, pattern, &pairs[1]));
    assert!(!host_match(&MatchType::Anywhere, pattern, &pairs[0]));
    let hit = first_hit(&MatchType::Anywhere, pattern, &pairs).unwrap();
    assert_eq!(hit.scalar, [2; 32]);
    assert!(first_hit(&MatchType::Prefix, pattern, &pairs).is_none());
    let all = first_hit(&MatchType::Prefix, b"", &pairs).unwrap();
    assert_eq!(all.scalar, [1; 32]);
}

#[test]
fn run_on_the_device() {
    let wanted = pair(2);
    let addr = address_from_pubkey(&wanted.pubkey);
    let mut run = KeygenRun::new(MatchType::Prefix, addr[..6].to_vec(), 128);
    assert_eq!(run.mode, MODE_PREFIX);
    assert_eq!(run.keys(), 16_384 * 128);
    assert_eq!(run.readback(), 16_400);
    let p = run.params(&[3; 32]);
    assert_eq!((p[0], p[8], p[10], p[11]), (0x0303_0303, 0, MODE_PREFIX, 6));
    // The device wrote y alone: the sign bit comes back from the scalar.
    let mut words = vec![0u32; 4100];
    words[0] = 2;
    for i in 0..8 {
        words[4 + 8 + i] = 0x0101_0101;
        words[20 + 8 + i] = 0x0202_0202;
    }
    let keys = run.candidates(&words);
    assert_eq!(keys.len(), 2);
    assert_eq!(keys[1].pubkey, wanted.pubkey);
    let hit = run.first_match(&keys);
    assert_eq!(hit.unwrap().scalar, [2; 32]);
    // A key without the pattern is not let through.
    assert!(run.settle(Some(pair(9))).is_none());
    assert_eq!(run.batch_id, 1);
    assert!(run.settle(None).is_none());
    assert_eq!(run.params(&[0; 32])[8], 2);
    assert_eq!(run.settle(hit).unwrap().scalar, [2; 32]);
    assert_eq!(run.batch_id, 2);
    run.batch_id = u32::MAX;
    run.settle(None);
    assert_eq!(run.batch_id, 0);
}

#[test]
fn fresh_seeds_differ() {
    let run = KeygenRun::new(MatchType::Prefix, b"ab".to_vec(), 64);
    let a = run.fresh_params();
    let b = run.fresh_params();
    assert_ne!(a[..8], b[..8]);
    assert_eq!(a[8..], b[8..]);
}

#[test]
fn run_on_the_host() {
    let run = KeygenRun::new(MatchType::Suffix, b"d".to_vec(), 1);
    assert_eq!(run.mode, MODE_WRITE_ALL);
    assert_eq!(run.readback(), 16_384 * 64);
    let words = vec![7u32; 16_384 * 16];
    let keys = run.candidates(&words);
    assert_eq!(keys.len(), 16_384);
    // Nothing is rebuilt: the device wrote the whole key.
    assert_eq!(keys[0].pubkey[..4], [7, 0, 0, 0]);
    assert!(run.matches(&keys[0]));
}

#[test]
fn benchmark_counts_every_dispatch() {
    let mut bench = BenchRun::new(MatchType::Suffix, 64, 5_000);
    let mut state = WorkerState::new();
    assert_eq!(bench.run.mode, MODE_WRITE_ALL);
    assert!(bench.goes_on(false, 0));
    assert!(bench.goes_on(false, 4_999));
    assert!(!bench.goes_on(false, 5_000));
    assert!(!bench.goes_on(true, 0));
    bench.dispatched(0, &mut state);
    assert!(state.bench_rate.is_none());
    assert_eq!(state.attempts, 16_384 * 64);
    for (n, elapsed) in [(2, 1_000), (3, 2_500), (4, 5_100)] {
        bench.dispatched(elapsed, &mut state);
        assert_eq!(bench.run.batch_id, n as u32);
        assert_eq!(bench.total, n * 16_384 * 64);
        assert_eq!(state.attempts, n * 16_384 * 64);
        let rate = state.bench_rate.unwrap();
        assert_eq!((rate.count, rate.nanos), (n * 16_384 * 64, elapsed));
    }
    assert!(!state.stop);
    bench.total = u64::MAX - 1;
    bench.dispatched(6_000, &mut state);
    assert_eq!(bench.total, u64::MAX);
}

#[test]
fn benchmark_runs_like_a_search() {
    assert_eq!(&BENCH_PATTERN, b"ovdsbench42");
    assert_eq!(KeygenRun::bench(MatchType::Prefix, 64).mode, MODE_PREFIX);
    assert_eq!(KeygenRun::bench(MatchType::Anywhere, 64).mode, MODE_ANYWHERE);
    assert_eq!(KeygenRun::bench(MatchType::Suffix, 64).mode, MODE_WRITE_ALL);
    assert_eq!(KeygenRun::bench(MatchType::Prefix, 64).symbols.len(), 11);
}

#[test]
fn adapters_are_named() {
    let names = [
        (GraphicsApi::Metal, "Metal"),
        (GraphicsApi::Vulkan, "Vulkan"),
        (GraphicsApi::Dx12, "DX12"),
        (GraphicsApi::Gl, "GL"),
        (GraphicsApi::BrowserWebGpu, "WebGPU"),
        (GraphicsApi::Empty, "none"),
    ];
    for (api, name) in names {
        let info = GpuInfo {
            api,
            adapter_name: "X".to_string(),
            limits: GpuLimits { max_buffer: 0, max_binding: 0 },
        };
        assert_eq!(info.backend_label(), name);
        assert_eq!(info.detail(), format!("{} · X", name));
    }
}
