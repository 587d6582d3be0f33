//! Numbers by their bits, byte counts, log lines and dates.

use gemma_metal::diag;
use gemma_metal::diag::{InferScope, Logs, Stage};
use gemma_metal::floats;
use gemma_metal::forward::proportional_rope_dim;
use gemma_metal::report;
use gemma_metal::report::Speed;
use gemma_metal::tensor;
use gemma_metal::tensor::{BufferKind, DType, GpuBuffer, Tensor};

#[test]
fn p_rope_dim() {
    assert_eq!(proportional_rope_dim(512, 0.25f64.to_bits()), 128);
}

#[test]
fn rotated_widths_agree_with_the_machine() {
    let dims = [0usize, 1, 3, 7, 128, 511, 512, 513, 100_000_007, 1 << 40, (1 << 54) + 3];
    let parts = [0.0f64, 0.1, 0.25, 0.3333333333333333, 0.5, 0.75, 0.9999999999999999, 1.0, 1.5, 3e9, 1e-300, 5e-324];
    for d in dims {
        for p in parts {
            let want = ((d as f64) * p) as usize & !1;
            assert_eq!(proportional_rope_dim(d, p.to_bits()), want, "{d} {p}");
            let single = p as f32;
            let want = ((d as f32) * single) as usize;
            assert_eq!(floats::floor_times_f32(d, single.to_bits()), want, "{d} {single}");
        }
    }
    assert_eq!(proportional_rope_dim(512, (-0.5f64).to_bits()), 0);
    assert_eq!(proportional_rope_dim(512, f64::NAN.to_bits()), 0);
    assert_eq!(proportional_rope_dim(512, f64::INFINITY.to_bits()), usize::MAX & !1);
    assert_eq!(proportional_rope_dim(0, f64::INFINITY.to_bits()), 0);
}

#[test]
fn narrowing_agrees_with_the_machine() {
    let xs = [
        0.0f64, -0.0, 1.0, -1.0, 1e-6, 1e6, 0.1, 1.0 / 3.0, 16777217.0, 16777219.0, 3.4028235677973366e38,
        3.4028234e38, 1e39, 1e-38, 1e-40, 1e-45, 7e-46, 7.1e-46, 1e-60, 5e-324, f64::INFINITY,
        f64::NEG_INFINITY, 1.0000000596046448, 1.00000017881393432,
    ];
    for x in xs {
        assert_eq!(floats::narrow(x.to_bits()), (x as f32).to_bits(), "{x}");
    }
    assert!(f32::from_bits(floats::narrow(f64::NAN.to_bits())).is_nan());
}

#[test]
fn comparing_agrees_with_the_machine() {
    let xs = [0.0f32, -0.0, 1.0, -1.0, 1e-45, -1e-45, f32::INFINITY, f32::NEG_INFINITY, f32::NAN];
    for a in xs {
        for b in xs {
            assert_eq!(floats::less(a.to_bits(), b.to_bits()), a < b);
            let (c, d) = (a as f64, b as f64);
            assert_eq!(floats::less64(c.to_bits(), d.to_bits()), c < d);
        }
    }
}

#[test]
fn the_first_of_the_greatest_is_found() {
    let bits = |v: &[f32]| v.iter().map(|x| x.to_bits()).collect::<Vec<u32>>();
    assert_eq!(floats::argmax(&bits(&[1.0, 5.0, 5.0, 2.0])), 1);
    assert_eq!(floats::argmax(&bits(&[-3.0, -1.0, f32::NAN, -2.0])), 1);
    assert_eq!(floats::argmax(&bits(&[f32::NAN, f32::NEG_INFINITY])), 0);
    assert_eq!(floats::argmax(&[]), 0);
    let mut logits = vec![0.0f32; 1024];
    logits[100] = 5.0;
    logits[500] = 9.0;
    logits[900] = 7.0;
    assert_eq!(floats::argmax(&bits(&logits)), 500);
}

#[test]
fn logits_are_summed_up() {
    let v: Vec<u32> = [2.0f32, f32::NAN, -7.5, 3.0].iter().map(|x| x.to_bits()).collect();
    let s = floats::stats_f32(&v);
    assert!(!s.finite);
    assert_eq!(s.nan, 1);
    assert_eq!(f32::from_bits(s.max_bits), 3.0);
    assert_eq!(f32::from_bits(s.min_bits), -7.5);
    assert_eq!(s.host_argmax, 3);
    let s = floats::stats_f32(&[]);
    assert!(!s.finite && f32::from_bits(s.max_bits).is_nan() && f32::from_bits(s.min_bits).is_nan());
    let s = floats::stats_f32(&[f32::INFINITY.to_bits()]);
    assert!(s.finite && f32::from_bits(s.max_bits).is_nan());
    assert_eq!(floats::first_diff(&[0, 1], &[0x8000_0000, 1]), None);
    assert_eq!(floats::first_diff(&[0, 1], &[0, 2]), Some(1));
    assert_eq!(floats::first_diff(&[0], &[0, 2]), Some(1));
    assert_eq!(floats::first_diff(&[f32::NAN.to_bits()], &[f32::NAN.to_bits()]), Some(0));
}

#[test]
fn byte_counts_are_short() {
    let short = |s: String, unit: &str| format!("{} {unit}", s.trim_end_matches('0').trim_end_matches('.'));
    let write = |n: u64| {
        let x = n as f64;
        if x >= 1073741824.0 {
            short(format!("{:.2}", x / 1073741824.0), "GiB")
        } else if x >= 1048576.0 {
            short(format!("{:.1}", x / 1048576.0), "MiB")
        } else if x >= 1024.0 {
            short(format!("{:.1}", x / 1024.0), "KiB")
        } else {
            format!("{n} B")
        }
    };
    let mut ns = vec![0u64, 1, 1023, 1024, 1280, 1331, 1536, 1587, 1_048_575, 1_048_576, 1_572_864, u64::MAX];
    for k in 10..64 {
        ns.extend_from_slice(&[(1u64 << k) - 1, (1u64 << k) + 1, (1u64 << k) / 3 * 4, (1 << k) / 7 * 11]);
    }
    ns.push((1u64 << 53) + 1);
    ns.push((1u64 << 53) + 3);
    ns.push(1_073_741_824 / 8);
    ns.push(1_073_741_824 + 1_073_741_824 / 8);
    for n in ns {
        assert_eq!(diag::fmt_bytes(n), write(n), "{n}");
    }
    assert_eq!(diag::fmt_bytes(1_610_612_736), "1.5 GiB");
    assert_eq!(diag::fmt_bytes(268_435_456), "256 MiB");
    assert_eq!(diag::fmt_bytes(1_073_741_824), "1 GiB");
    assert_eq!(diag::fmt_bytes(1_342_177_280), "1.25 GiB");
    assert_eq!(diag::fmt_bytes(1280), "1.2 KiB");
}

#[test]
fn logs_are_switched() {
    for off in ["0", " off\n", "FALSE", "No", "quiet"] {
        assert!(!diag::parse_enabled(off), "{off}");
    }
    for on in ["1", "", "on", "o ff", "yes"] {
        assert!(diag::parse_enabled(on), "{on}");
    }
    assert_eq!(diag::init(None, None, true), Logs { on: true, infer: false });
    assert_eq!(diag::init(Some("0"), None, false), Logs { on: false, infer: true });
    assert_eq!(diag::init(None, Some("1"), true), Logs { on: true, infer: true });
    assert!(diag::enabled(None));
    assert!(!diag::infer_enabled(None, true));
}

#[test]
fn log_lines_are_written() {
    let logs = Logs { on: true, infer: true };
    let line = |s: &str| Some(format!("[gemma-metal:gpu] Elapsed=1.500s {s}"));
    let infer = |s: &str| Some(format!("[gemma-metal:infer] Elapsed=1.500s {s}"));
    assert_eq!(logs.log("gpu", "1.500", "hello"), line("hello"));
    assert_eq!(diag::infer_stall(&logs, "1.500", "read"), infer("⚠ STALL read (CPU wait on GPU)"));
    let (stage, l) = Stage::begin(&logs, "gpu", "upload", "1.500");
    assert_eq!(l, line("▶ upload"));
    assert_eq!(stage.ok(&logs, "1.500", "12.3"), line("✔ upload done in 12.3 ms"));
    let (stage, _) = Stage::begin(&logs, "gpu", "upload", "1.500");
    let (a, b) = stage.fail(&logs, "1.500", "12.3", "no device");
    assert_eq!(a, line("ERROR upload FAILED after 12.3 ms: no device"));
    assert_eq!(b, infer("ERROR upload FAILED after 12.3 ms: no device"));
    let (scope, l) = InferScope::begin(&logs, "1.500", "embed", "pos=1");
    assert_eq!(l, infer("▶ embed | pos=1"));
    assert_eq!(scope.note(&logs, "1.500", "hot"), infer("· embed | hot"));
    assert_eq!(scope.end(&logs, "1.500", 42), infer("◀ embed done 42µs"));
    let quiet = Logs { on: false, infer: false };
    assert_eq!(quiet.log("gpu", "0", "x"), None);
    let (scope, l) = InferScope::begin(&quiet, "0", "embed", "x");
    assert!(l.is_none() && !scope.active && scope.op.is_empty());
    assert_eq!(scope.note(&logs, "0", "x"), None);
    assert_eq!(scope.end(&logs, "0", 1), None);
    assert_eq!(quiet.err_msg("gpu", "0", "c", "e"), (None, None));
}

#[test]
fn half_width_floats_round_to_nearest() {
    assert_eq!(DType::F32.size_of(), 4);
    assert_eq!(DType::BF16.size_of(), 2);
    assert_eq!(tensor::f32_to_bf16_bits(1.0f32.to_bits()), 0x3f80);
    assert_eq!(tensor::f32_to_bf16_bits(0x3f80_8000), 0x3f80);
    assert_eq!(tensor::f32_to_bf16_bits(0x3f81_8000), 0x3f82);
    assert_eq!(tensor::f32_to_bf16_bits(0x3f80_8001), 0x3f81);
    assert_eq!(tensor::bf16_bits_to_f32(0x4049), 0x4049_0000);
    for b in 0..=0xffffu32 {
        assert_eq!(tensor::f32_to_bf16_bits(tensor::bf16_bits_to_f32(b as u16)) as u32, b);
    }
    assert_eq!(tensor::f32_slice_to_bf16(&[0x3f80_0000, 0]), vec![0x3f80, 0]);
}

#[test]
fn views_lie_within_their_buffer() {
    let t = Tensor { shape: vec![4, 8], dtype: DType::BF16, buffer_addr: 0x1000, byte_offset: 16, nbytes: 128 };
    assert_eq!(t.numel(), 32);
    assert_eq!(t.nbytes_logical(), 64);
    let v = t.view(&[8], 8);
    assert_eq!(v.byte_offset, 32);
    let w = v.view(&[2, 2], 4);
    assert_eq!(w.byte_offset, t.view(&[2, 2], 12).byte_offset);
    assert_eq!(t.dtype.copy_kernel(), "copy_bf16");
    let c = t.deep_copy(0x9000);
    assert_eq!((c.buffer_addr, c.byte_offset, c.nbytes, c.shape), (0x9000, 0, 64, vec![4, 8]));
    assert!(tensor::recycles(BufferKind::Cold, true));
    assert!(!tensor::recycles(BufferKind::Hot, true));
    assert!(!tensor::recycles(BufferKind::Cold, false));
}

#[test]
fn buffers_give_back_what_was_written() {
    let mut b = GpuBuffer { kind: BufferKind::Cold, addr: 0, bytes: vec![9; 12] };
    assert_eq!(b.nbytes(), 12);
    b.write_u32(&[0x0102_0304, 5, u32::MAX]);
    assert_eq!(b.bytes[..4], [4, 3, 2, 1]);
    assert_eq!(b.read_u32(), vec![0x0102_0304, 5, u32::MAX]);
    b.write_f32_prefix(&[1.5f32.to_bits()]);
    assert_eq!(b.read_u32(), vec![1.5f32.to_bits(), 5, u32::MAX]);
    b.write_bytes(&[7]);
    assert_eq!(b.bytes[0], 7);
    b.write_bf16_bits(&[0x0102, 0x0304, 5, 6, 7, 8]);
    assert_eq!(b.bytes, vec![2, 1, 4, 3, 5, 0, 6, 0, 7, 0, 8, 0]);
    b.write_f32(&[2.0f32.to_bits(), 0, 0]);
    assert_eq!(b.read_f32()[0], 2.0f32.to_bits());
    b.zero();
    assert_eq!(b.read_u32(), vec![0, 0, 0]);
}

#[test]
fn dates_are_civil() {
    assert_eq!(report::snapshot_mtime_iso(0), "1970-01-01");
    assert_eq!(report::snapshot_mtime_iso(951_782_399), "2000-02-28");
    assert_eq!(report::snapshot_mtime_iso(951_782_400), "2000-02-29");
    assert_eq!(report::snapshot_mtime_iso(951_868_800), "2000-03-01");
    assert_eq!(report::snapshot_mtime_iso(1_752_364_800), "2025-07-13");
    assert_eq!(report::snapshot_mtime_iso(4_107_542_400), "2100-03-01");
    assert_eq!(report::snapshot_mtime_iso(4_107_456_000), "2100-02-28");
    let hinnant = |secs: u64| {
        let z = (secs / 86_400) as i64 + 719_468;
        let era = z / 146_097;
        let doe = (z - era * 146_097) as u64;
        let yoe = (doe - doe / 1460 + doe / 36524 - doe / 146_096) / 365;
        let doy = doe - (365 * yoe + yoe / 4 - yoe / 100);
        let mp = (5 * doy + 2) / 153;
        let d = doy - (153 * mp + 2) / 5 + 1;
        let m = mp as i64 + if mp < 10 { 3 } else { -9 };
        let y = yoe as i64 + era * 400 + i64::from(m <= 2);
        format!("{y:04}-{m:02}-{d:02}")
    };
    for k in 0..4000u64 {
        let secs = k * 13_337_777 + k * k * 911;
        assert_eq!(report::snapshot_mtime_iso(secs), hinnant(secs));
    }
    assert_eq!(report::snapshot_mtime_iso(u64::MAX), hinnant(u64::MAX));
}

#[test]
fn results_are_named() {
    assert!(report::is_31b_shape(60, 5376) && report::is_31b_shape(48, 0) && report::is_31b_shape(0, 4096));
    assert!(!report::is_31b_shape(42, 2560));
    assert_eq!(report::model_id_from_dir("/x/gemma-4-31B-it", false), "mlx-community/gemma-4-31b-it-4bit");
    assert_eq!(report::model_id_from_dir("/x/gemma-4-e4b-it", true), "mlx-community/gemma-4-e4b-it-4bit");
    assert_eq!(report::model_id_from_dir("/x", true), "mlx-community/gemma-4-31b-it-4bit");
    assert_eq!(report::model_id_from_dir("/x", false), "mlx-community/gemma-4-e4b-it-4bit");
    assert_eq!(report::chrono_like_utc(1_752_364_800), "1752364800");
    assert_eq!(
        report::result_names(true, 12),
        ("run_31b_gemma_metal_12.json".to_string(), "latest_31b_gemma_metal.json".to_string())
    );
    assert_eq!(
        report::sweep_names(false, 12),
        ("verify_m_sweep_e4b_12.json".to_string(), "verify_m_sweep_e4b_latest.json".to_string())
    );
    assert_eq!(report::dflash_result_name(7), "run_dflash_parity_gates_7.json");
    assert_eq!(
        report::result_notes(false, "abc", "2025-01-01"),
        "live dims from session; snapshot=abc cached=2025-01-01; Q4Mlx Hot decode; vs mlx~75.7 / gate 48-60"
    );
    assert!(report::looks_mislabeled("{\"layers\": 60}"));
    assert!(!report::looks_mislabeled("{\"layers\": 42}"));
}

#[test]
fn snapshots_are_found_in_paths() {
    let hash = "0123456789abcdef0123456789abcdef01234567";
    let up = |v: &[&str]| {
        v.iter().map(|s| if s.is_empty() { None } else { Some(s.to_string()) }).collect::<Vec<_>>()
    };
    let find = |v: &[&str]| report::snapshot_hash_from_dir(&up(v));
    assert_eq!(find(&[hash, "snapshots", "m", ""]), Some(hash.to_string()));
    assert_eq!(find(&["sub", hash, "snapshots", ""]), Some(hash.to_string()));
    assert_eq!(find(&["a", "b", "c", "d", hash, "snapshots", ""]), None);
    assert_eq!(find(&["short", "snapshots", ""]), None);
    assert_eq!(find(&["", "x"]), None);
    assert_eq!(find(&[]), None);
}

#[test]
fn benchmarks_reach_verdicts() {
    let s = |b: usize, t: f64| Speed { block: b, tok_s_bits: t.to_bits() };
    assert_eq!(report::best_block(&vec![s(2, 10.0), s(3, 12.5), s(4, 12.5), s(5, f64::NAN)], 5).block, 3);
    assert_eq!(report::best_block(&vec![], 5), s(5, 0.0));
    let e = report::exactness(&[1, 2, 3, 4], &[1, 2, 3], 1, true);
    assert!(e.exact);
    assert_eq!(e.tail, vec![2, 3]);
    assert!(!report::exactness(&[1, 2, 3], &[1, 2, 4], 1, true).exact);
    assert!(!report::exactness(&[1, 2], &[1, 2], 1, false).exact);
    let v = report::gate_verdict(false, Some(true), true, true);
    assert!(v.exact && v.exact_task_done && !v.accept_speed_done);
    assert!(report::gate_verdict(true, None, true, true).accept_speed_done);
    assert!(!report::gate_verdict(false, None, true, true).exact);
    assert_eq!((report::task_status(true), report::task_status(false)), ("completed", "pending"));
    assert_eq!((report::exact_status(true), report::exact_status(false)), ("PASS", "FAIL_pending"));
}
