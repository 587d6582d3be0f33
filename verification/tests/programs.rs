//! Command lines, the server's answers and recorded streams.

use gemma_metal::block_dump;
use gemma_metal::block_dump::DumpStage;
use gemma_metal::cli;
use gemma_metal::cli::{BenchArgs, GoldenMode, ModelChoice, ServeArgs, TraceMode};
use gemma_metal::gates;
use gemma_metal::gates::{GateStage, LargeStage};
use gemma_metal::golden;
use gemma_metal::golden::Lanes31b;
use gemma_metal::serve;
use gemma_metal::serve::{Preset, Route};

fn args(v: &[&str]) -> Vec<String> {
    v.iter().map(|s| s.to_string()).collect()
}

#[test]
fn benchmark_arguments() {
    let a = BenchArgs::parse(&args(&["--dflash-31b", "--model", "31B", "x", "--trace-json"]));
    assert!(a.dflash && a.dflash_31b && a.b31 && !a.e4b && !a.help);
    assert_eq!(a.model, ModelChoice::Cache31b);
    assert_eq!(a.trace, Some(TraceMode::Json));
    assert_eq!(a.unknown, vec![3]);
    let a = BenchArgs::parse(&args(&["--model", "/m", "--e4b", "--help", "--dflash"]));
    assert_eq!(a.model, ModelChoice::Dir(1));
    assert!(a.e4b && a.help && !a.dflash);
    let a = BenchArgs::parse(&args(&["--model", "e4b", "--model"]));
    assert_eq!(a.model, ModelChoice::Unset);
    assert!(a.e4b && a.runs_real_model(false));
    let a = BenchArgs::parse(&args(&["--trace", "--trace-sync"]));
    assert_eq!(a.trace, Some(TraceMode::Sync));
    assert!(!a.runs_real_model(false) && a.runs_real_model(true));
}

#[test]
fn numbers_are_parsed_as_the_machine_parses_them() {
    for s in ["0", "8787", "+1", "65535", "65536", "", "+", "-1", "12a", " 1", "00042", "99999999999999999999"] {
        assert_eq!(cli::parse_number(s, 65535), s.parse::<u16>().ok().map(u64::from), "{s}");
        assert_eq!(cli::parse_number(s, u64::MAX), s.parse::<u64>().ok(), "{s}");
    }
}

#[test]
fn server_arguments() {
    let a = ServeArgs::parse(&args(&["--port", "9000", "--preset", "31b"]));
    assert_eq!((a.port, a.preset, a.help), (9000, Some(3), false));
    let a = ServeArgs::parse(&args(&["--port", "70000", "y", "--preset"]));
    assert_eq!((a.port, a.preset), (8787, None));
    assert!(ServeArgs::parse(&args(&["-h", "--port", "1"])).help);
    assert_eq!(ServeArgs::parse(&args(&["--port"])).port, 8787);
}

#[test]
fn other_arguments() {
    assert_eq!(cli::golden_mode(&args(&["p", "--free-gen"])), GoldenMode::FreeGen);
    assert_eq!(cli::golden_mode(&args(&["p", "--free-gen", "--short-dump"])), GoldenMode::ShortDump);
    assert_eq!(cli::golden_mode(&args(&["p", "greet", "8"])), GoldenMode::Compare);
    assert_eq!(cli::count_argument(&args(&["p", "greet", "8"]), 2, 32), 8);
    assert_eq!(cli::count_argument(&args(&["p", "greet", "x"]), 2, 32), 32);
    assert_eq!(cli::count_argument(&args(&["p"]), 2, 32), 32);
    assert!(cli::asks_health_31b(&args(&["p", "1.0", "31b"])));
    assert!(!cli::asks_health_31b(&args(&["31b", "e4b", "31b"])));
    assert!(!cli::asks_health_31b(&args(&["p"])));
}

#[test]
fn requests_are_routed() {
    assert_eq!(serve::route("GET /health HTTP/1.1\r\nHost: x\r\n\r\n"), Route::Health);
    assert_eq!(serve::route("GET /v1/models HTTP/1.1\r\n"), Route::Models);
    assert_eq!(serve::route("POST /v1/chat/completions HTTP/1.1\r\n"), Route::Chat);
    assert_eq!(serve::route("GET /\nGET /health"), Route::NotFound);
    assert_eq!(serve::route(""), Route::NotFound);
}

#[test]
fn answers_are_written() {
    assert_eq!(Preset::named(Some("b31")), Preset::B31);
    assert_eq!(Preset::named(Some("other")), Preset::E4b);
    assert_eq!(Preset::named(None), Preset::E4b);
    assert_eq!(
        serve::health_body("v", Preset::B31, "a \"b\" c"),
        "{\"ok\":true,\"version\":\"v\",\"preset\":\"31b\",\"model\":\"gemma-metal-31b\",\"hot\":\"a 'b' c\"}"
    );
    let m = serve::models_body(Preset::E4b);
    assert!(m.starts_with("{\"object\":\"list\",\"data\":[{\"id\":\"gemma-metal-e4b\",\"object\":\"model\""));
    assert!(m.ends_with("{\"id\":\"gemma-metal-31b\",\"object\":\"model\",\"owned_by\":\"gemma-metal\"}]}"));
    assert_eq!(serve::token_content(&[1, 2, 3]), format!("tokens={:?}", [1, 2, 3]));
    assert_eq!(serve::token_content(&[]), "tokens=[]");
    assert_eq!(
        serve::chat_body(5, Preset::E4b, &[1, 2]),
        "{\"id\":\"chatcmpl-gemma\",\"object\":\"chat.completion\",\"created\":5,\"model\":\"gemma-metal-e4b\",\"choices\":[{\"index\":0,\"message\":{\"role\":\"assistant\",\"content\":\"tokens=[1, 2]\"},\"finish_reason\":\"stop\"}]}"
    );
    assert!(serve::completion_body(5, Preset::E4b, None).contains("\"content\":\"ok\"}"));
    assert_eq!(
        serve::write_json(404, serve::not_found_body()),
        "HTTP/1.1 404 Not Found\r\nContent-Type: application/json\r\nContent-Length: 21\r\nConnection: close\r\n\r\n{\"error\":\"not found\"}"
    );
    assert!(serve::write_json(200, "a→é𝄞").contains("200 OK\r\nContent-Type: application/json\r\nContent-Length: 10\r\n"));
    assert!(serve::write_json(503, "").starts_with("HTTP/1.1 500 Internal Server Error\r\n"));
    assert_eq!(serve::backend_note(Preset::B31, None), "Hot Q4 loaded from mlx-community/gemma-4-31b-it-4bit");
    assert!(serve::backend_note(Preset::B31, Some("no cache")).starts_with("31B Hot load unavailable (no cache);"));
    assert_eq!(Preset::B31.text_config().hidden_size, 5376);
}

const DOC: &str = r#"{"cases": [
  {"name": "other", "prompt_ids": [1]},
  {"name": "greet", "prompt_ids": [2, 105, "x", 7, 8], "greedy_ids": [100, 45]},
  {"name": "greet", "prompt_ids": []},
  {"name": "words", "prompt_ids": [1], "greedy_ids": ["a"]},
  {"name": "bare", "prompt_ids": [1]}
]}"#;

#[test]
fn prompts_are_chosen() {
    let p = golden::measure_prompt(None, Some(DOC));
    assert!(p.greet);
    assert_eq!(p.ids, vec![2, 105, 7, 8]);
    assert_eq!(golden::prompt_label(&p.ids), "greet");
    for (short, doc) in [(Some("1"), Some(DOC)), (None, None), (None, Some("{")), (None, Some("{}"))] {
        let p = golden::measure_prompt(short, doc);
        assert!(!p.greet);
        assert_eq!(p.ids, vec![2, 105, 4368, 1246]);
        assert_eq!(golden::prompt_label(&p.ids), "short");
    }
    assert!(!golden::measure_prompt(None, Some(r#"{"cases":[{"name":"greet","prompt_ids":[1,2,3]}]}"#)).greet);
    let l = golden::lanes_31b(None, None);
    assert!(!l.hazard && l.exact_always_on);
    let l = golden::lanes_31b(Some("1"), None);
    assert!(l.hazard && !l.exact_always_on);
    assert!(golden::lanes_31b(Some("1"), Some("1")).exact_always_on);
}

#[test]
fn recorded_cases_are_read() {
    let c = golden::golden_case(r#"{"cases":[{"name":"a","prompt_ids":[1,2],"greedy_ids":[3]}]}"#, "a").unwrap().unwrap();
    assert_eq!((c.prompt, c.gold), (vec![1, 2], vec![3]));
    assert!(golden::golden_case(DOC, "greet").is_none());
    assert!(golden::golden_case(DOC, "words").is_none());
    assert_eq!(golden::golden_case(DOC, "bare").unwrap().unwrap_err(), "greedy_ids");
    assert_eq!(golden::golden_case(DOC, "nobody").unwrap().unwrap_err(), "case 'nobody' not found");
    assert_eq!(golden::golden_case("{}", "a").unwrap().unwrap_err(), "golden: missing cases");
    assert_eq!(golden::golden_case(r#"{"cases":[{"name":"a"}]}"#, "a").unwrap().unwrap_err(), "prompt_ids");
    assert!(golden::golden_case("{", "a").unwrap().unwrap_err().starts_with("EOF"));
    let a = golden::agreement(&[1, 2, 3], &[1, 2, 4, 5], 4);
    assert_eq!((a.first_mismatch, a.matched, a.passes), (Some(2), 2, false));
    let a = golden::agreement(&[1, 2], &[1, 2, 4], 2);
    assert_eq!((a.first_mismatch, a.matched, a.passes), (None, 2, true));
    assert_eq!(golden::compare_max_seq(10, 32), 128);
    assert_eq!(golden::compare_max_seq(100, 32), 140);
}

#[test]
fn unhealthy_targets_are_refused() {
    let short = [2u32, 105, 4368, 1246];
    assert_eq!(golden::target_health(&short, &[531, 7]), None);
    assert_eq!(golden::target_health(&[1, 2, 3, 4], &[100, 7]), None);
    assert_eq!(
        golden::target_health(&short, &[929, 7]).unwrap(),
        "31B greedy first token Some(929) ≠ 531 — refuse D-Flash"
    );
    assert_eq!(
        golden::target_health(&[1], &[]).unwrap(),
        "31B greedy first token None ≠ 100 — refuse D-Flash"
    );
    assert_eq!(
        golden::target_health(&short, &[531, 531]).unwrap(),
        "31B greedy collapsed (unique=1) — refuse D-Flash measure on unhealthy target"
    );
    assert_eq!(golden::baseline_health(&[1, 2]), None);
    assert_eq!(
        golden::baseline_health(&[]).unwrap(),
        "31B capture+cond greedy collapsed (unique=0) — skip exactness/D-Flash"
    );
    assert_eq!(golden::unique_count(&[3, 1, 3, 2, 1]), 3);
    assert_eq!(golden::mask_block(9, 4, 3), vec![9, 4, 4]);
    assert_eq!(golden::last_captured_row(2, 3, 8, 1), (32, 40));
    assert!(golden::continues_from_host(531, 2) && !golden::continues_from_host(531, 1));
    assert!(golden::short_prompt_passes(531) && !golden::short_prompt_passes(929));
}

fn stages(run_31b: bool, fails: &[GateStage]) -> Vec<GateStage> {
    let mut out = Vec::new();
    let mut s = GateStage::Upload;
    while s != GateStage::Stop {
        out.push(s);
        s = s.next(!fails.contains(&s), run_31b);
    }
    out
}

#[test]
fn benchmarks_run_in_order() {
    let all = stages(true, &[]);
    assert_eq!(all.len(), 14 + 4 * 6 + 3);
    assert_eq!(all[13], GateStage::ExactGenerate);
    assert_eq!(all[all.len() - 3..], [GateStage::BaselineGreedy, GateStage::Large, GateStage::Write]);
    assert_eq!(stages(false, &[]).len(), all.len() - 1);
    let sizes: Vec<usize> = (0..6).map(gates::sweep_block).collect();
    assert_eq!(sizes, vec![2, 3, 4, 5, 6, 8]);
    assert_eq!(stages(true, &[GateStage::SweepRun(2), GateStage::Large]), all);
    assert_eq!(stages(false, &[GateStage::Upload]), vec![GateStage::Upload]);
    assert_eq!(
        stages(true, &[GateStage::Upload]),
        vec![GateStage::Upload, GateStage::LargeOnly, GateStage::WriteLarge]
    );
    assert_eq!(stages(true, &[GateStage::Draft]).last(), Some(&GateStage::Draft));
    for s in &all {
        let compared = matches!(
            s,
            GateStage::ExactGraph
                | GateStage::ExactUpload
                | GateStage::ExactSession
                | GateStage::Draft
                | GateStage::CaptureGreedy
                | GateStage::CaptureGreedyAgain
                | GateStage::GpuDraft
                | GateStage::Conditioner
                | GateStage::ExactGenerate
                | GateStage::BaselineGreedy
        );
        assert_eq!(s.hazard(true), !compared);
    }
    assert_eq!(
        GateStage::SweepRun(1).failed("metal: busy").unwrap(),
        "  generate_with_dflash_speed bs=3 failed: metal: busy"
    );
    assert_eq!(GateStage::Session.failed("kv: full").unwrap(), "  session failed: kv: full");
    assert_eq!(
        GateStage::Upload.failed("x").unwrap(),
        "  GPU Hot synthetic unavailable — continue (x)"
    );
    assert_eq!(GateStage::TimedGreedy.failed("x"), None);
    assert!(gates::kernels_missing(true, false, true, true).is_none());
    assert!(gates::kernels_missing(false, false, true, true).unwrap().contains("gemv_q4"));
    assert!(gates::kernels_missing(true, true, false, true).unwrap().contains("h128"));
}

#[test]
fn large_benchmarks_stop_at_the_first_failure() {
    let run_with = |fails: &[LargeStage], dump: bool| {
        let mut out = Vec::new();
        let mut s = LargeStage::FindTarget;
        while s != LargeStage::Done && s != LargeStage::Failed {
            out.push(s);
            s = s.next(!fails.contains(&s), dump);
        }
        (out, s)
    };
    let run = |fails: &[LargeStage]| run_with(fails, false);
    let (dumped, end) = run_with(&[LargeStage::Dump], true);
    assert_eq!((dumped.last(), end), (Some(&LargeStage::Dump), LargeStage::Done));
    let (all, end) = run(&[]);
    assert_eq!((all.len(), end), (16 + 12 + 4, LargeStage::Done));
    assert_eq!(run(&[LargeStage::SweepWarmup(1)]), (all.clone(), LargeStage::Done));
    let (some, end) = run(&[LargeStage::Health]);
    assert_eq!((some.last(), end), (Some(&LargeStage::Health), LargeStage::Failed));
    assert_eq!((gates::large_block(0), gates::large_block(1)), (3, 5));
    assert_eq!(LargeStage::SweepRun(1).failed(false, "metal: x"), "dflash bs=5: metal: x");
    assert_eq!(LargeStage::ExactRun.failed(true, "e"), "dflash-host exactness: e");
    assert_eq!(LargeStage::Health.failed(true, "e"), "e");
    let lanes = Lanes31b { hazard: true, exact_always_on: true };
    assert!(LargeStage::Greedy.hazard(&lanes) && !LargeStage::BaseGreedy.hazard(&lanes));
    assert!(!LargeStage::ExactRun.hazard(&lanes));
    let lanes = Lanes31b { hazard: true, exact_always_on: false };
    assert!(LargeStage::ExactRun.hazard(&lanes));
}

#[test]
fn dumps_follow_their_order() {
    let run = |n: usize, dense: bool, fails: Option<DumpStage>| {
        let mut out = Vec::new();
        let mut s = DumpStage::Conditioner;
        while s != DumpStage::Done && s != DumpStage::Failed {
            assert!(!s.hazard(true));
            out.push(s);
            s = s.next(n, dense, fails != Some(s));
        }
        (out, s)
    };
    let (all, end) = run(4, true, None);
    assert_eq!((all.len(), end), (3 + 3 + 10 + 2 - 1 + 1, DumpStage::Done));
    assert_eq!(all[3..7], [DumpStage::Prefill(0), DumpStage::Prefill(1), DumpStage::Prefill(2), DumpStage::Step]);
    assert!(end.hazard(true) && !end.hazard(false));
    let (plain, _) = run(1, false, None);
    assert!(!plain.contains(&DumpStage::HostBind) && !plain.contains(&DumpStage::Prefill(0)));
    let (some, end) = run(4, false, Some(DumpStage::FcOut));
    assert_eq!((some.last(), end), (Some(&DumpStage::FcOut), DumpStage::Failed));
    assert_eq!(DumpStage::FcOut.failed("x"), "dump fc_out: x");
    assert_eq!(DumpStage::RecordedPropose.failed("x"), "dump gpu propose golden: x");
    assert_eq!(DumpStage::Write.failed("x"), "write dump: x");
}

#[test]
fn dumps_look_at_the_first_block() {
    let (stream, recorded) = block_dump::dump_blocks(&[2, 105, 4368, 1246], 531, 4);
    assert_eq!(stream, vec![531, 4, 4, 4, 4]);
    assert_eq!(recorded, vec![1246, 4, 4, 4, 4]);
    assert_eq!((block_dump::dump_context(4, 30), block_dump::dump_context(4, 60)), (36, 60));
    assert_eq!(block_dump::last_row(3, 8), (16, 24));
    let o = block_dump::dump_offsets(7);
    assert_eq!(o.len(), 5);
    assert_eq!((o[0].s, o[0].lq, o[0].q_rope_offset, o[0].ctx_rope_offset), (7, 5, 7, 0));
    assert_eq!((o[3].window, o[4].window), (Some(2048), None));
    assert_eq!(block_dump::dump_line(false, "e"), "  block1 dump FAILED: e");
    assert_eq!(
        block_dump::dump_line(true, "[1]"),
        "  block1 dump ok; gpu_stream proposed=[1] mlx_q4g64=[602,236787,532,532]"
    );
}
