//! Sessions on the small graph, with answers that a device might give.

use gemma_metal::conditioner::DFlashGpuConditioner;
use gemma_metal::config::{EosIds, Gemma4TextConfig};
use gemma_metal::decode::StepRequest;
use gemma_metal::dflash::DFlashConfig;
use gemma_metal::dflash_run::{
    begin_rounds, block_size, end_rounds, generate_with_dflash, generate_with_dflash_host,
    generate_with_dflash_speed, host_context, DFlashRun, DFlashSetup, DraftAction, DraftedGeneration,
};
use gemma_metal::dflash::DraftCache;
use gemma_metal::draft;
use gemma_metal::draft::{DFlashGpuDraft, DraftLinears, Proposal};
use gemma_metal::draft_plan;
use gemma_metal::draft_plan::DraftShape;
use gemma_metal::forward::SyntheticE4bGraph;
use gemma_metal::generate::{GenAction, Generation, PromptAction, PromptReading};
use gemma_metal::host_draft::HostDFlashDraft;
use gemma_metal::icb;
use gemma_metal::icb::{
    Attach, GraphMode, GraphState, IcbDynSrc, IcbScalarTapeOp, Ledger, Recorded, ReplayOutcome, StepAsk,
};
use gemma_metal::kv_slot::{FaView, GpuKvSlot};
use gemma_metal::model::GpuSynthModel;
use gemma_metal::mtp::{MtpAction, MtpRun};
use gemma_metal::ops::{Buf, Op, SlotRef};
use gemma_metal::session;
use gemma_metal::session::{GpuDecodeSession, LayerMode, StepSeed, StepVerifyResult, VERIFY_MAX_M};
use gemma_metal::step_plan::{LayerCaps, StepFlags};
use gemma_metal::step_verify::{accept_block, BlockAccept};
use gemma_metal::steps;
use gemma_metal::steps::StepwiseVerify;
use gemma_metal::verify_plan::{gemm_verify_available, pad_seeds, verify_path, VerifyPath};

fn flags() -> StepFlags {
    StepFlags {
        hazard: false,
        fuse_bf16_rms: false,
        fuse_bf16_fa: false,
        fuse_bf16_mlp: false,
        fuse_rope_kv: false,
        fuse_dual_norm: false,
        fuse_ple_residual: false,
        e4b_dual_norm: false,
        interp: false,
        capture_nop: false,
        capture_barrier: false,
        capture_ao_disabled: false,
    }
}

fn caps(n: usize) -> Vec<LayerCaps> {
    vec![LayerCaps { qkv: false, kv: false, gate_down: false, gate_up: false }; n]
}

fn mini_model() -> GpuSynthModel {
    let host = SyntheticE4bGraph::mini_parity().unwrap();
    GpuSynthModel::from_synthetic(host, 16.0f32.to_bits()).0
}

fn mini() -> GpuDecodeSession {
    GpuDecodeSession::new(mini_model(), &mut Vec::new())
}

/// A target that looks at the whole history.
fn target(history: &[u32]) -> u32 {
    let mut h = 7u32;
    for &t in history {
        h = h.wrapping_mul(31).wrapping_add(t);
    }
    10 + h % 5
}

fn run(sess: &mut GpuDecodeSession, f: StepFlags, req: StepRequest, next: u32, q: &mut Vec<Op>) -> u32 {
    let row = vec![0u32; sess.capture.as_ref().map(|c| c.row_stride()).unwrap_or(0)];
    sess.step_encode(f, &caps(3), req, None, q).unwrap();
    sess.step_finish(f, req.readback, &row, next, 0, q).unwrap()
}

fn step(sess: &mut GpuDecodeSession, token: u32, next: u32) -> u32 {
    let mut q = Vec::new();
    run(sess, flags(), steps::step(token, LayerMode::Encode), next, &mut q)
}

fn step_verify(sess: &mut GpuDecodeSession, history: &[u32], tokens: &[u32]) -> StepVerifyResult {
    step_verify_by(target, sess, history, tokens)
}

fn step_verify_by(
    target: fn(&[u32]) -> u32,
    sess: &mut GpuDecodeSession,
    history: &[u32],
    tokens: &[u32],
) -> StepVerifyResult {
    let mut q = Vec::new();
    let mut v = StepwiseVerify::start(sess.pos(), tokens.to_vec(), &mut q).unwrap();
    assert_eq!(tokens_written(&q, Buf::VerifySeeds), pad_seeds(tokens));
    let mut h = history.to_vec();
    while let Some(t) = v.wants() {
        h.push(t);
        let next = step(sess, t, target(&h));
        v.answered(next);
    }
    let mut q = Vec::new();
    let r = v.finish(&mut q);
    assert_eq!(tokens_written(&q, Buf::VerifyOuts), pad_seeds(&r.next_tokens));
    r
}

/// What a verify buffer holds once the commands have run.
fn tokens_written(q: &[Op], buf: Buf) -> Vec<u32> {
    let mut out = vec![9999; VERIFY_MAX_M];
    for o in q {
        match o {
            Op::WriteToken { dst, index, token } if *dst == buf => out[*index] = *token,
            _ => unreachable!(),
        }
    }
    out
}

/// What the position buffer holds once the commands have run on it.
fn pos_buf(before: u32, q: &[Op]) -> u32 {
    q.iter().fold(before, |held, o| match o {
        Op::WritePos { pos } => *pos,
        _ => held,
    })
}

#[test]
fn step_verify_rejects_bad_m() {
    let too_long = vec![1u32; VERIFY_MAX_M + 1];
    assert!(StepwiseVerify::start(0, vec![], &mut Vec::new()).is_err());
    assert!(StepwiseVerify::start(0, too_long, &mut Vec::new()).is_err());
    let e = verify_path(9, false, true, true).unwrap_err();
    assert_eq!(e.message(), "config: step_verify: M=9 outside 1..=8");
}

#[test]
fn step_verify_trim_restores_for_continue() {
    let mut sess = mini();
    let _ = step(&mut sess, 1, 5);
    assert_eq!(sess.pos(), 1);
    let block = [2u32, 3, 4];
    let ver = step_verify(&mut sess, &[1], &block);
    assert_eq!(sess.pos(), 1 + block.len());
    assert_eq!(ver.next_tokens.len(), block.len());
    let mut q = Vec::new();
    sess.commit_verify(block.len(), 1, &mut q).unwrap();
    assert_eq!(sess.pos(), 2);
    assert_eq!(q, vec![Op::WritePos { pos: 2 }]);
    let cont = step(&mut sess, block[1], 9);
    assert!(cont < sess.model.vocab as u32);
    assert_eq!(sess.pos(), 3);
    let mut q = Vec::new();
    sess.trim_kv(3, &mut q).unwrap();
    assert_eq!(sess.pos(), 0);
    assert_eq!(pos_buf(9, &q), 0);
    let e = sess.trim_kv(1, &mut q).unwrap_err();
    assert_eq!(e.message(), "kv: trim_kv 1 > pos 0");
    sess.trim_kv(0, &mut q).unwrap();
    assert_eq!(q.len(), 1);
}

#[test]
fn step_verify_matches_sequential_step() {
    let mut sess = mini();
    let feed = [3u32, 4, 5];
    let mut sequential = Vec::new();
    for i in 0..feed.len() {
        sequential.push(step(&mut sess, feed[i], target(&feed[..i + 1])));
    }
    assert_eq!(sess.pos(), feed.len());
    sess.reset(&mut Vec::new());
    let ver = step_verify(&mut sess, &[], &feed);
    assert_eq!(ver.pos0, 0);
    assert_eq!(ver.tokens, feed);
    assert_eq!(ver.next_tokens, sequential);
    assert_eq!(sess.pos(), feed.len());
    let follow = step(&mut sess, 5, 11);
    assert!(follow < sess.model.vocab as u32);
}

#[test]
fn bench_step_verify_mini_smoke() {
    let mut sess = mini();
    let block = [3u32, 4, 5, 6, 7];
    for _ in 0..4 {
        let _ = step_verify(&mut sess, &[], &block);
        sess.trim_kv(block.len(), &mut Vec::new()).unwrap();
    }
    assert_eq!(sess.pos(), 0);
}

#[test]
fn verify_seed_slot_gpu_copy_roundtrip() {
    let seeds = [11u32, 22, 33, 44, 0, 0, 0, 0];
    assert_eq!(pad_seeds(&seeds[..4]), seeds);
}

#[test]
fn pos_buf_written_once_per_step() {
    let mut q = Vec::new();
    let mut sess = GpuDecodeSession::new(mini_model(), &mut q);
    let mut held = pos_buf(9, &q);
    assert_eq!(held, 0);
    for (i, t) in [3u32, 4].iter().enumerate() {
        let mut q = Vec::new();
        run(&mut sess, flags(), steps::step(*t, LayerMode::Encode), 1, &mut q);
        let written = q.iter().filter(|o| matches!(o, Op::WritePos { .. })).count();
        assert_eq!(written, 1);
        assert_eq!(sess.pos(), i + 1);
        held = pos_buf(held, &q);
        assert_eq!(held, i as u32);
    }
    assert_eq!(held, 1);
    let mut q = Vec::new();
    sess.reset(&mut q);
    assert_eq!(q[0], Op::Synchronize);
    assert_eq!(pos_buf(held, &q), 0);
    assert_eq!(sess.pos(), 0);
    let graph = GraphState::unrecorded(false, false, sess.model.decode_icb_graph_eligible(), true);
    assert!(graph.status_line().contains("wired=false"));
}

/// Encode-once changes how a step is encoded and counted, and no token.
#[test]
fn encode_once_mini_parity() {
    let prompts = [3u32, 7, 11, 13];
    let mut base = mini();
    let mut once = mini();
    let (mut base_out, mut once_out) = (Vec::new(), Vec::new());
    let mut graph = GraphState::unrecorded(true, false, base.model.decode_icb_graph_eligible(), true);
    let (mut live, mut not_wired) = (0, 0);
    for i in 0..prompts.len() {
        let (mut qa, mut qb) = (Vec::new(), Vec::new());
        let next = target(&prompts[..i + 1]);
        base_out.push(run(&mut base, flags(), steps::step(prompts[i], LayerMode::Encode), next, &mut qa));
        let mode = graph.mode(true);
        assert_eq!(mode, GraphMode::KeptFirst);
        let outcome = if graph.ready_slot { ReplayOutcome::NotWired } else { ReplayOutcome::NotReady };
        if matches!(outcome, ReplayOutcome::NotWired) {
            not_wired += 1;
        }
        icb::kept_ended(&outcome).unwrap();
        once_out.push(run(&mut once, flags(), steps::step(prompts[i], LayerMode::Encode), next, &mut qb));
        assert_eq!(qa, qb);
        if icb::ledger_of(true, mode) == Ledger::Encoded {
            live += 1;
            graph.ready_slot = true;
        }
    }
    assert_eq!(icb::ledger_of(false, GraphMode::Live), Ledger::Nothing);
    assert_eq!((live, not_wired), (4, 3));
    assert!(graph.status_line().contains("wired=false"));
    assert_eq!(base_out, once_out);
}

#[test]
fn capture_off_vs_on_first_token() {
    let mut sess = mini();
    let generate = |sess: &mut GpuDecodeSession| {
        sess.reset(&mut Vec::new());
        let mut out = vec![3u32, 4, 5];
        for t in [3u32, 4] {
            run(sess, flags(), steps::step_prefill(t), 0, &mut Vec::new());
        }
        let mut token = 5;
        for _ in 0..6 {
            let next = target(&out);
            token = step(sess, token, next);
            out.push(token);
        }
        out
    };
    let off1 = generate(&mut sess);
    let off2 = generate(&mut sess);
    assert_eq!(off1, off2);
    sess.enable_hidden_capture(vec![0, 1, 2]).unwrap();
    let on1 = generate(&mut sess);
    let on2 = generate(&mut sess);
    assert_eq!(on1, on2);
    assert_eq!(off1, on1);
    assert_eq!(sess.capture_len(), 8);
}

#[test]
fn gemm_verify_m_sweep_vs_sequential() {
    for m in 2..=VERIFY_MAX_M {
        let (mut sess_g, mut sess_v) = (mini(), mini());
        for &t in &[3u32, 4, 5] {
            run(&mut sess_g, flags(), steps::step_prefill(t), 0, &mut Vec::new());
            run(&mut sess_v, flags(), steps::step_prefill(t), 0, &mut Vec::new());
        }
        let toks = vec![484u32; m];
        let mut h = vec![3u32, 4, 5];
        let mut seq_next = Vec::new();
        for &t in &toks {
            h.push(t);
            seq_next.push(step(&mut sess_g, t, target(&h)));
        }
        let mut q = Vec::new();
        let seeds = sess_v.step_verify_gemm(flags(), &toks, &mut q).unwrap();
        assert_eq!(seeds, pad_seeds(&toks));
        let chosen = q.iter().filter(|o| matches!(o, Op::Argmax { dst: Buf::VerifyOuts, .. })).count();
        assert_eq!(chosen, m);
        let ver = sess_v.verify_finish(&toks, &[], &pad_seeds(&seq_next), &mut q);
        assert_eq!(ver.next_tokens, seq_next);
        assert_eq!(ver.pos0, 3);
        assert_eq!(sess_v.pos(), sess_g.pos());
        assert_eq!(sess_v.kv.shared_global.seq_len, sess_g.kv.shared_global.seq_len);
        assert_eq!(sess_v.kv.sliding_rings[0].head, sess_g.kv.sliding_rings[0].head);
    }
}

#[test]
fn diagnose_draft_vs_verify_accept() {
    let (mut sess, mut draft) = conditioned();
    draft.bind_from_session(&sess.model).unwrap();
    draft.reset_cache();
    sess.reset(&mut Vec::new());
    let prompt = [3u32, 4, 5];
    let mut out = prompt.to_vec();
    for &t in &prompt[..2] {
        run(&mut sess, flags(), steps::step_prefill(t), 0, &mut Vec::new());
    }
    let mut anchor = step(&mut sess, 5, target(&prompt));
    out.push(anchor);
    draft.steer_mask_positions_to(anchor).unwrap();
    for _ in 0..3 {
        let h_ctx_len = sess.conditioner_h_ctx_len();
        let ctx_t = h_ctx_len.saturating_sub(draft.cache_offset());
        let mask = draft.cfg.mask_token_id;
        let bytes = sess.conditioner_h_ctx_buf().unwrap();
        assert!(draft.has_room(3, h_ctx_len, ctx_t));
        let mut q = Vec::new();
        let toks = match draft.propose_block(&mut q, false, &[anchor, mask, mask], bytes, h_ctx_len, ctx_t).unwrap() {
            Proposal::Steered(t) => t,
            Proposal::Queued(_) => unreachable!(),
        };
        let mut verify_in = vec![anchor];
        verify_in.extend_from_slice(&toks);
        let ver = step_verify(&mut sess, &out[..out.len() - 1], &verify_in);
        let acc = accept_block(&toks, &ver).unwrap();
        let before = sess.pos();
        sess.commit_verify(ver.tokens.len(), acc.keep, &mut Vec::new()).unwrap();
        assert_eq!(sess.pos(), before - (3 - acc.keep));
        let h_after = sess.conditioner_h_ctx_len();
        let d_off = draft.cache_offset();
        if d_off > h_after {
            draft.trim_cache(d_off - h_after);
        }
        assert!(draft.cache_offset() <= h_after);
        out.extend_from_slice(&acc.emit);
        anchor = *out.last().unwrap();
        assert_eq!(out, greedy(&prompt, out.len() - 3));
        assert_eq!(sess.pos(), out.len() - 1);
    }
}

#[test]
fn persistent_interp_mini_decode_hook() {
    let m = mini_model();
    assert!(m.is_synthetic_mini());
    assert!(m.decode_icb_graph_eligible());
    let prompts = [3u32, 7, 11];
    let mut base = mini();
    for &t in &prompts {
        step(&mut base, t, 1);
    }
    assert_eq!(base.gate_down_hits, 0);
    assert_eq!(base.fa_o_hits, 0);
    let mut on = flags();
    on.interp = steps::interp_hook_runs(true, &m, false, true);
    assert!(on.interp);
    let mut hooked = mini();
    for &t in &prompts {
        let mut q = Vec::new();
        run(&mut hooked, on, steps::step(t, LayerMode::Encode), 1, &mut q);
    }
    let expect_hits = hooked.model.layers.len() as u64 * prompts.len() as u64;
    assert_eq!(hooked.persistent_interp_fa_o_hits(), expect_hits);
    assert_eq!(hooked.persistent_interp_gate_down_hits(), expect_hits);
    assert_eq!(hooked.persistent_interp_last_fail(), 0);
    assert!(!steps::interp_hook_runs(false, &m, true, true));
    assert!(!steps::interp_hook_runs(true, &m, false, false));
    let s = steps::interp_scratch(&m);
    assert_eq!((s.mid, s.w_down, s.ctx, s.w_o), (512, 131_072, 256, 65_536));
}

#[test]
fn capture_fills_concat_on_step() {
    let mut sess = mini();
    sess.enable_hidden_capture(vec![0, 1, 2]).unwrap();
    let _ = step(&mut sess, 3, 1);
    let (concat, t) = sess.captured_concat().unwrap();
    assert_eq!(t, 1);
    assert_eq!(concat.len(), 3 * sess.model.hidden);
    sess.trim_captured(1).unwrap();
    assert_eq!(sess.capture_len(), 0);
}

#[test]
fn conditioner_rows_follow_the_capture() {
    let mut sess = mini();
    let floats: Vec<u32> = (0..16 * 256).collect();
    let e = sess.read_conditioner_h_ctx(&floats).unwrap_err();
    assert_eq!(e.message(), "config: no GPU conditioner attached");
    assert!(sess.read_conditioner_fc_out(&floats).is_err());
    assert!(sess.conditioner_h_ctx_buf().is_err());
    let cfg = DFlashConfig::synthetic_mini();
    let c = cfg.concat_dim();
    let cond =
        DFlashGpuConditioner::from_host(cfg.target_layer_ids.clone(), 256 * c, 256, 256, c, 16).unwrap();
    sess.attach_gpu_conditioner(cond).unwrap();
    let _ = step(&mut sess, 3, 1);
    assert_eq!(sess.capture_len(), 1);
    assert_eq!(sess.conditioner_h_ctx_len(), 1);
    assert_eq!(sess.read_conditioner_h_ctx(&floats).unwrap(), floats[..256]);
    assert_eq!(sess.read_conditioner_fc_out(&floats).unwrap(), floats[..256]);
    assert_eq!(sess.conditioner_h_ctx_buf().unwrap(), 16 * 256 * 4);
}

#[test]
fn gpu_generate_extends() {
    let mut sess = mini();
    let prompt = [1u32, 2, 3];
    let eos: Option<EosIds> = None;
    let mut g = Generation::start(&prompt, 2).unwrap();
    let mut last = 0;
    loop {
        match g.action() {
            GenAction::Prefill(t) => {
                let mut q = Vec::new();
                run(&mut sess, flags(), steps::step_prefill(t), 0, &mut q);
                g.prefilled();
            }
            GenAction::First(t) => {
                let history = g.out.clone();
                last = step(&mut sess, t, target(&history));
                g.token(last, &eos);
            }
            GenAction::Chain => {
                let history = g.out.clone();
                let mut q = Vec::new();
                let req = steps::step_chained(last, true, LayerMode::Encode);
                last = run(&mut sess, flags(), req, target(&history), &mut q);
                g.token(last, &eos);
            }
            GenAction::Done => break,
        }
    }
    assert_eq!(g.out.len(), prompt.len() + 2);
    assert_eq!(&g.out[..3], &prompt);
}

fn linears(c: &DFlashConfig) -> Vec<DraftLinears> {
    let (h, q, k, i) = (
        c.hidden_size,
        c.num_attention_heads * c.head_dim,
        c.num_key_value_heads * c.head_dim,
        c.intermediate_size,
    );
    vec![
        DraftLinears { q: q * h, k: k * h, v: k * h, o: h * q, gate: i * h, up: i * h, down: h * i };
        c.num_hidden_layers
    ]
}

fn greedy(prompt: &[u32], n: usize) -> Vec<u32> {
    let mut out = prompt.to_vec();
    for _ in 0..n {
        let t = target(&out);
        out.push(t);
    }
    out
}

fn conditioned() -> (GpuDecodeSession, DFlashGpuDraft) {
    let mut sess = mini();
    let host = HostDFlashDraft::synthetic_mini().unwrap().draft;
    let l = linears(&host.cfg);
    let draft = DFlashGpuDraft::from_draft(&host, &l, 64).unwrap();
    let cond = DFlashGpuConditioner::from_draft(&host, 64).unwrap();
    sess.attach_gpu_conditioner(cond).unwrap();
    (sess, draft)
}

/// A draft generation. Proposals that are not steered are right, or all wrong.
fn dflash(prompt: &[u32], max_new: usize, bs: usize, steer: bool, wrong: bool) -> (Vec<u32>, usize) {
    let (out, accepts) = dflash_by(target, prompt, max_new, bs, steer, wrong);
    (out, accepts.len())
}

fn dflash_by(
    target: fn(&[u32]) -> u32,
    prompt: &[u32],
    max_new: usize,
    bs: usize,
    steer: bool,
    wrong: bool,
) -> (Vec<u32>, Vec<BlockAccept>) {
    let (mut sess, mut draft) = conditioned();
    let setup = generate_with_dflash(&mut sess, &mut draft, prompt, Some(bs), true, &mut Vec::new()).unwrap();
    assert_eq!(setup, DFlashSetup { bs, mini: true, hazard: false });
    let eos = None;
    let setup = DFlashSetup { mini: steer, ..setup };
    let mut g = DraftedGeneration::start(setup, prompt.to_vec(), max_new).unwrap();
    let mut rounds = 0;
    let mut fed = Vec::new();
    loop {
        let k = match g.action(&eos) {
            DraftAction::Prefill(t) => {
                fed.push(t);
                run(&mut sess, flags(), steps::step_prefill(t), 0, &mut Vec::new());
                g.prefilled();
                continue;
            }
            DraftAction::First(t) => {
                fed.push(t);
                assert_eq!(fed, prompt);
                let first = step(&mut sess, t, target(prompt));
                let rows = g.first(&mut sess, &mut draft, first).unwrap();
                assert_eq!(rows, if steer { Some((first as usize * 256, 4 * 256)) } else { None });
                assert_eq!(sess.capture.is_none(), steer);
                continue;
            }
            DraftAction::Draft(k) => k,
            DraftAction::Done => break,
        };
        let d = g.run.as_mut().unwrap();
        rounds += 1;
        let ctx_t = d.align_draft(&sess, &mut draft);
        let mut q = Vec::new();
        let toks = match d.propose(&sess, &mut draft, k, ctx_t, false, &mut q).unwrap() {
            Proposal::Steered(t) => t,
            Proposal::Queued(n) => {
                let mut toks = Vec::new();
                let mut h = d.out.clone();
                for _ in 0..n {
                    let t = if wrong { 3 } else { target(&h) };
                    toks.push(t);
                    h.push(t);
                }
                toks
            }
        };
        assert_eq!(toks.len(), k);
        let input = d.verify_input(&toks);
        let base = d.out[..d.out.len() - 1].to_vec();
        let ver = step_verify_by(target, &mut sess, &base, &input);
        let mut q = Vec::new();
        let was = sess.pos();
        d.finish_round(&mut sess, &mut draft, &toks, &ver, &eos, &mut q).unwrap();
        let kept = d.accepts.last().unwrap();
        assert_eq!(kept.verify.drafted, k);
        assert_eq!(q.is_empty(), kept.keep == k + 1);
        assert_eq!(sess.pos(), was - (k + 1 - kept.keep));
        if !d.stopped {
            assert_eq!(sess.pos(), d.out.len() - 1);
        }
        assert!(steer || draft.cache_offset() <= sess.conditioner_h_ctx_len());
    }
    end_rounds(&mut sess);
    assert!(sess.capture.is_none());
    let d = g.run.unwrap();
    assert_eq!(d.accepts.len(), rounds);
    for a in &d.accepts {
        assert!(!a.emit.is_empty());
    }
    (d.out, d.accepts)
}

#[test]
fn generate_with_dflash_synthetic_loop() {
    let (out, rounds) = dflash(&[3, 4], 4, 3, true, false);
    assert!(out.len() >= 3);
    assert!(rounds > 0);
    assert_eq!(out, greedy(&[3, 4], 4));
}

#[test]
fn draft_generations_check_what_they_need() {
    let (mut sess, mut draft) = conditioned();
    let e = generate_with_dflash(&mut sess, &mut draft, &[], None, true, &mut Vec::new()).unwrap_err();
    assert_eq!(e.message(), "config: empty prompt");
    let setup = generate_with_dflash_speed(&mut sess, &mut draft, &[1], None, true, &mut Vec::new()).unwrap();
    assert_eq!(setup, DFlashSetup { bs: 4, mini: true, hazard: true });
    let mut bare = mini();
    let e = generate_with_dflash(&mut bare, &mut draft, &[1], None, true, &mut Vec::new()).unwrap_err();
    assert_eq!(e.message(), "config: generate_with_dflash: attach_gpu_conditioner first");
    let setup = DFlashSetup { mini: false, ..setup };
    let (d, _) = begin_rounds(setup, &mut bare, &mut draft, &[1], 4, 2).unwrap();
    let mut q = Vec::new();
    let e = d.propose(&bare, &mut draft, 2, 0, false, &mut q).unwrap_err();
    assert_eq!(e.message(), "config: no GPU conditioner attached");
    let setup = DFlashSetup { mini: true, ..setup };
    let e = begin_rounds(setup, &mut bare, &mut draft, &[1], 4, 600).unwrap_err();
    assert_eq!(e.message(), "config: steer_mask_positions_to: prefer=600 mask=4 vocab=512");
}

#[test]
fn generate_with_dflash_host_still_runs() {
    let mut sess = mini();
    let mut draft = HostDFlashDraft::synthetic_mini().unwrap().draft;
    let prompt = [3u32, 4];
    let full = 512 * 256;
    let bs = generate_with_dflash_host(&mut sess, &mut draft, &prompt, Some(3), 0, full, &mut Vec::new()).unwrap();
    assert_eq!(bs, 3);
    assert_eq!((draft.embed, draft.lm_head), (Some(full), Some(full)));
    let eos = None;
    let mut q = Vec::new();
    run(&mut sess, flags(), steps::step_prefill(3), 0, &mut q);
    let first = step(&mut sess, 4, target(&prompt));
    let mut d = DFlashRun::start(&prompt, 4, bs, first);
    let (mut concat, mut ctx_t) = sess.captured_concat().map(|(c, t)| (c.len(), t)).unwrap();
    assert_eq!((concat, ctx_t), (2 * 768, 2));
    while let Some(k) = d.round(&eos) {
        let h_ctx = draft.h_ctx_from_capture(concat, ctx_t).unwrap();
        let block = d.block(k, draft.cfg.mask_token_id);
        let pass = draft.propose_block(&block, h_ctx, ctx_t).unwrap();
        assert_eq!(pass.logits_from, 1);
        d.align_host_draft(&mut draft);
        let toks = vec![first; k];
        let input = d.verify_input(&toks);
        let base = d.out[..d.out.len() - 1].to_vec();
        let ver = step_verify(&mut sess, &base, &input);
        d.accept_round(&mut sess, &toks, &ver, &eos, &mut Vec::new()).unwrap();
        let keep = d.accepts.last().unwrap().keep;
        let row = draft.cfg.concat_dim();
        let (start, t) = host_context(sess.capture_len(), keep, row);
        concat = sess.capture_len() * row - start;
        ctx_t = t;
        assert_eq!(concat, keep * row);
    }
    assert_eq!(d.out, greedy(&prompt, 4));
    assert!(!d.accepts.is_empty());
    let e = generate_with_dflash_host(&mut sess, &mut draft, &[], None, 0, full, &mut Vec::new()).unwrap_err();
    assert_eq!(e.message(), "config: empty prompt");
    let e = generate_with_dflash_host(&mut sess, &mut draft, &[1], None, 0, 7, &mut Vec::new()).unwrap_err();
    assert_eq!(e.message(), "config: bind lm_head len 7 != vocab×H=131072");
}

#[test]
fn gpu_draft_propose_block_smoke() {
    let (mut sess, mut draft) = conditioned();
    let full = 512 * 256;
    draft.bind_embed_lm_head_host(full, full, 512, 256, 1.0f32.to_bits()).unwrap();
    let _ = step(&mut sess, 3, 1);
    assert_eq!(sess.conditioner_h_ctx_len(), 1);
    let mut q = Vec::new();
    let bytes = sess.conditioner_h_ctx_buf().unwrap();
    match draft.propose_block(&mut q, false, &[3, 4, 4], bytes, 1, 1).unwrap() {
        Proposal::Queued(n) => assert_eq!(n, 2),
        _ => unreachable!(),
    }
    assert_eq!(draft.cache_offset(), 1);
    assert!(!q.is_empty());
    let e = draft.propose_block(&mut q, false, &[3], bytes, 1, 0).unwrap_err();
    assert_eq!(e.message(), "config: propose_block: need ≥2 tokens");
    let e = draft.propose_block(&mut q, false, &[3, 4], bytes, 1, 2).unwrap_err();
    assert_eq!(e.message(), "config: propose_block: ctx_t=2 > h_ctx_len=1");
    let e = draft.propose_block(&mut q, false, &[3, 4], 0, 1, 1).unwrap_err();
    assert_eq!(e.message(), "config: propose_block: h_ctx buffer too small");
}

#[test]
fn greedy_unaffected_by_gpu_draft_load() {
    let (_, _draft) = conditioned();
    let mut sess = mini();
    let mut out = Vec::new();
    for _ in 0..2 {
        sess.reset(&mut Vec::new());
        for &t in &[3u32, 4] {
            let mut q = Vec::new();
            run(&mut sess, flags(), steps::step_prefill(t), 0, &mut q);
        }
        let mut q = Vec::new();
        out.push((run(&mut sess, flags(), steps::step(5, LayerMode::Encode), 9, &mut q), q));
    }
    assert!((out[0].0 as usize) < sess.model.vocab);
    assert_eq!(out[0], out[1]);
}

#[test]
fn gpu_conditioner_matches_host_project() {
    let host = HostDFlashDraft::synthetic_mini().unwrap().draft;
    let mut sess = mini();
    let cond = DFlashGpuConditioner::from_draft(&host, 16).unwrap();
    sess.attach_gpu_conditioner(cond).unwrap();
    let _ = step(&mut sess, 3, 1);
    assert_eq!(sess.capture_len(), 1);
    assert_eq!(sess.conditioner_h_ctx_len(), 1);
    let (concat, t) = sess.captured_concat().map(|(c, t)| (c.len(), t)).unwrap();
    let host_h = host.h_ctx_from_capture(concat, t).unwrap();
    let gpu_h = sess.read_conditioner_h_ctx(&vec![0; 16 * 256]).unwrap();
    assert_eq!(gpu_h.len(), host_h);
}

#[test]
fn gpu_synth_upload_and_step() {
    let mut sess = mini();
    let next = step(&mut sess, 1, 200);
    assert!(next < sess.model.vocab as u32);
    let next2 = step(&mut sess, next, 300);
    assert!(next2 < sess.model.vocab as u32);
    assert_eq!(sess.pos(), 2);
}

#[test]
fn dual_buf_seed_argmax_isolated() {
    let mut sess = mini();
    // What the two token buffers hold once commands have run; `chosen` is what a step
    // chooses.
    let tokens = |held: (u32, u32), q: &[Op], chosen: u32| {
        let (mut seed, mut argmax) = held;
        for o in q {
            match o {
                Op::WriteSeed { token } => seed = *token,
                Op::CopyToken { src: Buf::ArgmaxTok, index: 0, dst: Buf::SeedTok } => seed = argmax,
                Op::Argmax { dst: Buf::ArgmaxTok, index: 0, .. } => argmax = chosen,
                Op::Argmax { dst: Buf::SeedTok, .. } => seed = chosen,
                _ => {}
            }
        }
        (seed, argmax)
    };
    let first = StepRequest {
        seed: StepSeed::Host(7),
        resident: 7,
        readback: false,
        head: true,
        mode: LayerMode::Encode,
    };
    let mut q = Vec::new();
    run(&mut sess, flags(), first, 0, &mut q);
    let held = tokens((0, 0), &q, 11);
    assert_eq!(held, (7, 11));
    let mut q = Vec::new();
    run(&mut sess, flags(), steps::step_chained(11, false, LayerMode::Encode), 0, &mut q);
    assert!(q.iter().all(|o| !matches!(o, Op::WriteSeed { .. })));
    assert_eq!(tokens(held, &q, 12), (11, 12));
}

#[test]
fn gpu_mtp_smoke_draft_verify() {
    let mut sess = mini();
    let prompt = [1u32, 2];
    let _ = step(&mut sess, 1, 0);
    let next = step(&mut sess, 2, target(&prompt));
    let mut m = MtpRun::start(prompt.to_vec(), 4, next).unwrap();
    let mut verifies = Vec::new();
    let eos = None;
    let mut fed = prompt.to_vec();
    while m.begin_round(&eos) {
        let ((st, sn), (gt, gn)) = sess.sync_mtp_cross_kv();
        assert_eq!((st, sn), (fed.len(), fed.len() * 256));
        assert_eq!((gt, gn), (fed.len(), fed.len() * 512));
        let mut h = fed.clone();
        h.push(m.next);
        let mut round = m.verify(vec![target(&h), 1]);
        loop {
            match m.action(&round) {
                MtpAction::Check(t) => {
                    fed.push(t);
                    let tok = step(&mut sess, t, target(&fed));
                    m.checked(&mut round, tok);
                }
                MtpAction::Bonus(t) => {
                    fed.push(t);
                    let tok = step(&mut sess, t, target(&fed));
                    m.bonus(&mut round, tok);
                }
                MtpAction::Close => break,
            }
        }
        m.close(&round);
        verifies.push((round.draft.len(), round.target.len(), round.rejected));
    }
    assert!(m.out.len() > 2);
    assert_eq!(m.out.len(), 6);
    assert!(verifies.iter().any(|v| v.0 > 0));
    assert_eq!(verifies[0], (2, 2, true));
    let e = MtpRun::start(vec![], 4, 0).unwrap_err();
    assert_eq!(e.message(), "config: empty prompt");
}

#[test]
fn generate_with_dflash_matches_greedy_exact() {
    let prompt = [3u32, 4, 5];
    let want = greedy(&prompt, 6);
    let (out, rounds) = dflash(&prompt, 6, 3, false, false);
    assert_eq!(out, want);
    assert_eq!(rounds, 2);
    let (out, rounds) = dflash(&prompt, 6, 3, false, true);
    assert_eq!(out, want);
    assert_eq!(rounds, 5);
}

#[test]
fn steered_mini_accept_by_block_size() {
    let prompt = [3u32, 4, 5, 6];
    for bs in [2usize, 3, 4, 5, 6, 8] {
        // A target that keeps to one token, which is what a steered draft proposes.
        let (out, accepts) = dflash_by(|_| 17, &prompt, 16, bs, true, false);
        let full: Vec<usize> =
            accepts.iter().filter(|a| a.verify.drafted == bs - 1).map(|a| a.verify.accepted).collect();
        assert!(!full.is_empty() && full.iter().all(|&a| a == bs - 1));
        assert_eq!(out[..4], prompt);
        assert_eq!(out[4..], [17; 16]);
        let (out, rounds) = dflash(&prompt, 16, bs, false, false);
        assert_eq!(out, greedy(&prompt, 16));
        assert_eq!(rounds, (15 + bs - 1) / bs);
    }
}

#[test]
fn block_sizes_stay_between_two_and_eight() {
    assert_eq!(block_size(None, 16), 5);
    assert_eq!(block_size(None, 4), 4);
    assert_eq!(block_size(None, 1), 2);
    assert_eq!(block_size(Some(0), 4), 2);
    assert_eq!(block_size(Some(12), 4), 8);
}

#[test]
fn drafts_stop_at_an_end_token() {
    let eos = Some(EosIds::Many(vec![9, 12]));
    let mut sess = mini();
    let prompt = [1u32];
    let first = step(&mut sess, 1, 5);
    let mut d = DFlashRun::start(&prompt, 8, 4, first);
    assert_eq!(d.round(&eos), Some(3));
    let toks = [6u32, 12, 7];
    for _ in 0..4 {
        step(&mut sess, 1, 1);
    }
    let ver = StepVerifyResult { pos0: 1, tokens: vec![5, 6, 12, 7], next_tokens: vec![6, 12, 7, 8] };
    d.accept_round(&mut sess, &toks, &ver, &eos, &mut Vec::new()).unwrap();
    assert_eq!(d.out, vec![1, 5, 6, 12]);
    assert!(d.stopped);
    assert_eq!(d.round(&eos), None);
}

#[test]
fn accepting_needs_one_answer_more_than_drafts() {
    let ver = StepVerifyResult { pos0: 0, tokens: vec![1], next_tokens: vec![1] };
    let e = accept_block(&[4, 5], &ver).unwrap_err();
    assert_eq!(e.message(), "config: accept_block: 1 verified positions for a draft of 2");
}

#[test]
fn steered_drafts_propose_the_preferred_token() {
    let cfg = DFlashConfig::synthetic_mini();
    let l = linears(&cfg);
    let mut draft = DFlashGpuDraft::from_host(cfg, &l, 64, 8, None, false).unwrap();
    assert!(draft.is_synthetic_mini());
    draft.bind_from_session(&mini_model()).unwrap();
    draft.steer_mask_positions_to(17).unwrap();
    let mut q = Vec::new();
    match draft.propose_block(&mut q, false, &[5, 4, 4], 64 * 256 * 4, 2, 2).unwrap() {
        Proposal::Steered(t) => assert_eq!(t, vec![17, 17]),
        _ => unreachable!(),
    }
    assert_eq!(draft.cache_offset(), 2);
}

#[test]
fn gemm_verify_path_active_on_mini() {
    let m = mini_model();
    assert!(!gemm_verify_available(&m, 256 * 4, 512 * 4, true));
    assert!(gemm_verify_available(&m, 256 * 32, 512 * 32, true));
    assert_eq!(verify_path(3, false, true, false).unwrap(), VerifyPath::Steps);
    assert_eq!(verify_path(3, false, true, true).unwrap(), VerifyPath::Block);
    assert_eq!(verify_path(1, false, true, true).unwrap(), VerifyPath::Steps);
    assert_eq!(verify_path(3, true, true, true).unwrap(), VerifyPath::Steps);
    // The small graph's head stays on single steps.
    let mut sess = GpuDecodeSession::new(m, &mut Vec::new());
    for t in [3u32, 4] {
        run(&mut sess, flags(), steps::step_prefill(t), 0, &mut Vec::new());
    }
    let _ = step(&mut sess, 5, target(&[3, 4, 5]));
    let ver = step_verify(&mut sess, &[3, 4, 5], &[6, 7, 8]);
    assert_eq!(ver.next_tokens.len(), 3);
    assert_eq!((ver.pos0, sess.pos()), (3, 6));
    let t = step(&mut sess, ver.next_tokens[0], 12);
    assert_eq!((t, sess.pos()), (12, 7));
}

#[test]
fn blocks_verify_in_one_pass() {
    let mut sess = mini();
    let _ = step(&mut sess, 1, 5);
    let mut q = Vec::new();
    let seeds = sess.step_verify_gemm(flags(), &[2, 3, 4], &mut q).unwrap();
    assert_eq!(seeds, vec![2, 3, 4, 0, 0, 0, 0, 0]);
    let ver = sess.verify_finish(&[2, 3, 4], &[], &[7, 8, 9, 0, 0, 0, 0, 0], &mut q);
    assert_eq!(ver.next_tokens, vec![7, 8, 9]);
    assert_eq!(sess.pos(), 4);
    let mut other = mini();
    for t in [1u32, 2, 3, 4] {
        step(&mut other, t, 5);
    }
    assert_eq!(other.kv.shared_sliding.seq_len, sess.kv.shared_sliding.seq_len);
    assert_eq!(other.kv.sliding_rings[0].head, sess.kv.sliding_rings[0].head);
    sess.commit_verify(3, 1, &mut Vec::new()).unwrap();
    assert_eq!(sess.kv.shared_global.seq_len, 2);
}

#[test]
fn presets_match_plan() {
    let e4b = Gemma4TextConfig::e4b_preset();
    assert_eq!(e4b.first_kv_shared(), 24);
    assert_eq!(e4b.num_hidden_layers - e4b.num_kv_shared_layers, 24);
    let b31 = Gemma4TextConfig::b31_preset();
    assert_eq!(b31.num_kv_shared_layers, 0);
    assert!(b31.attention_k_eq_v);
}

#[test]
fn scratch_is_sized_for_the_largest_block() {
    let m = mini_model();
    let r = session::scratch_floats(&m);
    let d = m.cfg.head_dim.max(m.cfg.global_head_dim);
    assert_eq!(r.hidden_rows, m.hidden * VERIFY_MAX_M);
    assert_eq!(r.head_rows, m.cfg.num_attention_heads * d * VERIFY_MAX_M);
    assert_eq!(r.inter_rows, m.intermediate * VERIFY_MAX_M);
    assert_eq!(r.logits, m.vocab * VERIFY_MAX_M);
    let c = DFlashConfig::synthetic_mini();
    let r = draft::draft_scratch(&c, 32, 8);
    let (qd, kd) = (c.num_attention_heads * c.head_dim, c.num_key_value_heads * c.head_dim);
    assert_eq!((r.cache, r.x, r.x_normed), (32 * kd, 8 * c.hidden_size, 32 * c.hidden_size));
    assert_eq!((r.q, r.kv, r.kv_full), (8 * qd, 32 * kd, 40 * kd));
    assert_eq!((r.mid, r.logits), (c.intermediate_size, c.vocab_size));
    assert_eq!(r.row_x, c.hidden_size.max(c.intermediate_size).max(qd));
}

#[test]
fn fused_kernels_need_their_scratch() {
    assert_eq!(
        steps::ensure_fuse_gate_down_scratch(false, true).unwrap_err().message(),
        "metal: fuse_gate_down scratch: GEMMA_METAL_FUSE_GATE_DOWN off"
    );
    assert!(steps::ensure_fuse_gate_down_scratch(true, false).unwrap());
    assert!(!steps::ensure_fuse_gate_down_scratch(true, true).unwrap());
    assert!(steps::fuse_gate_down_ended(true, 0).is_ok());
    assert_eq!(
        steps::fuse_gate_down_ended(false, 0).unwrap_err().message(),
        "metal: fuse_gate_down scratch missing (ensure first)"
    );
    assert_eq!(
        steps::fuse_gate_down_ended(true, 3).unwrap_err().message(),
        "metal: GEMMA_METAL_FUSE_GATE_DOWN: grid barrier spin timeout (Metal FP caveat)"
    );
}

#[test]
fn probes_stop_at_values_that_are_no_numbers() {
    let good = gemma_metal::floats::stats_f32(&[1.0f32.to_bits()]);
    assert!(steps::layer_probe(2, 7, &good).is_ok());
    let bad = gemma_metal::floats::stats_f32(&[f32::NAN.to_bits(), 0, f32::NAN.to_bits()]);
    let e = steps::layer_probe(2, 7, &bad).unwrap_err();
    assert_eq!(e.message(), "metal: layer_probe: NaN residual after layer 2 pos=7 nan=2");
}

#[test]
fn buffers_are_looked_through() {
    let s = mini();
    let x: Vec<u32> = (0..s.model.hidden + 1).map(|i| (i as f32 - 3.0).to_bits()).collect();
    let r = s.debug_x_stats(&x);
    assert_eq!((r.host_argmax as usize, r.nan, r.finite), (s.model.hidden - 1, 0, true));
    let r = s.debug_logits_stats(&[1.0f32.to_bits(), 4.0f32.to_bits(), f32::NAN.to_bits()]);
    assert_eq!((r.host_argmax, r.nan, r.finite, r.max_bits), (1, 1, false, 4.0f32.to_bits()));
}

#[test]
fn sliding_drafts_are_served_while_their_windows_fit() {
    let mut cache = DraftCache { len: 40, offset: 40 };
    let s = DraftShape { h: 8, hq: 2, hkv: 1, d: 4, inter: 16, hazard: false };
    let mut q = Vec::new();
    draft_plan::forward_layer(&mut q, s, 0, 4, 30, 30, Some(32), &mut cache, 64);
    assert_eq!((cache.len, cache.offset), (31 + 30, 31 + 30));
    assert!(!q.is_empty());
    let (_, mut draft) = conditioned();
    for c in &mut draft.caches {
        *c = DraftCache { len: 40, offset: 40 };
    }
    draft.cfg.layer_types = vec![gemma_metal::config::LayerType::SlidingAttention; draft.caches.len()];
    assert_eq!(draft.cfg.sliding_window, Some(32));
    assert!(draft.has_room(4, 30, 30));
    draft.cfg.sliding_window = None;
    assert!(!draft.has_room(4, 30, 30));
}

#[test]
fn switches_change_how_a_step_is_encoded_only() {
    let (mut plain, mut with, mut replayed) = (mini(), mini(), mini());
    for t in [3u32, 7, 11, 13] {
        let (mut qa, mut qb, mut qc) = (Vec::new(), Vec::new(), Vec::new());
        run(&mut plain, flags(), steps::step(t, LayerMode::Encode), 1, &mut qa);
        let f = StepFlags { interp: true, ..flags() };
        run(&mut with, f, steps::step(t, LayerMode::Encode), 1, &mut qb);
        run(&mut replayed, flags(), steps::step(t, LayerMode::Replay), 1, &mut qc);
        qb.retain(|o| !matches!(o, Op::InterpFaO | Op::InterpGateDown));
        assert_eq!(qa, qb);
        let at = qc.iter().position(|o| *o == Op::ReplayGraph).unwrap();
        assert_eq!(qa[..at], qc[..at]);
        let tail = &qc[at + 1..];
        assert_eq!(&qa[qa.len() - tail.len()..], tail);
        assert_eq!(plain.kv.shared_global.seq_len, replayed.kv.shared_global.seq_len);
        assert_eq!(plain.kv.sliding_rings[0].head, with.kv.sliding_rings[0].head);
    }
}

#[test]
fn blocks_attend_as_steps_do() {
    let view = |n: usize| {
        let mut s = GpuKvSlot::new(16, 1, 4, false);
        for _ in 0..n {
            s.append(&mut Vec::new()).unwrap();
        }
        s.fa_buffers(n as u32)
    };
    let seen = |v: FaView, q: u32| (v.kv_pos_offset..v.kv_pos_offset + v.rows).filter(|j| *j <= q).collect::<Vec<u32>>();
    for i in 0..4u32 {
        assert_eq!(seen(view(9), 5 + i), seen(view(6 + i as usize), 5 + i));
    }
}

/// What a recording of the small graph's layers leaves: the position, and a row for each
/// cache that a step writes.
fn tape() -> Vec<IcbScalarTapeOp> {
    vec![
        IcbScalarTapeOp::U32Dyn(IcbDynSrc::Pos),
        IcbScalarTapeOp::U32Dyn(IcbDynSrc::Peek(SlotRef::Ring(0))),
        IcbScalarTapeOp::Kv(SlotRef::Ring(0)),
        IcbScalarTapeOp::Kv(SlotRef::SharedSliding),
        IcbScalarTapeOp::F32Const(7),
        IcbScalarTapeOp::Kv(SlotRef::Global(0)),
        IcbScalarTapeOp::U32Const(9),
        IcbScalarTapeOp::Kv(SlotRef::SharedGlobal),
    ]
}

fn recorded() -> Recorded {
    let mut rec = Recorded::nothing(GraphState::unrecorded(true, true, true, true), true);
    assert_eq!(rec.layer_mode(false), LayerMode::Encode);
    assert_eq!(rec.layer_mode(true), LayerMode::Record);
    rec.attached(Attach::Graph, false, Some(tape()), (3, 1));
    assert_eq!(rec.layer_mode(true), LayerMode::Encode);
    rec.state.ready_slot = true;
    rec
}

#[test]
fn replayed_steps_write_their_tape_in_place_of_the_layers() {
    let (mut plain, mut taped) = (mini(), mini());
    let rec = recorded();
    assert!(icb::tape_addresses(&taped.kv, rec.tape.as_ref().unwrap()));
    assert!(!icb::tape_addresses(&taped.kv, &vec![IcbScalarTapeOp::Kv(SlotRef::Ring(1))]));
    for (i, t) in [3u32, 7, 11].into_iter().enumerate() {
        let (mut qa, mut qb) = (Vec::new(), Vec::new());
        run(&mut plain, flags(), steps::step(t, LayerMode::Encode), 1, &mut qa);
        let req = steps::step(t, rec.layer_mode(true));
        assert_eq!(req.mode, LayerMode::Skip);
        taped.step_front(flags(), &caps(3), req, rec.tape.as_ref(), &mut qb).unwrap();
        icb::check_watermark(i, rec.watermark, (3, 1)).unwrap();
        icb::replay_ended(&ReplayOutcome::Done).unwrap();
        let pushed = [
            Op::PushU32 { value: i as u32 },
            Op::PushU32 { value: (i as u32 % 4) * 256 },
            Op::PushF32 { bits: 7 },
            Op::PushU32 { value: 9 },
        ];
        assert_eq!(qb[qb.len() - 4..], pushed);
        assert_eq!(qa[..qb.len() - 4], qb[..qb.len() - 4]);
        let mut back = Vec::new();
        taped.step_back(flags(), req, &mut back).unwrap();
        assert_eq!(qa[qa.len() - back.len()..], back);
        assert_eq!(taped.step_finish(flags(), true, &[], 1, 0, &mut Vec::new()).unwrap(), 1);
        assert_eq!(taped.pos(), plain.pos());
        for (a, b) in [
            (plain.kv.sliding_rings[0], taped.kv.sliding_rings[0]),
            (plain.kv.global_slots[0], taped.kv.global_slots[0]),
            (plain.kv.shared_sliding, taped.kv.shared_sliding),
            (plain.kv.shared_global, taped.kv.shared_global),
        ] {
            assert_eq!((a.seq_len, a.head), (b.seq_len, b.head));
        }
    }
    let e = mini().step_encode(flags(), &caps(3), steps::step(1, LayerMode::Skip), None, &mut Vec::new()).unwrap_err();
    assert_eq!(e.message(), "metal: icb scalar-write tape missing");
    assert_eq!(
        icb::live_noted(Some("busy")).unwrap_err().message(),
        "metal: encode_once note_layer_live_replay: busy"
    );
    assert!(icb::live_noted(None).is_ok());
}

#[test]
fn skipped_layers_leave_the_capture_unfilled() {
    for readback in [true, false] {
        let mut sess = mini();
        sess.enable_hidden_capture(vec![2, 0]).unwrap();
        let c = sess.capture.as_ref().unwrap();
        assert_eq!((c.step_mask.clone(), c.hidden, c.t, c.concat.len()), (vec![false; 2], 256, 0, 0));
        let req = StepRequest { readback, ..steps::step(3, LayerMode::Skip) };
        let t = tape();
        sess.step_encode(flags(), &caps(3), req, Some(&t), &mut Vec::new()).unwrap();
        let e = sess.step_finish(flags(), readback, &[0; 512], 1, 0, &mut Vec::new()).unwrap_err();
        assert_eq!(e.message(), "config: HiddenCapture: missing layer 2 this step");
        assert_eq!(sess.pos(), readback as usize);
        assert_eq!((sess.capture_len(), sess.kv.shared_global.seq_len), (0, 1));
        // Layers that are walked for a replay fill it.
        let mut sess = mini();
        sess.enable_hidden_capture(vec![2, 0]).unwrap();
        let req = StepRequest { readback, ..steps::step(3, LayerMode::Replay) };
        run(&mut sess, flags(), req, 1, &mut Vec::new());
        assert_eq!((sess.capture_len(), sess.pos()), (1, 1));
    }
}

#[test]
fn steps_are_done_in_order() {
    let mut rec = recorded();
    let all = rec.asks(true, true, 3);
    assert_eq!(all, [StepAsk::Front, StepAsk::Cursors, StepAsk::Replay, StepAsk::Back, StepAsk::Finish]);
    rec.skip = false;
    assert_eq!(rec.layer_mode(true), LayerMode::Replay);
    let all = rec.asks(true, true, 2);
    assert_eq!(
        all[..7],
        [
            StepAsk::Open,
            StepAsk::Layer(0),
            StepAsk::Probe(0),
            StepAsk::Capture(0),
            StepAsk::Layer(1),
            StepAsk::Probe(1),
            StepAsk::Capture(1),
        ]
    );
    rec.state.tape_exec = false;
    assert_eq!(rec.asks(true, false, 2)[..2], [StepAsk::NoteLive, StepAsk::Front]);
    let fresh = Recorded::nothing(GraphState::unrecorded(true, true, true, true), true);
    assert_eq!(fresh.asks(true, false, 3), [StepAsk::Front, StepAsk::Attach, StepAsk::Back, StepAsk::Finish]);
    let all = fresh.asks(true, true, 1);
    assert_eq!((all[1], all[5]), (StepAsk::Begin, StepAsk::End));
    assert_eq!(fresh.asks(false, false, 3), [StepAsk::Front, StepAsk::Back, StepAsk::Finish]);
    let kept = Recorded::nothing(GraphState::unrecorded(true, false, true, true), true);
    assert_eq!(kept.asks(true, false, 3)[0], StepAsk::Kept);
    let mut chain = Recorded::nothing(GraphState::unrecorded(true, true, true, true), true);
    chain.attached(Attach::CopyChain, true, None, (0, 0));
    assert_eq!(chain.asks(true, false, 3)[0], StepAsk::Chain);
    assert!(chain.tape.is_none() && chain.watermark.is_none());
}

#[test]
fn probed_steps_ask_for_the_same_commands() {
    let (mut whole, mut probed) = (mini(), mini());
    for s in [&mut whole, &mut probed] {
        s.enable_hidden_capture(vec![0, 1, 2]).unwrap();
    }
    let req = steps::step(5, LayerMode::Encode);
    let (mut qa, mut qb) = (Vec::new(), Vec::new());
    whole.step_encode(flags(), &caps(3), req, None, &mut qa).unwrap();
    probed.step_open(flags(), req, &mut qb).unwrap();
    for li in 0..3 {
        probed.step_layer(flags(), caps(3)[li], li, &mut qb).unwrap();
        probed.step_capture(flags(), li, &mut qb);
    }
    probed.step_back(flags(), req, &mut qb).unwrap();
    assert_eq!(qa, qb);
    assert_eq!(whole.capture.unwrap().step_mask, probed.capture.unwrap().step_mask);
}

#[test]
fn failed_steps_keep_what_their_layers_did() {
    let mut sess = mini();
    sess.enable_hidden_capture(vec![0, 2]).unwrap();
    let f = StepFlags { interp: true, ..flags() };
    for _ in 0..64 {
        run(&mut sess, f, steps::step_prefill(3), 0, &mut Vec::new());
    }
    let (hits, rows) = (sess.gate_down_hits, sess.capture_len());
    let req = steps::step(3, LayerMode::Encode);
    let e = sess.step_encode(f, &caps(3), req, None, &mut Vec::new()).unwrap_err();
    assert_eq!(e.message(), "kv: GPU KV full");
    assert_eq!((sess.pos(), sess.capture_len(), sess.gate_down_hits), (64, rows, hits));
    assert_eq!(sess.capture.as_ref().unwrap().step_mask, [false, false]);
    // The first layer wrote its own ring before the shared cache refused.
    assert_eq!((sess.kv.sliding_rings[0].seq_len, sess.kv.shared_sliding.seq_len), (65, 64));
    assert_eq!(sess.kv.global_slots[0].seq_len, 64);
    let mut sess = mini();
    for _ in 0..62 {
        run(&mut sess, flags(), steps::step_prefill(3), 0, &mut Vec::new());
    }
    let e = sess.step_verify_gemm(flags(), &[1, 2, 3], &mut Vec::new()).unwrap_err();
    assert_eq!(e.message(), "kv: GPU KV full");
    // The block filled the shared cache as far as it had room.
    assert_eq!((sess.kv.sliding_rings[0].seq_len, sess.kv.shared_sliding.seq_len), (65, 64));
    assert_eq!((sess.kv.global_slots[0].seq_len, sess.pos()), (62, 62));
    let e = sess.step_encode(flags(), &caps(3), steps::step(9999, LayerMode::Encode), None, &mut Vec::new());
    assert_eq!(e.unwrap_err().message(), "config: token 9999 OOV");
    assert_eq!((sess.kv.sliding_rings[0].seq_len, sess.pos()), (65, 62));
}

#[test]
fn timed_out_steps_count() {
    let f = StepFlags { interp: true, ..flags() };
    for readback in [true, false] {
        let mut sess = mini();
        sess.enable_hidden_capture(vec![1]).unwrap();
        let req = StepRequest { readback, ..steps::step(3, LayerMode::Encode) };
        sess.step_encode(f, &caps(3), req, None, &mut Vec::new()).unwrap();
        let e = sess.step_finish(f, readback, &[5; 256], 1, 4, &mut Vec::new()).unwrap_err();
        assert!(e.message().contains("barrier spin timeout"));
        assert_eq!((sess.pos(), sess.last_fail), (1, 4));
        assert_eq!(sess.capture_len(), !readback as usize);
    }
}

#[test]
fn prompts_are_read_token_by_token() {
    let mut p = PromptReading::start(vec![5, 6, 7]).unwrap();
    let mut seen = Vec::new();
    loop {
        match p.action() {
            PromptAction::Prefill(t) => seen.push((t, false)),
            PromptAction::Last(t) => seen.push((t, true)),
            PromptAction::Done => break,
        }
        p.ran();
    }
    assert_eq!(seen, [(5, false), (6, false), (7, true)]);
    assert_eq!(PromptReading::start(vec![]).unwrap_err().message(), "config: empty prompt");
    let setup = DFlashSetup { bs: 2, mini: false, hazard: false };
    assert_eq!(DraftedGeneration::start(setup, vec![], 4).unwrap_err().message(), "config: empty prompt");
}

#[test]
fn rolled_back_rings_are_read_as_if_nothing_was_rejected() {
    // Whose row stands at each place of a ring, after writes in the order given.
    let held = |capacity: usize, log: &[usize]| {
        let mut out = vec![usize::MAX; capacity];
        for p in log {
            out[p % capacity] = *p;
        }
        out
    };
    let (window, rows, keep, p) = (4usize, 3usize, 1usize, 9usize);
    for (capacity, alike) in [(window + rows - 1, true), (window, false)] {
        let q = p + keep;
        let mut log: Vec<usize> = (0..p + rows).collect();
        log.extend(p + keep..q + 1);
        let rolled = held(capacity, &log);
        let plain = held(capacity, &(0..q + 1).collect::<Vec<usize>>());
        let read = q + 1 - window..q + 1;
        assert_eq!(read.clone().all(|j| rolled[j % capacity] == j), alike);
        assert!(read.clone().all(|j| plain[j % capacity] == j));
        let mut s = GpuKvSlot::new(capacity, 1, 4, true);
        for _ in 0..p + rows {
            s.append(&mut Vec::new()).unwrap();
        }
        s.trim(rows - keep).unwrap();
        s.append(&mut Vec::new()).unwrap();
        let v = s.fa_buffers(q as u32 + 1);
        assert!(v.kv_pos_offset as usize <= q + 1 - window && v.kv_pos_offset + v.rows == q as u32 + 1);
    }
}
