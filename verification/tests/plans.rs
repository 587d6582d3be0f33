//! Caches, layouts, captures, the reference forward, checkpoints, recorded graphs and
//! dispatches.

use gemma_metal::capture::HiddenCapture;
use gemma_metal::conditioner::DFlashGpuConditioner;
use gemma_metal::config::{EosIds, Gemma4TextConfig, LayerType};
use gemma_metal::dflash;
use gemma_metal::dispatch;
use gemma_metal::dispatch::{Bind, Binder, Cmd, Pipeline};
use gemma_metal::error::Error;
use gemma_metal::floats;
use gemma_metal::forward;
use gemma_metal::forward::{ForwardDumps, HostDecode, HostRead, SyntheticE4bGraph};
use gemma_metal::host_draft;
use gemma_metal::host_draft::HostDFlashDraft;
use gemma_metal::icb;
use gemma_metal::icb::{Attach, GraphMode, GraphState, IcbDynSrc, IcbScalarTapeOp, Ledger, Push, ReplayOutcome};
use gemma_metal::kv::{KvLayout, KvRole, KvSlotId, SharedKvId};
use gemma_metal::kv_slot::{FaView, GpuKvSlot};
use gemma_metal::model::GpuSynthModel;
use gemma_metal::ops::{Bank, NormW, SlotRef};
use gemma_metal::session::GpuDecodeSession;
use gemma_metal::tensor;
use gemma_metal::tensor::{BufferKind, DType, GpuBuffer, Tensor};
use gemma_metal::weights::{BankEntry, HostWeightBanks, MatShape};

#[test]
fn rings_wrap_and_trim() {
    let mut s = GpuKvSlot::new(4, 2, 8, true);
    assert_eq!(s.slot_elems(), 16);
    assert_eq!(s.buffer_bytes(), 4 * 16 * 4);
    let mut q = Vec::new();
    for _ in 0..6 {
        s.append(&mut q).unwrap();
    }
    assert_eq!((s.seq_len, s.head), (6, 2));
    let rows: Vec<u32> = q.iter().map(|k| k.dst_off / 16).collect();
    assert_eq!(rows, vec![0, 1, 2, 3, 0, 1]);
    assert_eq!(
        s.fa_buffers(100),
        FaView { densify: true, slot_elems: 16, capacity: 4, start: 2, kv_pos_offset: 2, rows: 4 }
    );
    assert_eq!(s.fa_buffers(3).rows, 3);
    s.trim(2).unwrap();
    assert_eq!((s.seq_len, s.head), (4, 0));
    assert!(s.trim(5).is_err());
    s.reset();
    assert_eq!((s.seq_len, s.head), (0, 0));
}

#[test]
fn linear_caches_fill_up() {
    let mut s = GpuKvSlot::new(2, 1, 4, false);
    let mut q = Vec::new();
    s.append_m(2, &mut q).unwrap();
    assert_eq!(s.seq_len, 2);
    assert!(s.peek_write_offset().is_err());
    let e = s.append(&mut q).unwrap_err();
    assert!(matches!(e, Error::Kv(_)));
    s.trim(1).unwrap();
    assert_eq!(s.peek_write_offset().unwrap(), 4);
    s.commit_append().unwrap();
    assert_eq!(s.seq_len, 2);
    assert!(!s.fa_buffers(2).densify);
}

#[test]
fn layouts_share_what_comes_last() {
    let cfg = Gemma4TextConfig::e4b_preset();
    let l = KvLayout::from_config(&cfg, 128).unwrap();
    assert_eq!(l.layers.len(), 42);
    assert_eq!(l.first_kv_shared, 24);
    assert_eq!((l.sliding_ring_slots, l.global_full_slots), (20, 4));
    assert_eq!(l.layers[0].role, KvRole::Producer { slot: KvSlotId::SlidingRing { producer_index: 0 } });
    assert_eq!(l.layers[5].role, KvRole::Producer { slot: KvSlotId::GlobalFull { producer_index: 0 } });
    assert_eq!(l.layers[24].role, KvRole::Consumer { shared: SharedKvId::SlidingFull });
    assert_eq!(l.layers[29].role, KvRole::Consumer { shared: SharedKvId::GlobalFull });
    let feeders: Vec<usize> = (0..42).filter(|&i| l.updates_shared(i)).collect();
    assert_eq!(feeders, vec![22, 23]);
    assert!(l.layer(42).is_err());
    let b31 = KvLayout::from_config(&Gemma4TextConfig::b31_preset(), 128).unwrap();
    assert_eq!(b31.first_kv_shared, 60);
}

#[test]
fn captures_are_complete_or_refused() {
    assert_eq!(HiddenCapture::new(vec![], 4).unwrap_err().message(), "config: HiddenCapture: empty layer_ids");
    assert_eq!(HiddenCapture::new(vec![1], 0).unwrap_err().message(), "config: HiddenCapture: hidden=0");
    let mut c = HiddenCapture::new(vec![0, 2], 2).unwrap();
    assert_eq!(c.row_stride(), 4);
    c.begin_step();
    assert_eq!(c.mark_layer(1), None);
    assert_eq!(c.mark_layer(0), Some(0));
    assert!(c.finish_step_from_row(&[1, 2, 3, 4]).is_err());
    c.begin_step();
    assert_eq!(c.mark_layer(0), Some(0));
    assert_eq!(c.mark_layer(2), Some(1));
    c.finish_step_from_row(&[1, 2, 3, 4]).unwrap();
    assert_eq!((c.t, c.concat.clone()), (1, vec![1, 2, 3, 4]));
    c.finish_step_complete(&[5, 6, 7, 8]).unwrap();
    assert_eq!(c.t, 2);
    c.trim_recent(1).unwrap();
    assert_eq!((c.t, c.concat.clone()), (1, vec![1, 2, 3, 4]));
    assert!(c.trim_recent(2).is_err());
    c.clear();
    assert_eq!(c.t, 0);
}

#[test]
fn project_context_shapes() {
    let (h, n_cap, t) = (8usize, 3usize, 2usize);
    let c = n_cap * h;
    assert_eq!(dflash::project_context(t * c, t, c, h * c, h).unwrap(), t * h);
    assert_eq!(dflash::project_context(9, 0, c, 0, h).unwrap(), 0);
    let e = dflash::project_context(5, t, c, h * c, h).unwrap_err();
    assert_eq!(e.message(), "config: project_context: concat len 5 != T=2×concat_dim=24");
    let e = dflash::project_context(t * c, t, c, 1, h).unwrap_err();
    assert_eq!(e.message(), "config: project_context: fc_w len 1 != H×C = 192");
}

#[test]
fn host_draft_d128_forward_smoke() {
    let mut draft = HostDFlashDraft::synthetic_mini().unwrap().draft;
    let (h, vocab) = (draft.cfg.hidden_size, draft.cfg.vocab_size);
    let e = draft.propose_block(&[3, 4, 4], 0, 0).unwrap_err();
    assert_eq!(e.message(), "config: dflash: embed not bound");
    draft.bind_embed_lm_head(vocab * h, vocab * h, vocab, h, 1.0f32.to_bits()).unwrap();
    let ctx_t = 3usize;
    let h_ctx = draft.h_ctx_from_capture(ctx_t * draft.cfg.concat_dim(), ctx_t).unwrap();
    let mask = draft.cfg.mask_token_id;
    let pass = draft.propose_block(&[3, mask, mask], h_ctx, ctx_t).unwrap();
    assert_eq!(pass.rows, vec![3 * h, 4 * h, 4 * h]);
    assert_eq!(pass.logits_from, 1);
    for l in &pass.layers {
        assert_eq!((l.ctx_t, l.ctx_skip, l.ctx_pos, l.q_pos, l.tkv, l.kv_pos), (3, 0, 0, 3, 6, 0));
    }
    let logits: Vec<u32> = (0..2 * vocab).map(|i| ((i * 7 % 501) as f32).to_bits()).collect();
    let toks = host_draft::greedy_rows(&logits, vocab, 2);
    assert_eq!(toks.len(), 2);
    assert!(toks.iter().all(|&t| (t as usize) < vocab));
    assert_eq!(toks[0] as usize, floats::argmax(&logits[..vocab]));
    let e = draft.propose_block(&[9999, 4], 0, 0).unwrap_err();
    assert_eq!(e.message(), "config: dflash embed OOV 9999");
    let e = draft.propose_block(&[3, 4], 1, 1).unwrap_err();
    assert_eq!(e.message(), "config: dflash forward: h_ctx len 1 != ctx_t×H=256");
    draft.trim_cache(2);
    assert_eq!((draft.caches[0].len, draft.caches[0].offset), (1, 1));
    draft.reset_cache();
    assert_eq!((draft.caches[1].len, draft.caches[1].offset), (0, 0));
}

#[test]
fn random_drafts_are_reproducible() {
    let a = HostDFlashDraft::synthetic_mini().unwrap();
    let b = HostDFlashDraft::synthetic_mini_accepting().unwrap();
    assert_eq!(a.weights.len(), 15);
    assert_eq!((a.draft.fc_len, a.draft.norm_len), (256 * 768, 256));
    let draw = |s: &mut u32| {
        *s = s.wrapping_mul(1664525).wrapping_add(1013904223);
        *s >> 8
    };
    let mut s = 7u32;
    for w in &a.weights {
        for &x in w {
            assert_eq!(x, draw(&mut s));
        }
    }
    let mut s = 11u32;
    assert_eq!(b.weights[0][0], draw(&mut s));
    assert_eq!(a.weights[0].len(), 4 * 128 * 256);
    assert_eq!(a.weights[14].len(), 256 * 768);
    let cond = DFlashGpuConditioner::from_draft(&a.draft, 0).unwrap();
    assert_eq!((cond.max_ctx, cond.hidden(), cond.h_ctx_len()), (1, 256, 0));
}

#[test]
fn host_forward_smoke() {
    let model = SyntheticE4bGraph::mini_parity().unwrap();
    assert_eq!(model.kv.first_kv_shared, 2);
    assert!(matches!(model.layers[2].role, KvRole::Consumer { shared: SharedKvId::SlidingFull }));
    let reads = forward::host_forward_prefill(&model.kv, 512, 4).unwrap();
    assert_eq!(reads.len(), 3);
    for layer in &reads {
        let all: Vec<HostRead> = (0..4).map(|t| HostRead { kv_off: 0, tkv: t + 1 }).collect();
        assert_eq!(layer, &all);
    }
    let short = forward::host_forward_prefill(&model.kv, 2, 4).unwrap();
    assert_eq!(short[0][3], HostRead { kv_off: 2, tkv: 2 });
    assert_eq!(short[1][3], HostRead { kv_off: 0, tkv: 4 });
    assert_eq!(short[2][3], HostRead { kv_off: 0, tkv: 4 });
    assert_eq!(forward::host_forward_prefill(&model.kv, 2, 0).unwrap_err().message(), "config: empty tokens");
    let longer = forward::host_forward_prefill(&model.kv, 512, 9).unwrap();
    for (a, b) in reads.iter().zip(&longer) {
        assert_eq!(a[..], b[..4]);
    }
    assert_eq!(forward::host_forward_prefill(&model.kv, 2, 64).unwrap()[1].len(), 64);
    assert!(matches!(forward::host_forward_prefill(&model.kv, 2, 65).unwrap_err(), Error::Kv(_)));
    let names = forward::forward_dump_names(&[true, true, true]);
    for n in ["embed", "logits", "layer2.attn_out"] {
        assert!(names.iter().any(|m| m == n), "{n}");
    }
}

#[test]
fn host_forward_self_parity() {
    let mut a = ForwardDumps::new();
    a.push("embed".to_string(), vec![2, 2], vec![0; 4]);
    a.push("logits".to_string(), vec![4], vec![0; 4]);
    let same = [true, true];
    assert_eq!(forward::compare_forward_dumps(&a, &a, &same).unwrap(), None);
    assert_eq!(forward::compare_forward_dumps(&a, &a, &[true, false]).unwrap(), Some(1));
    assert_eq!(a.get("logits").unwrap().shape, vec![4]);
    assert!(a.get("none").is_none());
    let e = forward::compare_forward_dumps(&ForwardDumps::new(), &a, &same).unwrap_err();
    assert_eq!(e.message(), "config: missing dump 'embed'");
}

#[test]
fn greedy_decode_extends() {
    let mut d = HostDecode::start(vec![3, 4], 2);
    let eos = None;
    while d.wants_token() {
        let n = d.out.len() as u32;
        d.token(n, &eos);
    }
    assert_eq!(d.out.len(), 4);
    let mut d = HostDecode::start(vec![3, 4], 9);
    let eos = Some(EosIds::One(1));
    while d.wants_token() {
        d.token(1, &eos);
    }
    assert_eq!(d.out, vec![3, 4, 1]);
}

#[test]
fn gpu_fa_ring_consumer_path() {
    let mut ring = GpuKvSlot::new(4, 1, 256, true);
    let mut shared = GpuKvSlot::new(16, 1, 256, false);
    let mut q = Vec::new();
    for _ in 0..3 {
        ring.append(&mut q).unwrap();
        shared.append(&mut q).unwrap();
    }
    let (r, s) = (ring.fa_buffers(3), shared.fa_buffers(3));
    assert_eq!(r.rows, s.rows);
    assert_eq!(r.kv_pos_offset, s.kv_pos_offset);
    assert_eq!(forward::fa_parity_bytes(true, 1, 3, 1, 1, 256).unwrap(), (1024, 3072));
    assert_eq!(
        forward::fa_parity_bytes(true, 1, 3, 1, 1, 512).unwrap_err().message(),
        "metal: SWA FA requires d=256"
    );
    assert_eq!(
        forward::fa_parity_bytes(false, 1, 3, 1, 1, 256).unwrap_err().message(),
        "metal: global FA requires d=512"
    );
}

#[test]
fn keys_are_visible_within_the_window() {
    for q in 0..12usize {
        for off in 0..4usize {
            for tkv in 0..8usize {
                for w in [None, Some(1usize), Some(3), Some(100)] {
                    let (a, b) = forward::visible_keys(q, off, tkv, w);
                    for k in 0..tkv {
                        let abs = off + k;
                        let seen = abs <= q && w.map(|w| abs + w > q).unwrap_or(true);
                        assert_eq!(a <= k && k < b, seen);
                    }
                }
            }
        }
    }
    assert_eq!(forward::kv_head(5, 8, 2), 1);
    assert_eq!(forward::head_offset(2, 4, 3, 8), 88);
    assert_eq!(forward::table_row(3, 4, 8), Some(24));
    assert_eq!(forward::table_row(4, 4, 8), None);
}

#[test]
fn synthetic_weights_are_drawn_in_order() {
    let g = SyntheticE4bGraph::mini_parity().unwrap();
    let mut state = 1u64;
    for &x in &g.embed[..64] {
        state = state.wrapping_mul(6364136223846793005).wrapping_add(1);
        assert_eq!(x, (state >> 33) as u32);
    }
    for _ in 64..g.embed.len() {
        state = state.wrapping_mul(6364136223846793005).wrapping_add(1);
    }
    state = state.wrapping_mul(6364136223846793005).wrapping_add(1);
    assert_eq!(g.layers[0].ple_table[0], (state >> 33) as u32);
    assert_eq!(g.layers.len(), 3);
    assert_eq!((g.layers[0].head_dim, g.layers[1].head_dim, g.layers[2].head_dim), (256, 512, 256));
    assert_eq!((g.layers[0].rotary_dim, g.layers[1].rotary_dim), (256, 128));
    assert_eq!(f32::from_bits(g.layers[1].theta_bits), 1e6);
    assert_eq!(f32::from_bits(g.layers[0].theta_bits), 1e4);
    let (m, shapes) = GpuSynthModel::from_synthetic(g, 16.0f32.to_bits());
    assert!(m.is_synthetic_mini() && m.decode_icb_graph_eligible() && !m.is_hot_e4b());
    assert_eq!(shapes[1].q_proj, MatShape { rows: 512, cols: 256 });
    assert_eq!(shapes[0].down_proj, MatShape { rows: 256, cols: 512 });
}

fn bank(cfg: Gemma4TextConfig, skip: &[&str]) -> HostWeightBanks {
    let mut entries = Vec::new();
    let mut add = |name: String, rows: usize, cols: usize| {
        if !skip.contains(&name.as_str()) {
            entries.push(BankEntry {
                name,
                shape: MatShape { rows, cols },
                fault: None,
                first_bits: Some(0.5f32.to_bits()),
            });
        }
    };
    add("embed_tokens.weight".to_string(), cfg.vocab_size, cfg.hidden_size);
    add("norm.weight".to_string(), 1, cfg.hidden_size);
    for li in 0..cfg.num_hidden_layers {
        for w in [
            "self_attn.q_proj.weight",
            "self_attn.k_proj.weight",
            "self_attn.v_proj.weight",
            "self_attn.o_proj.weight",
            "self_attn.q_norm.weight",
            "self_attn.k_norm.weight",
            "mlp.gate_proj.weight",
            "mlp.up_proj.weight",
            "mlp.down_proj.weight",
            "input_layernorm.weight",
            "post_attention_layernorm.weight",
            "pre_feedforward_layernorm.weight",
            "post_feedforward_layernorm.weight",
            "layer_scalar",
        ] {
            add(format!("layers.{li}.{w}"), 1, 1);
        }
    }
    let kv_layout = KvLayout::from_config(&cfg, 64).unwrap();
    HostWeightBanks { config: cfg, kv_layout, entries, ple: None }
}

#[test]
fn checkpoints_become_models() {
    let hot = GpuSynthModel::from_host_banks(bank(Gemma4TextConfig::e4b_preset(), &[]), 0).unwrap();
    assert!(hot.tied);
    assert_eq!(hot.model.layers.len(), 42);
    assert_eq!(hot.model.layers[5].layer_type, LayerType::FullAttention);
    assert_eq!((hot.model.layers[5].rotary_dim, hot.model.layers[0].rotary_dim), (128, 256));
    assert_eq!(hot.model.layers[0].layer_scalar_bits, 0.5f32.to_bits());
    assert!(hot.model.layers[0].has_k_proj && !hot.model.layers[30].has_k_proj);
    assert!(!hot.sources[0].v_from_k && !hot.sources[0].k_norm_ones);
    let skip = ["layers.5.self_attn.v_proj.weight", "layers.0.self_attn.k_norm.weight", "layers.1.layer_scalar"];
    let hot = GpuSynthModel::from_host_banks(bank(Gemma4TextConfig::b31_preset(), &skip), 0).unwrap();
    assert!(hot.sources[5].v_from_k && hot.sources[0].k_norm_ones);
    assert_eq!(hot.model.layers[1].layer_scalar_bits, 1.0f32.to_bits());
}

#[test]
fn banks_are_filled_from_named_weights() {
    let hot = GpuSynthModel::from_host_banks(bank(Gemma4TextConfig::e4b_preset(), &[]), 0).unwrap();
    let name = |b: Bank| hot.bank_name(b);
    assert_eq!(name(Bank::Gate(3)).unwrap(), "layers.3.mlp.gate_proj.weight");
    assert_eq!(name(Bank::Up(3)).unwrap(), "layers.3.mlp.up_proj.weight");
    assert_eq!(name(Bank::Down(41)).unwrap(), "layers.41.mlp.down_proj.weight");
    assert_eq!(name(Bank::Q(0)).unwrap(), "layers.0.self_attn.q_proj.weight");
    assert_eq!(name(Bank::K(0)).unwrap(), "layers.0.self_attn.k_proj.weight");
    assert_eq!(name(Bank::V(0)).unwrap(), "layers.0.self_attn.v_proj.weight");
    assert_eq!(name(Bank::O(0)).unwrap(), "layers.0.self_attn.o_proj.weight");
    assert_eq!((name(Bank::K(30)), name(Bank::V(30))), (None, None));
    assert_eq!(name(Bank::LmHead).unwrap(), "embed_tokens.weight");
    assert_eq!(hot.norm_name(NormW::Input(2)).unwrap(), "layers.2.input_layernorm.weight");
    assert_eq!(hot.norm_name(NormW::PostAttn(2)).unwrap(), "layers.2.post_attention_layernorm.weight");
    assert_eq!(hot.norm_name(NormW::PreFf(2)).unwrap(), "layers.2.pre_feedforward_layernorm.weight");
    assert_eq!(hot.norm_name(NormW::PostFf(2)).unwrap(), "layers.2.post_feedforward_layernorm.weight");
    assert_eq!(hot.norm_name(NormW::Final).unwrap(), "norm.weight");
    assert_eq!(hot.head_norm_name(1, false).unwrap(), "layers.1.self_attn.q_norm.weight");
    assert_eq!(hot.head_norm_name(1, true).unwrap(), "layers.1.self_attn.k_norm.weight");
    let skip = [
        "layers.5.self_attn.v_proj.weight",
        "layers.0.self_attn.k_norm.weight",
        "layers.2.post_attention_layernorm.weight",
        "layers.3.post_feedforward_layernorm.weight",
    ];
    let hot = GpuSynthModel::from_host_banks(bank(Gemma4TextConfig::b31_preset(), &skip), 0).unwrap();
    assert_eq!(hot.bank_name(Bank::V(5)).unwrap(), "layers.5.self_attn.k_proj.weight");
    assert_eq!(hot.head_norm_name(0, true), None);
    assert_eq!(hot.norm_name(NormW::PostAttn(2)).unwrap(), "layers.2.pre_feedforward_layernorm.weight");
    assert_eq!((hot.norm_name(NormW::PreFf(2)), hot.norm_name(NormW::PostFf(3))), (None, None));
}

#[test]
fn the_small_graph_is_the_same_each_time() {
    let (a, b) = (SyntheticE4bGraph::mini_parity().unwrap(), SyntheticE4bGraph::mini_parity().unwrap());
    assert_eq!(a.embed, b.embed);
    assert_eq!(a.cfg.layer_types, b.cfg.layer_types);
    assert_eq!((a.cfg.max_position_embeddings, a.cfg.tie_word_embeddings), (131072, true));
    assert_eq!((a.cfg.bos_token_id, a.cfg.pad_token_id), (Some(2), Some(0)));
    assert_eq!(a.cfg.hidden_activation, "gelu_pytorch_tanh");
    assert!(!a.cfg.attention_bias && !a.cfg.attention_k_eq_v);
    for (x, y) in a.layers.iter().zip(&b.layers) {
        assert_eq!((&x.q_proj, &x.down_proj, x.window), (&y.q_proj, &y.down_proj, y.window));
    }
}

#[test]
fn incomplete_checkpoints_are_refused() {
    let fails = |skip: &[&str]| {
        GpuSynthModel::from_host_banks(bank(Gemma4TextConfig::e4b_preset(), skip), 0).unwrap_err().message()
    };
    assert_eq!(fails(&["embed_tokens.weight"]), "weights: missing weight 'embed_tokens.weight'");
    assert_eq!(
        fails(&["layers.3.mlp.up_proj.weight"]),
        "weights: missing weight 'layers.3.mlp.up_proj.weight'"
    );
    assert_eq!(
        fails(&["layers.0.self_attn.v_proj.weight"]),
        "weights: missing weight 'layers.0.self_attn.v_proj.weight'"
    );
    assert_eq!(
        fails(&["layers.2.post_attention_layernorm.weight", "layers.2.pre_feedforward_layernorm.weight"]),
        "weights: missing both post_attention and pre_feedforward norms for layers.2"
    );
    let mut b = bank(Gemma4TextConfig::e4b_preset(), &[]);
    b.entries[0].shape.rows = 7;
    assert_eq!(
        GpuSynthModel::from_host_banks(b, 0).unwrap_err().message(),
        "weights: embed_tokens shape [7,2560] != vocab×hidden [262144,2560]"
    );
    let mut b = bank(Gemma4TextConfig::e4b_preset(), &[]);
    b.ple = Some(0);
    assert_eq!(GpuSynthModel::from_host_banks(b, 0).unwrap_err().message(), "ple: empty PleBanks");
    let mut b = bank(Gemma4TextConfig::e4b_preset(), &[]);
    b.entries[1].fault = Some(Error::Weights("bad norm".to_string()));
    assert_eq!(GpuSynthModel::from_host_banks(b, 0).unwrap_err().message(), "weights: bad norm");
}

fn state(wired: bool, layer_graph: bool, ready: bool) -> GraphState {
    GraphState {
        encode_once: true,
        decode_icb: true,
        eligible: true,
        wired,
        layer_graph,
        ready_slot: ready,
        tape_exec: true,
    }
}

#[test]
fn recorded_graphs_are_replayed() {
    assert_eq!(state(false, false, false).mode(true), GraphMode::Capture);
    assert_eq!(state(false, false, false).mode(false), GraphMode::Live);
    assert_eq!(state(true, false, true).mode(true), GraphMode::ChainFirst);
    assert_eq!(state(true, true, true).mode(true), GraphMode::Replay);
    assert_eq!(GraphState { tape_exec: false, ..state(true, true, true) }.mode(true), GraphMode::LiveReplay);
    assert_eq!(GraphState { decode_icb: false, ..state(true, true, true) }.mode(true), GraphMode::KeptFirst);
    assert_eq!(GraphState { encode_once: false, ..state(true, true, true) }.mode(true), GraphMode::Live);
    assert!(icb::wants_icb_pipelines(Some("icb"), None, false) && !icb::wants_icb_pipelines(Some("2"), None, false));
    assert!(icb::tape_executes(None, Some("1")) && !icb::tape_executes(None, Some("live")));
    assert!(icb::skips_layers(GraphMode::Replay, true, Some(3)) && !icb::skips_layers(GraphMode::Replay, true, Some(0)));
    assert_eq!(icb::attach_after(Some(8), 8, true, false), Attach::Graph);
    assert_eq!(icb::attach_after(Some(7), 8, true, true), Attach::CopyChain);
    assert_eq!(icb::attach_after(Some(7), 8, true, false), Attach::Nothing);
    assert_eq!(state(true, false, true).status_line(), "encode_once wired=true layer_graph=false ready=true");
    assert_eq!(icb::ledger_of(true, GraphMode::Replay), Ledger::Replayed);
    assert_eq!(icb::ledger_of(true, GraphMode::Capture), Ledger::Encoded);
    assert_eq!(icb::ledger_of(true, GraphMode::LiveReplay), Ledger::Nothing);
    icb::chain_ended(&ReplayOutcome::NotReady).unwrap();
    icb::kept_ended(&ReplayOutcome::NotWired).unwrap();
    assert_eq!(
        icb::kept_ended(&ReplayOutcome::Failed("x".to_string())).unwrap_err().message(),
        "metal: encode_once try_replay: x"
    );
    assert_eq!(
        icb::replay_ended(&ReplayOutcome::NotReady).unwrap_err().message(),
        "metal: encode_once: layer-graph replay expected Ready slot"
    );
    icb::check_watermark(3, Some((1, 2)), (1, 2)).unwrap();
    assert_eq!(
        icb::check_watermark(3, Some((1, 2)), (1, 4)).unwrap_err().message(),
        "metal: encode_once: ICB scalar-cursor mismatch at pos=3: capture=(u32 1, f32 2) replay=(u32 1, f32 4) — step graph shape diverged from captured tape"
    );
}

#[test]
fn tapes_write_scalars_and_count_rows() {
    let host = SyntheticE4bGraph::mini_parity().unwrap();
    let (m, _) = GpuSynthModel::from_synthetic(host, 16.0f32.to_bits());
    let mut sess = GpuDecodeSession::new(m, &mut Vec::new());
    let ring = SlotRef::Ring(0);
    let tape = vec![
        IcbScalarTapeOp::U32Const(9),
        IcbScalarTapeOp::F32Const(7),
        IcbScalarTapeOp::U32Dyn(IcbDynSrc::Pos),
        IcbScalarTapeOp::U32Dyn(IcbDynSrc::Peek(ring)),
        IcbScalarTapeOp::Kv(ring),
        IcbScalarTapeOp::U32Dyn(IcbDynSrc::Peek(ring)),
        IcbScalarTapeOp::U32Dyn(IcbDynSrc::Filled(ring)),
    ];
    let mut out = Vec::new();
    icb::apply_icb_scalar_write_tape(&mut sess.kv, Some(&tape), 5, &mut out).unwrap();
    assert_eq!(
        out,
        vec![Push::U32(9), Push::F32(7), Push::U32(5), Push::U32(0), Push::U32(256), Push::U32(1)]
    );
    assert_eq!(sess.kv.sliding_rings[0].seq_len, 1);
    assert!(icb::apply_icb_scalar_write_tape(&mut sess.kv, None, 5, &mut out).is_err());
}

fn binder(capturing: bool) -> Binder {
    Binder::new(1, 0x1000, vec![0; 256], 0, false, capturing)
}

#[test]
fn binder_path_copy_via_dispatch_1d() {
    let n = 32usize;
    let mut src = GpuBuffer { kind: BufferKind::Cold, addr: 0xA000, bytes: vec![0; n * 4] };
    let mut dst = GpuBuffer { kind: BufferKind::Cold, addr: 0xB000, bytes: vec![0; n * 4] };
    let data: Vec<u32> = (0..n).map(|i| ((i as f32) * 2.0).to_bits()).collect();
    src.write_f32(&data);
    let mut bnd = binder(false);
    let mut q = Vec::new();
    let binds = [
        Bind::Buffer { addr: src.addr, offset: 0, index: 0 },
        Bind::Buffer { addr: dst.addr, offset: 0, index: 1 },
        Bind::U32 { value: n as u32, index: 2 },
    ];
    dispatch::dispatch_1d(&mut bnd, Pipeline { id: 5, width: 24 }, n, &binds, &mut q);
    assert_eq!(
        q,
        vec![
            Cmd::SetPipeline(5),
            Cmd::SetAddress { addr: 0xA000, index: 0 },
            Cmd::SetAddress { addr: 0xB000, index: 1 },
            Cmd::SetAddress { addr: 0x1000, index: 2 },
            Cmd::SetArgumentTable(1),
            Cmd::Dispatch { groups: (2, 1, 1), threads: (24, 1, 1) },
            Cmd::Barrier,
        ]
    );
    assert_eq!(bnd.arena[..4], [32, 0, 0, 0]);
    dst.write_bytes(&src.bytes);
    let out = dst.read_f32();
    for i in 0..n {
        assert_eq!(f32::from_bits(out[i]), (i as f32) * 2.0);
    }
    let before = q.len();
    dispatch::dispatch_1d(&mut bnd, Pipeline { id: 5, width: 24 }, 0, &binds, &mut q);
    dispatch::dispatch_2d_tg(&mut bnd, Pipeline { id: 5, width: 24 }, 2, 0, 8, &binds, &mut q);
    assert_eq!(q.len(), before);
}

#[test]
fn constants_lie_side_by_side() {
    let mut bnd = binder(true);
    let mut q = Vec::new();
    assert_eq!(bnd.bind_bytes(&[1, 2, 3], 0, &mut q), 0x1000);
    dispatch::set_u32(&mut bnd, 0x0403_0201, 1, &mut q);
    dispatch::set_f32(&mut bnd, 1.0f32.to_bits(), 2, &mut q);
    assert_eq!(bnd.cursor, 36);
    assert_eq!(bnd.arena[..3], [1, 2, 3]);
    assert_eq!(bnd.arena[16..20], [1, 2, 3, 4]);
    assert_eq!(bnd.arena[32..36], [0, 0, 0x80, 0x3f]);
    assert_eq!(q[1], Cmd::NoteImmediate { index: 0, at: 0, len: 3 });
    assert_eq!(q[2], Cmd::SetAddress { addr: 0x1010, index: 1 });
    let mut q = Vec::new();
    let t = Tensor { shape: vec![4], dtype: DType::F32, buffer_addr: 0x9000, byte_offset: 64, nbytes: 128 };
    dispatch::set_tensor(&mut bnd, &t, 3, &mut q);
    assert_eq!(q[0], Cmd::SetAddress { addr: 0x9040, index: 3 });
    assert_eq!(q[1], Cmd::NoteBind { index: 3, addr: 0x9000, offset: 64 });
    let mut q = Vec::new();
    tensor::gpu_copy(&mut bnd, Pipeline { id: 2, width: 64 }, &t, &t, &mut q);
    assert!(q.contains(&Cmd::Dispatch { groups: (1, 1, 1), threads: (4, 1, 1) }));
    assert!(q.contains(&Cmd::NoteBarrier));
    assert_eq!(bnd.arena[48..52], [4, 0, 0, 0]);
    let binds = dispatch::softcap_f32(&t, &t.deep_copy(0x8000), 30.0f32.to_bits());
    assert_eq!(binds[1], Bind::Buffer { addr: 0x8000, offset: 0, index: 1 });
    assert_eq!(binds[2], Bind::F32 { bits: 30.0f32.to_bits(), index: 2 });
    assert_eq!(binds[3], Bind::U32 { value: 4, index: 3 });
}

#[test]
fn tables_are_latched_once() {
    let mut bnd = binder(false);
    let mut q = Vec::new();
    bnd.latch_argument_table(&mut q);
    bnd.latch_argument_table(&mut q);
    assert_eq!(q, vec![Cmd::SetArgumentTable(1)]);
    assert!(bnd.adopt_argument_table(2, &mut q));
    assert!(!bnd.adopt_argument_table(2, &mut q));
    let mut q = Vec::new();
    bnd.execute_icb(3, 4, &mut q);
    assert_eq!(q, vec![Cmd::ExecuteIndirect { start: 3, count: 4 }, Cmd::Barrier]);
    let mut bnd = Binder { hazard: true, ..binder(false) };
    let mut q = Vec::new();
    bnd.execute_icb_ex(0, 1, false, &mut q);
    assert_eq!(q, vec![Cmd::ExecuteIndirect { start: 0, count: 1 }]);
    assert_eq!(dispatch::grid_1d(100, 32), Some((4, 32)));
    assert_eq!(dispatch::grid_1d(96, 32), Some((3, 32)));
    assert_eq!(dispatch::grid_1d(5, 0), Some((5, 1)));
}

#[test]
fn unset_settings_are_filled() {
    let mut c = Gemma4TextConfig::e4b_preset();
    c.final_logit_softcapping_bits = None;
    c.sliding_window = None;
    c.rope_parameters = None;
    c.eos_token_id = None;
    c.validate().unwrap();
    assert_eq!(c.final_logit_softcapping_bits, Some(30.0f32.to_bits()));
    assert_eq!(c.sliding_window, Some(512));
    assert_eq!(c.num_global_key_value_heads, Some(2));
    assert_eq!(c.global_kv_heads(), 2);
    let r = c.rope_parameters.as_ref().unwrap();
    assert_eq!(r.sliding_attention.rope_theta_bits, 10_000.0f64.to_bits());
    assert_eq!(r.full_attention.rope_theta_bits, 1_000_000.0f64.to_bits());
    assert_eq!(r.full_attention.partial_rotary_factor_bits, Some(0.25f64.to_bits()));
    assert!(c.eos_token_id.is_none());
    let mut c = Gemma4TextConfig::b31_preset();
    c.final_logit_softcapping_bits = Some(50.0f32.to_bits());
    c.validate().unwrap();
    assert_eq!(c.final_logit_softcapping_bits, Some(50.0f32.to_bits()));
    assert_eq!((c.sliding_window, c.num_global_key_value_heads), (Some(1024), Some(4)));
    c.head_dim = 0;
    c.sliding_window = None;
    assert_eq!(c.validate().unwrap_err().message(), "config: head_dim / global_head_dim must be > 0");
    assert_eq!(c.sliding_window, None);
}

#[test]
fn layouts_name_every_layer() {
    let mut b = bank(Gemma4TextConfig::e4b_preset(), &[]);
    b.kv_layout.layers.truncate(41);
    let e = GpuSynthModel::from_host_banks(b, 0).unwrap_err();
    assert_eq!(e.message(), "kv: no layer 41 in the KV layout");
}

#[test]
fn other_bindings() {
    let mut bnd = binder(true);
    let mut q = Vec::new();
    bnd.bind_resource_id(77, 4, &mut q);
    bnd.set_threadgroup_memory(0, 512, &mut q);
    bnd.optimize_icb(2, 9, &mut q);
    let buf = GpuBuffer { kind: BufferKind::Cold, addr: 0x4000, bytes: vec![0; 16] };
    dispatch::set_gpu_buf(&mut bnd, &buf, 1, &mut q);
    dispatch::set_gpu_buf_offset(&mut bnd, &buf, 8, 2, &mut q);
    assert_eq!(
        q,
        vec![
            Cmd::SetResource { id: 77, index: 4 },
            Cmd::SetThreadgroupMemory { index: 0, length: 512 },
            Cmd::NoteThreadgroupMemory { index: 0, length: 512 },
            Cmd::OptimizeIndirect { start: 2, count: 9 },
            Cmd::SetAddress { addr: 0x4000, index: 1 },
            Cmd::NoteBind { index: 1, addr: 0x4000, offset: 0 },
            Cmd::SetAddress { addr: 0x4008, index: 2 },
            Cmd::NoteBind { index: 2, addr: 0x4000, offset: 8 },
        ]
    );
}
