//! The command sequence of one decode step, layer by layer.

use crate::config::LayerType;
use crate::error;
use crate::error::{Error, ErrorV, Result};
use crate::kv_bank;
use crate::kv_bank::{KvBank, KvBankV};
use crate::kv_slot;
use crate::kv_slot::{FaView, GpuKvSlot};
use crate::model;
use crate::model::{GpuSynthLayer, GpuSynthModel};
use crate::ops::{Bank, Buf, Factor, KvSrc, NormW, Op, SlotRef};
use crate::text;
use vstd::prelude::*;
use vstd::string::*;

verus! {

/// Switches that change which kernels a step uses.
#[derive(Clone, Copy, Debug, PartialEq, Eq, Structural)]
pub struct StepFlags {
    /// Automatic barriers are off; phase edges need explicit ones.
    pub hazard: bool,
    pub fuse_bf16_rms: bool,
    pub fuse_bf16_fa: bool,
    pub fuse_bf16_mlp: bool,
    pub fuse_rope_kv: bool,
    pub fuse_dual_norm: bool,
    pub fuse_ple_residual: bool,
    pub e4b_dual_norm: bool,
    /// The interpreter stand-ins run (synthetic graph only).
    pub interp: bool,
    pub capture_nop: bool,
    pub capture_barrier: bool,
    /// Captured steps keep automatic barriers off.
    pub capture_ao_disabled: bool,
}

/// Which fused kernels a layer's weight banks allow.
#[derive(Clone, Copy, Debug, PartialEq, Eq, Structural)]
pub struct LayerCaps {
    pub qkv: bool,
    pub kv: bool,
    pub gate_down: bool,
    pub gate_up: bool,
}

/// A barrier where one is needed.
pub open spec fn barrier_if(need: bool) -> Seq<Op> {
    if need {
        seq![Op::Barrier]
    } else {
        seq![]
    }
}

/// Norm of the residual into the activations that matrices read.
pub open spec fn norm_act(f: StepFlags, weight: NormW, rows: int, n: int) -> Seq<Op> {
    if f.fuse_bf16_rms {
        seq![Op::RmsAct { src: Buf::X, weight, rows: rows as u32, n: n as u32 }]
    } else {
        seq![
            Op::Rms { src: Buf::X, weight, dst: Buf::Normed, rows: rows as u32, n: n as u32 },
            Op::CastAct { src: Buf::Normed, n: (rows * n) as u32 },
        ]
    }
}

/// Both residual norms and the layer scalar are used.
pub open spec fn dual_norm(f: StepFlags, m: GpuSynthModel, li: int) -> bool {
    m.layers@[li].has_pre_ff_norm && (!m.ple_at(li) || f.e4b_dual_norm)
}

/// Projections of the normed residual.
pub open spec fn qkv_ops(p: GpuSynthLayer, c: LayerCaps, li: usize) -> Seq<Op> {
    if p.produces() && c.qkv {
        seq![Op::QkvFused { layer: li }]
    } else {
        seq![Op::Mat { bank: Bank::Q(li), src: Buf::Act, dst: Buf::Q, rows: 1 }] + (
        if !p.produces() {
            seq![]
        } else if c.kv {
            seq![Op::KvFused { layer: li }]
        } else {
            seq![
                Op::Mat { bank: Bank::K(li), src: Buf::Act, dst: Buf::K, rows: 1 },
                Op::Mat { bank: Bank::V(li), src: Buf::Act, dst: Buf::V, rows: 1 },
            ]
        })
    }
}

/// Everything of a layer before its rotary embedding.
pub open spec fn head_ops(f: StepFlags, m: GpuSynthModel, c: LayerCaps, li: usize) -> Seq<Op> {
    norm_act(f, NormW::Input(li), 1, m.hidden as int) + barrier_if(f.hazard) + qkv_ops(
        m.layers@[li as int],
        c,
        li,
    ) + barrier_if(f.hazard)
}

/// Why a layer cannot be projected, if it cannot.
pub open spec fn missing_weight(p: GpuSynthLayer, li: usize) -> Option<ErrorV> {
    if p.produces() && !p.has_k_proj {
        Some(error::weights_error("layer "@ + text::dec(li as nat) + " missing k_proj"@))
    } else if p.produces() && !p.has_v_proj {
        Some(error::weights_error("layer "@ + text::dec(li as nat) + " missing v_proj"@))
    } else {
        None
    }
}

/// Rotary embedding and cache writes of one layer.
pub open spec fn cache_ops(
    f: StepFlags,
    m: GpuSynthModel,
    b: KvBankV,
    li: usize,
) -> std::result::Result<(KvBankV, Seq<Op>), ErrorV> {
    let p = m.layers@[li as int];
    if !p.produces() {
        Ok((b, seq![Op::Rope { layer: li, rows: 1, q_only: true }]))
    } else {
        match b.append(p.reads()) {
            Err(e) => Err(e),
            Ok((b1, store)) => {
                let own = if f.fuse_rope_kv {
                    seq![
                        Op::RopeStore {
                            layer: li,
                            slot: p.reads(),
                            offset: b.slot(p.reads()).write_offset(),
                        },
                    ]
                } else {
                    seq![Op::Rope { layer: li, rows: 1, q_only: false }] + barrier_if(f.hazard)
                        + seq![store]
                };
                if m.kv.feeds_shared(li as int) {
                    match b1.append(p.shares()) {
                        Err(e) => Err(e),
                        Ok((b2, shared)) => Ok((b2, own.push(shared))),
                    }
                } else {
                    Ok((b1, own))
                }
            },
        }
    }
}

/// Gathering of a ring before attention.
pub open spec fn gather_ops(slot: SlotRef, v: FaView) -> Seq<Op> {
    if v.densify {
        seq![
            Op::Gather { slot, values: false, view: v },
            Op::Gather { slot, values: true, view: v },
        ]
    } else {
        seq![]
    }
}

/// Where attention finds the rows of `slot`.
pub open spec fn kv_source(s: GpuKvSlot, slot: SlotRef) -> KvSrc {
    if s.is_ring || s.filled() == 0 {
        KvSrc::Dense
    } else {
        KvSrc::Slot(slot)
    }
}

/// The attention command of a layer.
pub open spec fn attend_op(
    f: StepFlags,
    p: GpuSynthLayer,
    s: GpuKvSlot,
    li: usize,
    rows: int,
    v: FaView,
    q_pos: u32,
) -> Op {
    let dst = if f.fuse_bf16_fa {
        Buf::Act
    } else {
        Buf::O
    };
    match p.layer_type {
        LayerType::SlidingAttention => Op::AttendSliding {
            layer: li,
            kv: kv_source(s, p.reads()),
            dst,
            rows: rows as u32,
            tkv: v.rows,
            window: match p.window {
                Some(w) => kv_slot::low32(w as int),
                None => 512,
            },
            q_pos,
            kv_pos: v.kv_pos_offset,
        },
        LayerType::FullAttention => Op::AttendGlobal {
            layer: li,
            kv: kv_source(s, p.reads()),
            dst,
            rows: rows as u32,
            tkv: v.rows,
            q_pos,
            kv_pos: v.kv_pos_offset,
        },
    }
}

/// Reading the cache: the gathering, attention and what follows up to the output
/// projection.
pub open spec fn attend_ops(
    f: StepFlags,
    p: GpuSynthLayer,
    s: GpuKvSlot,
    li: usize,
    rows: int,
    want: u32,
    q_pos: u32,
) -> Seq<Op> {
    let v = s.fa_view(want);
    barrier_if(f.hazard) + gather_ops(p.reads(), v) + seq![
        attend_op(f, p, s, li, rows, v, q_pos),
    ] + (if f.fuse_bf16_fa {
        seq![]
    } else {
        seq![Op::CastAct { src: Buf::O, n: (rows * (p.hq * p.head_dim)) as u32 }]
    }) + barrier_if(f.hazard)
}

/// Output projection into the residual.
pub open spec fn out_proj_ops(f: StepFlags, dual: bool, li: usize, rows: int, hidden: int) -> Seq<
    Op,
> {
    if dual && f.fuse_dual_norm {
        seq![
            Op::MatNormAdd {
                bank: Bank::O(li),
                src: Buf::Act,
                weight: NormW::PostAttn(li),
                by: Factor::One,
                rows: rows as u32,
            },
        ]
    } else if dual {
        seq![
            Op::Mat { bank: Bank::O(li), src: Buf::Act, dst: Buf::AttnProj, rows: rows as u32 },
        ] + barrier_if(f.hazard) + seq![
            Op::Rms {
                src: Buf::AttnProj,
                weight: NormW::PostAttn(li),
                dst: Buf::Normed,
                rows: rows as u32,
                n: hidden as u32,
            },
        ] + barrier_if(f.hazard) + seq![
            Op::ResidualAdd {
                src: Buf::Normed,
                by: Factor::One,
                at: 0,
                n: (rows * hidden) as u32,
            },
        ]
    } else {
        seq![Op::MatAdd { bank: Bank::O(li), src: Buf::Act, rows: rows as u32 }]
    }
}

/// Per-layer embedding of one token.
pub open spec fn ple_ops(f: StepFlags, m: GpuSynthModel, li: usize) -> Seq<Op> {
    let p = m.layers@[li as int];
    if !m.ple_at(li as int) {
        seq![]
    } else if f.fuse_ple_residual && m.has_ple_q4 {
        barrier_if(f.hazard) + seq![Op::PleFused { layer: li }]
    } else {
        seq![
            if m.has_ple_q4 {
                Op::PleQ4 { layer: li }
            } else {
                Op::PleTable { layer: li }
            },
        ] + barrier_if(f.hazard) + seq![
            Op::ResidualAdd {
                src: Buf::PleOut,
                by: Factor::InvSqrt2,
                at: 0,
                n: m.cfg.hidden_size_per_layer_input as u32,
            },
        ]
    }
}

/// The norm before the feed-forward part.
pub open spec fn ff_norm(p: GpuSynthLayer, li: usize) -> NormW {
    if p.has_pre_ff_norm {
        NormW::PreFf(li)
    } else {
        NormW::PostAttn(li)
    }
}

/// Gate, up and down run as one kernel.
pub open spec fn one_kernel_mlp(p: GpuSynthLayer, c: LayerCaps, dual: bool) -> bool {
    c.gate_down && !(dual && p.has_post_ff_norm)
}

/// The residual is replaced by its norm.
pub open spec fn replace_by_norm(li: usize, rows: int, hidden: int) -> Seq<Op> {
    seq![
        Op::Rms {
            src: Buf::X,
            weight: NormW::PostFf(li),
            dst: Buf::Normed,
            rows: rows as u32,
            n: hidden as u32,
        },
        Op::CopyF32 {
            src: Buf::Normed,
            from: 0,
            dst: Buf::X,
            to: 0,
            n: (rows * hidden) as u32,
        },
    ]
}

/// Gate and up of one token.
pub open spec fn gate_up_ops(
    f: StepFlags,
    m: GpuSynthModel,
    c: LayerCaps,
    dual: bool,
    li: usize,
) -> Seq<Op> {
    let p = m.layers@[li as int];
    if one_kernel_mlp(p, c, dual) {
        seq![Op::GateDownFused { layer: li }] + (if p.has_post_ff_norm {
            barrier_if(f.hazard) + replace_by_norm(li, 1, m.hidden as int)
        } else {
            seq![]
        })
    } else if c.gate_up {
        seq![Op::GateUpGelu { layer: li, half: f.fuse_bf16_mlp }]
    } else {
        seq![
            Op::Mat { bank: Bank::Gate(li), src: Buf::Act, dst: Buf::Gate, rows: 1 },
            Op::Mat { bank: Bank::Up(li), src: Buf::Act, dst: Buf::Up, rows: 1 },
            Op::Barrier,
            Op::Gelu { half: f.fuse_bf16_mlp, n: m.intermediate as u32 },
        ]
    }
}

/// Down projection into the residual.
pub open spec fn down_ops(
    f: StepFlags,
    p: GpuSynthLayer,
    dual: bool,
    li: usize,
    rows: int,
    hidden: int,
) -> Seq<Op> {
    let src = if f.fuse_bf16_mlp {
        Buf::Mid
    } else {
        Buf::Act
    };
    if dual && p.has_post_ff_norm && f.fuse_dual_norm {
        seq![
            Op::MatNormAdd {
                bank: Bank::Down(li),
                src,
                weight: NormW::PostFf(li),
                by: if model::scales(p.layer_scalar_bits) {
                    Factor::Layer(li)
                } else {
                    Factor::One
                },
                rows: rows as u32,
            },
        ]
    } else if dual && p.has_post_ff_norm {
        seq![Op::Mat { bank: Bank::Down(li), src, dst: Buf::Down, rows: rows as u32 }]
            + barrier_if(f.hazard) + seq![
            Op::Rms {
                src: Buf::Down,
                weight: NormW::PostFf(li),
                dst: Buf::Normed,
                rows: rows as u32,
                n: hidden as u32,
            },
        ] + barrier_if(f.hazard) + seq![
            Op::ResidualAdd {
                src: Buf::Normed,
                by: Factor::One,
                at: 0,
                n: (rows * hidden) as u32,
            },
        ]
    } else {
        seq![Op::MatAdd { bank: Bank::Down(li), src, rows: rows as u32 }] + (
        if p.has_post_ff_norm {
            replace_by_norm(li, rows, hidden)
        } else {
            seq![]
        })
    }
}

/// The layer scalar, where it was not folded into the down projection.
pub open spec fn scalar_ops(
    f: StepFlags,
    p: GpuSynthLayer,
    dual: bool,
    li: usize,
    n: int,
) -> Seq<Op> {
    if dual && model::scales(p.layer_scalar_bits) && !(f.fuse_dual_norm && p.has_post_ff_norm) {
        barrier_if(f.hazard) + seq![Op::Scale { dst: Buf::X, by: Factor::Layer(li), n: n as u32 }]
    } else {
        seq![]
    }
}

/// What follows gate and up, up to the layer scalar.
pub open spec fn mlp_tail(f: StepFlags, m: GpuSynthModel, c: LayerCaps, li: usize) -> Seq<Op> {
    let p = m.layers@[li as int];
    let dual = dual_norm(f, m, li as int);
    if one_kernel_mlp(p, c, dual) {
        seq![]
    } else {
        (if f.fuse_bf16_mlp {
            seq![]
        } else {
            seq![Op::CastAct { src: Buf::Mid, n: m.intermediate as u32 }]
        }) + barrier_if(f.hazard) + down_ops(f, p, dual, li, 1, m.hidden as int)
    }
}

/// The feed-forward part of one token.
pub open spec fn mlp_ops(f: StepFlags, m: GpuSynthModel, c: LayerCaps, li: usize) -> Seq<Op> {
    let p = m.layers@[li as int];
    let dual = dual_norm(f, m, li as int);
    barrier_if(f.hazard) + norm_act(f, ff_norm(p, li), 1, m.hidden as int) + barrier_if(f.hazard)
        + gate_up_ops(f, m, c, dual, li) + mlp_tail(f, m, c, li) + scalar_ops(f, p, dual, li, m.hidden as int)
}

/// The interpreter stand-ins.
pub open spec fn interp_ops(f: StepFlags) -> Seq<Op> {
    if f.interp {
        seq![Op::InterpFaO, Op::InterpGateDown]
    } else {
        seq![]
    }
}

/// Why a reading layer cannot attend, if it cannot.
pub open spec fn reader_behind(p: GpuSynthLayer, s: GpuKvSlot, pos: int) -> Option<ErrorV> {
    if !p.produces() && kv_slot::low32(pos + 1) > kv_slot::low32(s.seq_len as int) {
        Some(
            error::kv_error(
                "consumer pos="@ + text::dec(pos as nat) + " shared tkv="@ + text::dec(
                    s.seq_len as nat,
                ),
            ),
        )
    } else {
        None
    }
}

/// One whole layer at position `pos`: the caches after it and its commands.
#[verifier::opaque]
pub open spec fn layer_run(
    f: StepFlags,
    m: GpuSynthModel,
    c: LayerCaps,
    b: KvBankV,
    li: usize,
    pos: int,
) -> std::result::Result<(KvBankV, Seq<Op>), ErrorV> {
    let p = m.layers@[li as int];
    match missing_weight(p, li) {
        Some(e) => Err(e),
        None => match cache_ops(f, m, b, li) {
            Err(e) => Err(e),
            Ok((b1, cache)) => match reader_behind(p, b1.slot(p.reads()), pos) {
                Some(e) => Err(e),
                None => Ok(
                    (
                        b1,
                        head_ops(f, m, c, li) + cache + attend_ops(
                            f,
                            p,
                            b1.slot(p.reads()),
                            li,
                            1,
                            kv_slot::low32(pos + 1),
                            kv_slot::low32(pos),
                        ) + out_proj_ops(f, dual_norm(f, m, li as int), li, 1, m.hidden as int)
                            + ple_ops(f, m, li) + mlp_ops(f, m, c, li) + interp_ops(f),
                    ),
                ),
            },
        },
    }
}

/// The caches where a layer that fails stops: what it had written stays written.
pub open spec fn layer_stop(m: GpuSynthModel, b: KvBankV, li: usize) -> KvBankV {
    let p = m.layers@[li as int];
    if missing_weight(p, li) is None && p.produces() {
        match b.append(p.reads()) {
            Ok((b1, _)) => b1,
            Err(_) => b,
        }
    } else {
        b
    }
}

/// The caches hold a slot for every layer of the model.
pub open spec fn bank_fits(m: GpuSynthModel, b: KvBankV) -> bool {
    &&& b.wf()
    &&& b.rings.len() == m.kv.sliding_ring_slots
    &&& b.globals.len() == m.kv.global_full_slots
}

/// In a fitting bank every layer finds its slot.
pub proof fn lemma_slots_exist(m: GpuSynthModel, b: KvBankV, li: int)
    requires
        m.wf(),
        bank_fits(m, b),
        0 <= li < m.layers@.len(),
    ensures
        b.has(m.layers@[li].reads()),
        b.has(m.layers@[li].shares()),
{
    if li < m.kv.first_kv_shared {
        crate::kv::producers_have_distinct_slots(m.kv, li, li);
    }
    assert(m.layers@[li].role == m.kv.layers@[li].role);
}

/// Concatenation may be bracketed from the left.
pub proof fn lemma_cat3(q: Seq<Op>, a: Seq<Op>, b: Seq<Op>, c: Seq<Op>)
    ensures
        q + a + b + c == q + (a + b + c),
{
    assert(q + a + b + c =~= q + (a + b + c));
}

/// Concatenation may be bracketed from the left.
pub proof fn lemma_cat6(
    q: Seq<Op>,
    a: Seq<Op>,
    b: Seq<Op>,
    c: Seq<Op>,
    d: Seq<Op>,
    e: Seq<Op>,
    g: Seq<Op>,
)
    ensures
        q + a + b + c + d + e + g == q + (a + b + c + d + e + g),
{
    assert(q + a + b + c + d + e + g =~= q + (a + b + c + d + e + g));
}

/// Concatenation may be bracketed from the left.
pub proof fn lemma_cat7(
    q: Seq<Op>,
    a: Seq<Op>,
    b: Seq<Op>,
    c: Seq<Op>,
    d: Seq<Op>,
    e: Seq<Op>,
    g: Seq<Op>,
    h: Seq<Op>,
)
    ensures
        q + a + b + c + d + e + g + h == q + (a + b + c + d + e + g + h),
{
    lemma_cat6(q, a, b, c, d, e, g);
    assert(q + (a + b + c + d + e + g) + h =~= q + (a + b + c + d + e + g + h));
}

/// Queues a barrier where one is needed.
pub fn push_barrier(q: &mut Vec<Op>, need: bool)
    ensures
        final(q)@ == old(q)@ + barrier_if(need),
{
    if need {
        q.push(Op::Barrier);
    }
}

/// Queues the norm of the residual into the activations.
pub fn push_norm_act(q: &mut Vec<Op>, f: StepFlags, weight: NormW, rows: u32, n: u32)
    requires
        rows * n <= u32::MAX,
    ensures
        final(q)@ == old(q)@ + norm_act(f, weight, rows as int, n as int),
{
    if f.fuse_bf16_rms {
        q.push(Op::RmsAct { src: Buf::X, weight, rows, n });
    } else {
        q.push(Op::Rms { src: Buf::X, weight, dst: Buf::Normed, rows, n });
        q.push(Op::CastAct { src: Buf::Normed, n: rows * n });
    }
}

fn push_qkv(q: &mut Vec<Op>, p: GpuSynthLayer, c: LayerCaps, li: usize)
    ensures
        final(q)@ == old(q)@ + qkv_ops(p, c, li),
{
    if p.is_producer() && c.qkv {
        q.push(Op::QkvFused { layer: li });
    } else {
        q.push(Op::Mat { bank: Bank::Q(li), src: Buf::Act, dst: Buf::Q, rows: 1 });
        if p.is_producer() {
            if c.kv {
                q.push(Op::KvFused { layer: li });
            } else {
                q.push(Op::Mat { bank: Bank::K(li), src: Buf::Act, dst: Buf::K, rows: 1 });
                q.push(Op::Mat { bank: Bank::V(li), src: Buf::Act, dst: Buf::V, rows: 1 });
            }
        }
    }
}

/// Refuses a writing layer whose projections are missing.
pub fn missing_bank(p: GpuSynthLayer, li: usize) -> (r: Result<()>)
    ensures
        match missing_weight(p, li) {
            Some(e) => error::fails_with(r, e),
            None => r is Ok,
        },
{
    if p.is_producer() && !p.has_k_proj {
        Err(Error::Weights(text::text1("layer ", li as u64, " missing k_proj")))
    } else if p.is_producer() && !p.has_v_proj {
        Err(Error::Weights(text::text1("layer ", li as u64, " missing v_proj")))
    } else {
        Ok(())
    }
}

fn push_cache(
    q: &mut Vec<Op>,
    f: StepFlags,
    m: &GpuSynthModel,
    b: &mut KvBank,
    li: usize,
) -> (r: Result<()>)
    requires
        m.wf(),
        bank_fits(*m, old(b)@),
        li < m.layers@.len(),
        old(b)@.lens_at_most(usize::MAX - 1),
    ensures
        bank_fits(*m, final(b)@),
        final(b)@.same_shapes(old(b)@),
        match cache_ops(f, *m, old(b)@, li) {
            Ok((b1, ops)) => r is Ok && final(b)@ == b1 && final(q)@ == old(q)@ + ops,
            Err(e) => error::fails_with(r, e) && (missing_weight(m.layers@[li as int], li) is None
                ==> final(b)@ == layer_stop(*m, old(b)@, li)),
        },
{
    let p = m.layers[li];
    proof {
        lemma_slots_exist(*m, b@, li as int);
    }
    if !p.is_producer() {
        q.push(Op::Rope { layer: li, rows: 1, q_only: true });
        return Ok(());
    }
    let own = p.read_slot();
    assert(b@.slot(own).seq_len < usize::MAX);
    if f.fuse_rope_kv {
        let off: u32 = match b.slot(own).peek_write_offset() {
            Err(e) => {
                return Err(e);
            },
            Ok(off) => off,
        };
        q.push(Op::RopeStore { layer: li, slot: own, offset: off });
        match b.commit(own) {
            Err(e) => {
                return Err(e);
            },
            Ok(()) => {},
        }
    } else {
        q.push(Op::Rope { layer: li, rows: 1, q_only: false });
        push_barrier(q, f.hazard);
        match b.append(own, q) {
            Err(e) => {
                return Err(e);
            },
            Ok(()) => {},
        }
    }
    if m.kv.updates_shared(li) {
        let shared = p.shared_slot();
        assert(own != shared);
        proof {
            lemma_slots_exist(*m, b@, li as int);
            kv_bank::lemma_with(
                old(b)@,
                own,
                old(b)@.slot(own).holding(old(b)@.slot(own).seq_len + 1),
            );
            assert(old(b)@.has(shared));
            assert(b@.slot(shared) == old(b)@.slot(shared));
        }
        match b.append(shared, q) {
            Err(e) => {
                return Err(e);
            },
            Ok(()) => {},
        }
    }
    Ok(())
}

/// Queues what attention needs and attention itself.
pub fn push_attend(
    q: &mut Vec<Op>,
    f: StepFlags,
    p: GpuSynthLayer,
    b: &KvBank,
    li: usize,
    rows: u32,
    want: u32,
    q_pos: u32,
)
    requires
        b@.wf(),
        b@.has(p.reads()),
        rows * (p.hq * p.head_dim) <= u32::MAX,
        p.hq * p.head_dim <= u32::MAX,
    ensures
        final(q)@ == old(q)@ + attend_ops(
            f,
            p,
            b@.slot(p.reads()),
            li,
            rows as int,
            want,
            q_pos,
        ),
{
    let slot = p.read_slot();
    let s = b.slot(slot);
    let v = b.fa(slot, want);
    push_barrier(q, f.hazard);
    if v.densify {
        q.push(Op::Gather { slot, values: false, view: v });
        q.push(Op::Gather { slot, values: true, view: v });
    }
    let dst = if f.fuse_bf16_fa {
        Buf::Act
    } else {
        Buf::O
    };
    let kv = if s.is_ring || s.seq_len == 0 || s.capacity == 0 {
        KvSrc::Dense
    } else {
        KvSrc::Slot(slot)
    };
    match p.layer_type {
        LayerType::SlidingAttention => {
            let window: u32 = match p.window {
                Some(w) => kv_slot::to_u32(w),
                None => 512,
            };
            q.push(
                Op::AttendSliding {
                    layer: li,
                    kv,
                    dst,
                    rows,
                    tkv: v.rows,
                    window,
                    q_pos,
                    kv_pos: v.kv_pos_offset,
                },
            );
        },
        LayerType::FullAttention => {
            q.push(
                Op::AttendGlobal {
                    layer: li,
                    kv,
                    dst,
                    rows,
                    tkv: v.rows,
                    q_pos,
                    kv_pos: v.kv_pos_offset,
                },
            );
        },
    }
    if !f.fuse_bf16_fa {
        assert(rows * (p.hq * p.head_dim) == (p.hq * p.head_dim) * rows) by (nonlinear_arith);
        let per_row: usize = p.hq * p.head_dim;
        q.push(Op::CastAct { src: Buf::O, n: rows * per_row as u32 });
    }
    push_barrier(q, f.hazard);
    assert(q@ =~= old(q)@ + attend_ops(f, p, s, li, rows as int, want, q_pos));
}

/// Queues the output projection into the residual.
pub fn push_out_proj(
    q: &mut Vec<Op>,
    f: StepFlags,
    dual: bool,
    li: usize,
    rows: u32,
    hidden: u32,
)
    requires
        rows * hidden <= u32::MAX,
    ensures
        final(q)@ == old(q)@ + out_proj_ops(f, dual, li, rows as int, hidden as int),
{
    if dual && f.fuse_dual_norm {
        q.push(
            Op::MatNormAdd {
                bank: Bank::O(li),
                src: Buf::Act,
                weight: NormW::PostAttn(li),
                by: Factor::One,
                rows,
            },
        );
    } else if dual {
        q.push(Op::Mat { bank: Bank::O(li), src: Buf::Act, dst: Buf::AttnProj, rows });
        push_barrier(q, f.hazard);
        q.push(
            Op::Rms {
                src: Buf::AttnProj,
                weight: NormW::PostAttn(li),
                dst: Buf::Normed,
                rows,
                n: hidden,
            },
        );
        push_barrier(q, f.hazard);
        q.push(
            Op::ResidualAdd { src: Buf::Normed, by: Factor::One, at: 0, n: rows * hidden },
        );
        assert(q@ =~= old(q)@ + out_proj_ops(f, dual, li, rows as int, hidden as int));
    } else {
        q.push(Op::MatAdd { bank: Bank::O(li), src: Buf::Act, rows });
    }
}

fn push_ple(q: &mut Vec<Op>, f: StepFlags, m: &GpuSynthModel, li: usize)
    requires
        m.wf(),
        li < m.layers@.len(),
    ensures
        final(q)@ == old(q)@ + ple_ops(f, *m, li),
{
    let p = m.layers[li];
    if !(p.has_ple_table || m.has_ple_q4) {
        return ;
    }
    if f.fuse_ple_residual && m.has_ple_q4 {
        push_barrier(q, f.hazard);
        q.push(Op::PleFused { layer: li });
        assert(q@ =~= old(q)@ + ple_ops(f, *m, li));
        return ;
    }
    if m.has_ple_q4 {
        q.push(Op::PleQ4 { layer: li });
    } else {
        q.push(Op::PleTable { layer: li });
    }
    push_barrier(q, f.hazard);
    q.push(
        Op::ResidualAdd {
            src: Buf::PleOut,
            by: Factor::InvSqrt2,
            at: 0,
            n: m.cfg.hidden_size_per_layer_input as u32,
        },
    );
    assert(q@ =~= old(q)@ + ple_ops(f, *m, li));
}

fn push_replace_by_norm(q: &mut Vec<Op>, li: usize, rows: u32, hidden: u32)
    requires
        rows * hidden <= u32::MAX,
    ensures
        final(q)@ == old(q)@ + replace_by_norm(li, rows as int, hidden as int),
{
    q.push(
        Op::Rms { src: Buf::X, weight: NormW::PostFf(li), dst: Buf::Normed, rows, n: hidden },
    );
    q.push(
        Op::CopyF32 { src: Buf::Normed, from: 0, dst: Buf::X, to: 0, n: rows * hidden },
    );
}

fn push_gate_up(
    q: &mut Vec<Op>,
    f: StepFlags,
    m: &GpuSynthModel,
    c: LayerCaps,
    dual: bool,
    li: usize,
)
    requires
        m.wf(),
        li < m.layers@.len(),
    ensures
        final(q)@ == old(q)@ + gate_up_ops(f, *m, c, dual, li),
{
    let p = m.layers[li];
    if c.gate_down && !(dual && p.has_post_ff_norm) {
        q.push(Op::GateDownFused { layer: li });
        if p.has_post_ff_norm {
            push_barrier(q, f.hazard);
            push_replace_by_norm(q, li, 1, m.hidden as u32);
        }
        assert(q@ =~= old(q)@ + gate_up_ops(f, *m, c, dual, li));
    } else if c.gate_up {
        q.push(Op::GateUpGelu { layer: li, half: f.fuse_bf16_mlp });
    } else {
        q.push(Op::Mat { bank: Bank::Gate(li), src: Buf::Act, dst: Buf::Gate, rows: 1 });
        q.push(Op::Mat { bank: Bank::Up(li), src: Buf::Act, dst: Buf::Up, rows: 1 });
        q.push(Op::Barrier);
        q.push(Op::Gelu { half: f.fuse_bf16_mlp, n: m.intermediate as u32 });
    }
}

/// Queues the down projection into the residual.
pub fn push_down(
    q: &mut Vec<Op>,
    f: StepFlags,
    p: GpuSynthLayer,
    dual: bool,
    li: usize,
    rows: u32,
    hidden: u32,
)
    requires
        rows * hidden <= u32::MAX,
    ensures
        final(q)@ == old(q)@ + down_ops(f, p, dual, li, rows as int, hidden as int),
{
    let src = if f.fuse_bf16_mlp {
        Buf::Mid
    } else {
        Buf::Act
    };
    if dual && p.has_post_ff_norm && f.fuse_dual_norm {
        let by = if model::differs_from_one(p.layer_scalar_bits) {
            Factor::Layer(li)
        } else {
            Factor::One
        };
        q.push(
            Op::MatNormAdd { bank: Bank::Down(li), src, weight: NormW::PostFf(li), by, rows },
        );
    } else if dual && p.has_post_ff_norm {
        q.push(Op::Mat { bank: Bank::Down(li), src, dst: Buf::Down, rows });
        push_barrier(q, f.hazard);
        q.push(
            Op::Rms {
                src: Buf::Down,
                weight: NormW::PostFf(li),
                dst: Buf::Normed,
                rows,
                n: hidden,
            },
        );
        push_barrier(q, f.hazard);
        q.push(
            Op::ResidualAdd { src: Buf::Normed, by: Factor::One, at: 0, n: rows * hidden },
        );
        assert(q@ =~= old(q)@ + down_ops(f, p, dual, li, rows as int, hidden as int));
    } else {
        q.push(Op::MatAdd { bank: Bank::Down(li), src, rows });
        if p.has_post_ff_norm {
            push_replace_by_norm(q, li, rows, hidden);
        }
        assert(q@ =~= old(q)@ + down_ops(f, p, dual, li, rows as int, hidden as int));
    }
}

/// Queues the layer scalar, where it was not folded in.
pub fn push_scalar(q: &mut Vec<Op>, f: StepFlags, p: GpuSynthLayer, dual: bool, li: usize, n: u32)
    ensures
        final(q)@ == old(q)@ + scalar_ops(f, p, dual, li, n as int),
{
    if dual && model::differs_from_one(p.layer_scalar_bits) && !(f.fuse_dual_norm
        && p.has_post_ff_norm) {
        push_barrier(q, f.hazard);
        q.push(Op::Scale { dst: Buf::X, by: Factor::Layer(li), n });
        assert(q@ =~= old(q)@ + scalar_ops(f, p, dual, li, n as int));
    }
}

fn push_mlp_tail(
    q: &mut Vec<Op>,
    f: StepFlags,
    m: &GpuSynthModel,
    c: LayerCaps,
    dual: bool,
    li: usize,
)
    requires
        m.wf(),
        li < m.layers@.len(),
        dual == dual_norm(f, *m, li as int),
    ensures
        final(q)@ == old(q)@ + mlp_tail(f, *m, c, li),
{
    let p = m.layers[li];
    if !(c.gate_down && !(dual && p.has_post_ff_norm)) {
        let ghost cast: Seq<Op> = if f.fuse_bf16_mlp {
            seq![]
        } else {
            seq![Op::CastAct { src: Buf::Mid, n: m.intermediate as u32 }]
        };
        if !f.fuse_bf16_mlp {
            q.push(Op::CastAct { src: Buf::Mid, n: m.intermediate as u32 });
        }
        assert(q@ =~= old(q)@ + cast);
        push_barrier(q, f.hazard);
        push_down(q, f, p, dual, li, 1, m.hidden as u32);
        proof {
            lemma_cat3(
                old(q)@,
                cast,
                barrier_if(f.hazard),
                down_ops(f, p, dual, li, 1, m.hidden as int),
            );
        }
    }
}

fn push_mlp(q: &mut Vec<Op>, f: StepFlags, m: &GpuSynthModel, c: LayerCaps, dual: bool, li: usize)
    requires
        m.wf(),
        li < m.layers@.len(),
        dual == dual_norm(f, *m, li as int),
    ensures
        final(q)@ == old(q)@ + mlp_ops(f, *m, c, li),
{
    let p = m.layers[li];
    let hidden: u32 = m.hidden as u32;
    push_barrier(q, f.hazard);
    let weight = if p.has_pre_ff_norm {
        NormW::PreFf(li)
    } else {
        NormW::PostAttn(li)
    };
    push_norm_act(q, f, weight, 1, hidden);
    push_barrier(q, f.hazard);
    push_gate_up(q, f, m, c, dual, li);
    push_mlp_tail(q, f, m, c, dual, li);
    push_scalar(q, f, p, dual, li, hidden);
    proof {
        lemma_cat6(
            old(q)@,
            barrier_if(f.hazard),
            norm_act(f, ff_norm(p, li), 1, m.hidden as int),
            barrier_if(f.hazard),
            gate_up_ops(f, *m, c, dual, li),
            mlp_tail(f, *m, c, li),
            scalar_ops(f, p, dual, li, m.hidden as int),
        );
    }
}

fn push_head(q: &mut Vec<Op>, f: StepFlags, m: &GpuSynthModel, c: LayerCaps, li: usize)
    requires
        m.wf(),
        li < m.layers@.len(),
    ensures
        final(q)@ == old(q)@ + head_ops(f, *m, c, li),
{
    let p = m.layers[li];
    push_norm_act(q, f, NormW::Input(li), 1, m.hidden as u32);
    push_barrier(q, f.hazard);
    push_qkv(q, p, c, li);
    push_barrier(q, f.hazard);
    assert(q@ =~= old(q)@ + head_ops(f, *m, c, li));
}

fn push_interp(q: &mut Vec<Op>, f: StepFlags)
    ensures
        final(q)@ == old(q)@ + interp_ops(f),
{
    if f.interp {
        q.push(Op::InterpFaO);
        q.push(Op::InterpGateDown);
    }
}

/// Plans one layer of a decode step at position `pos`.
pub fn plan_layer(
    q: &mut Vec<Op>,
    f: StepFlags,
    m: &GpuSynthModel,
    c: LayerCaps,
    b: &mut KvBank,
    li: usize,
    pos: usize,
) -> (r: Result<()>)
    requires
        m.wf(),
        bank_fits(*m, old(b)@),
        li < m.layers@.len(),
        pos < usize::MAX,
        old(b)@.lens_at_most(usize::MAX - 1),
    ensures
        bank_fits(*m, final(b)@),
        final(b)@.same_shapes(old(b)@),
        match layer_run(f, *m, c, old(b)@, li, pos as int) {
            Ok((b1, ops)) => r is Ok && final(b)@ == b1 && final(q)@ == old(q)@ + ops,
            Err(e) => error::fails_with(r, e) && final(b)@ == layer_stop(*m, old(b)@, li),
        },
{
    reveal(layer_run);
    let p = m.layers[li];
    let hidden: u32 = m.hidden as u32;
    match missing_bank(p, li) {
        Err(e) => {
            return Err(e);
        },
        Ok(()) => {},
    }
    push_head(q, f, m, c, li);
    match push_cache(q, f, m, b, li) {
        Err(e) => {
            return Err(e);
        },
        Ok(()) => {},
    }
    proof {
        lemma_slots_exist(*m, b@, li as int);
    }
    let want: u32 = kv_slot::to_u32(pos + 1);
    if !p.is_producer() {
        let s = b.slot(p.read_slot());
        if want > kv_slot::to_u32(s.seq_len) {
            return Err(
                Error::Kv(
                    text::text_num2(
                        "consumer pos=",
                        pos as u64,
                        " shared tkv=",
                        s.seq_len as u64,
                    ),
                ),
            );
        }
    }
    push_attend(q, f, p, b, li, 1, want, kv_slot::to_u32(pos));
    let dual = p.has_pre_ff_norm && (!(p.has_ple_table || m.has_ple_q4) || f.e4b_dual_norm);
    push_out_proj(q, f, dual, li, 1, hidden);
    push_ple(q, f, m, li);
    push_mlp(q, f, m, c, dual, li);
    push_interp(q, f);
    proof {
        lemma_cat7(
            old(q)@,
            head_ops(f, *m, c, li),
            cache_ops(f, *m, old(b)@, li)->Ok_0.1,
            attend_ops(
                f,
                p,
                b@.slot(p.reads()),
                li,
                1,
                kv_slot::low32(pos + 1),
                kv_slot::low32(pos as int),
            ),
            out_proj_ops(f, dual, li, 1, m.hidden as int),
            ple_ops(f, *m, li),
            mlp_ops(f, *m, c, li),
            interp_ops(f),
        );
    }
    Ok(())
}

} // verus!
