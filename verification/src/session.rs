//! A decode session: the caches, the captured rows and the position, and what
//! each step asks of the device.

use crate::capture;
use crate::capture::HiddenCapture;
use crate::conditioner::DFlashGpuConditioner;
use crate::error;
use crate::error::{Error, ErrorV, Result};
use crate::floats;
use crate::floats::LogitsStats;
use crate::kv_bank;
use crate::kv_bank::{KvBank, KvBankV};
use crate::kv_slot;
use crate::kv_slot::GpuKvSlot;
use crate::model;
use crate::model::GpuSynthModel;
use crate::ops::{Bank, Buf, Factor, NormW, Op, SlotRef};
use crate::step_plan;
use crate::step_plan::{LayerCaps, StepFlags};
use crate::text;
use vstd::prelude::*;
use vstd::string::*;

verus! {

/// Most tokens that one verify call takes.
pub const VERIFY_MAX_M: usize = 8;

/// Where a step finds its input token.
#[derive(Clone, Copy, Debug, PartialEq, Eq, Structural)]
pub enum StepSeed {
    /// The host writes it.
    Host(u32),
    /// It is in place already.
    Resident,
    /// It is the previous step's result.
    FromArgmax,
}

/// How a step's layers reach the device.
#[derive(Clone, Copy, Debug, PartialEq, Eq, Structural)]
pub enum LayerMode {
    /// Command by command.
    Encode,
    /// Command by command, and the device records them.
    Record,
    /// As the recorded graph. The layers are walked for the bookkeeping, and their
    /// commands are dropped.
    Replay,
    /// As the recorded graph. Its tape is written in place of walking the layers.
    Skip,
}

/// Outcome of a verify call.
#[derive(Clone, Debug)]
pub struct StepVerifyResult {
    /// Position of the first token.
    pub pos0: usize,
    pub tokens: Vec<u32>,
    /// The greedy token after each position.
    pub next_tokens: Vec<u32>,
}

/// A decode session.
#[derive(Clone, Debug)]
pub struct GpuDecodeSession {
    pub model: GpuSynthModel,
    pub kv: KvBank,
    pub pos: usize,
    pub capture: Option<HiddenCapture>,
    pub conditioner: Option<DFlashGpuConditioner>,
    pub max_kv: usize,
    pub gate_down_hits: u64,
    pub fa_o_hits: u64,
    pub last_fail: u32,
}

/// Captured steps run with automatic barriers on, unless that is disabled.
pub open spec fn effective(f: StepFlags, capturing: bool) -> StepFlags {
    StepFlags { hazard: f.hazard && !(capturing && !f.capture_ao_disabled), ..f }
}

/// The switches that hold during a step. The caller's setting is untouched and
/// holds again afterwards.
pub fn capture_guard(f: StepFlags, capturing: bool) -> (r: StepFlags)
    ensures
        r == effective(f, capturing),
{
    StepFlags { hazard: f.hazard && !(capturing && !f.capture_ao_disabled), ..f }
}

/// Commands that put the input token in place.
pub open spec fn seed_ops(seed: StepSeed, hazard: bool) -> Seq<Op> {
    match seed {
        StepSeed::Host(t) => seq![Op::WriteSeed { token: t }],
        StepSeed::FromArgmax => seq![
            Op::CopyToken { src: Buf::ArgmaxTok, index: 0, dst: Buf::SeedTok },
        ] + step_plan::barrier_if(hazard),
        StepSeed::Resident => seq![],
    }
}

/// Commands that embed the token `tid` that is in place.
pub open spec fn embed_run(m: GpuSynthModel, hazard: bool, tid: u32) -> std::result::Result<
    Seq<Op>,
    ErrorV,
> {
    let scaled = model::scales(m.embed_scale_bits);
    if m.has_embed_hot {
        Ok(
            seq![Op::EmbedHot { rows: 1 }] + (if scaled {
                step_plan::barrier_if(hazard) + seq![
                    Op::Scale { dst: Buf::X, by: Factor::Embed, n: m.hidden as u32 },
                ]
            } else {
                seq![]
            }),
        )
    } else if m.has_embed_q {
        Ok(seq![Op::EmbedQuantRow { token: tid, at_row: 0, scaled }])
    } else if tid * m.hidden + m.hidden > m.embed_len {
        Err(out_of_vocabulary(tid))
    } else {
        Ok(
            seq![
                Op::EmbedDenseRow {
                    start: (tid * m.hidden) as usize,
                    at_row: 0,
                    scaled: m.embed_scale_bits != model::ONE_BITS,
                },
            ],
        )
    }
}

/// The error for a token without an embedding row.
pub open spec fn out_of_vocabulary(tid: u32) -> ErrorV {
    error::config_error("token "@ + text::dec(tid as nat) + " OOV"@)
}

/// Commands that copy the residual after layer `li` into the captured row.
pub open spec fn capture_ops(
    f: StepFlags,
    ids: Option<Seq<usize>>,
    li: usize,
    hidden: int,
) -> Seq<Op> {
    match ids {
        None => seq![],
        Some(s) => if f.capture_nop || !s.contains(li) {
            seq![]
        } else {
            let slot = choose|i: int| capture::first_index(s, li, i);
            (if f.hazard {
                seq![Op::Synchronize]
            } else if f.capture_barrier {
                seq![Op::Barrier]
            } else {
                seq![]
            }) + seq![
                Op::CopyF32 {
                    src: Buf::X,
                    from: 0,
                    dst: Buf::CaptureRow,
                    to: (slot * hidden) as usize,
                    n: hidden as u32,
                },
            ]
        },
    }
}

/// The first `n` layers of a step: the caches after them and their commands.
pub open spec fn layers_run(
    f: StepFlags,
    m: GpuSynthModel,
    caps: Seq<LayerCaps>,
    ids: Option<Seq<usize>>,
    b: KvBankV,
    pos: int,
    n: int,
) -> std::result::Result<(KvBankV, Seq<Op>), ErrorV>
    decreases n,
{
    if n <= 0 {
        Ok((b, seq![]))
    } else {
        match layers_run(f, m, caps, ids, b, pos, n - 1) {
            Err(e) => Err(e),
            Ok((b1, ops)) => match step_plan::layer_run(
                f,
                m,
                caps[n - 1],
                b1,
                (n - 1) as usize,
                pos,
            ) {
                Err(e) => Err(e),
                Ok((b2, more)) => Ok(
                    (b2, ops + more + capture_ops(f, ids, (n - 1) as usize, m.hidden as int)),
                ),
            },
        }
    }
}

/// How far the first `n` layers of a step get: how many of them are complete, and the
/// caches where they end or stop.
pub open spec fn layers_reach(
    f: StepFlags,
    m: GpuSynthModel,
    caps: Seq<LayerCaps>,
    ids: Option<Seq<usize>>,
    b: KvBankV,
    pos: int,
    n: int,
) -> (int, KvBankV)
    decreases n,
{
    if n <= 0 {
        (0, b)
    } else {
        match layers_run(f, m, caps, ids, b, pos, n - 1) {
            Err(_) => layers_reach(f, m, caps, ids, b, pos, n - 1),
            Ok((b1, _)) => match step_plan::layer_run(
                f,
                m,
                caps[n - 1],
                b1,
                (n - 1) as usize,
                pos,
            ) {
                Ok((b2, _)) => (n, b2),
                Err(_) => (n - 1, step_plan::layer_stop(m, b1, (n - 1) as usize)),
            },
        }
    }
}

/// Which slots of a capture the first `n` layers fill.
pub open spec fn filled_by(ids: Seq<usize>, n: int) -> Seq<bool> {
    Seq::new(ids.len(), |i: int| ids[i] < n && capture::first_index(ids, ids[i], i))
}

/// Final norm, vocabulary projection, softcap and argmax.
pub open spec fn sample_ops(f: StepFlags, m: GpuSynthModel) -> Seq<Op> {
    step_plan::norm_act(f, NormW::Final, 1, m.hidden as int) + step_plan::barrier_if(f.hazard)
        + seq![
        Op::Mat { bank: Bank::LmHead, src: Buf::Act, dst: Buf::Logits, rows: 1 },
        Op::Barrier,
        Op::Argmax { at: 0, dst: Buf::ArgmaxTok, index: 0 },
    ]
}

/// After each layer no slot has grown by more than one.
pub proof fn lemma_layer_growth(
    f: StepFlags,
    m: GpuSynthModel,
    c: LayerCaps,
    b: KvBankV,
    li: usize,
    pos: int,
    k: int,
)
    requires
        m.wf(),
        step_plan::bank_fits(m, b),
        li < m.layers@.len(),
        b.lens_at_most(k),
        k < usize::MAX,
    ensures
        step_plan::layer_run(f, m, c, b, li, pos) matches Ok((b1, _)) ==> b1.lens_at_most(k + 1)
            && step_plan::bank_fits(m, b1) && b1.same_shapes(b),
{
    reveal(step_plan::layer_run);
    let p = m.layers@[li as int];
    step_plan::lemma_slots_exist(m, b, li as int);
    if let Ok((b1, _)) = step_plan::layer_run(f, m, c, b, li, pos) {
        if p.produces() {
            let own = p.reads();
            let s = b.slot(own);
            lemma_one_more(b, own, k);
            let mid = b.append(own)->Ok_0.0;
            if m.kv.feeds_shared(li as int) {
                lemma_one_more_elsewhere(b, own, p.shares(), k);
                assert(b1 == mid.append(p.shares())->Ok_0.0);
            }
        }
    }
}

proof fn lemma_one_more(b: KvBankV, r: SlotRef, k: int)
    requires
        b.wf(),
        b.has(r),
        b.lens_at_most(k),
        k < usize::MAX,
        b.append(r) is Ok,
    ensures
        b.append(r)->Ok_0.0.lens_at_most(k + 1),
        b.append(r)->Ok_0.0.wf(),
        b.append(r)->Ok_0.0.same_shapes(b),
{
    let s = b.slot(r);
    kv_slot::holding_is_wf(s, s.seq_len + 1);
    kv_bank::lemma_with(b, r, s.holding(s.seq_len + 1));
    let c = b.append(r)->Ok_0.0;
    assert forall|q: SlotRef| #[trigger] c.has(q) implies c.slot(q).seq_len <= k + 1 by {
        assert(b.has(q));
        if q == r {
        } else {
            assert(c.slot(q) == b.slot(q));
        }
    }
}

proof fn lemma_one_more_elsewhere(b: KvBankV, r: SlotRef, r2: SlotRef, k: int)
    requires
        b.wf(),
        b.has(r),
        b.has(r2),
        r != r2,
        b.lens_at_most(k),
        k < usize::MAX,
        b.append(r) is Ok,
        b.append(r)->Ok_0.0.append(r2) is Ok,
    ensures
        b.append(r)->Ok_0.0.append(r2)->Ok_0.0.lens_at_most(k + 1),
        b.append(r)->Ok_0.0.append(r2)->Ok_0.0.wf(),
        b.append(r)->Ok_0.0.append(r2)->Ok_0.0.same_shapes(b),
{
    lemma_one_more(b, r, k);
    let s = b.slot(r);
    kv_slot::holding_is_wf(s, s.seq_len + 1);
    kv_bank::lemma_with(b, r, s.holding(s.seq_len + 1));
    let mid = b.append(r)->Ok_0.0;
    let s2 = mid.slot(r2);
    assert(s2 == b.slot(r2));
    assert(mid.has(r2));
    kv_slot::holding_is_wf(s2, s2.seq_len + 1);
    kv_bank::lemma_with(mid, r2, s2.holding(s2.seq_len + 1));
    let c = mid.append(r2)->Ok_0.0;
    assert forall|q: SlotRef| #[trigger] c.has(q) implies c.slot(q).seq_len <= k + 1
        && c.slot(q).same_shape(b.slot(q)) by {
        assert(b.has(q));
        assert(mid.has(q));
        if q == r2 {
        } else {
            assert(c.slot(q) == mid.slot(q));
        }
    }
}

proof fn lemma_filled_next(ids: Seq<usize>, li: usize)
    ensures
        match exists|i: int| capture::first_index(ids, li, i) {
            true => forall|i: int|
                capture::first_index(ids, li, i) ==> #[trigger] filled_by(ids, li + 1)
                    == #[trigger] filled_by(ids, li as int).update(i, true),
            false => filled_by(ids, li + 1) == filled_by(ids, li as int),
        },
{
    let a = filled_by(ids, li as int);
    let b = filled_by(ids, li + 1);
    if exists|i: int| capture::first_index(ids, li, i) {
        assert forall|i: int| capture::first_index(ids, li, i) implies #[trigger] filled_by(
            ids,
            li + 1,
        ) == #[trigger] filled_by(ids, li as int).update(i, true) by {
            assert(b =~= a.update(i, true));
        }
    } else {
        assert forall|i: int| 0 <= i < ids.len() implies a[i] == b[i] by {
            if ids[i] == li && capture::first_index(ids, ids[i], i) {
                assert(capture::first_index(ids, li, i));
            }
        }
        assert(a =~= b);
    }
}

/// The captured layer ids, where a capture is on.
pub open spec fn ids_of(c: Option<HiddenCapture>) -> Option<Seq<usize>> {
    match c {
        Some(c) => Some(c.layer_ids@),
        None => None,
    }
}

/// Whether a capture can be addressed in a session of this width.
pub open spec fn capture_fits(c: Option<HiddenCapture>, hidden: usize) -> bool {
    c matches Some(c) ==> c.wf() && c.hidden == hidden && c.stride() * 4 <= usize::MAX
}

/// Queues the copy of the residual after layer `li` into the captured row, where that
/// layer is captured, and counts its slot as filled.
pub fn push_capture(
    q: &mut Vec<Op>,
    f: StepFlags,
    c: &mut Option<HiddenCapture>,
    li: usize,
    hidden: usize,
)
    requires
        capture_fits(*old(c), hidden),
        hidden <= u32::MAX,
        *old(c) matches Some(x) ==> x.step_mask@ == filled_by(x.layer_ids@, li as int),
    ensures
        capture_fits(*final(c), hidden),
        final(q)@ == old(q)@ + capture_ops(f, ids_of(*old(c)), li, hidden as int),
        match (*old(c), *final(c)) {
            (Some(x), Some(y)) => {
                &&& y.same_setup(x)
                &&& y.concat == x.concat
                &&& y.t == x.t
                &&& y.step_mask@ == filled_by(x.layer_ids@, li + 1)
            },
            (None, None) => true,
            _ => false,
        },
{
    match c.take() {
        None => {},
        Some(mut x) => {
            let ghost ids = x.layer_ids@;
            proof {
                lemma_filled_next(ids, li);
            }
            let slot = x.mark_layer(li);
            match slot {
                None => {
                    assert(!exists|i: int| capture::first_index(ids, li, i)) by {
                        if exists|i: int| capture::first_index(ids, li, i) {
                            let i = choose|i: int| capture::first_index(ids, li, i);
                            assert(ids.contains(li));
                        }
                    }
                },
                Some(i) => {
                    assert(ids[i as int] == li);
                    assert(ids.contains(li));
                    proof {
                        let w = choose|w: int| capture::first_index(ids, li, w);
                        assert(w == i) by {
                            if w < i {
                                assert(ids[w] != li);
                            } else if i < w {
                                assert(ids[i as int] != li);
                            }
                        }
                        assert(filled_by(ids, li + 1) == filled_by(ids, li as int).update(
                            i as int,
                            true,
                        ));
                        assert(i * hidden <= ids.len() * hidden) by (nonlinear_arith)
                            requires
                                i < ids.len(),
                        ;
                    }
                    if !f.capture_nop {
                        if f.hazard {
                            q.push(Op::Synchronize);
                        } else if f.capture_barrier {
                            q.push(Op::Barrier);
                        }
                        q.push(
                            Op::CopyF32 {
                                src: Buf::X,
                                from: 0,
                                dst: Buf::CaptureRow,
                                to: i * hidden,
                                n: hidden as u32,
                            },
                        );
                    }
                },
            }
            *c = Some(x);
        },
    }
    assert(q@ =~= old(q)@ + capture_ops(f, ids_of(*old(c)), li, hidden as int));
}

/// If fewer layers fail, all fail, with the same error and at the same place.
pub proof fn lemma_prefix_err(
    f: StepFlags,
    m: GpuSynthModel,
    caps: Seq<LayerCaps>,
    ids: Option<Seq<usize>>,
    b: KvBankV,
    pos: int,
    k: int,
    n: int,
)
    requires
        0 <= k <= n,
    ensures
        layers_run(f, m, caps, ids, b, pos, k) matches Err(e) ==> layers_run(
            f,
            m,
            caps,
            ids,
            b,
            pos,
            n,
        ) == Err::<(KvBankV, Seq<Op>), ErrorV>(e) && layers_reach(f, m, caps, ids, b, pos, n)
            == layers_reach(f, m, caps, ids, b, pos, k),
    decreases n,
{
    if k < n {
        lemma_prefix_err(f, m, caps, ids, b, pos, k, n - 1);
    }
}

/// Layers that all succeed are all complete, and reach the caches after them.
pub proof fn lemma_reach_all(
    f: StepFlags,
    m: GpuSynthModel,
    caps: Seq<LayerCaps>,
    ids: Option<Seq<usize>>,
    b: KvBankV,
    pos: int,
    n: int,
)
    requires
        0 <= n,
    ensures
        layers_run(f, m, caps, ids, b, pos, n) matches Ok((b1, _)) ==> layers_reach(
            f,
            m,
            caps,
            ids,
            b,
            pos,
            n,
        ) == (n, b1),
        0 <= layers_reach(f, m, caps, ids, b, pos, n).0 <= n,
    decreases n,
{
    if n > 0 {
        lemma_reach_all(f, m, caps, ids, b, pos, n - 1);
    }
}

/// The cache shapes of a model can be addressed.
pub open spec fn caches_fit(m: GpuSynthModel) -> bool {
    let max_kv = kv_slot::max2(m.kv.max_seq as int, 16);
    let kv = m.cfg.num_key_value_heads as int;
    let d = m.cfg.head_dim as int;
    let gkv = m.cfg.global_heads() as int;
    let gd = m.cfg.global_head_dim as int;
    &&& 4 * kv_slot::slot_floats(window_of(m), kv, d) <= usize::MAX
    &&& 4 * kv_slot::slot_floats(max_kv, kv, d) <= usize::MAX
    &&& 4 * kv_slot::slot_floats(max_kv, gkv, gd) <= usize::MAX
}

/// The attention window that the rings are made for.
pub open spec fn window_of(m: GpuSynthModel) -> int {
    match m.cfg.sliding_window {
        Some(w) => w as int,
        None => 512,
    }
}

/// An empty ring of the model.
pub open spec fn empty_ring(m: GpuSynthModel) -> GpuKvSlot {
    GpuKvSlot {
        capacity: window_of(m) as usize,
        heads: m.cfg.num_key_value_heads,
        dim: m.cfg.head_dim,
        seq_len: 0,
        head: 0,
        is_ring: true,
    }
}

/// An empty full-length slot of the model's sliding layers.
pub open spec fn empty_sliding(m: GpuSynthModel) -> GpuKvSlot {
    GpuKvSlot {
        capacity: kv_slot::max2(m.kv.max_seq as int, 16) as usize,
        is_ring: false,
        ..empty_ring(m)
    }
}

/// An empty full-length slot of the model's global layers.
pub open spec fn empty_global(m: GpuSynthModel) -> GpuKvSlot {
    GpuKvSlot {
        capacity: kv_slot::max2(m.kv.max_seq as int, 16) as usize,
        heads: m.cfg.global_heads(),
        dim: m.cfg.global_head_dim,
        seq_len: 0,
        head: 0,
        is_ring: false,
    }
}

/// The caches of a session that has just begun.
pub open spec fn empty_bank(m: GpuSynthModel) -> KvBankV {
    KvBankV {
        rings: Seq::new(m.kv.sliding_ring_slots as nat, |i: int| empty_ring(m)),
        globals: Seq::new(m.kv.global_full_slots as nat, |i: int| empty_global(m)),
        shared_sliding: empty_sliding(m),
        shared_global: empty_global(m),
    }
}

fn repeat_slot(s: GpuKvSlot, n: usize) -> (r: Vec<GpuKvSlot>)
    ensures
        r@ == Seq::new(n as nat, |i: int| s),
{
    let mut out: Vec<GpuKvSlot> = Vec::new();
    let mut i: usize = 0;
    while i < n
        invariant
            i <= n,
            out@ == Seq::new(i as nat, |j: int| s),
        decreases n - i,
    {
        out.push(s);
        i = i + 1;
        assert(out@ =~= Seq::new(i as nat, |j: int| s));
    }
    out
}

/// Floats of the scratch buffers of a session.
#[derive(Clone, Copy, Debug, PartialEq, Eq, Structural)]
pub struct ScratchFloats {
    /// Residual, norms and the two projections back to the model's width.
    pub hidden_rows: usize,
    /// Queries, keys, values and attention output.
    pub head_rows: usize,
    /// Gate, up and their product.
    pub inter_rows: usize,
    pub logits: usize,
    /// Gathered keys, and again values.
    pub dense: usize,
    pub ple_out: usize,
}

/// The scratch of a session, as numbers.
pub open spec fn scratch_of(m: GpuSynthModel) -> (int, int, int, int, int, int) {
    let d = kv_slot::max2(m.cfg.global_head_dim as int, m.cfg.head_dim as int);
    (
        kv_slot::max2(m.hidden * 8, 1),
        kv_slot::max2(m.cfg.num_attention_heads * d * 8, 1),
        kv_slot::max2(m.intermediate * 8, 1),
        kv_slot::max2(m.vocab * 8, 1),
        kv_slot::max2(
            kv_slot::max2(m.kv.max_seq as int, 16) * kv_slot::max2(
                m.cfg.global_heads() as int,
                m.cfg.num_key_value_heads as int,
            ) * d,
            1,
        ),
        kv_slot::max2(m.cfg.hidden_size_per_layer_input as int, 1) * 8,
    )
}

/// The scratch can be addressed.
pub open spec fn scratch_fits(m: GpuSynthModel) -> bool {
    let s = scratch_of(m);
    &&& s.0 * 4 <= usize::MAX
    &&& s.1 * 4 <= usize::MAX
    &&& s.2 * 4 <= usize::MAX
    &&& s.3 * 4 <= usize::MAX
    &&& s.4 * 4 <= usize::MAX
    &&& s.5 * 4 <= usize::MAX
}

fn at_least_one(n: usize) -> (r: usize)
    ensures
        r == kv_slot::max2(n as int, 1),
{
    if n >= 1 {
        n
    } else {
        1
    }
}

fn larger(a: usize, b: usize) -> (r: usize)
    ensures
        r == kv_slot::max2(a as int, b as int),
{
    if a >= b {
        a
    } else {
        b
    }
}

/// Sizes of the scratch buffers: eight rows of each activation, so that a verify
/// call of the largest block fits.
pub fn scratch_floats(m: &GpuSynthModel) -> (r: ScratchFloats)
    requires
        scratch_fits(*m),
    ensures
        r.hidden_rows == scratch_of(*m).0,
        r.head_rows == scratch_of(*m).1,
        r.inter_rows == scratch_of(*m).2,
        r.logits == scratch_of(*m).3,
        r.dense == scratch_of(*m).4,
        r.ple_out == scratch_of(*m).5,
{
    let d: usize = larger(m.cfg.global_head_dim, m.cfg.head_dim);
    let heads: usize = m.cfg.num_attention_heads;
    assert(heads * d <= heads * d * 8) by (nonlinear_arith);
    let kvh: usize = larger(m.cfg.global_kv_heads(), m.cfg.num_key_value_heads);
    let max_kv: usize = larger(m.kv.max_seq, 16);
    let dense: usize = if d == 0 {
        assert(max_kv * kvh * d == 0) by (nonlinear_arith)
            requires
                d == 0,
        ;
        1
    } else {
        assert(max_kv * kvh <= max_kv * kvh * d) by (nonlinear_arith)
            requires
                d >= 1,
        ;
        at_least_one(max_kv * kvh * d)
    };
    ScratchFloats {
        hidden_rows: at_least_one(m.hidden * 8),
        head_rows: at_least_one(heads * d * 8),
        inter_rows: at_least_one(m.intermediate * 8),
        logits: at_least_one(m.vocab * 8),
        dense,
        ple_out: at_least_one(m.cfg.hidden_size_per_layer_input) * 8,
    }
}

/// A counter after `n` more hits.
pub open spec fn hits_after(h: u64, n: nat) -> u64 {
    if h + n <= u64::MAX {
        (h + n) as u64
    } else {
        u64::MAX
    }
}

/// A capture of the given layers that holds no row, and in which no slot is filled.
pub open spec fn empty_capture(c: HiddenCapture, ids: Seq<usize>, hidden: usize) -> bool {
    &&& c.layer_ids@ == ids
    &&& c.hidden == hidden
    &&& c.t == 0
    &&& c.concat@.len() == 0
    &&& c.step_mask@ == Seq::new(ids.len(), |i: int| false)
}

/// A conditioner, where there is one, has lost its context and nothing else.
pub open spec fn emptied(
    before: Option<DFlashGpuConditioner>,
    after: Option<DFlashGpuConditioner>,
) -> bool {
    match (before, after) {
        (Some(a), Some(b)) => b == (DFlashGpuConditioner { ctx_len: 0, ..a }),
        (None, None) => true,
        _ => false,
    }
}

/// A conditioner, where there is one, has lost its last `n` context rows, as far as it
/// had so many, and nothing else.
pub open spec fn shortened(
    before: Option<DFlashGpuConditioner>,
    after: Option<DFlashGpuConditioner>,
    n: int,
) -> bool {
    match (before, after) {
        (Some(a), Some(b)) => b == (DFlashGpuConditioner {
            ctx_len: kv_slot::max2(a.ctx_len - n, 0) as usize,
            ..a
        }),
        (None, None) => true,
        _ => false,
    }
}

/// A capture, where there is one, has lost its last `n` rows, as far as it had so many,
/// and nothing else.
pub open spec fn cut(
    before: Option<HiddenCapture>,
    after: Option<HiddenCapture>,
    n: int,
) -> bool {
    match (before, after) {
        (Some(x), Some(y)) => {
            &&& y.same_setup(x)
            &&& y.step_mask == x.step_mask
            &&& y.t == kv_slot::max2(x.t - n, 0)
            &&& y.concat@ == x.concat@.subrange(0, y.t * x.stride())
        },
        (None, None) => true,
        _ => false,
    }
}

impl GpuDecodeSession {
    /// The session is sound: the caches fit the model, the capture fits its
    /// width, and a conditioner comes with a capture.
    pub open spec fn wf(self) -> bool {
        &&& self.model.wf()
        &&& self.model.layers@.len() < usize::MAX
        &&& step_plan::bank_fits(self.model, self.kv@)
        &&& capture_fits(self.capture, self.model.hidden)
        &&& self.conditioner matches Some(c) ==> c.wf() && self.capture is Some
    }

    /// The caches can count this many more timesteps.
    pub open spec fn can_count(self, n: int) -> bool {
        &&& self.pos + n <= usize::MAX
        &&& self.kv@.lens_at_most(usize::MAX - n)
    }

    /// Bytes of the captured row on the device.
    pub open spec fn row_bytes(self) -> int {
        match self.capture {
            Some(c) => c.stride() * 4,
            None => 0,
        }
    }

    /// A new session at position zero, which the device is told.
    pub fn new(model: GpuSynthModel, q: &mut Vec<Op>) -> (r: GpuDecodeSession)
        requires
            model.wf(),
            model.layers@.len() < usize::MAX,
            caches_fit(model),
        ensures
            r.wf(),
            r.model == model,
            r.pos == 0,
            r.kv@ == empty_bank(model),
            r.capture is None,
            r.conditioner is None,
            r.max_kv == kv_slot::max2(model.kv.max_seq as int, 16),
            r.gate_down_hits == 0,
            r.fa_o_hits == 0,
            r.last_fail == 0,
            final(q)@ == old(q)@.push(Op::WritePos { pos: 0 }),
    {
        q.push(Op::WritePos { pos: 0 });
        let window: usize = model.cfg.sliding_window_or(512);
        let max_kv: usize = larger(model.kv.max_seq, 16);
        let kvh: usize = model.cfg.num_key_value_heads;
        let d: usize = model.cfg.head_dim;
        let gkv: usize = model.cfg.global_kv_heads();
        let gd: usize = model.cfg.global_head_dim;
        let ring = GpuKvSlot::new(window, kvh, d, true);
        let sliding = GpuKvSlot::new(max_kv, kvh, d, false);
        let global = GpuKvSlot::new(max_kv, gkv, gd, false);
        let kv = KvBank {
            sliding_rings: repeat_slot(ring, model.kv.sliding_ring_slots),
            global_slots: repeat_slot(global, model.kv.global_full_slots),
            shared_sliding: sliding,
            shared_global: global,
        };
        proof {
            kv_slot::lemma_product_bound(max_kv as int, kvh as int, d as int, usize::MAX as int);
            kv_slot::lemma_product_bound(max_kv as int, gkv as int, gd as int, usize::MAX as int);
            assert(kv@ =~= empty_bank(model));
            assert forall|q: SlotRef| #[trigger] kv@.has(q) implies kv@.slot(q).wf() && kv@.slot(
                q,
            ).row() <= usize::MAX by {}
        }
        GpuDecodeSession {
            model,
            kv,
            pos: 0,
            capture: None,
            conditioner: None,
            max_kv,
            gate_down_hits: 0,
            fa_o_hits: 0,
            last_fail: 0,
        }
    }

    /// The model and the room of the caches are the same.
    pub open spec fn same_setup(self, other: GpuDecodeSession) -> bool {
        &&& self.model == other.model
        &&& self.max_kv == other.max_kv
    }

    /// The session after everything that was decoded is forgotten: what was attached
    /// stays attached, and is empty.
    pub open spec fn forgotten(self, after: GpuDecodeSession) -> bool {
        &&& after == (GpuDecodeSession {
            kv: after.kv,
            pos: 0,
            capture: after.capture,
            conditioner: after.conditioner,
            ..self
        })
        &&& after.kv@ == self.kv@.emptied()
        &&& match (self.capture, after.capture) {
            (Some(a), Some(b)) => {
                &&& b.same_setup(a)
                &&& b.t == 0
                &&& b.concat@.len() == 0
                &&& b.step_mask@ == Seq::new(a.step_mask@.len(), |i: int| false)
            },
            (None, None) => true,
            _ => false,
        }
        &&& emptied(self.conditioner, after.conditioner)
    }

    /// Forgets everything that was decoded, once the device has done what was asked.
    pub fn reset(&mut self, q: &mut Vec<Op>)
        requires
            old(self).wf(),
        ensures
            final(self).wf(),
            old(self).forgotten(*final(self)),
            final(q)@ == old(q)@ + seq![Op::Synchronize, Op::WritePos { pos: 0 }],
    {
        q.push(Op::Synchronize);
        q.push(Op::WritePos { pos: 0 });
        assert(q@ =~= old(q)@ + seq![Op::Synchronize, Op::WritePos { pos: 0 }]);
        self.kv.reset();
        self.pos = 0;
        match self.capture.take() {
            None => {},
            Some(mut c) => {
                c.clear();
                self.capture = Some(c);
            },
        }
        match self.conditioner.take() {
            None => {},
            Some(mut c) => {
                c.clear();
                self.conditioner = Some(c);
            },
        }
    }

    /// Why layers cannot be captured, if they cannot.
    pub open spec fn capture_refusal(self, ids: Seq<usize>) -> Option<ErrorV> {
        if exists|i: int| first_beyond(ids, self.model.layers@.len() as int, i) {
            let i = choose|i: int| first_beyond(ids, self.model.layers@.len() as int, i);
            Some(
                error::config_error(
                    "enable_hidden_capture: layer "@ + text::dec(ids[i] as nat)
                        + " OOB (n_layers="@ + text::dec(self.model.layers@.len()) + ")"@,
                ),
            )
        } else if ids.len() == 0 {
            Some(error::config_error("HiddenCapture: empty layer_ids"@))
        } else if self.model.hidden == 0 {
            Some(error::config_error("HiddenCapture: hidden=0"@))
        } else {
            None
        }
    }

    /// Captures the residual after each of the given layers from now on.
    pub fn enable_hidden_capture(&mut self, layer_ids: Vec<usize>) -> (r: Result<()>)
        requires
            old(self).wf(),
            layer_ids@.len() * old(self).model.hidden * 4 <= usize::MAX,
        ensures
            final(self).wf(),
            match old(self).capture_refusal(layer_ids@) {
                Some(e) => error::fails_with(r, e) && *final(self) == *old(self),
                None => {
                    &&& r is Ok
                    &&& final(self).capture matches Some(c) && empty_capture(
                        c,
                        layer_ids@,
                        old(self).model.hidden,
                    )
                    &&& *final(self) == (GpuDecodeSession {
                        capture: final(self).capture,
                        ..*old(self)
                    })
                },
            },
    {
        let n_layers: usize = self.model.layers.len();
        let mut i: usize = 0;
        while i < layer_ids.len()
            invariant
                i <= layer_ids@.len(),
                *self == *old(self),
                self.wf(),
                n_layers == self.model.layers@.len(),
                forall|j: int| 0 <= j < i ==> layer_ids@[j] < n_layers,
            decreases layer_ids@.len() - i,
        {
            if layer_ids[i] >= n_layers {
                proof {
                    assert(first_beyond(layer_ids@, n_layers as int, i as int));
                    let w = choose|w: int| first_beyond(layer_ids@, n_layers as int, w);
                    assert(w == i) by {
                        if w < i {
                            assert(layer_ids@[w] < n_layers);
                        } else if i < w {
                            assert(layer_ids@[i as int] < n_layers);
                        }
                    }
                }
                return Err(
                    Error::Config(
                        text::text2(
                            "enable_hidden_capture: layer ",
                            layer_ids[i] as u64,
                            " OOB (n_layers=",
                            n_layers as u64,
                            ")",
                        ),
                    ),
                );
            }
            i = i + 1;
        }
        assert(!exists|w: int| first_beyond(layer_ids@, n_layers as int, w));
        match HiddenCapture::new(layer_ids, self.model.hidden) {
            Err(e) => Err(e),
            Ok(c) => {
                assert(c.step_mask@ =~= Seq::new(layer_ids@.len(), |i: int| false));
                self.capture = Some(c);
                Ok(())
            },
        }
    }

    /// Stops capturing.
    pub fn disable_hidden_capture(&mut self)
        requires
            old(self).wf(),
        ensures
            final(self).wf(),
            *final(self) == (GpuDecodeSession { capture: None, conditioner: None, ..*old(self) }),
    {
        self.capture = None;
        self.conditioner = None;
    }

    /// Attaches a conditioner; where no capture is on, its layers are captured
    /// from now on.
    pub fn attach_gpu_conditioner(&mut self, cond: DFlashGpuConditioner) -> (r: Result<()>)
        requires
            old(self).wf(),
            cond.wf(),
            cond.target_layer_ids@.len() * old(self).model.hidden * 4 <= usize::MAX,
        ensures
            final(self).wf(),
            match old(self).capture {
                Some(c) => if c.layer_ids@ == cond.target_layer_ids@ {
                    r is Ok && *final(self) == (GpuDecodeSession {
                        conditioner: Some(cond),
                        ..*old(self)
                    })
                } else {
                    *final(self) == *old(self) && error::fails_with(
                        r,
                        error::config_error(
                            "attach_gpu_conditioner: layer_ids mismatch vs enabled capture"@,
                        ),
                    )
                },
                None => match old(self).capture_refusal(cond.target_layer_ids@) {
                    Some(e) => error::fails_with(r, e) && *final(self) == *old(self),
                    None => {
                        &&& r is Ok
                        &&& final(self).capture matches Some(c) && empty_capture(
                            c,
                            cond.target_layer_ids@,
                            old(self).model.hidden,
                        )
                        &&& *final(self) == (GpuDecodeSession {
                            capture: final(self).capture,
                            conditioner: Some(cond),
                            ..*old(self)
                        })
                    },
                },
            },
    {
        let matching = match &self.capture {
            None => None,
            Some(c) => Some(same_ids(&c.layer_ids, &cond.target_layer_ids)),
        };
        match matching {
            Some(false) => {
                return Err(
                    Error::Config(
                        String::from_str(
                            "attach_gpu_conditioner: layer_ids mismatch vs enabled capture",
                        ),
                    ),
                );
            },
            Some(true) => {},
            None => {
                let ids = copy_ids(&cond.target_layer_ids);
                match self.enable_hidden_capture(ids) {
                    Err(e) => {
                        return Err(e);
                    },
                    Ok(()) => {},
                }
            },
        }
        self.conditioner = Some(cond);
        Ok(())
    }

    /// Context rows of the conditioner; zero where there is none.
    pub fn conditioner_h_ctx_len(&self) -> (r: usize)
        ensures
            r == self.ctx_rows(),
    {
        match &self.conditioner {
            Some(c) => c.h_ctx_len(),
            None => 0,
        }
    }

    /// Context rows of the conditioner; zero where there is none.
    pub open spec fn ctx_rows(self) -> int {
        match self.conditioner {
            Some(c) => c.ctx_len as int,
            None => 0,
        }
    }

    /// Captured rows; zero where nothing is captured.
    pub open spec fn rows(self) -> int {
        match self.capture {
            Some(c) => c.t as int,
            None => 0,
        }
    }

    /// What reading the conditioner's buffer gives: its first floats, where one is
    /// attached.
    pub open spec fn conditioner_read(self, r: Result<Vec<u32>>, buffer: Seq<u32>, rows: int) -> bool {
        match self.conditioner {
            Some(c) => r matches Ok(v) && v@ == buffer.subrange(0, rows * c.hidden),
            None => error::fails_with(r, error::config_error("no GPU conditioner attached"@)),
        }
    }

    /// The projected context, out of what its buffer holds; floats as bits.
    pub fn read_conditioner_h_ctx(&self, buffer: &[u32]) -> (r: Result<Vec<u32>>)
        requires
            self.wf(),
            self.conditioner matches Some(c) ==> c.ctx_len * c.hidden <= buffer@.len(),
        ensures
            self.conditioner_read(r, buffer@, self.ctx_rows()),
    {
        match &self.conditioner {
            Some(c) => Ok(c.read_h_ctx(buffer)),
            None => Err(Error::Config(String::from_str("no GPU conditioner attached"))),
        }
    }

    /// The last projected row, before its norm, out of what its buffer holds; floats
    /// as bits.
    pub fn read_conditioner_fc_out(&self, buffer: &[u32]) -> (r: Result<Vec<u32>>)
        requires
            self.conditioner matches Some(c) ==> c.hidden <= buffer@.len(),
        ensures
            self.conditioner_read(r, buffer@, 1),
    {
        match &self.conditioner {
            Some(c) => Ok(c.read_fc_out(buffer)),
            None => Err(Error::Config(String::from_str("no GPU conditioner attached"))),
        }
    }

    /// Bytes of the buffer that holds the conditioner's context.
    pub fn conditioner_h_ctx_buf(&self) -> (r: Result<usize>)
        requires
            self.wf(),
        ensures
            match self.conditioner {
                Some(c) => r == Ok::<usize, Error>((c.max_ctx * c.hidden * 4) as usize),
                None => error::fails_with(r, error::config_error("no GPU conditioner attached"@)),
            },
    {
        match &self.conditioner {
            Some(c) => Ok(c.h_ctx_buf()),
            None => Err(Error::Config(String::from_str("no GPU conditioner attached"))),
        }
    }

    /// Looks through the residual, of which the buffer's first row is in use; floats
    /// as bits.
    pub fn debug_x_stats(&self, x: &[u32]) -> (r: LogitsStats)
        requires
            self.model.hidden <= x@.len(),
            self.model.hidden <= u32::MAX,
        ensures
            floats::stats_of(x@.subrange(0, self.model.hidden as int), r),
    {
        floats::stats_f32(vstd::slice::slice_subrange(x, 0, self.model.hidden))
    }

    /// Looks through the logits; floats as bits.
    pub fn debug_logits_stats(&self, logits: &[u32]) -> (r: LogitsStats)
        requires
            logits@.len() <= u32::MAX,
        ensures
            floats::stats_of(logits@, r),
    {
        floats::stats_f32(logits)
    }

    /// Calls of the persistent kernel for the gated edge.
    pub fn persistent_interp_gate_down_hits(&self) -> (r: u64)
        ensures
            r == self.gate_down_hits,
    {
        self.gate_down_hits
    }

    /// Calls of the persistent kernel for the attention edge.
    pub fn persistent_interp_fa_o_hits(&self) -> (r: u64)
        ensures
            r == self.fa_o_hits,
    {
        self.fa_o_hits
    }

    /// What the persistent kernel last reported.
    pub fn persistent_interp_last_fail(&self) -> (r: u32)
        ensures
            r == self.last_fail,
    {
        self.last_fail
    }

    /// Captured rows; zero where nothing is captured.
    pub fn capture_len(&self) -> (r: usize)
        ensures
            r == self.rows(),
    {
        match &self.capture {
            Some(c) => c.t,
            None => 0,
        }
    }

    /// The captured rows and how many there are.
    pub fn captured_concat(&self) -> (r: Result<(Vec<u32>, usize)>)
        ensures
            match self.capture {
                Some(c) => r matches Ok((data, t)) && data@ == c.concat@ && t == c.t,
                None => error::fails_with(r, error::config_error("hidden capture not enabled"@)),
            },
    {
        match &self.capture {
            Some(c) => {
                let data: Vec<u32> = c.concat.clone();
                assert(data@ =~= c.concat@);
                Ok((data, c.t))
            },
            None => Err(Error::Config(String::from_str("hidden capture not enabled"))),
        }
    }

    /// Forgets the last `n` captured rows, and as many context rows as there are.
    pub fn trim_captured(&mut self, n: usize) -> (r: Result<()>)
        requires
            old(self).wf(),
        ensures
            final(self).wf(),
            *final(self) == (GpuDecodeSession {
                capture: final(self).capture,
                conditioner: final(self).conditioner,
                ..*old(self)
            }),
            old(self).capture is Some && n > old(self).rows() ==> *final(self) == *old(self)
                && error::fails_with(
                r,
                error::config_error(
                    "HiddenCapture::trim_recent "@ + text::dec(n as nat) + " > t="@ + text::dec(
                        old(self).rows() as nat,
                    ),
                ),
            ),
            old(self).capture is None || n <= old(self).rows() ==> {
                &&& r is Ok
                &&& cut(old(self).capture, final(self).capture, n as int)
                &&& shortened(old(self).conditioner, final(self).conditioner, n as int)
            },
    {
        match self.capture.take() {
            None => {},
            Some(mut c) => {
                let r = c.trim_recent(n);
                self.capture = Some(c);
                match r {
                    Err(e) => {
                        return Err(e);
                    },
                    Ok(()) => {},
                }
            },
        }
        self.trim_context(n);
        Ok(())
    }

    /// Forgets the last `n` context rows, as far as there are so many.
    pub fn trim_context(&mut self, n: usize)
        requires
            old(self).wf(),
        ensures
            final(self).wf(),
            *final(self) == (GpuDecodeSession {
                conditioner: final(self).conditioner,
                ..*old(self)
            }),
            match (old(self).conditioner, final(self).conditioner) {
                (Some(a), Some(b)) => b == (DFlashGpuConditioner {
                    ctx_len: (a.ctx_len - kv_slot::min2(n as int, a.ctx_len as int)) as usize,
                    ..a
                }),
                (None, None) => true,
                _ => false,
            },
    {
        match self.conditioner.take() {
            None => {},
            Some(mut c) => {
                let k: usize = if n <= c.ctx_len {
                    n
                } else {
                    c.ctx_len
                };
                let _ = c.trim_recent(k);
                self.conditioner = Some(c);
            },
        }
    }

    /// The position of the next token.
    pub fn pos(&self) -> (r: usize)
        ensures
            r == self.pos,
    {
        self.pos
    }
}

/// The first id at or beyond `n`.
pub open spec fn first_beyond(ids: Seq<usize>, n: int, i: int) -> bool {
    &&& 0 <= i < ids.len()
    &&& ids[i] >= n
    &&& forall|j: int| 0 <= j < i ==> ids[j] < n
}

/// Whether two id lists are the same.
pub fn same_ids(a: &Vec<usize>, b: &Vec<usize>) -> (r: bool)
    ensures
        r == (a@ == b@),
{
    if a.len() != b.len() {
        return false;
    }
    let mut i: usize = 0;
    while i < a.len()
        invariant
            i <= a@.len(),
            a@.len() == b@.len(),
            forall|j: int| 0 <= j < i ==> a@[j] == b@[j],
        decreases a@.len() - i,
    {
        if a[i] != b[i] {
            return false;
        }
        i = i + 1;
    }
    assert(a@ =~= b@);
    true
}

/// A copy of an id list.
pub fn copy_ids(a: &Vec<usize>) -> (r: Vec<usize>)
    ensures
        r@ == a@,
{
    let r: Vec<usize> = a.clone();
    assert(r@ =~= a@);
    r
}

} // verus!
