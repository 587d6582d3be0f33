//! The command sequence of one verify call: several tokens in one pass, each
//! with its own cache row, attention row and greedy choice.

use crate::decode;
use crate::error;
use crate::error::{Error, ErrorV, Result};
use crate::kv_bank;
use crate::kv_bank::{KvBank, KvBankV};
use crate::kv_slot;
use crate::kv_slot::GpuKvSlot;
use crate::model;
use crate::model::{GpuSynthLayer, GpuSynthModel};
use crate::ops::{Bank, Buf, Factor, NormW, Op, SlotRef};
use crate::session;
use crate::session::VERIFY_MAX_M;
use crate::step_plan;
use crate::step_plan::StepFlags;
use crate::text;
use vstd::prelude::*;
use vstd::slice::*;
use vstd::string::*;

verus! {

/// How a verify call runs.
#[derive(Clone, Copy, Debug, PartialEq, Eq, Structural)]
pub enum VerifyPath {
    /// All tokens in one pass.
    Block,
    /// Token by token.
    Steps,
}

/// The error for a block of unusable length.
pub open spec fn bad_block(m: int) -> ErrorV {
    error::config_error("step_verify: M="@ + text::dec(m as nat) + " outside 1..=8"@)
}

/// Chooses how a verify call of `m` tokens runs.
pub fn verify_path(m: usize, force_steps: bool, block_available: bool, head_batches: bool) -> (r:
    Result<VerifyPath>)
    ensures
        m == 0 || m > 8 ==> error::fails_with(r, bad_block(m as int)),
        1 <= m <= 8 ==> r == Ok::<VerifyPath, Error>(
            if m > 1 && !force_steps && block_available && head_batches {
                VerifyPath::Block
            } else {
                VerifyPath::Steps
            },
        ),
{
    if m == 0 || m > VERIFY_MAX_M {
        return Err(Error::Config(text::text1("step_verify: M=", m as u64, " outside 1..=8")));
    }
    if m > 1 && !force_steps && block_available && head_batches {
        Ok(VerifyPath::Block)
    } else {
        Ok(VerifyPath::Steps)
    }
}

/// Whether the scratch holds a whole block and the kernels are there.
pub fn gemm_verify_available(m: &GpuSynthModel, x_bytes: usize, logits_bytes: usize, kernels: bool) -> (r:
    bool)
    requires
        kv_slot::max2(m.hidden as int, 1) * 32 <= usize::MAX,
        kv_slot::max2(m.vocab as int, 1) * 32 <= usize::MAX,
    ensures
        r == (x_bytes >= kv_slot::max2(m.hidden as int, 1) * 32 && logits_bytes >= kv_slot::max2(
            m.vocab as int,
            1,
        ) * 32 && kernels),
{
    let h: usize = if m.hidden >= 1 {
        m.hidden
    } else {
        1
    };
    let v: usize = if m.vocab >= 1 {
        m.vocab
    } else {
        1
    };
    x_bytes >= h * 32 && logits_bytes >= v * 32 && kernels
}

/// The seed buffer: the tokens, then zeros.
pub fn pad_seeds(tokens: &[u32]) -> (r: Vec<u32>)
    requires
        tokens@.len() <= 8,
    ensures
        r@.len() == 8,
        forall|i: int|
            0 <= i < 8 ==> #[trigger] r@[i] == (if i < tokens@.len() {
                tokens@[i]
            } else {
                0
            }),
{
    let mut out: Vec<u32> = Vec::new();
    let mut i: usize = 0;
    while i < VERIFY_MAX_M
        invariant
            i <= 8,
            tokens@.len() <= 8,
            out@.len() == i,
            forall|j: int|
                0 <= j < i ==> #[trigger] out@[j] == (if j < tokens@.len() {
                    tokens@[j]
                } else {
                    0
                }),
        decreases 8 - i,
    {
        if i < tokens.len() {
            out.push(tokens[i]);
        } else {
            out.push(0);
        }
        i = i + 1;
    }
    out
}

/// A block of eight rows fits the device's 32-bit counts.
pub open spec fn block_fits(m: GpuSynthModel) -> bool {
    &&& 8 * m.hidden <= u32::MAX
    &&& 8 * m.intermediate <= u32::MAX
    &&& 8 * m.vocab <= usize::MAX
    &&& forall|i: int|
        0 <= i < m.layers@.len() ==> 8 * (#[trigger] m.layers@[i]).hq * m.layers@[i].head_dim
            <= u32::MAX
}

/// Embedding of a block.
pub open spec fn embed_rows(m: GpuSynthModel, tokens: Seq<u32>, n: int) -> std::result::Result<
    Seq<Op>,
    ErrorV,
>
    decreases n,
{
    if n <= 0 {
        Ok(seq![])
    } else {
        match embed_rows(m, tokens, n - 1) {
            Err(e) => Err(e),
            Ok(ops) => if m.has_embed_q {
                Ok(
                    ops.push(
                        Op::EmbedQuantRow {
                            token: tokens[n - 1],
                            at_row: (n - 1) as u32,
                            scaled: model::scales(m.embed_scale_bits),
                        },
                    ),
                )
            } else if tokens[n - 1] * m.hidden + m.hidden > m.embed_len {
                Err(session::out_of_vocabulary(tokens[n - 1]))
            } else {
                Ok(
                    ops.push(
                        Op::EmbedDenseRow {
                            start: (tokens[n - 1] * m.hidden) as usize,
                            at_row: (n - 1) as u32,
                            scaled: m.embed_scale_bits != model::ONE_BITS,
                        },
                    ),
                )
            },
        }
    }
}

/// Embedding of a block, from whichever table the model has.
pub open spec fn embed_block(m: GpuSynthModel, tokens: Seq<u32>) -> std::result::Result<
    Seq<Op>,
    ErrorV,
> {
    if m.has_embed_hot {
        Ok(
            seq![
                Op::EmbedHot { rows: tokens.len() as u32 },
                Op::Scale {
                    dst: Buf::X,
                    by: Factor::Embed,
                    n: (tokens.len() * m.hidden) as u32,
                },
            ],
        )
    } else {
        embed_rows(m, tokens, tokens.len() as int)
    }
}

/// If a shorter block fails, a longer one fails the same way.
proof fn lemma_embed_prefix(m: GpuSynthModel, tokens: Seq<u32>, k: int, n: int)
    requires
        0 <= k <= n,
    ensures
        embed_rows(m, tokens, k) matches Err(e) ==> embed_rows(m, tokens, n) == Err::<
            Seq<Op>,
            ErrorV,
        >(e),
    decreases n,
{
    if k < n {
        lemma_embed_prefix(m, tokens, k, n - 1);
    }
}

/// Queues the embedding of a block.
pub fn embed_verify_tokens(q: &mut Vec<Op>, m: &GpuSynthModel, tokens: &[u32]) -> (r: Result<()>)
    requires
        m.wf(),
        block_fits(*m),
        tokens@.len() <= 8,
    ensures
        match embed_block(*m, tokens@) {
            Ok(ops) => r is Ok && final(q)@ == old(q)@ + ops,
            Err(e) => error::fails_with(r, e),
        },
{
    let n: usize = tokens.len();
    if m.has_embed_hot {
        assert(n * m.hidden <= 8 * m.hidden) by (nonlinear_arith)
            requires
                n <= 8,
        ;
        assert(n * m.hidden == m.hidden * n) by (nonlinear_arith);
        q.push(Op::EmbedHot { rows: n as u32 });
        q.push(Op::Scale { dst: Buf::X, by: Factor::Embed, n: (n * m.hidden) as u32 });
        return Ok(());
    }
    let scaled = model::differs_from_one(m.embed_scale_bits);
    let mut i: usize = 0;
    assert(q@ =~= old(q)@ + embed_rows(*m, tokens@, 0)->Ok_0);
    while i < n
        invariant
            i <= n,
            n == tokens@.len(),
            n <= 8,
            m.wf(),
            !m.has_embed_hot,
            scaled == model::scales(m.embed_scale_bits),
            embed_rows(*m, tokens@, i as int) matches Ok(ops) && q@ == old(q)@ + ops,
        decreases n - i,
    {
        let tid: u32 = tokens[i];
        proof {
            lemma_embed_prefix(*m, tokens@, i + 1, n as int);
        }
        if m.has_embed_q {
            q.push(Op::EmbedQuantRow { token: tid, at_row: i as u32, scaled });
        } else {
            match decode::dense_row(m, tid) {
                None => {
                    return Err(Error::Config(text::text1("token ", tid as u64, " OOV")));
                },
                Some(start) => {
                    q.push(
                        Op::EmbedDenseRow {
                            start,
                            at_row: i as u32,
                            scaled: m.embed_scale_bits != model::ONE_BITS,
                        },
                    );
                },
            }
        }
        assert(q@ =~= old(q)@ + embed_rows(*m, tokens@, i + 1)->Ok_0);
        i = i + 1;
    }
    Ok(())
}

/// Everything of a layer up to its rotary embedding.
pub open spec fn block_head_ops(f: StepFlags, m: GpuSynthModel, li: usize, rows: int) -> Seq<Op> {
    let p = m.layers@[li as int];
    step_plan::norm_act(f, NormW::Input(li), rows, m.hidden as int) + step_plan::barrier_if(
        f.hazard,
    ) + seq![Op::Mat { bank: Bank::Q(li), src: Buf::Act, dst: Buf::Q, rows: rows as u32 }] + (
    if p.produces() {
        seq![
            Op::Mat { bank: Bank::K(li), src: Buf::Act, dst: Buf::K, rows: rows as u32 },
            Op::Mat { bank: Bank::V(li), src: Buf::Act, dst: Buf::V, rows: rows as u32 },
        ]
    } else {
        seq![]
    }) + step_plan::barrier_if(f.hazard) + seq![
        Op::Rope { layer: li, rows: rows as u32, q_only: !p.produces() },
    ]
}

/// Cache writes of one layer.
pub open spec fn block_cache_ops(
    f: StepFlags,
    m: GpuSynthModel,
    b: KvBankV,
    li: usize,
    rows: int,
) -> std::result::Result<(KvBankV, Seq<Op>), ErrorV> {
    let p = m.layers@[li as int];
    if !p.produces() {
        Ok((b, seq![]))
    } else {
        match b.append_m(p.reads(), rows) {
            Err(e) => Err(e),
            Ok((b1, own)) => if m.kv.feeds_shared(li as int) {
                match b1.append_m(p.shares(), rows) {
                    Err(e) => Err(e),
                    Ok((b2, shared)) => Ok((b2, step_plan::barrier_if(f.hazard) + own + shared)),
                }
            } else {
                Ok((b1, step_plan::barrier_if(f.hazard) + own))
            },
        }
    }
}

/// Per-layer embedding of row `i`.
pub open spec fn ple_row(f: StepFlags, m: GpuSynthModel, li: usize, i: int) -> Seq<Op> {
    seq![Op::CopyToken { src: Buf::VerifySeeds, index: i as u32, dst: Buf::SeedTok }]
        + step_plan::barrier_if(f.hazard) + seq![
        if m.has_ple_q4 {
            Op::PleQ4 { layer: li }
        } else {
            Op::PleTable { layer: li }
        },
    ] + step_plan::barrier_if(f.hazard) + seq![
        Op::ResidualAdd {
            src: Buf::PleOut,
            by: Factor::InvSqrt2,
            at: (i * m.hidden) as usize,
            n: m.cfg.hidden_size_per_layer_input as u32,
        },
    ]
}

/// Per-layer embedding of the first `n` rows.
pub open spec fn ple_rows(f: StepFlags, m: GpuSynthModel, li: usize, n: int) -> Seq<Op>
    decreases n,
{
    if n <= 0 || !m.ple_at(li as int) {
        seq![]
    } else {
        ple_rows(f, m, li, n - 1) + ple_row(f, m, li, n - 1)
    }
}

/// The feed-forward part of a block.
pub open spec fn block_mlp_ops(f: StepFlags, m: GpuSynthModel, li: usize, rows: int) -> Seq<Op> {
    let p = m.layers@[li as int];
    let dual = step_plan::dual_norm(f, m, li as int);
    let inter = (rows * m.intermediate) as u32;
    (step_plan::barrier_if(f.hazard) + step_plan::norm_act(
        f,
        step_plan::ff_norm(p, li),
        rows,
        m.hidden as int,
    ) + step_plan::barrier_if(f.hazard)) + (seq![
        Op::Mat { bank: Bank::Gate(li), src: Buf::Act, dst: Buf::Gate, rows: rows as u32 },
        Op::Mat { bank: Bank::Up(li), src: Buf::Act, dst: Buf::Up, rows: rows as u32 },
    ] + step_plan::barrier_if(f.hazard) + seq![Op::Gelu { half: f.fuse_bf16_mlp, n: inter }] + (
    if f.fuse_bf16_mlp {
        seq![]
    } else {
        seq![Op::CastAct { src: Buf::Mid, n: inter }]
    }) + step_plan::barrier_if(f.hazard)) + step_plan::down_ops(
        f,
        p,
        dual,
        li,
        rows,
        m.hidden as int,
    ) + step_plan::scalar_ops(f, p, dual, li, rows * m.hidden)
}

/// Why a reading layer cannot attend, if it cannot.
pub open spec fn block_reader_behind(
    p: GpuSynthLayer,
    s: GpuKvSlot,
    pos0: int,
    rows: int,
) -> Option<ErrorV> {
    if !p.produces() && kv_slot::low32(pos0 + rows) > kv_slot::low32(s.seq_len as int) {
        Some(
            error::kv_error(
                "consumer verify pos0="@ + text::dec(pos0 as nat) + " M="@ + text::dec(rows as nat)
                    + " shared tkv="@ + text::dec(s.seq_len as nat),
            ),
        )
    } else {
        None
    }
}

/// One whole layer of a block: the caches after it and its commands.
#[verifier::opaque]
pub open spec fn block_layer_run(
    f: StepFlags,
    m: GpuSynthModel,
    b: KvBankV,
    li: usize,
    pos0: int,
    rows: int,
) -> std::result::Result<(KvBankV, Seq<Op>), ErrorV> {
    let p = m.layers@[li as int];
    match step_plan::missing_weight(p, li) {
        Some(e) => Err(e),
        None => match block_cache_ops(f, m, b, li, rows) {
            Err(e) => Err(e),
            Ok((b1, cache)) => match block_reader_behind(p, b1.slot(p.reads()), pos0, rows) {
                Some(e) => Err(e),
                None => Ok(
                    (
                        b1,
                        block_head_ops(f, m, li, rows) + cache + step_plan::attend_ops(
                            f,
                            p,
                            b1.slot(p.reads()),
                            li,
                            rows,
                            kv_slot::low32(pos0 + rows),
                            kv_slot::low32(pos0),
                        ) + step_plan::out_proj_ops(
                            f,
                            step_plan::dual_norm(f, m, li as int),
                            li,
                            rows,
                            m.hidden as int,
                        ) + ple_rows(f, m, li, rows) + block_mlp_ops(f, m, li, rows),
                    ),
                ),
            },
        },
    }
}

/// The caches where a layer that fails stops: what it had written stays written.
pub open spec fn block_layer_stop(m: GpuSynthModel, b: KvBankV, li: usize, rows: int) -> KvBankV {
    let p = m.layers@[li as int];
    if step_plan::missing_weight(p, li) is None && p.produces() {
        match b.append_m(p.reads(), rows) {
            Ok((b1, _)) => if m.kv.feeds_shared(li as int) {
                b1.filled_up(p.shares(), rows)
            } else {
                b1
            },
            Err(_) => b.filled_up(p.reads(), rows),
        }
    } else {
        b
    }
}

fn push_block_head(q: &mut Vec<Op>, f: StepFlags, m: &GpuSynthModel, li: usize, rows: u32)
    requires
        m.wf(),
        block_fits(*m),
        li < m.layers@.len(),
        rows <= 8,
    ensures
        final(q)@ == old(q)@ + block_head_ops(f, *m, li, rows as int),
{
    let p = m.layers[li];
    assert(rows * m.hidden <= 8 * m.hidden) by (nonlinear_arith)
        requires
            rows <= 8,
    ;
    step_plan::push_norm_act(q, f, NormW::Input(li), rows, m.hidden as u32);
    step_plan::push_barrier(q, f.hazard);
    q.push(Op::Mat { bank: Bank::Q(li), src: Buf::Act, dst: Buf::Q, rows });
    if p.is_producer() {
        q.push(Op::Mat { bank: Bank::K(li), src: Buf::Act, dst: Buf::K, rows });
        q.push(Op::Mat { bank: Bank::V(li), src: Buf::Act, dst: Buf::V, rows });
    }
    step_plan::push_barrier(q, f.hazard);
    q.push(Op::Rope { layer: li, rows, q_only: !p.is_producer() });
    assert(q@ =~= old(q)@ + block_head_ops(f, *m, li, rows as int));
}

/// Every slot can take `rows` more timesteps without its counts overflowing.
pub open spec fn block_addressable(b: KvBankV, rows: int) -> bool {
    forall|r: SlotRef| #[trigger]
        b.has(r) ==> rows * b.slot(r).row() <= usize::MAX
}

fn push_block_cache(
    q: &mut Vec<Op>,
    f: StepFlags,
    m: &GpuSynthModel,
    b: &mut KvBank,
    li: usize,
    rows: usize,
) -> (r: Result<()>)
    requires
        m.wf(),
        step_plan::bank_fits(*m, old(b)@),
        li < m.layers@.len(),
        old(b)@.lens_at_most(usize::MAX - rows),
        block_addressable(old(b)@, rows as int),
    ensures
        step_plan::bank_fits(*m, final(b)@),
        final(b)@.same_shapes(old(b)@),
        match block_cache_ops(f, *m, old(b)@, li, rows as int) {
            Ok((b1, ops)) => r is Ok && final(b)@ == b1 && final(q)@ == old(q)@ + ops,
            Err(e) => error::fails_with(r, e) && (step_plan::missing_weight(
                m.layers@[li as int],
                li,
            ) is None ==> final(b)@ == block_layer_stop(*m, old(b)@, li, rows as int)),
        },
{
    let p = m.layers[li];
    proof {
        step_plan::lemma_slots_exist(*m, b@, li as int);
    }
    if !p.is_producer() {
        assert(q@ =~= old(q)@ + seq![]);
        return Ok(());
    }
    let own = p.read_slot();
    step_plan::push_barrier(q, f.hazard);
    match b.append_m(own, rows, q) {
        Err(e) => {
            return Err(e);
        },
        Ok(()) => {},
    }
    let ghost own_ops = old(b)@.append_m(own, rows as int)->Ok_0.1;
    if m.kv.updates_shared(li) {
        let shared = p.shared_slot();
        proof {
            step_plan::lemma_slots_exist(*m, b@, li as int);
            let s = old(b)@.slot(own);
            kv_slot::holding_is_wf(s, s.seq_len + rows);
            kv_bank::lemma_with(old(b)@, own, s.holding(s.seq_len + rows));
            assert(old(b)@.has(shared));
            assert(b@.slot(shared) == old(b)@.slot(shared));
        }
        let ghost mid = b@;
        match b.append_m(shared, rows, q) {
            Err(e) => {
                return Err(e);
            },
            Ok(()) => {},
        }
        proof {
            let sh = mid.append_m(shared, rows as int)->Ok_0.1;
            step_plan::lemma_cat3(old(q)@, step_plan::barrier_if(f.hazard), own_ops, sh);
        }
    } else {
        assert(old(q)@ + step_plan::barrier_if(f.hazard) + own_ops =~= old(q)@ + (
        step_plan::barrier_if(f.hazard) + own_ops));
    }
    Ok(())
}

fn push_ple_rows(q: &mut Vec<Op>, f: StepFlags, m: &GpuSynthModel, li: usize, rows: usize)
    requires
        m.wf(),
        block_fits(*m),
        li < m.layers@.len(),
        rows <= 8,
    ensures
        final(q)@ == old(q)@ + ple_rows(f, *m, li, rows as int),
{
    let p = m.layers[li];
    if !(p.has_ple_table || m.has_ple_q4) {
        assert(q@ =~= old(q)@ + ple_rows(f, *m, li, rows as int));
        return ;
    }
    let mut i: usize = 0;
    assert(q@ =~= old(q)@ + ple_rows(f, *m, li, 0));
    while i < rows
        invariant
            i <= rows,
            rows <= 8,
            m.wf(),
            block_fits(*m),
            li < m.layers@.len(),
            m.ple_at(li as int),
            q@ == old(q)@ + ple_rows(f, *m, li, i as int),
        decreases rows - i,
    {
        let ghost before = q@;
        assert(i * m.hidden <= 8 * m.hidden) by (nonlinear_arith)
            requires
                i <= 8,
        ;
        q.push(Op::CopyToken { src: Buf::VerifySeeds, index: i as u32, dst: Buf::SeedTok });
        step_plan::push_barrier(q, f.hazard);
        if m.has_ple_q4 {
            q.push(Op::PleQ4 { layer: li });
        } else {
            q.push(Op::PleTable { layer: li });
        }
        step_plan::push_barrier(q, f.hazard);
        q.push(
            Op::ResidualAdd {
                src: Buf::PleOut,
                by: Factor::InvSqrt2,
                at: i * m.hidden,
                n: m.cfg.hidden_size_per_layer_input as u32,
            },
        );
        assert(q@ =~= before + ple_row(f, *m, li, i as int));
        assert(before + ple_row(f, *m, li, i as int) =~= old(q)@ + (ple_rows(f, *m, li, i as int)
            + ple_row(f, *m, li, i as int)));
        i = i + 1;
    }
}

fn push_block_gate_up(q: &mut Vec<Op>, f: StepFlags, li: usize, rows: u32, inter: u32)
    ensures
        final(q)@ == old(q)@ + (seq![
            Op::Mat { bank: Bank::Gate(li), src: Buf::Act, dst: Buf::Gate, rows },
            Op::Mat { bank: Bank::Up(li), src: Buf::Act, dst: Buf::Up, rows },
        ] + step_plan::barrier_if(f.hazard) + seq![Op::Gelu { half: f.fuse_bf16_mlp, n: inter }]
            + (if f.fuse_bf16_mlp {
            seq![]
        } else {
            seq![Op::CastAct { src: Buf::Mid, n: inter }]
        }) + step_plan::barrier_if(f.hazard)),
{
    q.push(Op::Mat { bank: Bank::Gate(li), src: Buf::Act, dst: Buf::Gate, rows });
    q.push(Op::Mat { bank: Bank::Up(li), src: Buf::Act, dst: Buf::Up, rows });
    step_plan::push_barrier(q, f.hazard);
    q.push(Op::Gelu { half: f.fuse_bf16_mlp, n: inter });
    if !f.fuse_bf16_mlp {
        q.push(Op::CastAct { src: Buf::Mid, n: inter });
    }
    step_plan::push_barrier(q, f.hazard);
}

fn push_block_mlp(q: &mut Vec<Op>, f: StepFlags, m: &GpuSynthModel, dual: bool, li: usize, rows: u32)
    requires
        m.wf(),
        block_fits(*m),
        li < m.layers@.len(),
        rows <= 8,
        dual == step_plan::dual_norm(f, *m, li as int),
    ensures
        final(q)@ == old(q)@ + block_mlp_ops(f, *m, li, rows as int),
{
    let p = m.layers[li];
    let hidden: u32 = m.hidden as u32;
    assert(rows * m.hidden <= 8 * m.hidden && rows * m.intermediate <= 8 * m.intermediate)
        by (nonlinear_arith)
        requires
            rows <= 8,
    ;
    let inter: u32 = rows * m.intermediate as u32;
    let weight = if p.has_pre_ff_norm {
        NormW::PreFf(li)
    } else {
        NormW::PostAttn(li)
    };
    step_plan::push_barrier(q, f.hazard);
    step_plan::push_norm_act(q, f, weight, rows, hidden);
    step_plan::push_barrier(q, f.hazard);
    proof {
        step_plan::lemma_cat3(
            old(q)@,
            step_plan::barrier_if(f.hazard),
            step_plan::norm_act(f, step_plan::ff_norm(p, li), rows as int, m.hidden as int),
            step_plan::barrier_if(f.hazard),
        );
    }
    let ghost q1 = q@;
    push_block_gate_up(q, f, li, rows, inter);
    step_plan::push_down(q, f, p, dual, li, rows, hidden);
    step_plan::push_scalar(q, f, p, dual, li, rows * hidden);
    proof {
        let pre = step_plan::barrier_if(f.hazard) + step_plan::norm_act(
            f,
            step_plan::ff_norm(p, li),
            rows as int,
            m.hidden as int,
        ) + step_plan::barrier_if(f.hazard);
        let mid = seq![
            Op::Mat { bank: Bank::Gate(li), src: Buf::Act, dst: Buf::Gate, rows },
            Op::Mat { bank: Bank::Up(li), src: Buf::Act, dst: Buf::Up, rows },
        ] + step_plan::barrier_if(f.hazard) + seq![Op::Gelu { half: f.fuse_bf16_mlp, n: inter }]
            + (if f.fuse_bf16_mlp {
            seq![]
        } else {
            seq![Op::CastAct { src: Buf::Mid, n: inter }]
        }) + step_plan::barrier_if(f.hazard);
        lemma_cat4(
            old(q)@,
            pre,
            mid,
            step_plan::down_ops(f, p, dual, li, rows as int, m.hidden as int),
            step_plan::scalar_ops(f, p, dual, li, rows * m.hidden),
        );
    }
}

/// Concatenation may be bracketed from the left.
proof fn lemma_cat4(q: Seq<Op>, a: Seq<Op>, b: Seq<Op>, c: Seq<Op>, d: Seq<Op>)
    ensures
        q + a + b + c + d == q + (a + b + c + d),
{
    assert(q + a + b + c + d =~= q + (a + b + c + d));
}

/// Plans one layer of a block.
pub fn plan_block_layer(
    q: &mut Vec<Op>,
    f: StepFlags,
    m: &GpuSynthModel,
    b: &mut KvBank,
    li: usize,
    pos0: usize,
    rows: usize,
) -> (r: Result<()>)
    requires
        m.wf(),
        block_fits(*m),
        step_plan::bank_fits(*m, old(b)@),
        li < m.layers@.len(),
        1 <= rows <= 8,
        pos0 + rows <= usize::MAX,
        old(b)@.lens_at_most(usize::MAX - rows),
        block_addressable(old(b)@, rows as int),
    ensures
        step_plan::bank_fits(*m, final(b)@),
        final(b)@.same_shapes(old(b)@),
        match block_layer_run(f, *m, old(b)@, li, pos0 as int, rows as int) {
            Ok((b1, ops)) => r is Ok && final(b)@ == b1 && final(q)@ == old(q)@ + ops,
            Err(e) => error::fails_with(r, e) && final(b)@ == block_layer_stop(
                *m,
                old(b)@,
                li,
                rows as int,
            ),
        },
{
    reveal(block_layer_run);
    let p = m.layers[li];
    let rows32: u32 = rows as u32;
    match step_plan::missing_bank(p, li) {
        Err(e) => {
            return Err(e);
        },
        Ok(()) => {},
    }
    push_block_head(q, f, m, li, rows32);
    match push_block_cache(q, f, m, b, li, rows) {
        Err(e) => {
            return Err(e);
        },
        Ok(()) => {},
    }
    proof {
        step_plan::lemma_slots_exist(*m, b@, li as int);
        assert(rows * m.hidden <= 8 * m.hidden) by (nonlinear_arith)
            requires
                rows <= 8,
        ;
        assert(rows * (p.hq * p.head_dim) <= 8 * p.hq * p.head_dim) by (nonlinear_arith)
            requires
                rows <= 8,
        ;
    }
    let want: u32 = kv_slot::to_u32(pos0 + rows);
    if !p.is_producer() {
        let s = b.slot(p.read_slot());
        if want > kv_slot::to_u32(s.seq_len) {
            let mut msg = text::text_num2("consumer verify pos0=", pos0 as u64, " M=", rows as u64);
            msg.append(" shared tkv=");
            text::push_dec(&mut msg, s.seq_len as u64);
            return Err(Error::Kv(msg));
        }
    }
    step_plan::push_attend(q, f, p, b, li, rows32, want, kv_slot::to_u32(pos0));
    let dual = p.has_pre_ff_norm && (!(p.has_ple_table || m.has_ple_q4) || f.e4b_dual_norm);
    step_plan::push_out_proj(q, f, dual, li, rows32, m.hidden as u32);
    push_ple_rows(q, f, m, li, rows);
    push_block_mlp(q, f, m, dual, li, rows32);
    proof {
        step_plan::lemma_cat6(
            old(q)@,
            block_head_ops(f, *m, li, rows as int),
            block_cache_ops(f, *m, old(b)@, li, rows as int)->Ok_0.1,
            step_plan::attend_ops(
                f,
                p,
                b@.slot(p.reads()),
                li,
                rows as int,
                kv_slot::low32(pos0 + rows),
                kv_slot::low32(pos0 as int),
            ),
            step_plan::out_proj_ops(f, dual, li, rows as int, m.hidden as int),
            ple_rows(f, *m, li, rows as int),
            block_mlp_ops(f, *m, li, rows as int),
        );
    }
    Ok(())
}

} // verus!
