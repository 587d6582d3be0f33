//! A verify call on a session: encoding a block of tokens, finishing with the
//! device's answer.

use crate::capture;
use crate::capture::HiddenCapture;
use crate::conditioner;
use crate::conditioner::DFlashGpuConditioner;
use crate::error;
use crate::error::{ErrorV, Result};
use crate::kv_bank;
use crate::kv_bank::{KvBank, KvBankV};
use crate::kv_slot;
use crate::model::GpuSynthModel;
use crate::ops::{Bank, Buf, NormW, Op, SlotRef};
use crate::session;
use crate::session::{GpuDecodeSession, StepVerifyResult};
use crate::step_plan;
use crate::step_plan::StepFlags;
use crate::text;
use crate::verify_plan;
use vstd::prelude::*;
use vstd::slice::*;

verus! {

/// Copies of the residual rows after a captured layer into the staging rows.
pub open spec fn stage_copies(slot: int, stride: int, hidden: int, n: int) -> Seq<Op> {
    Seq::new(
        n as nat,
        |i: int|
            Op::CopyF32 {
                src: Buf::X,
                from: (i * hidden) as usize,
                dst: Buf::CaptureStage,
                to: (i * stride + slot * hidden) as usize,
                n: hidden as u32,
            },
    )
}

/// Commands that capture layer `li` of a block.
pub open spec fn block_capture_ops(
    f: StepFlags,
    ids: Option<Seq<usize>>,
    li: usize,
    hidden: int,
    rows: int,
) -> Seq<Op> {
    match ids {
        None => seq![],
        Some(s) => if !s.contains(li) {
            seq![]
        } else {
            let slot = choose|i: int| capture::first_index(s, li, i);
            (if f.hazard {
                seq![Op::Synchronize]
            } else if f.capture_barrier {
                seq![Op::Barrier]
            } else {
                seq![]
            }) + stage_copies(slot, s.len() * hidden, hidden, rows)
        },
    }
}

/// The first `n` layers of a block: the caches after them and their commands.
pub open spec fn blocks_run(
    f: StepFlags,
    m: GpuSynthModel,
    ids: Option<Seq<usize>>,
    b: KvBankV,
    pos0: int,
    rows: int,
    n: int,
) -> std::result::Result<(KvBankV, Seq<Op>), ErrorV>
    decreases n,
{
    if n <= 0 {
        Ok((b, seq![]))
    } else {
        match blocks_run(f, m, ids, b, pos0, rows, n - 1) {
            Err(e) => Err(e),
            Ok((b1, ops)) => match verify_plan::block_layer_run(
                f,
                m,
                b1,
                (n - 1) as usize,
                pos0,
                rows,
            ) {
                Err(e) => Err(e),
                Ok((b2, more)) => Ok(
                    (
                        b2,
                        ops + more + block_capture_ops(
                            f,
                            ids,
                            (n - 1) as usize,
                            m.hidden as int,
                            rows,
                        ),
                    ),
                ),
            },
        }
    }
}

/// How far the first `n` layers of a block get: how many of them are complete, and the
/// caches where they end or stop.
pub open spec fn blocks_reach(
    f: StepFlags,
    m: GpuSynthModel,
    ids: Option<Seq<usize>>,
    b: KvBankV,
    pos0: int,
    rows: int,
    n: int,
) -> (int, KvBankV)
    decreases n,
{
    if n <= 0 {
        (0, b)
    } else {
        match blocks_run(f, m, ids, b, pos0, rows, n - 1) {
            Err(_) => blocks_reach(f, m, ids, b, pos0, rows, n - 1),
            Ok((b1, _)) => match verify_plan::block_layer_run(
                f,
                m,
                b1,
                (n - 1) as usize,
                pos0,
                rows,
            ) {
                Ok((b2, _)) => (n, b2),
                Err(_) => (
                    n - 1,
                    verify_plan::block_layer_stop(m, b1, (n - 1) as usize, rows),
                ),
            },
        }
    }
}

/// Greedy choice of the first `n` rows.
pub open spec fn argmax_rows(hazard: bool, vocab: int, n: int) -> Seq<Op>
    decreases n,
{
    if n <= 0 {
        seq![]
    } else {
        argmax_rows(hazard, vocab, n - 1) + (seq![
            Op::Argmax {
                at: ((n - 1) * vocab) as usize,
                dst: Buf::VerifyOuts,
                index: (n - 1) as usize,
            },
        ] + step_plan::barrier_if(hazard))
    }
}

/// Final norm, vocabulary projection and greedy choice of every row.
pub open spec fn block_sample_ops(f: StepFlags, m: GpuSynthModel, rows: int) -> Seq<Op> {
    step_plan::norm_act(f, NormW::Final, rows, m.hidden as int) + step_plan::barrier_if(f.hazard)
        + seq![
        Op::Mat { bank: Bank::LmHead, src: Buf::Act, dst: Buf::Logits, rows: rows as u32 },
        Op::Barrier,
    ] + argmax_rows(f.hazard, m.vocab as int, rows)
}

/// Copying of staged row `i` to the captured row and, with a conditioner, its
/// projection into context row `ctx`.
pub open spec fn stage_row_ops(
    hazard: bool,
    stride: int,
    cond_hidden: Option<int>,
    i: int,
    ctx: int,
) -> Seq<Op> {
    seq![
        Op::CopyF32 {
            src: Buf::CaptureStage,
            from: (i * stride) as usize,
            dst: Buf::CaptureRow,
            to: 0,
            n: kv_slot::low32(stride),
        },
    ] + (match cond_hidden {
        Some(h) => step_plan::barrier_if(hazard) + conditioner::project_ops(hazard, h, ctx),
        None => seq![],
    })
}

/// The same for the first `n` rows, from context row `ctx` on.
pub open spec fn stage_rows_ops(
    hazard: bool,
    stride: int,
    cond_hidden: Option<int>,
    ctx: int,
    n: int,
) -> Seq<Op>
    decreases n,
{
    if n <= 0 {
        seq![]
    } else {
        stage_rows_ops(hazard, stride, cond_hidden, ctx, n - 1) + stage_row_ops(
            hazard,
            stride,
            cond_hidden,
            n - 1,
            ctx + n - 1,
        )
    }
}

/// The error of a conditioner whose context has no room.
pub open spec fn context_full(k: DFlashGpuConditioner) -> ErrorV {
    error::config_error(
        "DFlashGpuConditioner: h_ctx full (max="@ + text::dec(k.max_ctx as nat) + ")"@,
    )
}

/// What a block does with its captured rows.
pub open spec fn block_flush_run(s: GpuDecodeSession, hazard: bool, rows: int) -> std::result::Result<
    Seq<Op>,
    ErrorV,
> {
    match s.capture {
        None => Ok(seq![]),
        Some(c) => match s.conditioner {
            None => Ok(stage_rows_ops(hazard, c.stride(), None, 0, rows).push(Op::Synchronize)),
            Some(k) => if k.refusal(s.row_bytes()) is Some {
                Err(k.refusal(s.row_bytes())->0)
            } else if k.ctx_len + rows > k.max_ctx {
                Err(context_full(k))
            } else {
                Ok(
                    stage_rows_ops(
                        hazard,
                        c.stride(),
                        Some(k.hidden as int),
                        k.ctx_len as int,
                        rows,
                    ).push(Op::Synchronize),
                )
            },
        },
    }
}

/// Rows that a conditioner projects before it refuses one.
pub open spec fn stage_room(c: Option<DFlashGpuConditioner>, row_bytes: int) -> int {
    match c {
        Some(k) => if k.refusal(row_bytes) is Some {
            0
        } else {
            k.max_ctx - k.ctx_len
        },
        None => 0,
    }
}

/// A whole block up to the device's answer: the caches after it and its commands.
pub open spec fn block_run(s: GpuDecodeSession, flags: StepFlags, tokens: Seq<u32>) -> std::result::Result<
    (KvBankV, Seq<Op>),
    ErrorV,
> {
    let m = s.model;
    let rows = tokens.len() as int;
    let f = session::effective(flags, s.capture is Some);
    match verify_plan::embed_block(m, tokens) {
        Err(e) => Err(e),
        Ok(embed) => match blocks_run(
            f,
            m,
            session::ids_of(s.capture),
            s.kv@,
            s.pos as int,
            rows,
            m.layers@.len() as int,
        ) {
            Err(e) => Err(e),
            Ok((b, layers)) => match block_flush_run(s, f.hazard, rows) {
                Err(e) => Err(e),
                Ok(flush) => Ok(
                    (
                        b,
                        seq![
                            Op::WritePos { pos: kv_slot::low32(s.pos as int) },
                            Op::WriteSeeds,
                        ] + embed + layers + block_sample_ops(f, m, rows) + flush + seq![
                            Op::Synchronize,
                        ],
                    ),
                ),
            },
        },
    }
}

/// If fewer layers fail, all fail, with the same error and at the same place.
proof fn lemma_blocks_prefix(
    f: StepFlags,
    m: GpuSynthModel,
    ids: Option<Seq<usize>>,
    b: KvBankV,
    pos0: int,
    rows: int,
    k: int,
    n: int,
)
    requires
        0 <= k <= n,
    ensures
        blocks_run(f, m, ids, b, pos0, rows, k) matches Err(e) ==> blocks_run(
            f,
            m,
            ids,
            b,
            pos0,
            rows,
            n,
        ) == Err::<(KvBankV, Seq<Op>), ErrorV>(e) && blocks_reach(f, m, ids, b, pos0, rows, n)
            == blocks_reach(f, m, ids, b, pos0, rows, k),
    decreases n,
{
    if k < n {
        lemma_blocks_prefix(f, m, ids, b, pos0, rows, k, n - 1);
    }
}

proof fn lemma_m_more(b: KvBankV, r: SlotRef, k: int, rows: int)
    requires
        b.wf(),
        b.has(r),
        0 <= rows,
        b.lens_at_most(k),
        k + rows <= usize::MAX,
        b.append_m(r, rows) is Ok,
    ensures
        b.append_m(r, rows)->Ok_0.0.lens_at_most(k + rows),
        b.append_m(r, rows)->Ok_0.0.wf(),
        b.append_m(r, rows)->Ok_0.0.same_shapes(b),
        forall|q: SlotRef|
            q != r && #[trigger] b.has(q) ==> b.append_m(r, rows)->Ok_0.0.slot(q) == b.slot(q),
{
    let s = b.slot(r);
    kv_slot::holding_is_wf(s, s.seq_len + rows);
    kv_bank::lemma_with(b, r, s.holding(s.seq_len + rows));
    let c = b.append_m(r, rows)->Ok_0.0;
    assert forall|q: SlotRef| #[trigger] c.has(q) implies c.slot(q).seq_len <= k + rows by {
        assert(b.has(q));
        if q == r {
        } else {
            assert(c.slot(q) == b.slot(q));
        }
    }
}

/// After each layer of a block no slot has grown by more than the block.
pub proof fn lemma_block_growth(
    f: StepFlags,
    m: GpuSynthModel,
    b: KvBankV,
    li: usize,
    pos0: int,
    rows: int,
    k: int,
)
    requires
        m.wf(),
        step_plan::bank_fits(m, b),
        li < m.layers@.len(),
        0 <= rows,
        b.lens_at_most(k),
        k + rows <= usize::MAX,
    ensures
        verify_plan::block_layer_run(f, m, b, li, pos0, rows) matches Ok((b1, _))
            ==> b1.lens_at_most(k + rows) && step_plan::bank_fits(m, b1) && b1.same_shapes(b),
{
    reveal(verify_plan::block_layer_run);
    let p = m.layers@[li as int];
    step_plan::lemma_slots_exist(m, b, li as int);
    if let Ok((b1, _)) = verify_plan::block_layer_run(f, m, b, li, pos0, rows) {
        if p.produces() {
            let own = p.reads();
            lemma_m_more(b, own, k, rows);
            let mid = b.append_m(own, rows)->Ok_0.0;
            if m.kv.feeds_shared(li as int) {
                let sh = p.shares();
                assert(mid.has(sh));
                let s2 = mid.slot(sh);
                assert(s2 == b.slot(sh));
                kv_slot::holding_is_wf(s2, s2.seq_len + rows);
                kv_bank::lemma_with(mid, sh, s2.holding(s2.seq_len + rows));
                assert forall|q: SlotRef| #[trigger] b1.has(q) implies b1.slot(q).seq_len <= k
                    + rows && b1.slot(q).same_shape(b.slot(q)) by {
                    assert(b.has(q));
                    assert(mid.has(q));
                    if q == sh {
                    } else {
                        assert(b1.slot(q) == mid.slot(q));
                    }
                }
            }
        }
    }
}

/// The slots of a capture once the first `n` layers have filled theirs.
pub open spec fn marked(mask: Seq<bool>, ids: Seq<usize>, n: int) -> Seq<bool> {
    Seq::new(mask.len(), |i: int| mask[i] || (ids[i] < n && capture::first_index(ids, ids[i], i)))
}

/// The capture while a block runs: its rows are untouched, and the slots of the first
/// `n` layers are filled beside those that were.
pub open spec fn rows_untouched(
    before: Option<HiddenCapture>,
    after: Option<HiddenCapture>,
    n: int,
) -> bool {
    match (before, after) {
        (Some(x), Some(y)) => {
            &&& y.same_setup(x)
            &&& y.concat == x.concat
            &&& y.t == x.t
            &&& y.step_mask@ == marked(x.step_mask@, x.layer_ids@, n)
        },
        (None, None) => true,
        _ => false,
    }
}

proof fn lemma_marked_none(c: Option<HiddenCapture>, hidden: usize)
    requires
        session::capture_fits(c, hidden),
    ensures
        rows_untouched(c, c, 0),
{
    if let Some(x) = c {
        assert(x.step_mask@ =~= marked(x.step_mask@, x.layer_ids@, 0));
    }
}

proof fn lemma_marked_next(mask: Seq<bool>, ids: Seq<usize>, li: usize, slot: Option<usize>)
    requires
        mask.len() == ids.len(),
        match slot {
            Some(i) => capture::first_index(ids, li, i as int),
            None => !ids.contains(li),
        },
    ensures
        marked(mask, ids, li + 1) == (match slot {
            Some(i) => marked(mask, ids, li as int).update(i as int, true),
            None => marked(mask, ids, li as int),
        }),
{
    let a = marked(mask, ids, li as int);
    let b = marked(mask, ids, li + 1);
    match slot {
        Some(i) => {
            assert(b =~= a.update(i as int, true));
        },
        None => {
            assert forall|j: int| 0 <= j < mask.len() implies a[j] == b[j] by {
                if ids[j] == li {
                    assert(ids.contains(li));
                }
            }
            assert(a =~= b);
        },
    }
}

fn push_stage_copies(q: &mut Vec<Op>, slot: usize, stride: usize, hidden: usize, n: usize)
    requires
        hidden <= u32::MAX,
        n * stride <= usize::MAX,
        (slot + 1) * hidden <= stride,
    ensures
        final(q)@ == old(q)@ + stage_copies(slot as int, stride as int, hidden as int, n as int),
{
    let ghost all = stage_copies(slot as int, stride as int, hidden as int, n as int);
    let mut i: usize = 0;
    assert(q@ =~= old(q)@ + all.subrange(0, 0));
    while i < n
        invariant
            i <= n,
            hidden <= u32::MAX,
            n * stride <= usize::MAX,
            (slot + 1) * hidden <= stride,
            all == stage_copies(slot as int, stride as int, hidden as int, n as int),
            q@ == old(q)@ + all.subrange(0, i as int),
        decreases n - i,
    {
        assert(i * stride + stride <= n * stride) by (nonlinear_arith)
            requires
                i + 1 <= n,
        ;
        assert(slot * hidden + hidden == (slot + 1) * hidden) by (nonlinear_arith);
        assert(i * hidden <= i * stride) by (nonlinear_arith)
            requires
                hidden <= stride,
        ;
        q.push(
            Op::CopyF32 {
                src: Buf::X,
                from: i * hidden,
                dst: Buf::CaptureStage,
                to: i * stride + slot * hidden,
                n: hidden as u32,
            },
        );
        i = i + 1;
        assert(q@ =~= old(q)@ + all.subrange(0, i as int));
    }
    assert(all.subrange(0, n as int) =~= all);
}

fn push_block_capture(
    q: &mut Vec<Op>,
    f: StepFlags,
    c: &mut Option<HiddenCapture>,
    li: usize,
    hidden: usize,
    rows: usize,
)
    requires
        session::capture_fits(*old(c), hidden),
        hidden <= u32::MAX,
        *old(c) matches Some(x) ==> rows * x.stride() <= usize::MAX,
    ensures
        session::capture_fits(*final(c), hidden),
        match (*old(c), *final(c)) {
            (Some(x), Some(y)) => {
                &&& y.same_setup(x)
                &&& y.concat == x.concat
                &&& y.t == x.t
                &&& forall|mask: Seq<bool>|
                    x.step_mask@ == #[trigger] marked(mask, x.layer_ids@, li as int)
                        && mask.len() == x.layer_ids@.len() ==> y.step_mask@ == marked(
                        mask,
                        x.layer_ids@,
                        li + 1,
                    )
            },
            (None, None) => true,
            _ => false,
        },
        final(q)@ == old(q)@ + block_capture_ops(
            f,
            session::ids_of(*old(c)),
            li,
            hidden as int,
            rows as int,
        ),
{
    match c.take() {
        None => {
            assert(q@ =~= old(q)@ + seq![]);
        },
        Some(mut x) => {
            let ghost ids = x.layer_ids@;
            let stride: usize = x.row_stride();
            let slot = x.mark_layer(li);
            proof {
                assert forall|mask: Seq<bool>|
                    old(c)->0.step_mask@ == #[trigger] marked(mask, ids, li as int) && mask.len()
                        == ids.len() implies x.step_mask@ == marked(mask, ids, li + 1) by {
                    lemma_marked_next(mask, ids, li, slot);
                }
            }
            match slot {
                None => {
                    assert(q@ =~= old(q)@ + seq![]);
                },
                Some(slot) => {
                    assert(ids[slot as int] == li);
                    assert(ids.contains(li));
                    proof {
                        let w = choose|w: int| capture::first_index(ids, li, w);
                        assert(w == slot) by {
                            if w < slot {
                                assert(ids[w] != li);
                            } else if slot < w {
                                assert(ids[slot as int] != li);
                            }
                        }
                        assert((slot + 1) * hidden <= ids.len() * hidden) by (nonlinear_arith)
                            requires
                                slot + 1 <= ids.len(),
                        ;
                    }
                    if f.hazard {
                        q.push(Op::Synchronize);
                    } else if f.capture_barrier {
                        q.push(Op::Barrier);
                    }
                    push_stage_copies(q, slot, stride, hidden, rows);
                    assert(q@ =~= old(q)@ + block_capture_ops(
                        f,
                        Some(ids),
                        li,
                        hidden as int,
                        rows as int,
                    ));
                },
            }
            *c = Some(x);
        },
    }
}

/// Shapes carry over what they say about addressing.
proof fn lemma_addressable(a: KvBankV, b: KvBankV, rows: int)
    requires
        b.same_shapes(a),
        verify_plan::block_addressable(a, rows),
    ensures
        verify_plan::block_addressable(b, rows),
{
    assert forall|r: SlotRef| #[trigger] b.has(r) implies rows * b.slot(r).row() <= usize::MAX by {
        assert(a.has(r));
        assert(b.slot(r).row() == a.slot(r).row());
    }
}

/// Plans all layers of a block.
pub fn plan_blocks(
    q: &mut Vec<Op>,
    f: StepFlags,
    m: &GpuSynthModel,
    b: &mut KvBank,
    c: &mut Option<HiddenCapture>,
    pos0: usize,
    rows: usize,
) -> (r: Result<()>)
    requires
        m.wf(),
        verify_plan::block_fits(*m),
        step_plan::bank_fits(*m, old(b)@),
        1 <= rows <= 8,
        pos0 + rows <= usize::MAX,
        old(b)@.lens_at_most(usize::MAX - 8 * (m.layers@.len() + 1)),
        verify_plan::block_addressable(old(b)@, rows as int),
        session::capture_fits(*old(c), m.hidden),
        *old(c) matches Some(x) ==> rows * x.stride() <= usize::MAX,
    ensures
        step_plan::bank_fits(*m, final(b)@),
        session::capture_fits(*final(c), m.hidden),
        ({
            let (k, reached) = blocks_reach(
                f,
                *m,
                session::ids_of(*old(c)),
                old(b)@,
                pos0 as int,
                rows as int,
                m.layers@.len() as int,
            );
            final(b)@ == reached && rows_untouched(*old(c), *final(c), k)
        }),
        match blocks_run(
            f,
            *m,
            session::ids_of(*old(c)),
            old(b)@,
            pos0 as int,
            rows as int,
            m.layers@.len() as int,
        ) {
            Ok((b1, ops)) => r is Ok && final(b)@ == b1 && final(q)@ == old(q)@ + ops,
            Err(e) => error::fails_with(r, e),
        },
{
    let ghost ids = session::ids_of(*c);
    let ghost b0 = b@;
    let ghost q0 = q@;
    let n: usize = m.layers.len();
    let ghost k0 = usize::MAX - 8 * (n + 1);
    let mut li: usize = 0;
    assert(q@ =~= q0 + Seq::<Op>::empty());
    proof {
        lemma_marked_none(*c, m.hidden);
    }
    while li < n
        invariant
            li <= n,
            n == m.layers@.len(),
            m.wf(),
            verify_plan::block_fits(*m),
            1 <= rows <= 8,
            pos0 + rows <= usize::MAX,
            ids == session::ids_of(*old(c)),
            b0 == old(b)@,
            q0 == old(q)@,
            k0 == usize::MAX - 8 * (n + 1),
            step_plan::bank_fits(*m, b@),
            b@.lens_at_most(k0 + 8 * li),
            verify_plan::block_addressable(b@, rows as int),
            session::capture_fits(*c, m.hidden),
            *c matches Some(x) ==> rows * x.stride() <= usize::MAX,
            *old(c) matches Some(x) ==> x.step_mask@.len() == x.layer_ids@.len(),
            rows_untouched(*old(c), *c, li as int),
            blocks_reach(f, *m, ids, b0, pos0 as int, rows as int, li as int) == (li as int, b@),
            blocks_run(f, *m, ids, b0, pos0 as int, rows as int, li as int) matches Ok((b1, ops))
                && b@ == b1 && q@ == q0 + ops,
        decreases n - li,
    {
        let ghost before = blocks_run(
            f,
            *m,
            ids,
            b0,
            pos0 as int,
            rows as int,
            li as int,
        )->Ok_0;
        let ghost here = verify_plan::block_layer_run(
            f,
            *m,
            b@,
            li,
            pos0 as int,
            rows as int,
        );
        let ghost prev = b@;
        proof {
            lemma_block_growth(f, *m, b@, li, pos0 as int, rows as int, k0 + 8 * li);
            lemma_blocks_prefix(
                f,
                *m,
                ids,
                b0,
                pos0 as int,
                rows as int,
                li + 1,
                n as int,
            );
        }
        match verify_plan::plan_block_layer(q, f, m, b, li, pos0, rows) {
            Err(e) => {
                return Err(e);
            },
            Ok(()) => {},
        }
        proof {
            lemma_addressable(prev, b@, rows as int);
        }
        push_block_capture(q, f, c, li, m.hidden, rows);
        proof {
            let more = here->Ok_0.1;
            let cap = block_capture_ops(f, ids, li, m.hidden as int, rows as int);
            assert(q0 + before.1 + more + cap =~= q0 + (before.1 + more + cap));
        }
        li = li + 1;
    }
    Ok(())
}

fn push_block_sample(q: &mut Vec<Op>, f: StepFlags, m: &GpuSynthModel, rows: usize)
    requires
        m.wf(),
        verify_plan::block_fits(*m),
        rows <= 8,
    ensures
        final(q)@ == old(q)@ + block_sample_ops(f, *m, rows as int),
{
    assert(rows * m.hidden <= 8 * m.hidden) by (nonlinear_arith)
        requires
            rows <= 8,
    ;
    step_plan::push_norm_act(q, f, NormW::Final, rows as u32, m.hidden as u32);
    step_plan::push_barrier(q, f.hazard);
    q.push(Op::Mat { bank: Bank::LmHead, src: Buf::Act, dst: Buf::Logits, rows: rows as u32 });
    q.push(Op::Barrier);
    let ghost q1 = q@;
    let mut i: usize = 0;
    assert(q@ =~= q1 + argmax_rows(f.hazard, m.vocab as int, 0));
    while i < rows
        invariant
            i <= rows,
            rows <= 8,
            8 * m.vocab <= usize::MAX,
            q@ == q1 + argmax_rows(f.hazard, m.vocab as int, i as int),
        decreases rows - i,
    {
        assert(i * m.vocab <= 8 * m.vocab) by (nonlinear_arith)
            requires
                i <= 8,
        ;
        q.push(Op::Argmax { at: i * m.vocab, dst: Buf::VerifyOuts, index: i });
        step_plan::push_barrier(q, f.hazard);
        i = i + 1;
        assert(q@ =~= q1 + argmax_rows(f.hazard, m.vocab as int, i as int));
    }
    assert(q@ =~= old(q)@ + block_sample_ops(f, *m, rows as int));
}

/// The conditioner after `n` more projected rows.
pub open spec fn context_grown(
    before: Option<DFlashGpuConditioner>,
    after: Option<DFlashGpuConditioner>,
    n: int,
) -> bool {
    match (before, after) {
        (Some(x), Some(y)) => y == (DFlashGpuConditioner {
            ctx_len: (x.ctx_len + n) as usize,
            ..x
        }),
        (None, None) => true,
        _ => false,
    }
}

fn push_stage_rows(
    q: &mut Vec<Op>,
    hazard: bool,
    stride: usize,
    cond: &mut Option<DFlashGpuConditioner>,
    rows: usize,
) -> (r: Result<()>)
    requires
        *old(cond) matches Some(k) ==> k.wf(),
        1 <= rows <= 8,
        rows * stride <= usize::MAX,
        stride * 4 <= usize::MAX,
    ensures
        *final(cond) matches Some(k) ==> k.wf(),
        (*final(cond)) is Some == (*old(cond)) is Some,
        match *old(cond) {
            None => r is Ok && *final(cond) == *old(cond) && final(q)@ == old(q)@ + stage_rows_ops(
                hazard,
                stride as int,
                None,
                0,
                rows as int,
            ),
            Some(k) => if k.refusal(stride * 4) is Some {
                error::fails_with(r, k.refusal(stride * 4)->0) && *final(cond) == *old(cond)
            } else if k.ctx_len + rows > k.max_ctx {
                error::fails_with(r, context_full(k)) && context_grown(
                    *old(cond),
                    *final(cond),
                    k.max_ctx - k.ctx_len,
                )
            } else {
                &&& r is Ok
                &&& context_grown(*old(cond), *final(cond), rows as int)
                &&& final(q)@ == old(q)@ + stage_rows_ops(
                    hazard,
                    stride as int,
                    Some(k.hidden as int),
                    k.ctx_len as int,
                    rows as int,
                )
            },
        },
{
    let ghost first = *cond;
    let ghost hid: Option<int> = match first {
        Some(k) => Some(k.hidden as int),
        None => None,
    };
    let ghost ctx0: int = match first {
        Some(k) => k.ctx_len as int,
        None => 0,
    };
    let mut i: usize = 0;
    assert(q@ =~= old(q)@ + stage_rows_ops(hazard, stride as int, hid, ctx0, 0));
    while i < rows
        invariant
            i <= rows,
            rows <= 8,
            rows * stride <= usize::MAX,
            stride * 4 <= usize::MAX,
            first == *old(cond),
            first matches Some(k) ==> k.wf(),
            *cond matches Some(k) ==> k.wf(),
            context_grown(first, *cond, i as int),
            first matches Some(k) ==> i > 0 ==> k.refusal(stride * 4) is None,
            first matches Some(k) ==> k.ctx_len + i <= k.max_ctx,
            hid == (match first {
                Some(k) => Some(k.hidden as int),
                None => None,
            }),
            ctx0 == (match first {
                Some(k) => k.ctx_len as int,
                None => 0,
            }),
            q@ == old(q)@ + stage_rows_ops(hazard, stride as int, hid, ctx0, i as int),
        decreases rows - i,
    {
        let ghost before = q@;
        assert(i * stride <= rows * stride) by (nonlinear_arith)
            requires
                i <= rows,
        ;
        q.push(
            Op::CopyF32 {
                src: Buf::CaptureStage,
                from: i * stride,
                dst: Buf::CaptureRow,
                to: 0,
                n: kv_slot::to_u32(stride),
            },
        );
        match cond.take() {
            None => {},
            Some(mut k) => {
                step_plan::push_barrier(q, hazard);
                let r = k.project_row(stride * 4, hazard, q);
                *cond = Some(k);
                match r {
                    Err(e) => {
                        return Err(e);
                    },
                    Ok(()) => {},
                }
            },
        }
        proof {
            let row = stage_row_ops(hazard, stride as int, hid, i as int, ctx0 + i);
            assert(q@ =~= before + row);
            assert(before + row =~= old(q)@ + (stage_rows_ops(
                hazard,
                stride as int,
                hid,
                ctx0,
                i as int,
            ) + row));
        }
        i = i + 1;
    }
    Ok(())
}

/// What a block that cannot be encoded leaves of the session: what its layers did until
/// then stays done, and rows that were projected stay projected.
pub open spec fn block_stopped(
    s: GpuDecodeSession,
    after: GpuDecodeSession,
    flags: StepFlags,
    tokens: Seq<u32>,
) -> bool {
    let n = s.model.layers@.len() as int;
    let rows = tokens.len() as int;
    let f = session::effective(flags, s.capture is Some);
    let ids = session::ids_of(s.capture);
    let (k, b) = blocks_reach(f, s.model, ids, s.kv@, s.pos as int, rows, n);
    if verify_plan::embed_block(s.model, tokens) is Err {
        after == s
    } else {
        &&& after.kv@ == b
        &&& rows_untouched(s.capture, after.capture, k)
        &&& if blocks_run(f, s.model, ids, s.kv@, s.pos as int, rows, n) is Err {
            after.conditioner == s.conditioner
        } else {
            context_grown(
                s.conditioner,
                after.conditioner,
                stage_room(s.conditioner, s.row_bytes()),
            )
        }
    }
}

/// What a verify call needs of a session: room to count and to address.
pub open spec fn can_verify(s: GpuDecodeSession, rows: int) -> bool {
    &&& s.can_count(8 * (s.model.layers@.len() + 1) as int)
    &&& verify_plan::block_fits(s.model)
    &&& verify_plan::block_addressable(s.kv@, rows)
    &&& s.capture matches Some(c) ==> rows * c.stride() <= usize::MAX
}

impl GpuDecodeSession {
    fn push_block_flush(&mut self, q: &mut Vec<Op>, hazard: bool, rows: usize) -> (r: Result<()>)
        requires
            old(self).wf(),
            1 <= rows <= 8,
            old(self).capture matches Some(c) ==> rows * c.stride() <= usize::MAX,
        ensures
            final(self).wf(),
            *final(self) == (GpuDecodeSession {
                conditioner: final(self).conditioner,
                ..*old(self)
            }),
            match block_flush_run(*old(self), hazard, rows as int) {
                Ok(ops) => {
                    &&& r is Ok
                    &&& final(q)@ == old(q)@ + ops
                    &&& context_grown(
                        old(self).conditioner,
                        final(self).conditioner,
                        rows as int,
                    )
                },
                Err(e) => error::fails_with(r, e) && context_grown(
                    old(self).conditioner,
                    final(self).conditioner,
                    stage_room(old(self).conditioner, old(self).row_bytes()),
                ),
            },
    {
        let stride: usize = match &self.capture {
            None => {
                assert(q@ =~= old(q)@ + seq![]);
                return Ok(());
            },
            Some(c) => c.row_stride(),
        };
        match push_stage_rows(q, hazard, stride, &mut self.conditioner, rows) {
            Err(e) => {
                return Err(e);
            },
            Ok(()) => {},
        }
        q.push(Op::Synchronize);
        assert(q@ =~= old(q)@ + block_flush_run(*old(self), hazard, rows as int)->Ok_0);
        Ok(())
    }

    /// Encodes one pass over a block of tokens, up to the point where the
    /// device's answer is needed. The result is the seed buffer to write.
    #[verifier::spinoff_prover]
    #[verifier::rlimit(40)]
    pub fn step_verify_gemm(&mut self, flags: StepFlags, tokens: &[u32], q: &mut Vec<Op>) -> (r:
        Result<Vec<u32>>)
        requires
            old(self).wf(),
            1 <= tokens@.len() <= 8,
            can_verify(*old(self), tokens@.len() as int),
        ensures
            final(self).wf(),
            *final(self) == (GpuDecodeSession {
                kv: final(self).kv,
                capture: final(self).capture,
                conditioner: final(self).conditioner,
                ..*old(self)
            }),
            match block_run(*old(self), flags, tokens@) {
                Ok((b, ops)) => {
                    &&& r matches Ok(seeds) && seeds@.len() == 8 && forall|i: int|
                        0 <= i < 8 ==> #[trigger] seeds@[i] == (if i < tokens@.len() {
                            tokens@[i]
                        } else {
                            0
                        })
                    &&& final(self).kv@ == b
                    &&& final(q)@ == old(q)@ + ops
                    &&& rows_untouched(
                        old(self).capture,
                        final(self).capture,
                        old(self).model.layers@.len() as int,
                    )
                    &&& context_grown(
                        old(self).conditioner,
                        final(self).conditioner,
                        tokens@.len() as int,
                    )
                },
                Err(e) => error::fails_with(r, e) && block_stopped(
                    *old(self),
                    *final(self),
                    flags,
                    tokens@,
                ),
            },
    {
        let f = session::capture_guard(flags, self.capture.is_some());
        let rows: usize = tokens.len();
        q.push(Op::WritePos { pos: kv_slot::to_u32(self.pos) });
        q.push(Op::WriteSeeds);
        let seeds = verify_plan::pad_seeds(tokens);
        let ghost first = seq![
            Op::WritePos { pos: kv_slot::low32(old(self).pos as int) },
            Op::WriteSeeds,
        ];
        assert(q@ =~= old(q)@ + first);
        match verify_plan::embed_verify_tokens(q, &self.model, tokens) {
            Err(e) => {
                return Err(e);
            },
            Ok(()) => {},
        }
        match plan_blocks(
            q,
            f,
            &self.model,
            &mut self.kv,
            &mut self.capture,
            self.pos,
            rows,
        ) {
            Err(e) => {
                return Err(e);
            },
            Ok(()) => {},
        }
        push_block_sample(q, f, &self.model, rows);
        match self.push_block_flush(q, f.hazard, rows) {
            Err(e) => {
                return Err(e);
            },
            Ok(()) => {},
        }
        q.push(Op::Synchronize);
        proof {
            let m = old(self).model;
            let last = seq![Op::Synchronize];
            let flush = block_flush_run(*old(self), f.hazard, rows as int)->Ok_0;
            step_plan::lemma_cat6(
                old(q)@,
                first,
                verify_plan::embed_block(m, tokens@)->Ok_0,
                blocks_run(
                    f,
                    m,
                    session::ids_of(old(self).capture),
                    old(self).kv@,
                    old(self).pos as int,
                    rows as int,
                    m.layers@.len() as int,
                )->Ok_0.1,
                block_sample_ops(f, m, rows as int),
                flush,
                last,
            );
            let all = old(q)@ + first + verify_plan::embed_block(m, tokens@)->Ok_0 + blocks_run(
                f,
                m,
                session::ids_of(old(self).capture),
                old(self).kv@,
                old(self).pos as int,
                rows as int,
                m.layers@.len() as int,
            )->Ok_0.1 + block_sample_ops(f, m, rows as int) + flush;
            assert(q@ =~= all + last);
        }
        Ok(seeds)
    }
}

/// The capture after `rows` staged rows were taken over.
pub open spec fn stage_taken(
    before: Option<HiddenCapture>,
    after: Option<HiddenCapture>,
    stage: Seq<u32>,
    rows: int,
) -> bool {
    match (before, after) {
        (Some(x), Some(y)) => {
            &&& y.same_setup(x)
            &&& y.t == x.t + rows
            &&& y.concat@ == x.concat@ + stage.subrange(0, rows * x.stride())
        },
        (None, None) => true,
        _ => false,
    }
}

fn take_stage(c: &mut HiddenCapture, stage: &[u32], rows: usize)
    requires
        old(c).wf(),
        rows * old(c).stride() <= stage@.len(),
    ensures
        final(c).wf(),
        stage_taken(Some(*old(c)), Some(*final(c)), stage@, rows as int),
{
    let stride: usize = c.row_stride();
    let total: usize = stage.len();
    let ghost first = *c;
    let mut i: usize = 0;
    assert(c.concat@ =~= first.concat@ + stage@.subrange(0, 0 * stride));
    while i < rows
        invariant
            i <= rows,
            c.wf(),
            stride == first.stride(),
            rows * stride <= stage@.len(),
            stage@.len() == total,
            stage_taken(Some(first), Some(*c), stage@, i as int),
        decreases rows - i,
    {
        assert(i * stride + stride == (i + 1) * stride && (i + 1) * stride <= rows * stride)
            by (nonlinear_arith)
            requires
                i + 1 <= rows,
        ;
        let ghost before = c.concat@;
        let row = slice_subrange(stage, i * stride, i * stride + stride);
        let _ = c.finish_step_complete(row);
        proof {
            assert(row@.subrange(0, stride as int) =~= stage@.subrange(
                i * stride,
                (i + 1) * stride,
            ));
            assert(before + stage@.subrange(i * stride, (i + 1) * stride) =~= first.concat@
                + stage@.subrange(0, (i + 1) * stride));
        }
        i = i + 1;
    }
}

impl GpuDecodeSession {
    /// Finishes a block with the device's answer: the staged rows and the greedy
    /// token after each position.
    pub fn verify_finish(
        &mut self,
        tokens: &[u32],
        stage: &[u32],
        outs: &[u32],
        q: &mut Vec<Op>,
    ) -> (r: StepVerifyResult)
        requires
            old(self).wf(),
            1 <= tokens@.len() <= 8,
            tokens@.len() <= outs@.len(),
            old(self).pos + tokens@.len() <= usize::MAX,
            old(self).capture matches Some(c) ==> tokens@.len() * c.stride() <= stage@.len(),
        ensures
            final(self).wf(),
            *final(self) == (GpuDecodeSession {
                pos: (old(self).pos + tokens@.len()) as usize,
                capture: final(self).capture,
                ..*old(self)
            }),
            stage_taken(
                old(self).capture,
                final(self).capture,
                stage@,
                tokens@.len() as int,
            ),
            r.pos0 == old(self).pos,
            r.tokens@ == tokens@,
            r.next_tokens@ == outs@.subrange(0, tokens@.len() as int),
            final(q)@ == old(q)@.push(
                Op::WriteArgmax { token: outs@[tokens@.len() - 1] },
            ),
    {
        let rows: usize = tokens.len();
        let pos0: usize = self.pos;
        match self.capture.take() {
            None => {},
            Some(mut c) => {
                take_stage(&mut c, stage, rows);
                self.capture = Some(c);
            },
        }
        self.pos = pos0 + rows;
        q.push(Op::WriteArgmax { token: outs[rows - 1] });
        verify_result(pos0, tokens, outs)
    }
}

/// The outcome of a verify call that began at `pos0`.
pub fn verify_result(pos0: usize, tokens: &[u32], outs: &[u32]) -> (r: StepVerifyResult)
    requires
        tokens@.len() <= outs@.len(),
    ensures
        r.pos0 == pos0,
        r.tokens@ == tokens@,
        r.next_tokens@ == outs@.subrange(0, tokens@.len() as int),
{
    let mut ts: Vec<u32> = Vec::new();
    let mut ns: Vec<u32> = Vec::new();
    let mut i: usize = 0;
    while i < tokens.len()
        invariant
            i <= tokens@.len() <= outs@.len(),
            ts@ == tokens@.subrange(0, i as int),
            ns@ == outs@.subrange(0, i as int),
        decreases tokens@.len() - i,
    {
        ts.push(tokens[i]);
        ns.push(outs[i]);
        i = i + 1;
        assert(ts@ =~= tokens@.subrange(0, i as int));
        assert(ns@ =~= outs@.subrange(0, i as int));
    }
    assert(tokens@.subrange(0, i as int) =~= tokens@);
    StepVerifyResult { pos0, tokens: ts, next_tokens: ns }
}

} // verus!
