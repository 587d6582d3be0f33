//! What steps and blocks compute, row by row, whatever the kernels do and whichever of
//! them are fused.

use crate::conditioner;
use crate::kv_slot;
use crate::machine;
use crate::machine::{Mem, Shapes};
use crate::ops::{Bank, Buf, NormW, Op};
use crate::session;
use crate::step_plan;
use crate::step_plan::StepFlags;
use crate::verify;
use crate::verify_plan;
use vstd::arithmetic::div_mod::*;
use vstd::prelude::*;

verus! {

/// Nothing but rows of working buffers has changed.
pub open spec fn rows_only<V>(a: Mem<V>, b: Mem<V>) -> bool {
    &&& b == (Mem { row: b.row, ..a })
    &&& captures_kept(a, b)
}

/// What was captured is as it was.
pub open spec fn captures_kept<V>(a: Mem<V>, b: Mem<V>) -> bool {
    kept(a, b, Buf::CaptureRow) && kept(a, b, Buf::CaptureStage)
}

/// A buffer is as it was.
pub open spec fn kept<V>(a: Mem<V>, b: Mem<V>, c: Buf) -> bool {
    forall|i: int| #[trigger] (b.row)(c, i) == (a.row)(c, i)
}

/// A row of the residual, normed and rounded.
pub open spec fn normed<V>(s: Shapes<V>, w: NormW, x: V) -> V {
    (s.kernels.half)((s.kernels.norm)(w, s.model.hidden as int, x))
}

/// The first rows of a buffer hold these values.
pub open spec fn rows_are<V>(m: Mem<V>, b: Buf, rows: int, v: spec_fn(int) -> V) -> bool {
    forall|i: int| 0 <= i < rows ==> #[trigger] (m.row)(b, i) == v(i)
}

pub proof fn lemma_covers(i: int, width: int, rows: int)
    requires
        0 <= i < rows,
        0 <= width,
    ensures
        machine::covers(i, width, rows * width),
{
    assert((i + 1) * width <= rows * width) by (nonlinear_arith)
        requires
            i + 1 <= rows,
            0 <= width,
    ;
}

pub proof fn lemma_norm_act<V>(s: Shapes<V>, m: Mem<V>, f: StepFlags, w: NormW, rows: int)
    requires
        0 <= rows <= u32::MAX,
        s.model.hidden <= u32::MAX,
        rows * s.model.hidden <= u32::MAX,
    ensures
        ({
            let r = machine::run(
                s,
                m,
                step_plan::norm_act(f, w, rows, s.model.hidden as int),
            );
            &&& rows_only(m, r)
            &&& kept(m, r, Buf::X)
            &&& forall|i: int|
                0 <= i < rows ==> #[trigger] (r.row)(Buf::Act, i) == normed(
                    s,
                    w,
                    (m.row)(Buf::X, i),
                )
        }),
{
    let hidden = s.model.hidden as int;
    let n = rows as u32;
    let h = hidden as u32;
    if f.fuse_bf16_rms {
        machine::lemma_one(s, m, Op::RmsAct { src: Buf::X, weight: w, rows: n, n: h });
    } else {
        let a = Op::Rms { src: Buf::X, weight: w, dst: Buf::Normed, rows: n, n: h };
        let b = Op::CastAct { src: Buf::Normed, n: (rows * hidden) as u32 };
        machine::lemma_two(s, m, a, b);
        let r = machine::exec(s, machine::exec(s, m, a), b);
        assert forall|i: int| 0 <= i < rows implies #[trigger] (r.row)(Buf::Act, i) == normed(
            s,
            w,
            (m.row)(Buf::X, i),
        ) by {
            lemma_covers(i, hidden, rows);
        }
    }
}

/// The logits of a row of the residual.
pub open spec fn logits<V>(s: Shapes<V>, x: V) -> V {
    (s.kernels.mat)(Bank::LmHead, normed(s, NormW::Final, x))
}

/// The token that a row of the residual chooses.
pub open spec fn chosen<V>(s: Shapes<V>, x: V) -> u32 {
    (s.kernels.choice)(logits(s, x))
}

proof fn lemma_argmax_row<V>(s: Shapes<V>, m: Mem<V>, i: int, dst: Buf)
    requires
        0 < s.model.vocab,
        0 <= i <= 8,
        8 * s.model.vocab <= usize::MAX,
    ensures
        machine::exec(
            s,
            m,
            Op::Argmax { at: (i * s.model.vocab) as usize, dst, index: i as usize },
        ) == machine::put_token(m, dst, i, (s.kernels.choice)((m.row)(Buf::Logits, i))),
{
    let v = s.model.vocab as int;
    assert(0 <= i * v <= 8 * v) by (nonlinear_arith)
        requires
            0 <= i <= 8,
            0 < v,
    ;
    assert(v * i == i * v) by (nonlinear_arith);
    lemma_div_multiples_vanish(i, v);
}

proof fn lemma_argmax_rows<V>(s: Shapes<V>, m: Mem<V>, hazard: bool, n: int)
    requires
        0 < s.model.vocab,
        0 <= n <= 8,
        8 * s.model.vocab <= usize::MAX,
    ensures
        ({
            let r = machine::run(s, m, verify::argmax_rows(hazard, s.model.vocab as int, n));
            &&& r == (Mem { token: r.token, ..m })
            &&& forall|b: Buf, i: int| #[trigger]
                (r.token)(b, i) == (if b == Buf::VerifyOuts && 0 <= i < n {
                    (s.kernels.choice)((m.row)(Buf::Logits, i))
                } else {
                    (m.token)(b, i)
                })
        }),
    decreases n,
{
    if n <= 0 {
        machine::lemma_none(s, m);
    } else {
        lemma_argmax_rows(s, m, hazard, n - 1);
        let before = verify::argmax_rows(hazard, s.model.vocab as int, n - 1);
        let op = Op::Argmax {
            at: ((n - 1) * s.model.vocab) as usize,
            dst: Buf::VerifyOuts,
            index: (n - 1) as usize,
        };
        let r0 = machine::run(s, m, before);
        machine::lemma_cat(s, m, before, seq![op] + step_plan::barrier_if(hazard));
        machine::lemma_cat(s, r0, seq![op], step_plan::barrier_if(hazard));
        machine::lemma_one(s, r0, op);
        lemma_argmax_row(s, r0, n - 1, Buf::VerifyOuts);
        machine::lemma_barrier(s, machine::exec(s, r0, op), hazard);
    }
}

/// The greedy choices of a block are those of its rows: the token at place `i` of the
/// block's answers is chosen from the logits of row `i` of the residual, for every row.
pub proof fn block_rows_choose_for_themselves<V>(
    s: Shapes<V>,
    m: Mem<V>,
    f: StepFlags,
    rows: int,
    i: int,
)
    requires
        s.model.wf(),
        verify_plan::block_fits(s.model),
        0 < s.model.vocab,
        0 <= i < rows <= 8,
    ensures
        ({
            let r = machine::run(s, m, verify::block_sample_ops(f, s.model, rows));
            &&& r == (Mem { row: r.row, token: r.token, ..m })
            &&& captures_kept(m, r)
            &&& (r.token)(Buf::VerifyOuts, i) == chosen(s, (m.row)(Buf::X, i))
        }),
{
    let hidden = s.model.hidden as int;
    assert(rows * hidden <= 8 * hidden) by (nonlinear_arith)
        requires
            rows <= 8,
            0 <= hidden,
    ;
    let norm = step_plan::norm_act(f, NormW::Final, rows, hidden);
    let bar = step_plan::barrier_if(f.hazard);
    let mat = Op::Mat { bank: Bank::LmHead, src: Buf::Act, dst: Buf::Logits, rows: rows as u32 };
    let pick = verify::argmax_rows(f.hazard, s.model.vocab as int, rows);
    lemma_norm_act(s, m, f, NormW::Final, rows);
    let m1 = machine::run(s, m, norm);
    machine::lemma_cat(s, m, norm, bar);
    machine::lemma_barrier(s, m1, f.hazard);
    machine::lemma_cat(s, m, norm + bar, seq![mat, Op::Barrier]);
    machine::lemma_two(s, m1, mat, Op::Barrier);
    let m2 = machine::exec(s, m1, mat);
    machine::lemma_cat(s, m, norm + bar + seq![mat, Op::Barrier], pick);
    lemma_argmax_rows(s, m2, f.hazard, rows);
    assert((m1.row)(Buf::Act, i) == normed(s, NormW::Final, (m.row)(Buf::X, i)));
    assert((m2.row)(Buf::Logits, i) == logits(s, (m.row)(Buf::X, i)));
}

/// A step chooses its next token from the logits of its one row.
pub proof fn steps_choose_from_their_row<V>(s: Shapes<V>, m: Mem<V>, f: StepFlags)
    requires
        s.model.wf(),
        0 < s.model.vocab,
    ensures
        ({
            let r = machine::run(s, m, session::sample_ops(f, s.model));
            &&& r == (Mem { row: r.row, token: r.token, ..m })
            &&& captures_kept(m, r)
            &&& (r.token)(Buf::ArgmaxTok, 0) == chosen(s, (m.row)(Buf::X, 0))
        }),
{
    let hidden = s.model.hidden as int;
    let norm = step_plan::norm_act(f, NormW::Final, 1, hidden);
    let bar = step_plan::barrier_if(f.hazard);
    let mat = Op::Mat { bank: Bank::LmHead, src: Buf::Act, dst: Buf::Logits, rows: 1 };
    let pick = Op::Argmax { at: 0, dst: Buf::ArgmaxTok, index: 0 };
    lemma_norm_act(s, m, f, NormW::Final, 1);
    let m1 = machine::run(s, m, norm);
    machine::lemma_cat(s, m, norm, bar);
    machine::lemma_barrier(s, m1, f.hazard);
    let tail = seq![mat, Op::Barrier, pick];
    machine::lemma_cat(s, m, norm + bar, tail);
    assert(tail =~= seq![mat, Op::Barrier] + seq![pick]);
    machine::lemma_cat(s, m1, seq![mat, Op::Barrier], seq![pick]);
    machine::lemma_two(s, m1, mat, Op::Barrier);
    let m2 = machine::exec(s, m1, mat);
    machine::lemma_one(s, m2, pick);
    assert(0int / s.model.vocab as int == 0) by {
        lemma_basic_div(0, s.model.vocab as int);
    }
    assert((m1.row)(Buf::Act, 0) == normed(s, NormW::Final, (m.row)(Buf::X, 0)));
    assert((m2.row)(Buf::Logits, 0) == logits(s, (m.row)(Buf::X, 0)));
    assert(0int * s.model.vocab == 0) by (nonlinear_arith);
    assert((machine::exec(s, m2, pick).token)(Buf::ArgmaxTok, 0) == chosen(s, (m.row)(Buf::X, 0)));
    assert(session::sample_ops(f, s.model) =~= norm + bar + tail);
}

/// The context row that the captured row in place makes.
pub open spec fn context_row<V>(s: Shapes<V>, m: Mem<V>) -> V {
    (s.kernels.cond_norm)(s.ctx_width, (s.kernels.fc)(machine::captured_row(s, m)))
}

/// Projecting the captured row while the context holds `n` rows makes it row `n` of the
/// context, and leaves every other row of the context, and all else, as it was.
pub proof fn projected_rows_are_appended<V>(s: Shapes<V>, m: Mem<V>, hazard: bool, n: int, j: int)
    requires
        0 < s.ctx_width <= u32::MAX,
        0 <= n,
        n * s.ctx_width <= usize::MAX,
    ensures
        ({
            let r = machine::run(s, m, conditioner::project_ops(hazard, s.ctx_width, n));
            &&& r == (Mem { cond: r.cond, ctx: r.ctx, ..m })
            &&& (r.ctx)(j) == (if j == n {
                context_row(s, m)
            } else {
                (m.ctx)(j)
            })
        }),
{
    let w = s.ctx_width;
    let bar = step_plan::barrier_if(hazard);
    let norm = Op::CondNorm { n: kv_slot::low32(w) };
    assert(0 <= n * w) by (nonlinear_arith)
        requires
            0 <= n,
            0 < w,
    ;
    let store = Op::CondStore { at: (n * w) as usize, n: kv_slot::low32(w) };
    machine::lemma_cat(s, m, seq![Op::CondFc] + bar, seq![norm, store]);
    machine::lemma_cat(s, m, seq![Op::CondFc], bar);
    machine::lemma_one(s, m, Op::CondFc);
    let m1 = machine::exec(s, m, Op::CondFc);
    machine::lemma_barrier(s, m1, hazard);
    machine::lemma_two(s, m1, norm, store);
    assert(kv_slot::low32(w) == w) by {
        lemma_small_mod(w as nat, 0x1_0000_0000);
    }
    assert(j * w == n * w ==> j == n) by (nonlinear_arith)
        requires
            0 < w,
    ;
}

/// Rows were projected one after another into a context that held `n0` of them: what the
/// memory was before each projection and after it. In between anything else may happen.
pub open spec fn projected_in_turn<V>(
    s: Shapes<V>,
    before: Seq<Mem<V>>,
    after: Seq<Mem<V>>,
    hazard: bool,
    n0: int,
) -> bool {
    &&& before.len() == after.len()
    &&& forall|j: int|
        0 <= j < before.len() ==> #[trigger] after[j] == machine::run(
            s,
            before[j],
            conditioner::project_ops(hazard, s.ctx_width, n0 + j),
        )
    &&& forall|j: int| 0 < j < before.len() ==> (#[trigger] before[j]).ctx == after[j - 1].ctx
}

/// After `k` rows were projected one after another, row `j` of them is the one that was
/// projected `j`-th, and the rows that were there before are still there.
pub proof fn context_rows_keep_their_order<V>(
    s: Shapes<V>,
    before: Seq<Mem<V>>,
    after: Seq<Mem<V>>,
    hazard: bool,
    n0: int,
    k: int,
    j: int,
)
    requires
        0 < s.ctx_width <= u32::MAX,
        0 <= n0,
        projected_in_turn(s, before, after, hazard, n0),
        (n0 + before.len()) * s.ctx_width <= usize::MAX,
        0 < k <= before.len(),
        j < n0 + k,
    ensures
        (after[k - 1].ctx)(j) == (if j >= n0 {
            context_row(s, before[j - n0])
        } else {
            (before[0].ctx)(j)
        }),
    decreases k,
{
    let n = n0 + k - 1;
    assert(n * s.ctx_width <= (n0 + before.len()) * s.ctx_width) by (nonlinear_arith)
        requires
            n <= n0 + before.len(),
            0 < s.ctx_width,
    ;
    projected_rows_are_appended(s, before[k - 1], hazard, n, j);
    assert(after[k - 1] == machine::run(
        s,
        before[k - 1],
        conditioner::project_ops(hazard, s.ctx_width, n0 + (k - 1)),
    ));
    if k > 1 {
        assert(before[k - 1].ctx == after[k - 2].ctx);
        if j < n {
            context_rows_keep_their_order(s, before, after, hazard, n0, k - 1, j);
        }
    }
}

} // verus!
