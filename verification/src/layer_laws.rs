//! What one layer computes, in a step and in a block: what its rows attend to, what it
//! leaves in the caches, and what becomes of the residual.

use crate::compute_laws;
use crate::compute_laws::{captures_kept, kept, normed, rows_only};
use crate::config::LayerType;
use crate::kv_bank;
use crate::kv_bank::KvBankV;
use crate::kv_slot;
use crate::kv_slot::{GpuKvSlot, KvStore};
use crate::machine;
use crate::machine::{Mem, Shapes};
use crate::model;
use crate::model::{GpuSynthLayer, GpuSynthModel};
use crate::ops::{Bank, Buf, Factor, NormW, Op, SlotRef};
use crate::step_plan;
use crate::step_plan::{LayerCaps, StepFlags};
use crate::verify_plan;
use vstd::arithmetic::div_mod::*;
use vstd::prelude::*;

verus! {

/// How far back a layer attends: a sliding layer over its window, a global one over
/// everything.
pub open spec fn reach(p: GpuSynthLayer) -> Option<int> {
    match p.layer_type {
        LayerType::SlidingAttention => Some(
            match p.window {
                Some(w) => w as int,
                None => 512,
            },
        ),
        LayerType::FullAttention => None,
    }
}

/// What a query at position `q` attends to: every position up to its own that lies in the
/// window, its own among them, and nothing else.
pub open spec fn context<V>(
    key: spec_fn(int) -> V,
    val: spec_fn(int) -> V,
    window: Option<int>,
    q: int,
) -> spec_fn(int) -> Option<(V, V)> {
    |p: int|
        if 0 <= p <= q && (window matches Some(w) ==> q - p < w) {
            Some((key(p), val(p)))
        } else {
            None
        }
}

/// A slot of this shape holds the keys and values of the positions before `n`, as far back
/// as it reaches.
pub open spec fn holds<V>(
    m: Mem<V>,
    r: SlotRef,
    sl: GpuKvSlot,
    key: spec_fn(int) -> V,
    val: spec_fn(int) -> V,
    n: int,
) -> bool {
    forall|p: int|
        0 <= p < n && n - sl.capacity <= p ==> #[trigger] held(m, r, sl, key, val, p)
}

/// The key and the value of a position are found where a slot of this shape has them.
pub open spec fn held<V>(
    m: Mem<V>,
    r: SlotRef,
    sl: GpuKvSlot,
    key: spec_fn(int) -> V,
    val: spec_fn(int) -> V,
    p: int,
) -> bool {
    (m.keys)(r, sl.index_of(p)) == key(p) && (m.vals)(r, sl.index_of(p)) == val(p)
}

/// The rows of a slot can be told apart and addressed with 32 bits.
pub open spec fn row_addressed<V>(s: Shapes<V>, r: SlotRef, sl: GpuKvSlot) -> bool {
    &&& (s.width)(r) == sl.row()
    &&& 0 < sl.row() <= u32::MAX
    &&& 0 < sl.capacity <= u32::MAX
    &&& sl.capacity * sl.row() <= u32::MAX
}

/// What a block of `rows` rows writes after a row does not take the place of what that row
/// attends to.
pub open spec fn within_reach(sl: GpuKvSlot, pos: int, rows: int, window: Option<int>) -> bool {
    pos + rows <= sl.capacity || (sl.is_ring && (window matches Some(w) && w + rows - 1
        <= sl.capacity))
}

/// Nothing but rows of working buffers and the gathered rows has changed.
pub open spec fn caches_kept<V>(a: Mem<V>, b: Mem<V>) -> bool {
    &&& b == (Mem {
        row: b.row,
        dense_k: b.dense_k,
        dense_v: b.dense_v,
        o_width: b.o_width,
        ..a
    })
    &&& captures_kept(a, b)
}

proof fn lemma_low(n: int)
    requires
        0 <= n <= u32::MAX,
    ensures
        kv_slot::low32(n) == n,
{
    lemma_small_mod(n as nat, 0x1_0000_0000);
}

proof fn lemma_index(sl: GpuKvSlot, p: int)
    requires
        0 <= p,
        0 < sl.capacity,
        sl.is_ring || p < sl.capacity,
        0 <= sl.row(),
    ensures
        0 <= sl.index_of(p) < sl.capacity,
        0 <= sl.index_of(p) * sl.row() <= sl.capacity * sl.row(),
{
    if sl.is_ring {
        lemma_mod_bound(p, sl.capacity as int);
    }
    let i = sl.index_of(p);
    let c = sl.capacity as int;
    let w = sl.row();
    assert(0 <= i * w <= c * w) by (nonlinear_arith)
        requires
            0 <= i <= c,
            0 <= w,
    ;
}

/// Storing the next timestep keeps what the slot holds, and adds to it.
proof fn lemma_stored<V>(
    s: Shapes<V>,
    m: Mem<V>,
    r: SlotRef,
    sl: GpuKvSlot,
    key: spec_fn(int) -> V,
    val: spec_fn(int) -> V,
    n: int,
)
    requires
        sl.wf(),
        row_addressed(s, r, sl),
        0 <= n < usize::MAX,
        sl.is_ring || n < sl.capacity,
        holds(m, r, sl, key, val, n),
    ensures
        holds(
            machine::put_slot(
                s,
                m,
                r,
                kv_slot::low32(sl.index_of(n) * sl.row()) as int,
                sl.row(),
                key(n),
                val(n),
            ),
            r,
            sl,
            key,
            val,
            n + 1,
        ),
{
    let at = sl.index_of(n);
    let w = sl.row();
    lemma_index(sl, n);
    lemma_low(at * w);
    let after = machine::put_slot(s, m, r, kv_slot::low32(at * w) as int, w, key(n), val(n));
    let full = sl.holding(n + 1);
    kv_slot::holding_is_wf(sl, n + 1);
    assert forall|p: int| 0 <= p < n + 1 && n + 1 - sl.capacity <= p implies #[trigger] held(
        after,
        r,
        sl,
        key,
        val,
        p,
    ) by {
        let j = sl.index_of(p);
        if p == n {
        } else {
            assert(held(m, r, sl, key, val, p));
            if j == at {
                if sl.is_ring {
                    assert(full.index_of(p) == full.index_of(n));
                    kv_slot::live_positions_do_not_collide(full, p, n);
                }
            }
            assert(j * w == at * w ==> j == at) by (nonlinear_arith)
                requires
                    0 < w,
            ;
        }
    }
}

/// What a view of a slot hands to a query is its context.
proof fn lemma_handed<V>(
    m: Mem<V>,
    r: SlotRef,
    sl: GpuKvSlot,
    key: spec_fn(int) -> V,
    val: spec_fn(int) -> V,
    window: Option<int>,
    pos: int,
    rows: int,
    i: int,
)
    requires
        sl.wf(),
        sl.seq_len == pos + rows,
        0 <= pos,
        0 <= i < rows,
        pos + rows <= u32::MAX,
        0 < sl.capacity <= u32::MAX,
        within_reach(sl, pos, rows, window),
        holds(m, r, sl, key, val, pos + rows),
        ({
            let v = sl.fa_view(kv_slot::low32(pos + rows));
            v.densify ==> forall|j: int|
                0 <= j < v.rows ==> #[trigger] (m.dense_k)(j) == (m.keys)(
                    r,
                    (v.start + j) % v.capacity as int,
                ) && (m.dense_v)(j) == (m.vals)(r, (v.start + j) % v.capacity as int)
        }),
    ensures
        ({
            let v = sl.fa_view(kv_slot::low32(pos + rows));
            machine::handed(
                m,
                step_plan::kv_source(sl, r),
                pos,
                v.kv_pos_offset as int,
                v.rows as int,
                window,
                i,
            ) == context(key, val, window, pos + i)
        }),
{
    let n = pos + rows;
    lemma_low(n);
    let v = sl.fa_view(kv_slot::low32(n));
    lemma_low(sl.filled());
    if sl.wrapped() {
        lemma_low(n - sl.capacity);
    }
    let src = step_plan::kv_source(sl, r);
    let a = machine::handed(m, src, pos, v.kv_pos_offset as int, v.rows as int, window, i);
    let b = context(key, val, window, pos + i);
    assert forall|p: int| #[trigger] a(p) == b(p) by {
        let j = p - v.kv_pos_offset;
        if 0 <= j < v.rows {
            kv_slot::fa_rows_are_consecutive_positions(sl, kv_slot::low32(n), j);
            assert(held(m, r, sl, key, val, p));
            if v.densify {
                assert((m.dense_k)(j) == (m.keys)(r, (v.start + j) % v.capacity as int));
            }
        }
        assert(machine::sees(
            pos + i,
            v.kv_pos_offset as int,
            v.rows as int,
            window,
            p,
        ) == (0 <= p <= pos + i && (window matches Some(w) ==> pos + i - p < w)));
    }
    assert(a =~= b);
}

/// Attention hands every row its context: row `i` attends to the positions up to its own
/// that lie in the window, and to the keys and values that were stored for them.
pub proof fn rows_attend_to_their_context<V>(
    s: Shapes<V>,
    m: Mem<V>,
    f: StepFlags,
    sl: GpuKvSlot,
    key: spec_fn(int) -> V,
    val: spec_fn(int) -> V,
    li: usize,
    pos: int,
    rows: int,
)
    requires
        li < s.model.layers@.len(),
        sl.wf(),
        sl.seq_len == pos + rows,
        0 <= pos,
        1 <= rows,
        pos + rows <= u32::MAX,
        row_addressed(s, s.model.layers@[li as int].reads(), sl),
        within_reach(sl, pos, rows, reach(s.model.layers@[li as int])),
        holds(m, s.model.layers@[li as int].reads(), sl, key, val, pos + rows),
        reach(s.model.layers@[li as int]) matches Some(w) ==> w <= u32::MAX,
        rows * (s.model.layers@[li as int].hq * s.model.layers@[li as int].head_dim) <= u32::MAX,
    ensures
        ({
            let p = s.model.layers@[li as int];
            let r = machine::run(
                s,
                m,
                step_plan::attend_ops(
                    f,
                    p,
                    sl,
                    li,
                    rows,
                    kv_slot::low32(pos + rows),
                    kv_slot::low32(pos),
                ),
            );
            &&& caches_kept(m, r)
            &&& kept(m, r, Buf::X)
            &&& forall|i: int|
                0 <= i < rows ==> #[trigger] (r.row)(Buf::Act, i) == (s.kernels.half)(
                    (s.kernels.attend)(
                        li,
                        (m.row)(Buf::Q, i),
                        context(key, val, reach(p), pos + i),
                    ),
                )
        }),
{
    let p = s.model.layers@[li as int];
    let slot = p.reads();
    let want = kv_slot::low32(pos + rows);
    let q_pos = kv_slot::low32(pos);
    let v = sl.fa_view(want);
    lemma_low(pos + rows);
    lemma_low(pos);
    lemma_low(sl.row());
    lemma_low(sl.capacity as int);
    lemma_low(sl.filled());
    let bar = step_plan::barrier_if(f.hazard);
    let gather = step_plan::gather_ops(slot, v);
    let att = step_plan::attend_op(f, p, sl, li, rows, v, q_pos);
    let n = (rows * (p.hq * p.head_dim)) as u32;
    let cast: Seq<Op> = if f.fuse_bf16_fa {
        seq![]
    } else {
        seq![Op::CastAct { src: Buf::O, n }]
    };
    machine::lemma_cat(s, m, bar + gather + seq![att] + cast, bar);
    machine::lemma_cat(s, m, bar + gather + seq![att], cast);
    machine::lemma_cat(s, m, bar + gather, seq![att]);
    machine::lemma_cat(s, m, bar, gather);
    machine::lemma_barrier(s, m, f.hazard);
    let m1 = machine::run(s, m, gather);
    machine::lemma_none(s, m);
    let ga = Op::Gather { slot, values: false, view: v };
    let gb = Op::Gather { slot, values: true, view: v };
    machine::lemma_two(s, m, ga, gb);
    assert(m1.keys == m.keys && m1.vals == m.vals && m1.row == m.row);
    machine::lemma_one(s, m1, att);
    let m2 = machine::exec(s, m1, att);
    machine::lemma_none(s, m2);
    machine::lemma_one(s, m2, Op::CastAct { src: Buf::O, n });
    let m3 = machine::run(s, m2, cast);
    machine::lemma_barrier(s, m3, f.hazard);
    if let Some(w) = reach(p) {
        if p.window is Some {
            lemma_low(w);
        }
    }
    assert(holds(m1, slot, sl, key, val, pos + rows)) by {
        assert forall|x: int| 0 <= x < pos + rows && pos + rows - sl.capacity
            <= x implies #[trigger] held(m1, slot, sl, key, val, x) by {
            assert(held(m, slot, sl, key, val, x));
        }
    }
    assert forall|i: int| 0 <= i < rows implies #[trigger] (m3.row)(Buf::Act, i) == (
    s.kernels.half)(
        (s.kernels.attend)(li, (m.row)(Buf::Q, i), context(key, val, reach(p), pos + i)),
    ) by {
        lemma_handed(m1, slot, sl, key, val, reach(p), pos, rows, i);
        compute_laws::lemma_covers(i, p.hq * p.head_dim, rows);
    }
}

/// The first rows hold a layer's projections of the normed residual.
pub open spec fn projected<V>(s: Shapes<V>, m: Mem<V>, r: Mem<V>, li: usize, rows: int) -> bool {
    &&& rows_only(m, r)
    &&& kept(m, r, Buf::X)
    &&& forall|i: int|
        0 <= i < rows ==> #[trigger] (r.row)(Buf::Q, i) == (s.kernels.mat)(
            Bank::Q(li),
            normed(s, NormW::Input(li), (m.row)(Buf::X, i)),
        )
    &&& s.model.layers@[li as int].produces() ==> forall|i: int|
        0 <= i < rows ==> #[trigger] (r.row)(Buf::K, i) == (s.kernels.mat)(
            Bank::K(li),
            normed(s, NormW::Input(li), (m.row)(Buf::X, i)),
        )
    &&& s.model.layers@[li as int].produces() ==> forall|i: int|
        0 <= i < rows ==> #[trigger] (r.row)(Buf::V, i) == (s.kernels.mat)(
            Bank::V(li),
            normed(s, NormW::Input(li), (m.row)(Buf::X, i)),
        )
}

proof fn lemma_head<V>(s: Shapes<V>, m: Mem<V>, f: StepFlags, c: LayerCaps, li: usize)
    requires
        s.model.wf(),
        li < s.model.layers@.len(),
    ensures
        projected(s, m, machine::run(s, m, step_plan::head_ops(f, s.model, c, li)), li, 1),
{
    let hidden = s.model.hidden as int;
    let p = s.model.layers@[li as int];
    let norm = step_plan::norm_act(f, NormW::Input(li), 1, hidden);
    let bar = step_plan::barrier_if(f.hazard);
    let qkv = step_plan::qkv_ops(p, c, li);
    compute_laws::lemma_norm_act(s, m, f, NormW::Input(li), 1);
    let m1 = machine::run(s, m, norm);
    machine::lemma_cat(s, m, norm + bar + qkv, bar);
    machine::lemma_cat(s, m, norm + bar, qkv);
    machine::lemma_cat(s, m, norm, bar);
    machine::lemma_barrier(s, m1, f.hazard);
    let m2 = machine::run(s, m1, qkv);
    machine::lemma_barrier(s, m2, f.hazard);
    let q = Op::Mat { bank: Bank::Q(li), src: Buf::Act, dst: Buf::Q, rows: 1 };
    let k = Op::Mat { bank: Bank::K(li), src: Buf::Act, dst: Buf::K, rows: 1 };
    let v = Op::Mat { bank: Bank::V(li), src: Buf::Act, dst: Buf::V, rows: 1 };
    assert((m1.row)(Buf::Act, 0) == normed(s, NormW::Input(li), (m.row)(Buf::X, 0)));
    if p.produces() && c.qkv {
        machine::lemma_one(s, m1, Op::QkvFused { layer: li });
    } else {
        machine::lemma_one(s, m1, q);
        let a = machine::exec(s, m1, q);
        if !p.produces() {
            assert(qkv =~= seq![q]);
        } else if c.kv {
            machine::lemma_cat(s, m1, seq![q], seq![Op::KvFused { layer: li }]);
            machine::lemma_one(s, a, Op::KvFused { layer: li });
        } else {
            machine::lemma_cat(s, m1, seq![q], seq![k, v]);
            machine::lemma_two(s, a, k, v);
        }
    }
}

/// What a layer makes of its attention output `o` and of the residual `x` of a token.
pub open spec fn layer_out<V>(s: Shapes<V>, f: StepFlags, li: usize, token: u32, x: V, o: V) -> V {
    let k = s.kernels;
    let p = s.model.layers@[li as int];
    let dual = step_plan::dual_norm(f, s.model, li as int);
    let x1 = after_attention(s, dual, li, x, o);
    let x2 = after_ple(s, li, token, x1);
    after_mlp(s, dual, li, x2)
}

/// The residual once attention is added.
pub open spec fn after_attention<V>(s: Shapes<V>, dual: bool, li: usize, x: V, o: V) -> V {
    let k = s.kernels;
    let a = (k.mat)(Bank::O(li), (k.half)(o));
    (k.plus)(
        x,
        if dual {
            (k.norm)(NormW::PostAttn(li), s.model.hidden as int, a)
        } else {
            a
        },
    )
}

/// The residual once the per-layer embedding of the token is added, where the layer has one.
pub open spec fn after_ple<V>(s: Shapes<V>, li: usize, token: u32, x: V) -> V {
    let k = s.kernels;
    if s.model.ple_at(li as int) {
        (k.plus_part)(
            s.model.cfg.hidden_size_per_layer_input as int,
            x,
            (k.scale)(Factor::InvSqrt2, (k.ple)(li, token)),
        )
    } else {
        x
    }
}

/// The residual once the feed-forward part is added, and scaled where the layer scales.
pub open spec fn after_mlp<V>(s: Shapes<V>, dual: bool, li: usize, x: V) -> V {
    let k = s.kernels;
    let p = s.model.layers@[li as int];
    let w = if p.has_pre_ff_norm {
        NormW::PreFf(li)
    } else {
        NormW::PostAttn(li)
    };
    let d = (k.mat)(Bank::Down(li), (k.half)(machine::gated(k, li, normed(s, w, x))));
    let y = after_down(s, dual, li, x, d);
    if dual && model::scales(p.layer_scalar_bits) {
        (k.scale)(Factor::Layer(li), y)
    } else {
        y
    }
}

/// The residual once the down projection is added.
pub open spec fn after_down<V>(s: Shapes<V>, dual: bool, li: usize, x: V, d: V) -> V {
    let k = s.kernels;
    let hidden = s.model.hidden as int;
    if !s.model.layers@[li as int].has_post_ff_norm {
        (k.plus)(x, d)
    } else if dual {
        (k.plus)(x, (k.norm)(NormW::PostFf(li), hidden, d))
    } else {
        (k.norm)(NormW::PostFf(li), hidden, (k.plus)(x, d))
    }
}

/// Row `i` of the residual became what `v` says, for the first rows, and nothing but
/// buffers has changed.
pub open spec fn residual_is<V>(m: Mem<V>, r: Mem<V>, rows: int, v: spec_fn(int) -> V) -> bool {
    &&& rows_only(m, r)
    &&& forall|i: int| 0 <= i < rows ==> #[trigger] (r.row)(Buf::X, i) == v(i)
}

proof fn lemma_out<V>(s: Shapes<V>, m: Mem<V>, f: StepFlags, dual: bool, li: usize, rows: int)
    requires
        0 <= rows <= 8,
        rows * s.model.hidden <= u32::MAX,
        s.model.hidden <= u32::MAX,
    ensures
        ({
            let r = machine::run(
                s,
                m,
                step_plan::out_proj_ops(f, dual, li, rows, s.model.hidden as int),
            );
            &&& rows_only(m, r)
            &&& forall|i: int|
                0 <= i < rows ==> #[trigger] (r.row)(Buf::X, i) == (s.kernels.plus)(
                    (m.row)(Buf::X, i),
                    if dual {
                        (s.kernels.norm)(
                            NormW::PostAttn(li),
                            s.model.hidden as int,
                            (s.kernels.mat)(Bank::O(li), (m.row)(Buf::Act, i)),
                        )
                    } else {
                        (s.kernels.mat)(Bank::O(li), (m.row)(Buf::Act, i))
                    },
                )
        }),
{
    let hidden = s.model.hidden as int;
    let n = rows as u32;
    let bar = step_plan::barrier_if(f.hazard);
    if dual && f.fuse_dual_norm {
        machine::lemma_one(
            s,
            m,
            Op::MatNormAdd {
                bank: Bank::O(li),
                src: Buf::Act,
                weight: NormW::PostAttn(li),
                by: Factor::One,
                rows: n,
            },
        );
    } else if dual {
        let a = Op::Mat { bank: Bank::O(li), src: Buf::Act, dst: Buf::AttnProj, rows: n };
        let b = Op::Rms {
            src: Buf::AttnProj,
            weight: NormW::PostAttn(li),
            dst: Buf::Normed,
            rows: n,
            n: hidden as u32,
        };
        let c = Op::ResidualAdd {
            src: Buf::Normed,
            by: Factor::One,
            at: 0,
            n: (rows * hidden) as u32,
        };
        lemma_three(s, m, a, b, c, f.hazard);
        let m3 = machine::exec(s, machine::exec(s, machine::exec(s, m, a), b), c);
        assert forall|i: int| 0 <= i < rows implies #[trigger] (m3.row)(Buf::X, i) == (
        s.kernels.plus)(
            (m.row)(Buf::X, i),
            (s.kernels.norm)(
                NormW::PostAttn(li),
                hidden,
                (s.kernels.mat)(Bank::O(li), (m.row)(Buf::Act, i)),
            ),
        ) by {
            compute_laws::lemma_covers(i, hidden, rows);
        }
    } else {
        machine::lemma_one(s, m, Op::MatAdd { bank: Bank::O(li), src: Buf::Act, rows: n });
    }
}

/// Three commands with barriers between them.
proof fn lemma_three<V>(s: Shapes<V>, m: Mem<V>, a: Op, b: Op, c: Op, hazard: bool)
    ensures
        machine::run(
            s,
            m,
            seq![a] + step_plan::barrier_if(hazard) + seq![b] + step_plan::barrier_if(hazard)
                + seq![c],
        ) == machine::exec(s, machine::exec(s, machine::exec(s, m, a), b), c),
{
    let bar = step_plan::barrier_if(hazard);
    machine::lemma_cat(s, m, seq![a] + bar + seq![b] + bar, seq![c]);
    machine::lemma_cat(s, m, seq![a] + bar + seq![b], bar);
    machine::lemma_cat(s, m, seq![a] + bar, seq![b]);
    machine::lemma_cat(s, m, seq![a], bar);
    machine::lemma_one(s, m, a);
    let m1 = machine::exec(s, m, a);
    machine::lemma_barrier(s, m1, hazard);
    machine::lemma_one(s, m1, b);
    let m2 = machine::exec(s, m1, b);
    machine::lemma_barrier(s, m2, hazard);
    machine::lemma_one(s, m2, c);
}

proof fn lemma_ple<V>(s: Shapes<V>, m: Mem<V>, f: StepFlags, li: usize)
    requires
        s.model.wf(),
        0 < s.model.hidden,
    ensures
        ({
            let r = machine::run(s, m, step_plan::ple_ops(f, s.model, li));
            &&& rows_only(m, r)
            &&& (r.row)(Buf::X, 0) == after_ple(
                s,
                li,
                (m.token)(Buf::SeedTok, 0),
                (m.row)(Buf::X, 0),
            )
        }),
{
    let md = s.model;
    let bar = step_plan::barrier_if(f.hazard);
    if !md.ple_at(li as int) {
        machine::lemma_none(s, m);
    } else if f.fuse_ple_residual && md.has_ple_q4 {
        machine::lemma_cat(s, m, bar, seq![Op::PleFused { layer: li }]);
        machine::lemma_barrier(s, m, f.hazard);
        machine::lemma_one(s, m, Op::PleFused { layer: li });
    } else {
        let a = if md.has_ple_q4 {
            Op::PleQ4 { layer: li }
        } else {
            Op::PleTable { layer: li }
        };
        let b = Op::ResidualAdd {
            src: Buf::PleOut,
            by: Factor::InvSqrt2,
            at: 0,
            n: md.cfg.hidden_size_per_layer_input as u32,
        };
        machine::lemma_cat(s, m, seq![a] + bar, seq![b]);
        machine::lemma_cat(s, m, seq![a], bar);
        machine::lemma_one(s, m, a);
        let m1 = machine::exec(s, m, a);
        machine::lemma_barrier(s, m1, f.hazard);
        machine::lemma_one(s, m1, b);
        assert(0int * md.hidden == 0) by (nonlinear_arith);
    }
}

proof fn lemma_replace<V>(s: Shapes<V>, m: Mem<V>, li: usize, rows: int)
    requires
        0 <= rows <= 8,
        0 < s.model.hidden <= u32::MAX,
        rows * s.model.hidden <= u32::MAX,
    ensures
        ({
            let r = machine::run(
                s,
                m,
                step_plan::replace_by_norm(li, rows, s.model.hidden as int),
            );
            &&& rows_only(m, r)
            &&& forall|i: int|
                0 <= i < rows ==> #[trigger] (r.row)(Buf::X, i) == (s.kernels.norm)(
                    NormW::PostFf(li),
                    s.model.hidden as int,
                    (m.row)(Buf::X, i),
                )
        }),
{
    let hidden = s.model.hidden as int;
    let a = Op::Rms {
        src: Buf::X,
        weight: NormW::PostFf(li),
        dst: Buf::Normed,
        rows: rows as u32,
        n: hidden as u32,
    };
    let b = Op::CopyF32 {
        src: Buf::Normed,
        from: 0,
        dst: Buf::X,
        to: 0,
        n: (rows * hidden) as u32,
    };
    machine::lemma_two(s, m, a, b);
    let r = machine::exec(s, machine::exec(s, m, a), b);
    assert forall|i: int| 0 <= i < rows implies #[trigger] (r.row)(Buf::X, i) == (s.kernels.norm)(
        NormW::PostFf(li),
        hidden,
        (m.row)(Buf::X, i),
    ) by {
        compute_laws::lemma_covers(i, hidden, rows);
        assert(i * hidden >= 0) by (nonlinear_arith)
            requires
                0 <= i,
                0 < hidden,
        ;
        assert(hidden * i == i * hidden) by (nonlinear_arith);
        lemma_div_multiples_vanish(i, hidden);
    }
}

/// The residual once the down projection is added, and scaled where that is folded in.
pub open spec fn down_done<V>(
    s: Shapes<V>,
    f: StepFlags,
    dual: bool,
    li: usize,
    x: V,
    h: V,
) -> V {
    let p = s.model.layers@[li as int];
    let y = after_down(s, dual, li, x, (s.kernels.mat)(Bank::Down(li), h));
    if dual && p.has_post_ff_norm && f.fuse_dual_norm && model::scales(p.layer_scalar_bits) {
        (s.kernels.scale)(Factor::Layer(li), y)
    } else {
        y
    }
}

#[verifier::spinoff_prover]
#[verifier::rlimit(80)]
proof fn lemma_down<V>(s: Shapes<V>, m: Mem<V>, f: StepFlags, dual: bool, li: usize, rows: int)
    requires
        0 <= rows <= 8,
        0 < s.model.hidden <= u32::MAX,
        rows * s.model.hidden <= u32::MAX,
    ensures
        ({
            let src = if f.fuse_bf16_mlp {
                Buf::Mid
            } else {
                Buf::Act
            };
            let r = machine::run(
                s,
                m,
                step_plan::down_ops(
                    f,
                    s.model.layers@[li as int],
                    dual,
                    li,
                    rows,
                    s.model.hidden as int,
                ),
            );
            &&& rows_only(m, r)
            &&& forall|i: int|
                0 <= i < rows ==> #[trigger] (r.row)(Buf::X, i) == down_done(
                    s,
                    f,
                    dual,
                    li,
                    (m.row)(Buf::X, i),
                    (m.row)(src, i),
                )
        }),
{
    let hidden = s.model.hidden as int;
    let p = s.model.layers@[li as int];
    let n = rows as u32;
    let src = if f.fuse_bf16_mlp {
        Buf::Mid
    } else {
        Buf::Act
    };
    if dual && p.has_post_ff_norm && f.fuse_dual_norm {
        let by = if model::scales(p.layer_scalar_bits) {
            Factor::Layer(li)
        } else {
            Factor::One
        };
        machine::lemma_one(
            s,
            m,
            Op::MatNormAdd { bank: Bank::Down(li), src, weight: NormW::PostFf(li), by, rows: n },
        );
    } else if dual && p.has_post_ff_norm {
        let a = Op::Mat { bank: Bank::Down(li), src, dst: Buf::Down, rows: n };
        let b = Op::Rms {
            src: Buf::Down,
            weight: NormW::PostFf(li),
            dst: Buf::Normed,
            rows: n,
            n: hidden as u32,
        };
        let c = Op::ResidualAdd {
            src: Buf::Normed,
            by: Factor::One,
            at: 0,
            n: (rows * hidden) as u32,
        };
        lemma_three(s, m, a, b, c, f.hazard);
        let m3 = machine::exec(s, machine::exec(s, machine::exec(s, m, a), b), c);
        assert forall|i: int| 0 <= i < rows implies #[trigger] (m3.row)(Buf::X, i) == down_done(
            s,
            f,
            dual,
            li,
            (m.row)(Buf::X, i),
            (m.row)(src, i),
        ) by {
            compute_laws::lemma_covers(i, hidden, rows);
        }
    } else {
        let a = Op::MatAdd { bank: Bank::Down(li), src, rows: n };
        let rest: Seq<Op> = if p.has_post_ff_norm {
            step_plan::replace_by_norm(li, rows, hidden)
        } else {
            seq![]
        };
        machine::lemma_cat(s, m, seq![a], rest);
        machine::lemma_one(s, m, a);
        let m1 = machine::exec(s, m, a);
        machine::lemma_none(s, m1);
        if p.has_post_ff_norm {
            lemma_replace(s, m1, li, rows);
        }
    }
}

proof fn lemma_scalar<V>(s: Shapes<V>, m: Mem<V>, f: StepFlags, dual: bool, li: usize, rows: int)
    requires
        0 <= rows <= 8,
        0 < s.model.hidden <= u32::MAX,
        rows * s.model.hidden <= u32::MAX,
    ensures
        ({
            let p = s.model.layers@[li as int];
            let r = machine::run(
                s,
                m,
                step_plan::scalar_ops(f, p, dual, li, rows * s.model.hidden),
            );
            &&& rows_only(m, r)
            &&& forall|i: int|
                0 <= i < rows ==> #[trigger] (r.row)(Buf::X, i) == (if dual && model::scales(
                    p.layer_scalar_bits,
                ) && !(f.fuse_dual_norm && p.has_post_ff_norm) {
                    (s.kernels.scale)(Factor::Layer(li), (m.row)(Buf::X, i))
                } else {
                    (m.row)(Buf::X, i)
                })
        }),
{
    let hidden = s.model.hidden as int;
    let p = s.model.layers@[li as int];
    let bar = step_plan::barrier_if(f.hazard);
    machine::lemma_none(s, m);
    if dual && model::scales(p.layer_scalar_bits) && !(f.fuse_dual_norm && p.has_post_ff_norm) {
        let a = Op::Scale { dst: Buf::X, by: Factor::Layer(li), n: (rows * hidden) as u32 };
        machine::lemma_cat(s, m, bar, seq![a]);
        machine::lemma_barrier(s, m, f.hazard);
        machine::lemma_one(s, m, a);
        let r = machine::exec(s, m, a);
        assert forall|i: int| 0 <= i < rows implies #[trigger] (r.row)(Buf::X, i) == (
        s.kernels.scale)(Factor::Layer(li), (m.row)(Buf::X, i)) by {
            compute_laws::lemma_covers(i, hidden, rows);
        }
    }
}

/// The feed-forward part of a step, whichever kernels it uses.
#[verifier::spinoff_prover]
#[verifier::rlimit(80)]
proof fn lemma_gate_up<V>(s: Shapes<V>, m: Mem<V>, f: StepFlags, c: LayerCaps, li: usize)
    requires
        s.model.wf(),
        li < s.model.layers@.len(),
        0 < s.model.hidden,
    ensures
        ({
            let dual = step_plan::dual_norm(f, s.model, li as int);
            let p = s.model.layers@[li as int];
            let g = machine::gated(s.kernels, li, (m.row)(Buf::Act, 0));
            let r = machine::run(
                s,
                m,
                step_plan::gate_up_ops(f, s.model, c, dual, li) + step_plan::mlp_tail(
                    f,
                    s.model,
                    c,
                    li,
                ),
            );
            &&& rows_only(m, r)
            &&& (r.row)(Buf::X, 0) == down_done(
                s,
                f,
                dual,
                li,
                (m.row)(Buf::X, 0),
                (s.kernels.half)(g),
            )
        }),
{
    let md = s.model;
    let hidden = md.hidden as int;
    let inter = md.intermediate as int;
    let p = md.layers@[li as int];
    let dual = step_plan::dual_norm(f, md, li as int);
    let bar = step_plan::barrier_if(f.hazard);
    let gu = step_plan::gate_up_ops(f, md, c, dual, li);
    let tail = step_plan::mlp_tail(f, md, c, li);
    let g = machine::gated(s.kernels, li, (m.row)(Buf::Act, 0));
    machine::lemma_cat(s, m, gu, tail);
    let m1 = machine::run(s, m, gu);
    machine::lemma_none(s, m1);
    if step_plan::one_kernel_mlp(p, c, dual) {
        let a = Op::GateDownFused { layer: li };
        machine::lemma_one(s, m, a);
        let x = machine::exec(s, m, a);
        if p.has_post_ff_norm {
            let rep = step_plan::replace_by_norm(li, 1, hidden);
            machine::lemma_cat(s, m, seq![a], bar + rep);
            machine::lemma_cat(s, x, bar, rep);
            machine::lemma_barrier(s, x, f.hazard);
            lemma_replace(s, x, li, 1);
        } else {
            assert(gu =~= seq![a]);
        }
    } else {
        compute_laws::lemma_covers(0, inter, 1);
        if c.gate_up {
            machine::lemma_one(s, m, Op::GateUpGelu { layer: li, half: f.fuse_bf16_mlp });
        } else {
            let a = Op::Mat { bank: Bank::Gate(li), src: Buf::Act, dst: Buf::Gate, rows: 1 };
            let b = Op::Mat { bank: Bank::Up(li), src: Buf::Act, dst: Buf::Up, rows: 1 };
            let e = Op::Gelu { half: f.fuse_bf16_mlp, n: inter as u32 };
            assert(gu =~= seq![a, b] + seq![Op::Barrier, e]);
            machine::lemma_cat(s, m, seq![a, b], seq![Op::Barrier, e]);
            machine::lemma_two(s, m, a, b);
            let y = machine::exec(s, machine::exec(s, m, a), b);
            machine::lemma_two(s, y, Op::Barrier, e);
        }
        assert((m1.row)(Buf::Mid, 0) == (if f.fuse_bf16_mlp {
            (s.kernels.half)(g)
        } else {
            g
        }));
        assert((m1.row)(Buf::X, 0) == (m.row)(Buf::X, 0));
        let cast: Seq<Op> = if f.fuse_bf16_mlp {
            seq![]
        } else {
            seq![Op::CastAct { src: Buf::Mid, n: inter as u32 }]
        };
        let down = step_plan::down_ops(f, p, dual, li, 1, hidden);
        machine::lemma_cat(s, m1, cast + bar, down);
        machine::lemma_cat(s, m1, cast, bar);
        machine::lemma_one(s, m1, Op::CastAct { src: Buf::Mid, n: inter as u32 });
        let m2 = machine::run(s, m1, cast);
        machine::lemma_barrier(s, m2, f.hazard);
        lemma_down(s, m2, f, dual, li, 1);
    }
}

proof fn lemma_mlp<V>(s: Shapes<V>, m: Mem<V>, f: StepFlags, c: LayerCaps, li: usize)
    requires
        s.model.wf(),
        li < s.model.layers@.len(),
        0 < s.model.hidden,
    ensures
        ({
            let dual = step_plan::dual_norm(f, s.model, li as int);
            let r = machine::run(s, m, step_plan::mlp_ops(f, s.model, c, li));
            &&& rows_only(m, r)
            &&& (r.row)(Buf::X, 0) == after_mlp(s, dual, li, (m.row)(Buf::X, 0))
        }),
{
    let md = s.model;
    let hidden = md.hidden as int;
    let p = md.layers@[li as int];
    let dual = step_plan::dual_norm(f, md, li as int);
    let bar = step_plan::barrier_if(f.hazard);
    let w = step_plan::ff_norm(p, li);
    let norm = step_plan::norm_act(f, w, 1, hidden);
    let gu = step_plan::gate_up_ops(f, md, c, dual, li);
    let tail = step_plan::mlp_tail(f, md, c, li);
    let sc = step_plan::scalar_ops(f, p, dual, li, hidden);
    let front = bar + norm + bar;
    machine::lemma_cat(s, m, front + gu + tail, sc);
    assert(front + gu + tail =~= front + (gu + tail));
    machine::lemma_cat(s, m, front, gu + tail);
    machine::lemma_cat(s, m, bar + norm, bar);
    machine::lemma_cat(s, m, bar, norm);
    machine::lemma_barrier(s, m, f.hazard);
    compute_laws::lemma_norm_act(s, m, f, w, 1);
    let m1 = machine::run(s, m, norm);
    machine::lemma_barrier(s, m1, f.hazard);
    lemma_gate_up(s, m1, f, c, li);
    let m2 = machine::run(s, m1, gu + tail);
    lemma_scalar(s, m2, f, dual, li, 1);
    assert(1 * md.hidden == hidden);
    assert((m1.row)(Buf::Act, 0) == normed(s, w, (m.row)(Buf::X, 0)));
    assert((m1.row)(Buf::X, 0) == (m.row)(Buf::X, 0));
    let r = machine::run(s, m2, sc);
    assert((r.row)(Buf::X, 0) == after_mlp(s, dual, li, (m.row)(Buf::X, 0)));
}

/// A slot's rows are as they were.
pub open spec fn slot_kept<V>(a: Mem<V>, b: Mem<V>, r: SlotRef) -> bool {
    forall|j: int|
        #![trigger (b.keys)(r, j)]
        #![trigger (b.vals)(r, j)]
        (b.keys)(r, j) == (a.keys)(r, j) && (b.vals)(r, j) == (a.vals)(r, j)
}

/// What a slot holds does not depend on other slots.
pub proof fn lemma_still_holds<V>(
    a: Mem<V>,
    b: Mem<V>,
    r: SlotRef,
    sl: GpuKvSlot,
    key: spec_fn(int) -> V,
    val: spec_fn(int) -> V,
    n: int,
)
    requires
        holds(a, r, sl, key, val, n),
        slot_kept(a, b, r),
    ensures
        holds(b, r, sl, key, val, n),
{
    assert forall|p: int| 0 <= p < n && n - sl.capacity <= p implies #[trigger] held(
        b,
        r,
        sl,
        key,
        val,
        p,
    ) by {
        assert(held(a, r, sl, key, val, p));
        assert((b.keys)(r, sl.index_of(p)) == (a.keys)(r, sl.index_of(p)));
    }
}

/// A writing layer's slots hold what came before position `pos`, and `key` and `val` are at
/// the next `rows` positions what the layer makes of the staged rows.
pub open spec fn before_write<V>(
    s: Shapes<V>,
    m: Mem<V>,
    b: KvBankV,
    li: usize,
    key: spec_fn(int) -> V,
    val: spec_fn(int) -> V,
    pos: int,
    rows: int,
) -> bool {
    let p = s.model.layers@[li as int];
    &&& forall|i: int|
        0 <= i < rows ==> #[trigger] key(pos + i) == (s.kernels.rope_k)(
            li,
            pos + i,
            (m.row)(Buf::K, i),
        ) && val(pos + i) == (s.kernels.norm_v)(li, (m.row)(Buf::V, i))
    &&& slot_ready(s, m, b, p.reads(), key, val, pos)
    &&& s.model.kv.feeds_shared(li as int) ==> slot_ready(s, m, b, p.shares(), key, val, pos)
}

/// A slot holds the positions before `pos`, and is as long.
pub open spec fn slot_ready<V>(
    s: Shapes<V>,
    m: Mem<V>,
    b: KvBankV,
    r: SlotRef,
    key: spec_fn(int) -> V,
    val: spec_fn(int) -> V,
    pos: int,
) -> bool {
    &&& b.slot(r).seq_len == pos
    &&& row_addressed(s, r, b.slot(r))
    &&& holds(m, r, b.slot(r), key, val, pos)
}

/// Everything but rows of buffers and of slots is as it was, and so is every slot that
/// layer `li` does not write.
pub open spec fn others_kept<V>(s: Shapes<V>, a: Mem<V>, b: Mem<V>, li: usize) -> bool {
    let p = s.model.layers@[li as int];
    &&& b == (Mem { row: b.row, keys: b.keys, vals: b.vals, ..a })
    &&& kept(a, b, Buf::X)
    &&& captures_kept(a, b)
    &&& forall|r: SlotRef|
        !(p.produces() && (r == p.reads() || (s.model.kv.feeds_shared(li as int) && r
            == p.shares()))) ==> #[trigger] slot_kept(a, b, r)
}

#[verifier::spinoff_prover]
proof fn lemma_cache<V>(
    s: Shapes<V>,
    m: Mem<V>,
    f: StepFlags,
    b: KvBankV,
    li: usize,
    key: spec_fn(int) -> V,
    val: spec_fn(int) -> V,
    pos: int,
)
    requires
        s.model.wf(),
        step_plan::bank_fits(s.model, b),
        li < s.model.layers@.len(),
        step_plan::cache_ops(f, s.model, b, li) is Ok,
        m.pos == pos,
        0 <= pos < usize::MAX,
        s.model.layers@[li as int].produces() ==> before_write(s, m, b, li, key, val, pos, 1),
    ensures
        ({
            let p = s.model.layers@[li as int];
            let r = machine::run(s, m, step_plan::cache_ops(f, s.model, b, li)->Ok_0.1);
            &&& others_kept(s, m, r, li)
            &&& (r.row)(Buf::Q, 0) == (s.kernels.rope_q)(li, pos, (m.row)(Buf::Q, 0))
            &&& p.produces() ==> holds(r, p.reads(), b.slot(p.reads()), key, val, pos + 1)
            &&& p.produces() && s.model.kv.feeds_shared(li as int) ==> holds(
                r,
                p.shares(),
                b.slot(p.shares()),
                key,
                val,
                pos + 1,
            )
        }),
{
    let p = s.model.layers@[li as int];
    let own = p.reads();
    let sh = p.shares();
    let bar = step_plan::barrier_if(f.hazard);
    step_plan::lemma_slots_exist(s.model, b, li as int);
    let rope = Op::Rope { layer: li, rows: 1, q_only: !p.produces() };
    machine::lemma_one(s, m, rope);
    if p.produces() {
        assert(own != sh);
        let sl = b.slot(own);
        let feeds = s.model.kv.feeds_shared(li as int);
        let a = machine::roped(s, m, li, 1, false);
        let (b1, store) = b.append(own)->Ok_0;
        assert(key(pos + 0) == (a.row)(Buf::K, 0));
        assert(val(pos + 0) == (a.row)(Buf::V, 0));
        lemma_still_holds(m, a, own, sl, key, val, pos);
        lemma_low(sl.row());
        lemma_stored(s, a, own, sl, key, val, pos);
        assert(0int / sl.row() == 0) by {
            lemma_basic_div(0, sl.row());
        }
        let fused = Op::RopeStore { layer: li, slot: own, offset: sl.write_offset() };
        machine::lemma_one(s, m, fused);
        machine::lemma_cat(s, m, seq![rope] + bar, seq![store]);
        machine::lemma_cat(s, m, seq![rope], bar);
        machine::lemma_barrier(s, a, f.hazard);
        machine::lemma_one(s, a, store);
        let m1 = machine::put_slot(
            s,
            a,
            own,
            sl.write_offset() as int,
            sl.row(),
            key(pos),
            val(pos),
        );
        let first = if f.fuse_rope_kv {
            seq![fused]
        } else {
            seq![rope] + bar + seq![store]
        };
        assert(machine::exec(s, m, rope) == a);
        assert(machine::run(s, m, first) == m1);
        assert(slot_kept(m, m1, sh));
        if feeds {
            let sl2 = b.slot(sh);
            kv_slot::holding_is_wf(sl, sl.seq_len + 1);
            kv_bank::lemma_with(b, own, sl.holding(sl.seq_len + 1));
            assert(b1.slot(sh) == sl2);
            let shared = b1.append(sh)->Ok_0.1;
            lemma_still_holds(m, m1, sh, sl2, key, val, pos);
            lemma_low(sl2.row());
            lemma_stored(s, m1, sh, sl2, key, val, pos);
            assert(0int / sl2.row() == 0) by {
                lemma_basic_div(0, sl2.row());
            }
            assert(first.push(shared) =~= first + seq![shared]);
            machine::lemma_cat(s, m, first, seq![shared]);
            machine::lemma_one(s, m1, shared);
            let m2 = machine::exec(s, m1, shared);
            assert(slot_kept(m1, m2, own));
            lemma_still_holds(m1, m2, own, sl, key, val, pos + 1);
        }
    }
}

/// The input of a layer's projections.
pub open spec fn layer_in<V>(s: Shapes<V>, li: usize, x: V) -> V {
    normed(s, NormW::Input(li), x)
}

/// The key that a layer makes of a residual at a position.
pub open spec fn key_of<V>(s: Shapes<V>, li: usize, pos: int, x: V) -> V {
    (s.kernels.rope_k)(li, pos, (s.kernels.mat)(Bank::K(li), layer_in(s, li, x)))
}

/// The value that a layer makes of a residual.
pub open spec fn value_of<V>(s: Shapes<V>, li: usize, x: V) -> V {
    (s.kernels.norm_v)(li, (s.kernels.mat)(Bank::V(li), layer_in(s, li, x)))
}

/// What a layer makes of the residual of a token at a position, where `key` and `val` give
/// the keys and values of all positions up to it.
pub open spec fn layer_value<V>(
    s: Shapes<V>,
    f: StepFlags,
    li: usize,
    token: u32,
    pos: int,
    x: V,
    key: spec_fn(int) -> V,
    val: spec_fn(int) -> V,
) -> V {
    let q = (s.kernels.rope_q)(li, pos, (s.kernels.mat)(Bank::Q(li), layer_in(s, li, x)));
    let o = (s.kernels.attend)(
        li,
        q,
        context(key, val, reach(s.model.layers@[li as int]), pos),
    );
    layer_out(s, f, li, token, x, o)
}

/// `key` and `val` are at a position what the layer makes of row `i` of the residual.
pub open spec fn makes<V>(
    s: Shapes<V>,
    m: Mem<V>,
    li: usize,
    key: spec_fn(int) -> V,
    val: spec_fn(int) -> V,
    pos: int,
    i: int,
) -> bool {
    &&& key(pos + i) == key_of(s, li, pos + i, (m.row)(Buf::X, i))
    &&& val(pos + i) == value_of(s, li, (m.row)(Buf::X, i))
}

/// The caches are ready for layer `li` to run on `rows` rows from position `pos` on: a
/// writing layer's hold what came before, and `key` and `val` go on with what the layer
/// makes of the residual; a reading layer's hold the rows already.
pub open spec fn ready<V>(
    s: Shapes<V>,
    m: Mem<V>,
    b: KvBankV,
    li: usize,
    key: spec_fn(int) -> V,
    val: spec_fn(int) -> V,
    pos: int,
    rows: int,
) -> bool {
    let p = s.model.layers@[li as int];
    let sl = b.slot(p.reads());
    &&& within_reach(sl, pos, rows, reach(p))
    &&& reach(p) matches Some(w) ==> w <= u32::MAX
    &&& p.produces() ==> {
        &&& slot_ready(s, m, b, p.reads(), key, val, pos)
        &&& s.model.kv.feeds_shared(li as int) ==> slot_ready(
            s,
            m,
            b,
            p.shares(),
            key,
            val,
            pos,
        )
        &&& forall|i: int| 0 <= i < rows ==> #[trigger] makes(s, m, li, key, val, pos, i)
    }
    &&& !p.produces() ==> slot_ready(s, m, b, p.reads(), key, val, pos + rows)
}

/// What a layer leaves in memory: its rows of the residual, and in its slots the keys and
/// values of the positions that it ran for. Other slots, tokens and contexts are kept.
pub open spec fn layer_left<V>(
    s: Shapes<V>,
    m: Mem<V>,
    r: Mem<V>,
    b: KvBankV,
    li: usize,
    key: spec_fn(int) -> V,
    val: spec_fn(int) -> V,
    pos: int,
    rows: int,
) -> bool {
    let p = s.model.layers@[li as int];
    &&& r == (Mem {
        row: r.row,
        keys: r.keys,
        vals: r.vals,
        dense_k: r.dense_k,
        dense_v: r.dense_v,
        o_width: r.o_width,
        token: r.token,
        ..m
    })
    &&& captures_kept(m, r)
    &&& forall|t: SlotRef|
        !(p.produces() && (t == p.reads() || (s.model.kv.feeds_shared(li as int) && t
            == p.shares()))) ==> #[trigger] slot_kept(m, r, t)
    &&& p.produces() ==> holds(r, p.reads(), b.slot(p.reads()), key, val, pos + rows)
    &&& p.produces() && s.model.kv.feeds_shared(li as int) ==> holds(
        r,
        p.shares(),
        b.slot(p.shares()),
        key,
        val,
        pos + rows,
    )
}

proof fn lemma_interp<V>(s: Shapes<V>, m: Mem<V>, f: StepFlags)
    ensures
        machine::run(s, m, step_plan::interp_ops(f)) == m,
{
    machine::lemma_none(s, m);
    machine::lemma_two(s, m, Op::InterpFaO, Op::InterpGateDown);
}

/// A layer of a step, whichever kernels are fused, makes of its residual what the layer is
/// for: it projects the normed residual, stores the key and the value at its position,
/// attends to every position up to its own that lies in its window, and adds attention,
/// the per-layer embedding and the feed-forward part to the residual.
#[verifier::spinoff_prover]
#[verifier::rlimit(60)]
pub proof fn a_layer_computes_its_row<V>(
    s: Shapes<V>,
    m: Mem<V>,
    f: StepFlags,
    c: LayerCaps,
    b: KvBankV,
    li: usize,
    pos: int,
    key: spec_fn(int) -> V,
    val: spec_fn(int) -> V,
)
    requires
        s.model.wf(),
        0 < s.model.hidden,
        step_plan::bank_fits(s.model, b),
        li < s.model.layers@.len(),
        step_plan::layer_run(f, s.model, c, b, li, pos) is Ok,
        m.pos == pos,
        0 <= pos < u32::MAX,
        ready(s, m, b, li, key, val, pos, 1),
    ensures
        ({
            let r = machine::run(s, m, step_plan::layer_run(f, s.model, c, b, li, pos)->Ok_0.1);
            &&& layer_left(s, m, r, b, li, key, val, pos, 1)
            &&& r.token == m.token
            &&& (r.row)(Buf::X, 0) == layer_value(
                s,
                f,
                li,
                (m.token)(Buf::SeedTok, 0),
                pos,
                (m.row)(Buf::X, 0),
                key,
                val,
            )
        }),
{
    reveal(step_plan::layer_run);
    let md = s.model;
    let hidden = md.hidden as int;
    let p = md.layers@[li as int];
    let (b1, cache) = step_plan::cache_ops(f, md, b, li)->Ok_0;
    let sl = b1.slot(p.reads());
    let dual = step_plan::dual_norm(f, md, li as int);
    let want = kv_slot::low32(pos + 1);
    let head = step_plan::head_ops(f, md, c, li);
    let att = step_plan::attend_ops(f, p, sl, li, 1, want, kv_slot::low32(pos));
    let out = step_plan::out_proj_ops(f, dual, li, 1, hidden);
    let ple = step_plan::ple_ops(f, md, li);
    let mlp = step_plan::mlp_ops(f, md, c, li);
    let it = step_plan::interp_ops(f);
    machine::lemma_cat(s, m, head + cache + att + out + ple + mlp, it);
    machine::lemma_cat(s, m, head + cache + att + out + ple, mlp);
    machine::lemma_cat(s, m, head + cache + att + out, ple);
    machine::lemma_cat(s, m, head + cache + att, out);
    machine::lemma_cat(s, m, head + cache, att);
    machine::lemma_cat(s, m, head, cache);
    lemma_head(s, m, f, c, li);
    let m1 = machine::run(s, m, head);
    step_plan::lemma_slots_exist(md, b, li as int);
    lemma_written_slot(f, md, b, li, pos);
    if p.produces() {
        assert(makes(s, m, li, key, val, pos, 0));
        assert((m1.row)(Buf::K, 0) == (s.kernels.mat)(
            Bank::K(li),
            layer_in(s, li, (m.row)(Buf::X, 0)),
        ));
        assert((m1.row)(Buf::V, 0) == (s.kernels.mat)(
            Bank::V(li),
            layer_in(s, li, (m.row)(Buf::X, 0)),
        ));
        lemma_still_holds(m, m1, p.reads(), b.slot(p.reads()), key, val, pos);
        if md.kv.feeds_shared(li as int) {
            lemma_still_holds(m, m1, p.shares(), b.slot(p.shares()), key, val, pos);
        }
        assert(before_write(s, m1, b, li, key, val, pos, 1));
    }
    lemma_cache(s, m1, f, b, li, key, val, pos);
    let m2 = machine::run(s, m1, cache);
    if !p.produces() {
        assert(slot_kept(m1, m2, p.reads()));
        lemma_still_holds(m, m1, p.reads(), b.slot(p.reads()), key, val, pos + 1);
        lemma_still_holds(m1, m2, p.reads(), b.slot(p.reads()), key, val, pos + 1);
    }
    assert(holds(m2, p.reads(), sl, key, val, pos + 1)) by {
        lemma_same_places(m2, p.reads(), b.slot(p.reads()), sl, key, val, pos + 1);
    }
    rows_attend_to_their_context(s, m2, f, sl, key, val, li, pos, 1);
    let m3 = machine::run(s, m2, att);
    lemma_out(s, m3, f, dual, li, 1);
    let m4 = machine::run(s, m3, out);
    lemma_ple(s, m4, f, li);
    let m5 = machine::run(s, m4, ple);
    lemma_mlp(s, m5, f, c, li);
    let m6 = machine::run(s, m5, mlp);
    lemma_interp(s, m6, f);
    assert((m1.row)(Buf::Q, 0) == (s.kernels.mat)(
        Bank::Q(li),
        layer_in(s, li, (m.row)(Buf::X, 0)),
    ));
    assert((m3.row)(Buf::X, 0) == (m.row)(Buf::X, 0));
    assert((m3.row)(Buf::Act, 0) == (s.kernels.half)(
        (s.kernels.attend)(li, (m2.row)(Buf::Q, 0), context(key, val, reach(p), pos + 0)),
    ));
    assert(m6.keys == m2.keys && m6.vals == m2.vals);
    assert forall|t: SlotRef|
        !(p.produces() && (t == p.reads() || (md.kv.feeds_shared(li as int) && t
            == p.shares()))) implies #[trigger] slot_kept(m, m6, t) by {
        assert(slot_kept(m1, m2, t));
    }
    if p.produces() {
        lemma_still_holds(m2, m6, p.reads(), b.slot(p.reads()), key, val, pos + 1);
        if md.kv.feeds_shared(li as int) {
            lemma_still_holds(m2, m6, p.shares(), b.slot(p.shares()), key, val, pos + 1);
        }
    }
}

/// Slots of the same shape have their positions at the same places.
pub proof fn lemma_same_places<V>(
    m: Mem<V>,
    r: SlotRef,
    a: GpuKvSlot,
    b: GpuKvSlot,
    key: spec_fn(int) -> V,
    val: spec_fn(int) -> V,
    n: int,
)
    requires
        a.same_shape(b),
        holds(m, r, a, key, val, n),
    ensures
        holds(m, r, b, key, val, n),
{
    assert forall|p: int| 0 <= p < n && n - b.capacity <= p implies #[trigger] held(
        m,
        r,
        b,
        key,
        val,
        p,
    ) by {
        assert(held(m, r, a, key, val, p));
    }
}

/// The slot that a layer reads once it has written.
proof fn lemma_written_slot(f: StepFlags, md: GpuSynthModel, b: KvBankV, li: usize, pos: int)
    requires
        md.wf(),
        step_plan::bank_fits(md, b),
        li < md.layers@.len(),
        step_plan::cache_ops(f, md, b, li) is Ok,
        md.layers@[li as int].produces() ==> b.slot(md.layers@[li as int].reads()).seq_len
            < usize::MAX,
    ensures
        ({
            let p = md.layers@[li as int];
            let sl = b.slot(p.reads());
            let after = step_plan::cache_ops(f, md, b, li)->Ok_0.0.slot(p.reads());
            &&& after.wf()
            &&& after.same_shape(sl)
            &&& p.produces() ==> after == sl.holding(sl.seq_len + 1) && after.seq_len == sl.seq_len
                + 1
            &&& !p.produces() ==> after == sl
        }),
{
    let p = md.layers@[li as int];
    let own = p.reads();
    let sl = b.slot(own);
    step_plan::lemma_slots_exist(md, b, li as int);
    if p.produces() {
        kv_slot::holding_is_wf(sl, sl.seq_len + 1);
        kv_bank::lemma_with(b, own, sl.holding(sl.seq_len + 1));
        let b1 = b.append(own)->Ok_0.0;
        if md.kv.feeds_shared(li as int) {
            let sh = p.shares();
            assert(own != sh);
            let s2 = b1.slot(sh);
            assert(b1.slot(own) == sl.holding(sl.seq_len + 1));
            assert(b1.with(sh, s2.holding(s2.seq_len + 1)).slot(own) == b1.slot(own));
        }
    }
}

#[verifier::spinoff_prover]
proof fn lemma_block_head<V>(s: Shapes<V>, m: Mem<V>, f: StepFlags, li: usize, rows: int)
    requires
        s.model.wf(),
        li < s.model.layers@.len(),
        0 <= rows <= 8,
        rows * s.model.hidden <= u32::MAX,
    ensures
        ({
            let p = s.model.layers@[li as int];
            let r = machine::run(s, m, verify_plan::block_head_ops(f, s.model, li, rows));
            &&& rows_only(m, r)
            &&& kept(m, r, Buf::X)
            &&& forall|i: int|
                0 <= i < rows ==> #[trigger] (r.row)(Buf::Q, i) == (s.kernels.rope_q)(
                    li,
                    m.pos + i,
                    (s.kernels.mat)(Bank::Q(li), layer_in(s, li, (m.row)(Buf::X, i))),
                )
            &&& p.produces() ==> forall|i: int|
                0 <= i < rows ==> #[trigger] (r.row)(Buf::K, i) == key_of(
                    s,
                    li,
                    m.pos + i,
                    (m.row)(Buf::X, i),
                )
            &&& p.produces() ==> forall|i: int|
                0 <= i < rows ==> #[trigger] (r.row)(Buf::V, i) == value_of(
                    s,
                    li,
                    (m.row)(Buf::X, i),
                )
        }),
{
    let hidden = s.model.hidden as int;
    let p = s.model.layers@[li as int];
    let n = rows as u32;
    let norm = step_plan::norm_act(f, NormW::Input(li), rows, hidden);
    let bar = step_plan::barrier_if(f.hazard);
    let q = Op::Mat { bank: Bank::Q(li), src: Buf::Act, dst: Buf::Q, rows: n };
    let k = Op::Mat { bank: Bank::K(li), src: Buf::Act, dst: Buf::K, rows: n };
    let v = Op::Mat { bank: Bank::V(li), src: Buf::Act, dst: Buf::V, rows: n };
    let kv: Seq<Op> = if p.produces() {
        seq![k, v]
    } else {
        seq![]
    };
    let rope = Op::Rope { layer: li, rows: n, q_only: !p.produces() };
    machine::lemma_cat(s, m, norm + bar + seq![q] + kv + bar, seq![rope]);
    machine::lemma_cat(s, m, norm + bar + seq![q] + kv, bar);
    machine::lemma_cat(s, m, norm + bar + seq![q], kv);
    machine::lemma_cat(s, m, norm + bar, seq![q]);
    machine::lemma_cat(s, m, norm, bar);
    compute_laws::lemma_norm_act(s, m, f, NormW::Input(li), rows);
    let m1 = machine::run(s, m, norm);
    machine::lemma_barrier(s, m1, f.hazard);
    machine::lemma_one(s, m1, q);
    let m2 = machine::exec(s, m1, q);
    machine::lemma_none(s, m2);
    machine::lemma_two(s, m2, k, v);
    let m3 = machine::run(s, m2, kv);
    machine::lemma_barrier(s, m3, f.hazard);
    machine::lemma_one(s, m3, rope);
    let r = machine::exec(s, m3, rope);
    assert forall|i: int| 0 <= i < rows implies #[trigger] (r.row)(Buf::Q, i) == (
    s.kernels.rope_q)(
        li,
        m.pos + i,
        (s.kernels.mat)(Bank::Q(li), layer_in(s, li, (m.row)(Buf::X, i))),
    ) by {
        assert((m1.row)(Buf::Act, i) == layer_in(s, li, (m.row)(Buf::X, i)));
    }
    if p.produces() {
        assert forall|i: int| 0 <= i < rows implies #[trigger] (r.row)(Buf::K, i) == key_of(
            s,
            li,
            m.pos + i,
            (m.row)(Buf::X, i),
        ) by {
            assert((m1.row)(Buf::Act, i) == layer_in(s, li, (m.row)(Buf::X, i)));
        }
        assert forall|i: int| 0 <= i < rows implies #[trigger] (r.row)(Buf::V, i) == value_of(
            s,
            li,
            (m.row)(Buf::X, i),
        ) by {
            assert((m1.row)(Buf::Act, i) == layer_in(s, li, (m.row)(Buf::X, i)));
        }
    }
}

/// The key and the value of a position stand in row `i` of the staging rows.
pub open spec fn staged<V>(
    m: Mem<V>,
    key: spec_fn(int) -> V,
    val: spec_fn(int) -> V,
    pos: int,
    i: int,
) -> bool {
    key(pos + i) == (m.row)(Buf::K, i) && val(pos + i) == (m.row)(Buf::V, i)
}

/// The stores of packed timesteps, as commands.
pub open spec fn packed<V>(sl: GpuKvSlot, r: SlotRef, k: int) -> Seq<Op> {
    sl.packed_stores(k).map(|i: int, st: KvStore| Op::Store { slot: r, store: st })
}

/// Packed timesteps are stored one behind the other.
proof fn lemma_packed<V>(
    s: Shapes<V>,
    m: Mem<V>,
    r: SlotRef,
    sl: GpuKvSlot,
    key: spec_fn(int) -> V,
    val: spec_fn(int) -> V,
    pos: int,
    k: int,
)
    requires
        sl.wf(),
        sl.seq_len == pos,
        row_addressed(s, r, sl),
        0 <= k <= 8,
        8 * sl.row() <= u32::MAX,
        pos + k < usize::MAX,
        sl.is_ring || pos + k <= sl.capacity,
        holds(m, r, sl, key, val, pos),
        forall|i: int| 0 <= i < k ==> #[trigger] staged(m, key, val, pos, i),
    ensures
        ({
            let t = machine::run(s, m, packed::<V>(sl, r, k));
            &&& t == (Mem { keys: t.keys, vals: t.vals, ..m })
            &&& holds(t, r, sl, key, val, pos + k)
            &&& forall|o: SlotRef| o != r ==> #[trigger] slot_kept(m, t, o)
        }),
    decreases k,
{
    if k <= 0 {
        assert(packed::<V>(sl, r, k) =~= Seq::<Op>::empty());
        machine::lemma_none(s, m);
    } else {
        let i = k - 1;
        lemma_packed(s, m, r, sl, key, val, pos, i);
        let before = packed::<V>(sl, r, i);
        let op = packed::<V>(sl, r, k)[i];
        assert(packed::<V>(sl, r, k) =~= before + seq![op]);
        machine::lemma_cat(s, m, before, seq![op]);
        let t = machine::run(s, m, before);
        machine::lemma_one(s, t, op);
        let w = sl.row();
        assert(0 <= i * w <= 8 * w) by (nonlinear_arith)
            requires
                0 <= i <= 8,
                0 < w,
        ;
        lemma_low(i * w);
        lemma_low(w);
        assert(w * i == i * w) by (nonlinear_arith);
        lemma_div_multiples_vanish(i, w);
        assert(staged(m, key, val, pos, i));
        lemma_stored(s, t, r, sl, key, val, pos + i);
        let u = machine::exec(s, t, op);
        assert forall|o: SlotRef| o != r implies #[trigger] slot_kept(m, u, o) by {
            assert(slot_kept(m, t, o));
        }
    }
}

#[verifier::spinoff_prover]
proof fn lemma_block_cache<V>(
    s: Shapes<V>,
    m: Mem<V>,
    f: StepFlags,
    b: KvBankV,
    li: usize,
    key: spec_fn(int) -> V,
    val: spec_fn(int) -> V,
    pos: int,
    rows: int,
)
    requires
        s.model.wf(),
        step_plan::bank_fits(s.model, b),
        li < s.model.layers@.len(),
        verify_plan::block_cache_ops(f, s.model, b, li, rows) is Ok,
        0 <= pos,
        1 <= rows <= 8,
        pos + rows < usize::MAX,
        s.model.layers@[li as int].produces() ==> {
            let p = s.model.layers@[li as int];
            &&& slot_ready(s, m, b, p.reads(), key, val, pos)
            &&& 8 * b.slot(p.reads()).row() <= u32::MAX
            &&& s.model.kv.feeds_shared(li as int) ==> slot_ready(
                s,
                m,
                b,
                p.shares(),
                key,
                val,
                pos,
            ) && 8 * b.slot(p.shares()).row() <= u32::MAX
            &&& forall|i: int| 0 <= i < rows ==> #[trigger] staged(m, key, val, pos, i)
        },
    ensures
        ({
            let p = s.model.layers@[li as int];
            let r = machine::run(
                s,
                m,
                verify_plan::block_cache_ops(f, s.model, b, li, rows)->Ok_0.1,
            );
            &&& others_kept(s, m, r, li)
            &&& r.row == m.row
            &&& p.produces() ==> holds(r, p.reads(), b.slot(p.reads()), key, val, pos + rows)
            &&& p.produces() && s.model.kv.feeds_shared(li as int) ==> holds(
                r,
                p.shares(),
                b.slot(p.shares()),
                key,
                val,
                pos + rows,
            )
        }),
{
    let p = s.model.layers@[li as int];
    let own = p.reads();
    let sh = p.shares();
    let bar = step_plan::barrier_if(f.hazard);
    step_plan::lemma_slots_exist(s.model, b, li as int);
    machine::lemma_none(s, m);
    if p.produces() {
        assert(own != sh);
        let sl = b.slot(own);
        let (b1, ops) = b.append_m(own, rows)->Ok_0;
        assert(ops == packed::<V>(sl, own, rows));
        machine::lemma_barrier(s, m, f.hazard);
        machine::lemma_cat(s, m, bar, ops);
        lemma_packed(s, m, own, sl, key, val, pos, rows);
        let m1 = machine::run(s, m, ops);
        assert(slot_kept(m, m1, sh));
        if s.model.kv.feeds_shared(li as int) {
            let sl2 = b.slot(sh);
            kv_slot::holding_is_wf(sl, sl.seq_len + rows);
            kv_bank::lemma_with(b, own, sl.holding(sl.seq_len + rows));
            assert(b1.slot(sh) == sl2);
            let shared = b1.append_m(sh, rows)->Ok_0.1;
            assert(shared == packed::<V>(sl2, sh, rows));
            lemma_still_holds(m, m1, sh, sl2, key, val, pos);
            assert forall|i: int| 0 <= i < rows implies #[trigger] staged(
                m1,
                key,
                val,
                pos,
                i,
            ) by {
                assert(staged(m, key, val, pos, i));
            }
            machine::lemma_cat(s, m, bar + ops, shared);
            lemma_packed(s, m1, sh, sl2, key, val, pos, rows);
            let m2 = machine::run(s, m1, shared);
            assert(slot_kept(m1, m2, own));
            lemma_still_holds(m1, m2, own, sl, key, val, pos + rows);
            assert forall|t: SlotRef| t != own && t != sh implies #[trigger] slot_kept(
                m,
                m2,
                t,
            ) by {
                assert(slot_kept(m, m1, t));
                assert(slot_kept(m1, m2, t));
            }
        }
    }
}

proof fn lemma_ple_rows<V>(s: Shapes<V>, m: Mem<V>, f: StepFlags, li: usize, n: int)
    requires
        s.model.wf(),
        verify_plan::block_fits(s.model),
        0 < s.model.hidden,
        0 <= n <= 8,
    ensures
        ({
            let r = machine::run(s, m, verify_plan::ple_rows(f, s.model, li, n));
            &&& r == (Mem { row: r.row, token: r.token, ..m })
            &&& captures_kept(m, r)
            &&& forall|i: int| #[trigger] (r.token)(Buf::VerifySeeds, i) == (m.token)(
                Buf::VerifySeeds,
                i,
            )
            &&& forall|i: int| #[trigger]
                (r.row)(Buf::X, i) == (if 0 <= i < n {
                    after_ple(s, li, (m.token)(Buf::VerifySeeds, i), (m.row)(Buf::X, i))
                } else {
                    (m.row)(Buf::X, i)
                })
        }),
    decreases n,
{
    let md = s.model;
    if n <= 0 || !md.ple_at(li as int) {
        machine::lemma_none(s, m);
    } else {
        let k = n - 1;
        lemma_ple_rows(s, m, f, li, k);
        let before = verify_plan::ple_rows(f, md, li, k);
        let bar = step_plan::barrier_if(f.hazard);
        let r = machine::run(s, m, before);
        machine::lemma_cat(s, m, before, verify_plan::ple_row(f, md, li, k));
        let a = Op::CopyToken { src: Buf::VerifySeeds, index: k as u32, dst: Buf::SeedTok };
        let c = if md.has_ple_q4 {
            Op::PleQ4 { layer: li }
        } else {
            Op::PleTable { layer: li }
        };
        let h = md.hidden as int;
        assert(0 <= k * h <= 8 * h) by (nonlinear_arith)
            requires
                0 <= k <= 8,
                0 < h,
        ;
        let d = Op::ResidualAdd {
            src: Buf::PleOut,
            by: Factor::InvSqrt2,
            at: (k * h) as usize,
            n: md.cfg.hidden_size_per_layer_input as u32,
        };
        lemma_three(s, r, a, c, d, f.hazard);
        let t = machine::exec(s, machine::exec(s, machine::exec(s, r, a), c), d);
        assert((r.token)(Buf::VerifySeeds, k) == (m.token)(Buf::VerifySeeds, k));
        assert((r.row)(Buf::X, k) == (m.row)(Buf::X, k));
        assert forall|i: int| #[trigger]
            (t.row)(Buf::X, i) == (if 0 <= i < n {
                after_ple(s, li, (m.token)(Buf::VerifySeeds, i), (m.row)(Buf::X, i))
            } else {
                (m.row)(Buf::X, i)
            }) by {
            assert(i * h == k * h ==> i == k) by (nonlinear_arith)
                requires
                    0 < h,
            ;
            assert((r.row)(Buf::X, i) == (if 0 <= i < k {
                after_ple(s, li, (m.token)(Buf::VerifySeeds, i), (m.row)(Buf::X, i))
            } else {
                (m.row)(Buf::X, i)
            }));
        }
        assert forall|i: int| #[trigger] (t.token)(Buf::VerifySeeds, i) == (m.token)(
            Buf::VerifySeeds,
            i,
        ) by {
            assert((r.token)(Buf::VerifySeeds, i) == (m.token)(Buf::VerifySeeds, i));
        }
    }
}

#[verifier::spinoff_prover]
proof fn lemma_block_mlp<V>(s: Shapes<V>, m: Mem<V>, f: StepFlags, li: usize, rows: int)
    requires
        s.model.wf(),
        verify_plan::block_fits(s.model),
        li < s.model.layers@.len(),
        0 < s.model.hidden,
        0 <= rows <= 8,
    ensures
        ({
            let dual = step_plan::dual_norm(f, s.model, li as int);
            let r = machine::run(s, m, verify_plan::block_mlp_ops(f, s.model, li, rows));
            &&& rows_only(m, r)
            &&& forall|i: int|
                0 <= i < rows ==> #[trigger] (r.row)(Buf::X, i) == after_mlp(
                    s,
                    dual,
                    li,
                    (m.row)(Buf::X, i),
                )
        }),
{
    let md = s.model;
    let hidden = md.hidden as int;
    let inter = md.intermediate as int;
    let p = md.layers@[li as int];
    let dual = step_plan::dual_norm(f, md, li as int);
    let bar = step_plan::barrier_if(f.hazard);
    let w = step_plan::ff_norm(p, li);
    assert(0 <= rows * hidden <= 8 * hidden && 0 <= rows * inter <= 8 * inter) by (nonlinear_arith)
        requires
            0 <= rows <= 8,
            0 <= hidden,
            0 <= inter,
    ;
    let norm = step_plan::norm_act(f, w, rows, hidden);
    let front = bar + norm + bar;
    let n = (rows * inter) as u32;
    let a = Op::Mat { bank: Bank::Gate(li), src: Buf::Act, dst: Buf::Gate, rows: rows as u32 };
    let u = Op::Mat { bank: Bank::Up(li), src: Buf::Act, dst: Buf::Up, rows: rows as u32 };
    let e = Op::Gelu { half: f.fuse_bf16_mlp, n };
    let cast: Seq<Op> = if f.fuse_bf16_mlp {
        seq![]
    } else {
        seq![Op::CastAct { src: Buf::Mid, n }]
    };
    let mid = seq![a, u] + bar + seq![e] + cast + bar;
    let down = step_plan::down_ops(f, p, dual, li, rows, hidden);
    let sc = step_plan::scalar_ops(f, p, dual, li, rows * hidden);
    machine::lemma_cat(s, m, front + mid + down, sc);
    machine::lemma_cat(s, m, front + mid, down);
    machine::lemma_cat(s, m, front, mid);
    machine::lemma_cat(s, m, bar + norm, bar);
    machine::lemma_cat(s, m, bar, norm);
    machine::lemma_barrier(s, m, f.hazard);
    compute_laws::lemma_norm_act(s, m, f, w, rows);
    let m1 = machine::run(s, m, norm);
    machine::lemma_barrier(s, m1, f.hazard);
    machine::lemma_cat(s, m1, seq![a, u] + bar + seq![e] + cast, bar);
    machine::lemma_cat(s, m1, seq![a, u] + bar + seq![e], cast);
    machine::lemma_cat(s, m1, seq![a, u] + bar, seq![e]);
    machine::lemma_cat(s, m1, seq![a, u], bar);
    machine::lemma_two(s, m1, a, u);
    let m2 = machine::exec(s, machine::exec(s, m1, a), u);
    machine::lemma_barrier(s, m2, f.hazard);
    machine::lemma_one(s, m2, e);
    let m3 = machine::exec(s, m2, e);
    machine::lemma_none(s, m3);
    machine::lemma_one(s, m3, Op::CastAct { src: Buf::Mid, n });
    let m4 = machine::run(s, m3, cast);
    machine::lemma_barrier(s, m4, f.hazard);
    lemma_down(s, m4, f, dual, li, rows);
    let m5 = machine::run(s, m4, down);
    lemma_scalar(s, m5, f, dual, li, rows);
    let r = machine::run(s, m5, sc);
    let src = if f.fuse_bf16_mlp {
        Buf::Mid
    } else {
        Buf::Act
    };
    assert forall|i: int| 0 <= i < rows implies #[trigger] (r.row)(Buf::X, i) == after_mlp(
        s,
        dual,
        li,
        (m.row)(Buf::X, i),
    ) by {
        compute_laws::lemma_covers(i, inter, rows);
        assert((m1.row)(Buf::Act, i) == normed(s, w, (m.row)(Buf::X, i)));
        assert((m4.row)(src, i) == (s.kernels.half)(
            machine::gated(s.kernels, li, (m1.row)(Buf::Act, i)),
        ));
        assert((m4.row)(Buf::X, i) == (m.row)(Buf::X, i));
        assert((m5.row)(Buf::X, i) == down_done(
            s,
            f,
            dual,
            li,
            (m4.row)(Buf::X, i),
            (m4.row)(src, i),
        ));
    }
}

/// The slot that a layer reads once it has written its rows of a block.
proof fn lemma_written_block(
    f: StepFlags,
    md: GpuSynthModel,
    b: KvBankV,
    li: usize,
    rows: int,
)
    requires
        md.wf(),
        step_plan::bank_fits(md, b),
        li < md.layers@.len(),
        0 <= rows,
        verify_plan::block_cache_ops(f, md, b, li, rows) is Ok,
        md.layers@[li as int].produces() ==> b.slot(md.layers@[li as int].reads()).seq_len + rows
            <= usize::MAX,
    ensures
        ({
            let p = md.layers@[li as int];
            let sl = b.slot(p.reads());
            let after = verify_plan::block_cache_ops(f, md, b, li, rows)->Ok_0.0.slot(p.reads());
            &&& after.wf()
            &&& after.same_shape(sl)
            &&& p.produces() ==> after.seq_len == sl.seq_len + rows
            &&& !p.produces() ==> after == sl
        }),
{
    let p = md.layers@[li as int];
    let own = p.reads();
    let sl = b.slot(own);
    step_plan::lemma_slots_exist(md, b, li as int);
    if p.produces() {
        kv_slot::holding_is_wf(sl, sl.seq_len + rows);
        kv_bank::lemma_with(b, own, sl.holding(sl.seq_len + rows));
        let b1 = b.append_m(own, rows)->Ok_0.0;
        if md.kv.feeds_shared(li as int) {
            let sh = p.shares();
            assert(own != sh);
            let s2 = b1.slot(sh);
            assert(b1.with(sh, s2.holding(s2.seq_len + rows)).slot(own) == b1.slot(own));
        }
    }
}

/// Eight rows of a slot can be staged.
pub open spec fn stageable(md: GpuSynthModel, b: KvBankV, li: usize) -> bool {
    let p = md.layers@[li as int];
    8 * b.slot(p.reads()).row() <= u32::MAX && 8 * b.slot(p.shares()).row() <= u32::MAX
}

/// A layer of a block makes of every row of the residual what a layer of a step makes of
/// it at the row's own position: each row attends to the positions up to its own that lie
/// in the window, those of the block's earlier rows among them.
#[verifier::spinoff_prover]
#[verifier::rlimit(60)]
pub proof fn a_block_layer_computes_its_rows<V>(
    s: Shapes<V>,
    m: Mem<V>,
    f: StepFlags,
    b: KvBankV,
    li: usize,
    pos: int,
    rows: int,
    key: spec_fn(int) -> V,
    val: spec_fn(int) -> V,
)
    requires
        s.model.wf(),
        verify_plan::block_fits(s.model),
        0 < s.model.hidden,
        step_plan::bank_fits(s.model, b),
        li < s.model.layers@.len(),
        verify_plan::block_layer_run(f, s.model, b, li, pos, rows) is Ok,
        m.pos == pos,
        0 <= pos,
        1 <= rows <= 8,
        pos + rows < u32::MAX,
        stageable(s.model, b, li),
        ready(s, m, b, li, key, val, pos, rows),
    ensures
        ({
            let r = machine::run(
                s,
                m,
                verify_plan::block_layer_run(f, s.model, b, li, pos, rows)->Ok_0.1,
            );
            &&& layer_left(s, m, r, b, li, key, val, pos, rows)
            &&& forall|i: int| #[trigger] (r.token)(Buf::VerifySeeds, i) == (m.token)(
                Buf::VerifySeeds,
                i,
            )
            &&& forall|i: int|
                0 <= i < rows ==> #[trigger] (r.row)(Buf::X, i) == layer_value(
                    s,
                    f,
                    li,
                    (m.token)(Buf::VerifySeeds, i),
                    pos + i,
                    (m.row)(Buf::X, i),
                    key,
                    val,
                )
        }),
{
    reveal(verify_plan::block_layer_run);
    let md = s.model;
    let hidden = md.hidden as int;
    let p = md.layers@[li as int];
    let (b1, cache) = verify_plan::block_cache_ops(f, md, b, li, rows)->Ok_0;
    let sl = b1.slot(p.reads());
    let dual = step_plan::dual_norm(f, md, li as int);
    let head = verify_plan::block_head_ops(f, md, li, rows);
    let att = step_plan::attend_ops(
        f,
        p,
        sl,
        li,
        rows,
        kv_slot::low32(pos + rows),
        kv_slot::low32(pos),
    );
    let out = step_plan::out_proj_ops(f, dual, li, rows, hidden);
    let ple = verify_plan::ple_rows(f, md, li, rows);
    let mlp = verify_plan::block_mlp_ops(f, md, li, rows);
    assert(0 <= rows * hidden <= 8 * hidden) by (nonlinear_arith)
        requires
            0 <= rows <= 8,
            0 < hidden,
    ;
    assert(rows * (p.hq * p.head_dim) <= 8 * p.hq * p.head_dim) by (nonlinear_arith)
        requires
            0 <= rows <= 8,
    ;
    machine::lemma_cat(s, m, head + cache + att + out + ple, mlp);
    machine::lemma_cat(s, m, head + cache + att + out, ple);
    machine::lemma_cat(s, m, head + cache + att, out);
    machine::lemma_cat(s, m, head + cache, att);
    machine::lemma_cat(s, m, head, cache);
    lemma_block_head(s, m, f, li, rows);
    let m1 = machine::run(s, m, head);
    step_plan::lemma_slots_exist(md, b, li as int);
    lemma_written_block(f, md, b, li, rows);
    if p.produces() {
        lemma_still_holds(m, m1, p.reads(), b.slot(p.reads()), key, val, pos);
        if md.kv.feeds_shared(li as int) {
            lemma_still_holds(m, m1, p.shares(), b.slot(p.shares()), key, val, pos);
        }
        assert forall|i: int| 0 <= i < rows implies #[trigger] staged(
            m1,
            key,
            val,
            pos,
            i,
        ) by {
            assert(makes(s, m, li, key, val, pos, i));
            assert((m1.row)(Buf::K, i) == key_of(s, li, m.pos + i, (m.row)(Buf::X, i)));
            assert((m1.row)(Buf::V, i) == value_of(s, li, (m.row)(Buf::X, i)));
        }
    }
    lemma_block_cache(s, m1, f, b, li, key, val, pos, rows);
    let m2 = machine::run(s, m1, cache);
    if !p.produces() {
        assert(slot_kept(m1, m2, p.reads()));
        lemma_still_holds(m, m1, p.reads(), b.slot(p.reads()), key, val, pos + rows);
        lemma_still_holds(m1, m2, p.reads(), b.slot(p.reads()), key, val, pos + rows);
    }
    lemma_same_places(m2, p.reads(), b.slot(p.reads()), sl, key, val, pos + rows);
    rows_attend_to_their_context(s, m2, f, sl, key, val, li, pos, rows);
    let m3 = machine::run(s, m2, att);
    lemma_out(s, m3, f, dual, li, rows);
    let m4 = machine::run(s, m3, out);
    lemma_ple_rows(s, m4, f, li, rows);
    let m5 = machine::run(s, m4, ple);
    lemma_block_mlp(s, m5, f, li, rows);
    let m6 = machine::run(s, m5, mlp);
    assert forall|i: int| 0 <= i < rows implies #[trigger] (m6.row)(Buf::X, i) == layer_value(
        s,
        f,
        li,
        (m.token)(Buf::VerifySeeds, i),
        pos + i,
        (m.row)(Buf::X, i),
        key,
        val,
    ) by {
        assert((m3.row)(Buf::X, i) == (m.row)(Buf::X, i));
        assert((m2.row)(Buf::Q, i) == (m1.row)(Buf::Q, i));
        assert((m3.row)(Buf::Act, i) == (s.kernels.half)(
            (s.kernels.attend)(li, (m2.row)(Buf::Q, i), context(key, val, reach(p), pos + i)),
        ));
        assert((m4.row)(Buf::X, i) == after_attention(
            s,
            dual,
            li,
            (m.row)(Buf::X, i),
            (s.kernels.attend)(li, (m2.row)(Buf::Q, i), context(key, val, reach(p), pos + i)),
        ));
        assert((m5.row)(Buf::X, i) == after_ple(
            s,
            li,
            (m.token)(Buf::VerifySeeds, i),
            (m4.row)(Buf::X, i),
        ));
    }
    assert forall|t: SlotRef|
        !(p.produces() && (t == p.reads() || (md.kv.feeds_shared(li as int) && t
            == p.shares()))) implies #[trigger] slot_kept(m, m6, t) by {
        assert(slot_kept(m1, m2, t));
    }
    if p.produces() {
        lemma_still_holds(m2, m6, p.reads(), b.slot(p.reads()), key, val, pos + rows);
        if md.kv.feeds_shared(li as int) {
            lemma_still_holds(m2, m6, p.shares(), b.slot(p.shares()), key, val, pos + rows);
        }
    }
}

} // verus!
