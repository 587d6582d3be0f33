//! What a draft pass computes, row by row, whatever its kernels do: what its layers attend
//! to, what they keep of the context, and what is proposed.

use crate::dflash::DraftCache;
use crate::draft;
use crate::draft::DFlashGpuDraft;
use crate::draft_plan;
use crate::draft_plan::{DraftBank, DraftBuf, DraftNorm, DraftOp, DraftShape};
use crate::kv_slot;
use crate::machine;
use vstd::arithmetic::div_mod::*;
use vstd::prelude::*;

verus! {

/// What the kernels of a draft pass compute.
#[verifier::reject_recursive_types(V)]
pub struct DraftKernels<V> {
    pub embed: spec_fn(u32) -> V,
    pub norm: spec_fn(DraftNorm, int, V) -> V,
    pub mat: spec_fn(DraftBank, V) -> V,
    /// Head norm and rotary embedding of a row of heads at a position.
    pub rope: spec_fn(DraftNorm, int, int, int, V) -> V,
    pub attend: spec_fn(usize, V, spec_fn(int) -> Option<(V, V)>) -> V,
    pub plus: spec_fn(V, V) -> V,
    pub silu: spec_fn(int, V, V) -> V,
    pub choice: spec_fn(V) -> u32,
    /// What is found where no row begins.
    pub stray: spec_fn(int) -> V,
}

/// The memory of a draft pass: rows of buffers, and the proposed tokens.
#[verifier::reject_recursive_types(V)]
pub struct DraftMem<V> {
    pub row: spec_fn(DraftBuf, int) -> V,
    pub token: spec_fn(int) -> u32,
}

/// The buffer holds one row, of whatever width.
pub open spec fn single(b: DraftBuf) -> bool {
    b == DraftBuf::RowX || b == DraftBuf::RowY
}

/// Floats of a row of a buffer.
pub open spec fn width(s: DraftShape, b: DraftBuf) -> int {
    match b {
        DraftBuf::Q => s.q_dim(),
        DraftBuf::OAttn => s.q_dim(),
        DraftBuf::K => s.kv_dim(),
        DraftBuf::V => s.kv_dim(),
        DraftBuf::KeysFull => s.kv_dim(),
        DraftBuf::ValuesFull => s.kv_dim(),
        DraftBuf::CacheKeys(_) => s.kv_dim(),
        DraftBuf::CacheValues(_) => s.kv_dim(),
        _ => s.h as int,
    }
}

pub open spec fn put<V>(
    m: DraftMem<V>,
    b: DraftBuf,
    at: spec_fn(int) -> bool,
    v: spec_fn(int) -> V,
) -> DraftMem<V> {
    DraftMem {
        row: |c: DraftBuf, i: int|
            if c == b && at(i) {
                v(i)
            } else {
                (m.row)(c, i)
            },
        ..m
    }
}

/// The memory after a command.
pub open spec fn exec<V>(
    k: DraftKernels<V>,
    s: DraftShape,
    m: DraftMem<V>,
    op: DraftOp,
) -> DraftMem<V> {
    match op {
        DraftOp::Copy { src, from, dst, to, n } => {
            let w = if single(src) {
                width(s, dst)
            } else {
                width(s, src)
            };
            put(
                m,
                dst,
                |q: int|
                    if single(dst) {
                        q == 0 && to == 0 && n == w
                    } else {
                        to <= q * w && (q + 1) * w <= to + n
                    },
                |q: int|
                    {
                        let a = if single(dst) {
                            from as int
                        } else {
                            q * w - to + from
                        };
                        let j = a / w;
                        if single(src) {
                            if from == 0 {
                                (m.row)(src, 0)
                            } else {
                                (k.stray)(a)
                            }
                        } else if j * w == a {
                            (m.row)(src, j)
                        } else {
                            (k.stray)(a)
                        }
                    },
            )
        },
        DraftOp::Gemv { bank, src, dst } => put(
            m,
            dst,
            |q: int| q == 0,
            |q: int| (k.mat)(bank, (m.row)(src, 0)),
        ),
        DraftOp::Rms { src, weight, dst, rows, n } => put(
            m,
            dst,
            |q: int| 0 <= q < rows,
            |q: int| (k.norm)(weight, n as int, (m.row)(src, q)),
        ),
        DraftOp::NormRope { buf, weight, rows, heads, dim, pos } => put(
            m,
            buf,
            |q: int| 0 <= q < rows,
            |q: int| (k.rope)(weight, heads as int, dim as int, pos + q, (m.row)(buf, q)),
        ),
        DraftOp::Attend { layer, rows, tkv, window, q_pos, kv_pos } => put(
            m,
            DraftBuf::OAttn,
            |q: int| 0 <= q < rows,
            |q: int|
                (k.attend)(
                    layer,
                    (m.row)(DraftBuf::Q, q),
                    |p: int|
                        if machine::sees(
                            q_pos + q,
                            kv_pos as int,
                            tkv as int,
                            Some(window as int),
                            p,
                        ) {
                            Some(
                                (
                                    (m.row)(DraftBuf::KeysFull, p - kv_pos),
                                    (m.row)(DraftBuf::ValuesFull, p - kv_pos),
                                ),
                            )
                        } else {
                            None
                        },
                ),
        ),
        DraftOp::Add { dst, src, n } => put(
            m,
            dst,
            |q: int|
                if single(dst) {
                    q == 0 && n == s.h
                } else {
                    machine::covers(q, width(s, dst), n as int)
                },
            |q: int| (k.plus)((m.row)(dst, q), (m.row)(src, q)),
        ),
        DraftOp::Silu { n } => put(
            m,
            DraftBuf::Mid,
            |q: int| q == 0,
            |q: int| (k.silu)(n as int, (m.row)(DraftBuf::Gate, 0), (m.row)(DraftBuf::Up, 0)),
        ),
        DraftOp::EmbedRow { start, at } => put(
            m,
            DraftBuf::X,
            |q: int| q * s.h == at,
            |q: int|
                {
                    let t = start as int / s.h as int;
                    if t * s.h == start {
                        (k.embed)(t as u32)
                    } else {
                        (k.stray)(start as int)
                    }
                },
        ),
        DraftOp::HostHead => put(
            m,
            DraftBuf::Logits,
            |q: int| q == 0,
            |q: int| (k.mat)(DraftBank::LmHead, (m.row)(DraftBuf::XNormed, 0)),
        ),
        DraftOp::Argmax { index } => DraftMem {
            token: |i: int|
                if i == index {
                    (k.choice)((m.row)(DraftBuf::Logits, 0))
                } else {
                    (m.token)(i)
                },
            ..m
        },
        _ => m,
    }
}

/// The memory after commands.
#[verifier::opaque]
pub open spec fn run<V>(
    k: DraftKernels<V>,
    s: DraftShape,
    m: DraftMem<V>,
    ops: Seq<DraftOp>,
) -> DraftMem<V>
    decreases ops.len(),
{
    if ops.len() == 0 {
        m
    } else {
        exec(k, s, run(k, s, m, ops.drop_last()), ops.last())
    }
}

proof fn lemma_cat<V>(
    k: DraftKernels<V>,
    s: DraftShape,
    m: DraftMem<V>,
    a: Seq<DraftOp>,
    b: Seq<DraftOp>,
)
    ensures
        run(k, s, m, a + b) == run(k, s, run(k, s, m, a), b),
    decreases b.len(),
{
    reveal_with_fuel(run, 2);
    if b.len() == 0 {
        assert(a + b =~= a);
    } else {
        lemma_cat(k, s, m, a, b.drop_last());
        assert((a + b).drop_last() =~= a + b.drop_last());
        assert((a + b).last() == b.last());
    }
}

proof fn lemma_none<V>(k: DraftKernels<V>, s: DraftShape, m: DraftMem<V>)
    ensures
        run(k, s, m, Seq::<DraftOp>::empty()) == m,
{
    reveal_with_fuel(run, 1);
}

proof fn lemma_one<V>(k: DraftKernels<V>, s: DraftShape, m: DraftMem<V>, a: DraftOp)
    ensures
        run(k, s, m, seq![a]) == exec(k, s, m, a),
{
    reveal_with_fuel(run, 2);
    assert(seq![a].drop_last() =~= Seq::<DraftOp>::empty());
}

proof fn lemma_two<V>(k: DraftKernels<V>, s: DraftShape, m: DraftMem<V>, a: DraftOp, b: DraftOp)
    ensures
        run(k, s, m, seq![a, b]) == exec(k, s, exec(k, s, m, a), b),
{
    assert(seq![a, b] =~= seq![a] + seq![b]);
    lemma_cat(k, s, m, seq![a], seq![b]);
    lemma_one(k, s, m, a);
    lemma_one(k, s, exec(k, s, m, a), b);
}

proof fn lemma_wall<V>(k: DraftKernels<V>, s: DraftShape, m: DraftMem<V>, need: bool)
    ensures
        run(k, s, m, draft_plan::wall(need)) == m,
{
    lemma_none(k, s, m);
    lemma_one(k, s, m, DraftOp::Barrier);
}

/// Every buffer but those named is as it was, and so are the tokens.
pub open spec fn framed<V>(
    a: DraftMem<V>,
    b: DraftMem<V>,
    changes: spec_fn(DraftBuf) -> bool,
) -> bool {
    &&& b.token == a.token
    &&& forall|c: DraftBuf, i: int| !changes(c) ==> #[trigger] (b.row)(c, i) == (a.row)(c, i)
}

/// The widths of a pass over `l` rows can be told apart and counted.
pub open spec fn sound(s: DraftShape, l: int) -> bool {
    &&& 0 < s.h <= u32::MAX
    &&& 0 < s.kv_dim() <= u32::MAX
    &&& 0 < s.q_dim() <= u32::MAX
    &&& s.hq <= u32::MAX
    &&& s.hkv <= u32::MAX
    &&& s.d <= u32::MAX
    &&& s.inter <= u32::MAX
    &&& 0 <= l * s.h <= u32::MAX
}

proof fn lemma_low(n: int)
    requires
        0 <= n <= u32::MAX,
    ensures
        kv_slot::low32(n) == n,
{
    lemma_small_mod(n as nat, 0x1_0000_0000);
}

/// A row is copied out of a buffer.
proof fn lemma_out<V>(
    k: DraftKernels<V>,
    s: DraftShape,
    m: DraftMem<V>,
    src: DraftBuf,
    i: int,
    dst: DraftBuf,
    n: u32,
)
    requires
        single(dst),
        !single(src),
        0 < width(s, src) <= u32::MAX,
        n == width(s, src),
        0 <= i,
        i * width(s, src) <= usize::MAX,
    ensures
        ({
            let r = exec(
                k,
                s,
                m,
                DraftOp::Copy { src, from: (i * width(s, src)) as usize, dst, to: 0, n },
            );
            &&& framed(m, r, |b: DraftBuf| b == dst)
            &&& (r.row)(dst, 0) == (m.row)(src, i)
        }),
{
    let w = width(s, src);
    assert(0 <= i * w && w * i == i * w) by (nonlinear_arith)
        requires
            0 <= i,
            0 < w,
    ;
    lemma_div_multiples_vanish(i, w);
}

/// A row is copied into a buffer.
proof fn lemma_into<V>(
    k: DraftKernels<V>,
    s: DraftShape,
    m: DraftMem<V>,
    src: DraftBuf,
    dst: DraftBuf,
    i: int,
    n: u32,
)
    requires
        single(src),
        !single(dst),
        0 < width(s, dst) <= u32::MAX,
        n == width(s, dst),
        0 <= i,
        i * width(s, dst) <= usize::MAX,
    ensures
        ({
            let r = exec(
                k,
                s,
                m,
                DraftOp::Copy { src, from: 0, dst, to: (i * width(s, dst)) as usize, n },
            );
            &&& r.token == m.token
            &&& forall|b: DraftBuf, q: int| #[trigger]
                (r.row)(b, q) == (if b == dst && q == i {
                    (m.row)(src, 0)
                } else {
                    (m.row)(b, q)
                })
        }),
{
    let w = width(s, dst);
    assert(0 <= i * w) by (nonlinear_arith)
        requires
            0 <= i,
            0 < w,
    ;
    let r = exec(
        k,
        s,
        m,
        DraftOp::Copy { src, from: 0, dst, to: (i * w) as usize, n },
    );
    assert forall|b: DraftBuf, q: int| #[trigger]
        (r.row)(b, q) == (if b == dst && q == i {
            (m.row)(src, 0)
        } else {
            (m.row)(b, q)
        }) by {
        assert((i * w <= q * w && (q + 1) * w <= i * w + w) == (q == i)) by (nonlinear_arith)
            requires
                0 < w,
        ;
    }
}

/// A matrix applied to the first `t` rows of a buffer gives as many rows of another.
proof fn lemma_gemv_rows<V>(
    k: DraftKernels<V>,
    s: DraftShape,
    m: DraftMem<V>,
    bank: DraftBank,
    src: DraftBuf,
    dst: DraftBuf,
    t: int,
)
    requires
        !single(src),
        !single(dst),
        src != dst,
        0 < width(s, src) <= u32::MAX,
        0 < width(s, dst) <= u32::MAX,
        0 <= t,
        t * width(s, src) <= usize::MAX,
        t * width(s, dst) <= usize::MAX,
    ensures
        ({
            let r = run(
                k,
                s,
                m,
                draft_plan::gemv_rows_ops(
                    s.hazard,
                    bank,
                    src,
                    dst,
                    width(s, src),
                    width(s, dst),
                    width(s, src),
                    width(s, dst),
                    t,
                ),
            );
            &&& framed(m, r, |b: DraftBuf| single(b) || b == dst)
            &&& forall|i: int|
                0 <= i < t ==> #[trigger] (r.row)(dst, i) == (k.mat)(bank, (m.row)(src, i))
        }),
    decreases t,
{
    let ws = width(s, src);
    let wd = width(s, dst);
    let f = |i: int| draft_plan::gemv_row(s.hazard, bank, src, dst, ws, wd, ws, wd, i);
    if t <= 0 {
        lemma_none(k, s, m);
    } else {
        let i = t - 1;
        draft_plan::lemma_row_bound(i, t, ws);
        draft_plan::lemma_row_bound(i, t, wd);
        lemma_gemv_rows(k, s, m, bank, src, dst, i);
        let r = run(k, s, m, draft_plan::repeat(f, i));
        lemma_cat(k, s, m, draft_plan::repeat(f, i), f(i));
        let wall = draft_plan::wall(s.hazard);
        lemma_low(ws);
        lemma_low(wd);
        let a = DraftOp::Copy {
            src,
            from: (i * ws) as usize,
            dst: DraftBuf::RowX,
            to: 0,
            n: kv_slot::low32(ws),
        };
        let b = DraftOp::Gemv { bank, src: DraftBuf::RowX, dst: DraftBuf::RowY };
        let c = DraftOp::Copy {
            src: DraftBuf::RowY,
            from: 0,
            dst,
            to: (i * wd) as usize,
            n: kv_slot::low32(wd),
        };
        lemma_three(k, s, r, a, b, c);
        let m1 = exec(k, s, r, a);
        let m2 = exec(k, s, m1, b);
        lemma_out(k, s, r, src, i, DraftBuf::RowX, kv_slot::low32(ws));
        lemma_into(k, s, m2, DraftBuf::RowY, dst, i, kv_slot::low32(wd));
        let u = exec(k, s, m2, c);
        assert((r.row)(src, i) == (m.row)(src, i));
        assert forall|j: int| 0 <= j < t implies #[trigger] (u.row)(dst, j) == (k.mat)(
            bank,
            (m.row)(src, j),
        ) by {
            if j < i {
                assert((u.row)(dst, j) == (r.row)(dst, j));
            }
        }
    }
}

proof fn lemma_three<V>(
    k: DraftKernels<V>,
    s: DraftShape,
    m: DraftMem<V>,
    a: DraftOp,
    b: DraftOp,
    c: DraftOp,
)
    ensures
        run(
            k,
            s,
            m,
            seq![a] + draft_plan::wall(s.hazard) + seq![b] + draft_plan::wall(s.hazard) + seq![c],
        ) == exec(k, s, exec(k, s, exec(k, s, m, a), b), c),
{
    let wall = draft_plan::wall(s.hazard);
    lemma_cat(k, s, m, seq![a] + wall + seq![b] + wall, seq![c]);
    lemma_cat(k, s, m, seq![a] + wall + seq![b], wall);
    lemma_cat(k, s, m, seq![a] + wall, seq![b]);
    lemma_cat(k, s, m, seq![a], wall);
    lemma_one(k, s, m, a);
    let m1 = exec(k, s, m, a);
    lemma_wall(k, s, m1, s.hazard);
    lemma_one(k, s, m1, b);
    let m2 = exec(k, s, m1, b);
    lemma_wall(k, s, m2, s.hazard);
    lemma_one(k, s, m2, c);
}

/// Moved rows stand behind the rows that were there, in order.
proof fn lemma_move_rows<V>(
    k: DraftKernels<V>,
    s: DraftShape,
    m: DraftMem<V>,
    ks: DraftBuf,
    vs: DraftBuf,
    kd: DraftBuf,
    vd: DraftBuf,
    at: int,
    n: int,
)
    requires
        !single(ks) && !single(vs) && !single(kd) && !single(vd),
        kd != vd && kd != ks && kd != vs && vd != ks && vd != vs,
        width(s, ks) == s.kv_dim() && width(s, vs) == s.kv_dim(),
        width(s, kd) == s.kv_dim() && width(s, vd) == s.kv_dim(),
        0 < s.kv_dim() <= u32::MAX,
        0 <= at,
        0 <= n,
        (at + n) * s.kv_dim() <= usize::MAX,
    ensures
        ({
            let r = run(k, s, m, draft_plan::move_rows(s, ks, vs, kd, vd, at, n));
            &&& framed(m, r, |b: DraftBuf| single(b) || b == kd || b == vd)
            &&& forall|i: int| #[trigger]
                (r.row)(kd, i) == (if at <= i < at + n {
                    (m.row)(ks, i - at)
                } else {
                    (m.row)(kd, i)
                })
            &&& forall|i: int| #[trigger]
                (r.row)(vd, i) == (if at <= i < at + n {
                    (m.row)(vs, i - at)
                } else {
                    (m.row)(vd, i)
                })
        }),
    decreases n,
{
    let w = s.kv_dim();
    let f = |i: int| draft_plan::move_row(s, ks, vs, kd, vd, at, i);
    if n <= 0 {
        lemma_none(k, s, m);
    } else {
        let i = n - 1;
        draft_plan::lemma_row_bound(at + i, at + n, w);
        draft_plan::lemma_row_bound(i, at + n, w);
        lemma_move_rows(k, s, m, ks, vs, kd, vd, at, i);
        let r = run(k, s, m, draft_plan::repeat(f, i));
        lemma_cat(k, s, m, draft_plan::repeat(f, i), f(i));
        lemma_low(w);
        let len = kv_slot::low32(w);
        let from = (i * w) as usize;
        let to = ((at + i) * w) as usize;
        let a = DraftOp::Copy { src: ks, from, dst: DraftBuf::RowY, to: 0, n: len };
        let b = DraftOp::Copy { src: DraftBuf::RowY, from: 0, dst: kd, to, n: len };
        let c = DraftOp::Copy { src: vs, from, dst: DraftBuf::RowY, to: 0, n: len };
        let d = DraftOp::Copy { src: DraftBuf::RowY, from: 0, dst: vd, to, n: len };
        assert(f(i) =~= seq![a, b] + seq![c, d]);
        lemma_cat(k, s, r, seq![a, b], seq![c, d]);
        lemma_two(k, s, r, a, b);
        let m1 = exec(k, s, r, a);
        let m2 = exec(k, s, m1, b);
        lemma_two(k, s, m2, c, d);
        let m3 = exec(k, s, m2, c);
        lemma_out(k, s, r, ks, i, DraftBuf::RowY, len);
        lemma_into(k, s, m1, DraftBuf::RowY, kd, at + i, len);
        lemma_out(k, s, m2, vs, i, DraftBuf::RowY, len);
        lemma_into(k, s, m3, DraftBuf::RowY, vd, at + i, len);
        assert((r.row)(ks, i) == (m.row)(ks, i));
        assert((m2.row)(vs, i) == (m.row)(vs, i)) by {
            assert((r.row)(vs, i) == (m.row)(vs, i));
        }
    }
}

/// What a layer makes of a row of context or of a normed row of the block, as a key.
pub open spec fn draft_key<V>(k: DraftKernels<V>, s: DraftShape, li: usize, p: int, c: V) -> V {
    (k.rope)(
        DraftNorm::KHead(li),
        s.hkv as int,
        s.d as int,
        p,
        (k.mat)(DraftBank::K(li), c),
    )
}

/// The same, as a value.
pub open spec fn draft_value<V>(k: DraftKernels<V>, li: usize, c: V) -> V {
    (k.mat)(DraftBank::V(li), c)
}

/// The keys and values of the first rows of new context.
proof fn lemma_ctx_rows<V>(
    k: DraftKernels<V>,
    s: DraftShape,
    m: DraftMem<V>,
    li: usize,
    skip: int,
    n: int,
)
    requires
        0 < s.h <= u32::MAX,
        0 < s.kv_dim() <= u32::MAX,
        0 <= skip,
        0 <= n,
        (skip + n) * s.h <= usize::MAX,
        n * s.kv_dim() <= usize::MAX,
    ensures
        ({
            let r = run(
                k,
                s,
                m,
                draft_plan::repeat(|i: int| draft_plan::ctx_row(s, li, skip, i), n),
            );
            &&& framed(
                m,
                r,
                |b: DraftBuf| single(b) || b == DraftBuf::K || b == DraftBuf::V,
            )
            &&& forall|i: int|
                0 <= i < n ==> #[trigger] (r.row)(DraftBuf::K, i) == (k.mat)(
                    DraftBank::K(li),
                    (m.row)(DraftBuf::Context, skip + i),
                )
            &&& forall|i: int|
                0 <= i < n ==> #[trigger] (r.row)(DraftBuf::V, i) == (k.mat)(
                    DraftBank::V(li),
                    (m.row)(DraftBuf::Context, skip + i),
                )
        }),
    decreases n,
{
    let f = |i: int| draft_plan::ctx_row(s, li, skip, i);
    if n <= 0 {
        lemma_none(k, s, m);
    } else {
        let i = n - 1;
        let h = s.h as int;
        let w = s.kv_dim();
        draft_plan::lemma_row_bound(skip + i, skip + n, h);
        draft_plan::lemma_row_bound(i, n, w);
        lemma_row_less(skip + i, skip + n, h);
        lemma_ctx_rows(k, s, m, li, skip, i);
        let r = run(k, s, m, draft_plan::repeat(f, i));
        lemma_cat(k, s, m, draft_plan::repeat(f, i), f(i));
        lemma_low(h);
        lemma_low(w);
        let wall = draft_plan::wall(s.hazard);
        let a = DraftOp::Copy {
            src: DraftBuf::Context,
            from: ((skip + i) * h) as usize,
            dst: DraftBuf::RowX,
            to: 0,
            n: kv_slot::low32(h),
        };
        let b = DraftOp::Gemv {
            bank: DraftBank::K(li),
            src: DraftBuf::RowX,
            dst: DraftBuf::RowY,
        };
        let c = DraftOp::Copy {
            src: DraftBuf::RowY,
            from: 0,
            dst: DraftBuf::K,
            to: (i * w) as usize,
            n: kv_slot::low32(w),
        };
        let d = DraftOp::Gemv {
            bank: DraftBank::V(li),
            src: DraftBuf::RowX,
            dst: DraftBuf::RowY,
        };
        let e = DraftOp::Copy {
            src: DraftBuf::RowY,
            from: 0,
            dst: DraftBuf::V,
            to: (i * w) as usize,
            n: kv_slot::low32(w),
        };
        let first = seq![a] + wall + seq![b] + wall + seq![c];
        assert(f(i) =~= first + (seq![d] + wall + seq![e]));
        lemma_cat(k, s, r, first, seq![d] + wall + seq![e]);
        lemma_three(k, s, r, a, b, c);
        let m1 = exec(k, s, r, a);
        let m2 = exec(k, s, m1, b);
        let m3 = exec(k, s, m2, c);
        lemma_cat(k, s, m3, seq![d] + wall, seq![e]);
        lemma_cat(k, s, m3, seq![d], wall);
        lemma_one(k, s, m3, d);
        let m4 = exec(k, s, m3, d);
        lemma_wall(k, s, m4, s.hazard);
        lemma_one(k, s, m4, e);
        lemma_out(k, s, r, DraftBuf::Context, skip + i, DraftBuf::RowX, kv_slot::low32(h));
        lemma_into(k, s, m2, DraftBuf::RowY, DraftBuf::K, i, kv_slot::low32(w));
        lemma_into(k, s, m4, DraftBuf::RowY, DraftBuf::V, i, kv_slot::low32(w));
        let u = exec(k, s, m4, e);
        assert((r.row)(DraftBuf::Context, skip + i) == (m.row)(DraftBuf::Context, skip + i));
        assert((m3.row)(DraftBuf::RowX, 0) == (m1.row)(DraftBuf::RowX, 0));
        assert forall|j: int| 0 <= j < n implies #[trigger] (u.row)(DraftBuf::K, j) == (k.mat)(
            DraftBank::K(li),
            (m.row)(DraftBuf::Context, skip + j),
        ) by {
            if j < i {
                assert((u.row)(DraftBuf::K, j) == (r.row)(DraftBuf::K, j));
            }
        }
        assert forall|j: int| 0 <= j < n implies #[trigger] (u.row)(DraftBuf::V, j) == (k.mat)(
            DraftBank::V(li),
            (m.row)(DraftBuf::Context, skip + j),
        ) by {
            if j < i {
                assert((u.row)(DraftBuf::V, j) == (r.row)(DraftBuf::V, j));
            }
        }
    }
}

proof fn lemma_row_less(a: int, b: int, w: int)
    requires
        0 <= a <= b,
        0 <= w,
        b * w <= usize::MAX,
    ensures
        a * w <= usize::MAX,
{
    assert(a * w <= b * w) by (nonlinear_arith)
        requires
            a <= b,
            0 <= w,
    ;
}

/// The cache of a layer holds the keys and values of consecutive positions, the first row
/// that of the first position that it reaches back to.
pub open spec fn cache_holds<V>(
    m: DraftMem<V>,
    li: usize,
    c: DraftCache,
    key: spec_fn(int) -> V,
    val: spec_fn(int) -> V,
) -> bool {
    forall|j: int| 0 <= j < c.len ==> #[trigger] row_holds(m, li, c.offset - c.len, key, val, j)
}

/// Row `j` of a layer's cache holds the key and the value of its position.
pub open spec fn row_holds<V>(
    m: DraftMem<V>,
    li: usize,
    first: int,
    key: spec_fn(int) -> V,
    val: spec_fn(int) -> V,
    j: int,
) -> bool {
    &&& (m.row)(DraftBuf::CacheKeys(li), j) == key(first + j)
    &&& (m.row)(DraftBuf::CacheValues(li), j) == val(first + j)
}

/// `key` and `val` go on with what the layer makes of row `i` of the new context.
pub open spec fn context_makes<V>(
    k: DraftKernels<V>,
    s: DraftShape,
    m: DraftMem<V>,
    li: usize,
    key: spec_fn(int) -> V,
    val: spec_fn(int) -> V,
    pos: int,
    skip: int,
    i: int,
) -> bool {
    let c = (m.row)(DraftBuf::Context, skip + i);
    key(pos + i) == draft_key(k, s, li, pos + i, c) && val(pos + i) == draft_value(k, li, c)
}

/// New context rows are stored behind the ones that a layer kept: the cache then holds the
/// keys and values of all their positions, in order.
#[verifier::spinoff_prover]
pub proof fn context_is_cached_in_order<V>(
    k: DraftKernels<V>,
    s: DraftShape,
    m: DraftMem<V>,
    li: usize,
    skip: int,
    n: int,
    c: DraftCache,
    key: spec_fn(int) -> V,
    val: spec_fn(int) -> V,
)
    requires
        sound(s, 0),
        c.wf(),
        0 <= skip,
        0 <= n <= u32::MAX,
        (skip + n) * s.h <= usize::MAX,
        (c.len + n) * s.kv_dim() <= usize::MAX,
        c.offset + n <= u32::MAX,
        cache_holds(m, li, c, key, val),
        forall|i: int|
            0 <= i < n ==> #[trigger] context_makes(
                k,
                s,
                m,
                li,
                key,
                val,
                c.offset as int,
                skip,
                i,
            ),
    ensures
        ({
            let r = run(k, s, m, draft_plan::ctx_ops(s, li, skip, n, c));
            &&& framed(
                m,
                r,
                |b: DraftBuf|
                    single(b) || b == DraftBuf::K || b == DraftBuf::V || b
                        == DraftBuf::CacheKeys(li) || b == DraftBuf::CacheValues(li),
            )
            &&& cache_holds(
                r,
                li,
                DraftCache { len: (c.len + n) as usize, offset: (c.offset + n) as usize },
                key,
                val,
            )
        }),
{
    if n <= 0 {
        lemma_none(k, s, m);
        assert(DraftCache { len: (c.len + n) as usize, offset: (c.offset + n) as usize } == c);
    } else {
        let w = s.kv_dim();
        lemma_row_less(n, c.len + n, w);
        assert(c.len + n <= usize::MAX) by (nonlinear_arith)
            requires
                (c.len + n) * w <= usize::MAX,
                1 <= w,
                0 <= c.len + n,
        ;
        let f = |i: int| draft_plan::ctx_row(s, li, skip, i);
        let rows = draft_plan::repeat(f, n);
        lemma_low(n);
        lemma_low(s.hkv as int);
        lemma_low(s.d as int);
        lemma_low(c.offset as int);
        let rope = DraftOp::NormRope {
            buf: DraftBuf::K,
            weight: DraftNorm::KHead(li),
            rows: kv_slot::low32(n),
            heads: kv_slot::low32(s.hkv as int),
            dim: kv_slot::low32(s.d as int),
            pos: kv_slot::low32(c.offset as int),
        };
        let mv = draft_plan::move_rows(
            s,
            DraftBuf::K,
            DraftBuf::V,
            DraftBuf::CacheKeys(li),
            DraftBuf::CacheValues(li),
            c.len as int,
            n,
        );
        lemma_cat(k, s, m, rows + seq![rope], mv);
        lemma_cat(k, s, m, rows, seq![rope]);
        lemma_ctx_rows(k, s, m, li, skip, n);
        let m1 = run(k, s, m, rows);
        lemma_one(k, s, m1, rope);
        let m2 = exec(k, s, m1, rope);
        lemma_move_rows(
            k,
            s,
            m2,
            DraftBuf::K,
            DraftBuf::V,
            DraftBuf::CacheKeys(li),
            DraftBuf::CacheValues(li),
            c.len as int,
            n,
        );
        let r = run(k, s, m2, mv);
        let after = DraftCache { len: (c.len + n) as usize, offset: (c.offset + n) as usize };
        let first = c.offset - c.len;
        assert forall|j: int| 0 <= j < after.len implies #[trigger] row_holds(
            r,
            li,
            after.offset - after.len,
            key,
            val,
            j,
        ) by {
            if j < c.len {
                assert(row_holds(m, li, first, key, val, j));
                assert((m2.row)(DraftBuf::CacheKeys(li), j) == (m.row)(
                    DraftBuf::CacheKeys(li),
                    j,
                ));
                assert((m2.row)(DraftBuf::CacheValues(li), j) == (m.row)(
                    DraftBuf::CacheValues(li),
                    j,
                ));
            } else {
                let i = j - c.len;
                assert(context_makes(k, s, m, li, key, val, c.offset as int, skip, i));
                assert((m1.row)(DraftBuf::K, i) == (k.mat)(
                    DraftBank::K(li),
                    (m.row)(DraftBuf::Context, skip + i),
                ));
                assert((m1.row)(DraftBuf::V, i) == (k.mat)(
                    DraftBank::V(li),
                    (m.row)(DraftBuf::Context, skip + i),
                ));
                assert((m2.row)(DraftBuf::V, i) == (m1.row)(DraftBuf::V, i));
                assert(first + j == c.offset + i);
            }
        }
    }
}

/// A row of the block, normed for a layer's projections.
pub open spec fn block_in<V>(k: DraftKernels<V>, s: DraftShape, li: usize, x: V) -> V {
    (k.norm)(DraftNorm::Input(li), s.h as int, x)
}

/// The query of a row of the block.
pub open spec fn draft_query<V>(k: DraftKernels<V>, s: DraftShape, li: usize, p: int, x: V) -> V {
    (k.rope)(
        DraftNorm::QHead(li),
        s.hq as int,
        s.d as int,
        p,
        (k.mat)(DraftBank::Q(li), block_in(k, s, li, x)),
    )
}

/// Queries, keys and values of the block, at the positions from `offset` on.
#[verifier::spinoff_prover]
#[verifier::rlimit(40)]
proof fn lemma_block<V>(
    k: DraftKernels<V>,
    s: DraftShape,
    m: DraftMem<V>,
    li: usize,
    l: int,
    offset: int,
)
    requires
        sound(s, l),
        0 <= l <= u32::MAX,
        s.addressable(l),
        0 <= offset <= u32::MAX,
    ensures
        ({
            let r = run(k, s, m, draft_plan::block_ops(s, li, l, offset));
            &&& framed(
                m,
                r,
                |b: DraftBuf|
                    single(b) || b == DraftBuf::XNormed || b == DraftBuf::Q || b == DraftBuf::K
                        || b == DraftBuf::V,
            )
            &&& forall|i: int|
                0 <= i < l ==> #[trigger] (r.row)(DraftBuf::Q, i) == draft_query(
                    k,
                    s,
                    li,
                    offset + i,
                    (m.row)(DraftBuf::X, i),
                )
            &&& forall|i: int|
                0 <= i < l ==> #[trigger] (r.row)(DraftBuf::K, i) == draft_key(
                    k,
                    s,
                    li,
                    offset + i,
                    block_in(k, s, li, (m.row)(DraftBuf::X, i)),
                )
            &&& forall|i: int|
                0 <= i < l ==> #[trigger] (r.row)(DraftBuf::V, i) == draft_value(
                    k,
                    li,
                    block_in(k, s, li, (m.row)(DraftBuf::X, i)),
                )
        }),
{
    let wall = draft_plan::wall(s.hazard);
    lemma_low(l);
    lemma_low(s.h as int);
    lemma_low(s.hq as int);
    lemma_low(s.hkv as int);
    lemma_low(s.d as int);
    lemma_low(offset);
    let norm = DraftOp::Rms {
        src: DraftBuf::X,
        weight: DraftNorm::Input(li),
        dst: DraftBuf::XNormed,
        rows: kv_slot::low32(l),
        n: kv_slot::low32(s.h as int),
    };
    let q = draft_plan::rows_q(s, li, l);
    let kk = draft_plan::rows_k(s, li, l);
    let v = draft_plan::rows_v(s, li, l);
    let rope = draft_plan::rope_pair(s, li, l, offset);
    lemma_cat(k, s, m, seq![norm] + wall + q + kk + v, rope);
    lemma_cat(k, s, m, seq![norm] + wall + q + kk, v);
    lemma_cat(k, s, m, seq![norm] + wall + q, kk);
    lemma_cat(k, s, m, seq![norm] + wall, q);
    lemma_cat(k, s, m, seq![norm], wall);
    lemma_one(k, s, m, norm);
    let m1 = exec(k, s, m, norm);
    lemma_wall(k, s, m1, s.hazard);
    lemma_gemv_rows(k, s, m1, DraftBank::Q(li), DraftBuf::XNormed, DraftBuf::Q, l);
    let m2 = run(k, s, m1, q);
    lemma_gemv_rows(k, s, m2, DraftBank::K(li), DraftBuf::XNormed, DraftBuf::K, l);
    let m3 = run(k, s, m2, kk);
    lemma_gemv_rows(k, s, m3, DraftBank::V(li), DraftBuf::XNormed, DraftBuf::V, l);
    let m4 = run(k, s, m3, v);
    lemma_two(k, s, m4, rope[0], rope[1]);
    assert(rope =~= seq![rope[0], rope[1]]);
    let m5 = exec(k, s, m4, rope[0]);
    let r = exec(k, s, m5, rope[1]);
    assert forall|i: int| 0 <= i < l implies #[trigger] (r.row)(DraftBuf::Q, i) == draft_query(
        k,
        s,
        li,
        offset + i,
        (m.row)(DraftBuf::X, i),
    ) by {
        assert((m2.row)(DraftBuf::Q, i) == (k.mat)(
            DraftBank::Q(li),
            (m1.row)(DraftBuf::XNormed, i),
        ));
        assert((m3.row)(DraftBuf::Q, i) == (m2.row)(DraftBuf::Q, i));
        assert((m4.row)(DraftBuf::Q, i) == (m3.row)(DraftBuf::Q, i));
    }
    assert forall|i: int| 0 <= i < l implies #[trigger] (r.row)(DraftBuf::K, i) == draft_key(
        k,
        s,
        li,
        offset + i,
        block_in(k, s, li, (m.row)(DraftBuf::X, i)),
    ) by {
        assert((m2.row)(DraftBuf::XNormed, i) == (m1.row)(DraftBuf::XNormed, i));
        assert((m3.row)(DraftBuf::K, i) == (k.mat)(
            DraftBank::K(li),
            (m2.row)(DraftBuf::XNormed, i),
        ));
        assert((m4.row)(DraftBuf::K, i) == (m3.row)(DraftBuf::K, i));
    }
    assert forall|i: int| 0 <= i < l implies #[trigger] (r.row)(DraftBuf::V, i) == draft_value(
        k,
        li,
        block_in(k, s, li, (m.row)(DraftBuf::X, i)),
    ) by {
        assert((m2.row)(DraftBuf::XNormed, i) == (m1.row)(DraftBuf::XNormed, i));
        assert((m3.row)(DraftBuf::XNormed, i) == (m2.row)(DraftBuf::XNormed, i));
        assert((m4.row)(DraftBuf::V, i) == (k.mat)(
            DraftBank::V(li),
            (m3.row)(DraftBuf::XNormed, i),
        ));
    }
    assert forall|b: DraftBuf, i: int|
        !(single(b) || b == DraftBuf::XNormed || b == DraftBuf::Q || b == DraftBuf::K || b
            == DraftBuf::V) implies #[trigger] (r.row)(b, i) == (m.row)(b, i) by {
        assert((m4.row)(b, i) == (m3.row)(b, i));
        assert((m3.row)(b, i) == (m2.row)(b, i));
        assert((m2.row)(b, i) == (m1.row)(b, i));
    }
}

/// What a row of the block at position `q` attends to: what the layer's cache holds from
/// position `first` on, and the block's rows up to the row itself, as far as they lie in
/// the window.
pub open spec fn draft_context<V>(
    key: spec_fn(int) -> V,
    val: spec_fn(int) -> V,
    first: int,
    window: Option<usize>,
    q: int,
) -> spec_fn(int) -> Option<(V, V)> {
    |p: int|
        if first <= p <= q && (window matches Some(w) ==> q - p < w) {
            Some((key(p), val(p)))
        } else {
            None
        }
}

/// Row `i` of the block holds the key and the value of its position.
pub open spec fn block_holds<V>(
    m: DraftMem<V>,
    key: spec_fn(int) -> V,
    val: spec_fn(int) -> V,
    pos: int,
    i: int,
) -> bool {
    (m.row)(DraftBuf::K, i) == key(pos + i) && (m.row)(DraftBuf::V, i) == val(pos + i)
}

/// Every row of the block attends to its context.
#[verifier::spinoff_prover]
#[verifier::rlimit(40)]
pub proof fn draft_rows_attend_to_their_context<V>(
    k: DraftKernels<V>,
    s: DraftShape,
    m: DraftMem<V>,
    li: usize,
    l: int,
    c: DraftCache,
    window: Option<usize>,
    key: spec_fn(int) -> V,
    val: spec_fn(int) -> V,
)
    requires
        sound(s, l),
        0 <= l,
        c.wf(),
        (c.len + l) * s.kv_dim() <= usize::MAX,
        c.offset + l < 0x3FFF_FFFF,
        window matches Some(w) ==> w <= u32::MAX,
        cache_holds(m, li, c, key, val),
        forall|i: int|
            0 <= i < l ==> #[trigger] block_holds(m, key, val, c.offset as int, i),
    ensures
        ({
            let r = run(k, s, m, draft_plan::attention_ops(s, li, l, c, window));
            &&& framed(
                m,
                r,
                |b: DraftBuf|
                    single(b) || b == DraftBuf::KeysFull || b == DraftBuf::ValuesFull || b
                        == DraftBuf::OAttn,
            )
            &&& forall|i: int|
                0 <= i < l ==> #[trigger] (r.row)(DraftBuf::OAttn, i) == (k.attend)(
                    li,
                    (m.row)(DraftBuf::Q, i),
                    draft_context(key, val, c.offset - c.len, window, c.offset + i),
                )
        }),
{
    let wall = draft_plan::wall(s.hazard);
    let kf = DraftBuf::KeysFull;
    let vf = DraftBuf::ValuesFull;
    let a = draft_plan::move_rows(
        s,
        DraftBuf::CacheKeys(li),
        DraftBuf::CacheValues(li),
        kf,
        vf,
        0,
        c.len as int,
    );
    let b = draft_plan::move_rows(s, DraftBuf::K, DraftBuf::V, kf, vf, c.len as int, l);
    lemma_low(l);
    lemma_low(c.len + l);
    lemma_low(c.offset as int);
    lemma_low(c.offset - c.len);
    if let Some(w) = window {
        lemma_low(w as int);
    }
    let att = DraftOp::Attend {
        layer: li,
        rows: kv_slot::low32(l),
        tkv: kv_slot::low32(c.len + l),
        window: draft_plan::attend_window(window),
        q_pos: kv_slot::low32(c.offset as int),
        kv_pos: kv_slot::low32(c.offset - c.len),
    };
    lemma_cat(k, s, m, a + b + wall + seq![att], wall);
    lemma_cat(k, s, m, a + b + wall, seq![att]);
    lemma_cat(k, s, m, a + b, wall);
    lemma_cat(k, s, m, a, b);
    lemma_row_less(c.len as int, c.len + l, s.kv_dim());
    lemma_move_rows(
        k,
        s,
        m,
        DraftBuf::CacheKeys(li),
        DraftBuf::CacheValues(li),
        kf,
        vf,
        0,
        c.len as int,
    );
    let m1 = run(k, s, m, a);
    lemma_move_rows(k, s, m1, DraftBuf::K, DraftBuf::V, kf, vf, c.len as int, l);
    let m2 = run(k, s, m1, b);
    lemma_wall(k, s, m2, s.hazard);
    lemma_one(k, s, m2, att);
    let r = exec(k, s, m2, att);
    lemma_wall(k, s, r, s.hazard);
    let first = c.offset - c.len;
    assert forall|j: int| 0 <= j < c.len + l implies (#[trigger] (m2.row)(kf, j)) == key(first + j)
        && (m2.row)(vf, j) == val(first + j) by {
        if j < c.len {
            assert(row_holds(m, li, first, key, val, j));
            assert((m1.row)(kf, j) == (m.row)(DraftBuf::CacheKeys(li), j));
            assert((m1.row)(vf, j) == (m.row)(DraftBuf::CacheValues(li), j));
            assert((m2.row)(vf, j) == (m1.row)(vf, j));
        } else {
            let i = j - c.len;
            assert(block_holds(m, key, val, c.offset as int, i));
            assert((m1.row)(DraftBuf::K, i) == (m.row)(DraftBuf::K, i));
            assert((m1.row)(DraftBuf::V, i) == (m.row)(DraftBuf::V, i));
            assert((m2.row)(vf, j) == (m1.row)(DraftBuf::V, i));
            assert(first + j == c.offset + i);
        }
    }
    assert forall|i: int| 0 <= i < l implies #[trigger] (r.row)(DraftBuf::OAttn, i) == (k.attend)(
        li,
        (m.row)(DraftBuf::Q, i),
        draft_context(key, val, first, window, c.offset + i),
    ) by {
        let want = draft_context(key, val, first, window, c.offset + i);
        let w = draft_plan::attend_window(window) as int;
        let got = |p: int|
            if machine::sees(c.offset + i, first, c.len + l, Some(w), p) {
                Some(((m2.row)(kf, p - first), (m2.row)(vf, p - first)))
            } else {
                None
            };
        assert forall|p: int| #[trigger] got(p) == want(p) by {
            if machine::sees(c.offset + i, first, c.len + l, Some(w), p) {
                assert((m2.row)(kf, p - first) == key(first + (p - first)));
            }
        }
        assert(got =~= want);
        assert((m2.row)(DraftBuf::Q, i) == (m.row)(DraftBuf::Q, i)) by {
            assert((m1.row)(DraftBuf::Q, i) == (m.row)(DraftBuf::Q, i));
        }
    }
    assert forall|x: DraftBuf, i: int|
        !(single(x) || x == kf || x == vf || x == DraftBuf::OAttn) implies #[trigger] (r.row)(x, i)
        == (m.row)(x, i) by {
        assert((m2.row)(x, i) == (m1.row)(x, i));
        assert((m1.row)(x, i) == (m.row)(x, i));
    }
}

#[verifier::spinoff_prover]
proof fn lemma_residual<V>(k: DraftKernels<V>, s: DraftShape, m: DraftMem<V>, li: usize, l: int)
    requires
        sound(s, l),
        0 <= l,
        s.addressable(l),
    ensures
        ({
            let r = run(k, s, m, draft_plan::residual_ops(s, li, l));
            &&& framed(
                m,
                r,
                |b: DraftBuf| single(b) || b == DraftBuf::AttnFlat || b == DraftBuf::Resid,
            )
            &&& forall|i: int|
                0 <= i < l ==> #[trigger] (r.row)(DraftBuf::Resid, i) == (k.plus)(
                    (m.row)(DraftBuf::X, i),
                    (k.mat)(DraftBank::O(li), (m.row)(DraftBuf::OAttn, i)),
                )
        }),
{
    let h = s.h as int;
    let wall = draft_plan::wall(s.hazard);
    let g = draft_plan::gemv_rows_ops(
        s.hazard,
        DraftBank::O(li),
        DraftBuf::OAttn,
        DraftBuf::AttnFlat,
        s.q_dim(),
        h,
        s.q_dim(),
        h,
        l,
    );
    lemma_low(l * h);
    let n = kv_slot::low32(l * h);
    let a = DraftOp::Copy { src: DraftBuf::X, from: 0, dst: DraftBuf::Resid, to: 0, n };
    let b = DraftOp::Add { dst: DraftBuf::Resid, src: DraftBuf::AttnFlat, n };
    lemma_cat(k, s, m, g + seq![a] + wall + seq![b], wall);
    lemma_cat(k, s, m, g + seq![a] + wall, seq![b]);
    lemma_cat(k, s, m, g + seq![a], wall);
    lemma_cat(k, s, m, g, seq![a]);
    lemma_gemv_rows(k, s, m, DraftBank::O(li), DraftBuf::OAttn, DraftBuf::AttnFlat, l);
    let m1 = run(k, s, m, g);
    lemma_one(k, s, m1, a);
    let m2 = exec(k, s, m1, a);
    lemma_wall(k, s, m2, s.hazard);
    lemma_one(k, s, m2, b);
    let r = exec(k, s, m2, b);
    lemma_wall(k, s, r, s.hazard);
    assert forall|i: int| 0 <= i < l implies #[trigger] (r.row)(DraftBuf::Resid, i) == (k.plus)(
        (m.row)(DraftBuf::X, i),
        (k.mat)(DraftBank::O(li), (m.row)(DraftBuf::OAttn, i)),
    ) by {
        assert((i + 1) * h <= l * h && 0 <= i * h && h * i == i * h) by (nonlinear_arith)
            requires
                0 <= i,
                i + 1 <= l,
                0 < h,
        ;
        lemma_div_multiples_vanish(i, h);
        assert((m2.row)(DraftBuf::Resid, i) == (m1.row)(DraftBuf::X, i));
        assert((m1.row)(DraftBuf::X, i) == (m.row)(DraftBuf::X, i));
        assert((m2.row)(DraftBuf::AttnFlat, i) == (m1.row)(DraftBuf::AttnFlat, i));
    }
}

/// A row once the feed-forward part is added.
pub open spec fn draft_mlp<V>(k: DraftKernels<V>, s: DraftShape, li: usize, r: V) -> V {
    let n = (k.norm)(DraftNorm::PostAttn(li), s.h as int, r);
    (k.plus)(
        r,
        (k.mat)(
            DraftBank::Down(li),
            (k.silu)(
                s.inter as int,
                (k.mat)(DraftBank::Gate(li), n),
                (k.mat)(DraftBank::Up(li), n),
            ),
        ),
    )
}

/// The buffers that the feed-forward part of a row works in.
pub open spec fn mlp_scratch(b: DraftBuf) -> bool {
    single(b) || b == DraftBuf::XNormed || b == DraftBuf::Gate || b == DraftBuf::Up || b
        == DraftBuf::Mid
}

#[verifier::spinoff_prover]
#[verifier::rlimit(40)]
proof fn lemma_mlp_row<V>(k: DraftKernels<V>, s: DraftShape, m: DraftMem<V>, li: usize, i: int)
    requires
        sound(s, 0),
        0 <= i,
        i * s.h <= usize::MAX,
    ensures
        ({
            let r = run(k, s, m, draft_plan::mlp_row(s, li, i));
            &&& r.token == m.token
            &&& forall|b: DraftBuf, q: int|
                !mlp_scratch(b) ==> #[trigger] (r.row)(b, q) == (if b == DraftBuf::X && q == i {
                    draft_mlp(k, s, li, (m.row)(DraftBuf::Resid, i))
                } else {
                    (m.row)(b, q)
                })
        }),
{
    let h = s.h as int;
    lemma_low(h);
    lemma_low(s.inter as int);
    let n = kv_slot::low32(h);
    let at = (i * s.h) as usize;
    let wall = draft_plan::wall(s.hazard);
    let a = DraftOp::Copy { src: DraftBuf::Resid, from: at, dst: DraftBuf::RowX, to: 0, n };
    let b = DraftOp::Rms {
        src: DraftBuf::RowX,
        weight: DraftNorm::PostAttn(li),
        dst: DraftBuf::XNormed,
        rows: 1,
        n,
    };
    let c = DraftOp::Gemv {
        bank: DraftBank::Gate(li),
        src: DraftBuf::XNormed,
        dst: DraftBuf::Gate,
    };
    let d = DraftOp::Gemv { bank: DraftBank::Up(li), src: DraftBuf::XNormed, dst: DraftBuf::Up };
    let e = DraftOp::Silu { n: kv_slot::low32(s.inter as int) };
    let g = DraftOp::Gemv { bank: DraftBank::Down(li), src: DraftBuf::Mid, dst: DraftBuf::RowY };
    let u = DraftOp::Add { dst: DraftBuf::RowX, src: DraftBuf::RowY, n };
    let z = DraftOp::Copy { src: DraftBuf::RowX, from: 0, dst: DraftBuf::X, to: at, n };
    let t1 = seq![a, b];
    let t2 = seq![c, d];
    let t3 = seq![a, u, z];
    lemma_cat(
        k,
        s,
        m,
        t1 + wall + t2 + wall + seq![e] + wall + seq![g] + wall,
        t3,
    );
    lemma_cat(k, s, m, t1 + wall + t2 + wall + seq![e] + wall + seq![g], wall);
    lemma_cat(k, s, m, t1 + wall + t2 + wall + seq![e] + wall, seq![g]);
    lemma_cat(k, s, m, t1 + wall + t2 + wall + seq![e], wall);
    lemma_cat(k, s, m, t1 + wall + t2 + wall, seq![e]);
    lemma_cat(k, s, m, t1 + wall + t2, wall);
    lemma_cat(k, s, m, t1 + wall, t2);
    lemma_cat(k, s, m, t1, wall);
    lemma_two(k, s, m, a, b);
    let m0 = exec(k, s, m, a);
    let m1 = exec(k, s, m0, b);
    lemma_wall(k, s, m1, s.hazard);
    lemma_two(k, s, m1, c, d);
    let m2 = exec(k, s, exec(k, s, m1, c), d);
    lemma_wall(k, s, m2, s.hazard);
    lemma_one(k, s, m2, e);
    let m3 = exec(k, s, m2, e);
    lemma_wall(k, s, m3, s.hazard);
    lemma_one(k, s, m3, g);
    let m4 = exec(k, s, m3, g);
    lemma_wall(k, s, m4, s.hazard);
    assert(t3 =~= seq![a, u] + seq![z]);
    lemma_cat(k, s, m4, seq![a, u], seq![z]);
    lemma_two(k, s, m4, a, u);
    let m5 = exec(k, s, m4, a);
    let m6 = exec(k, s, m5, u);
    lemma_one(k, s, m6, z);
    lemma_out(k, s, m, DraftBuf::Resid, i, DraftBuf::RowX, n);
    lemma_out(k, s, m4, DraftBuf::Resid, i, DraftBuf::RowX, n);
    lemma_into(k, s, m6, DraftBuf::RowX, DraftBuf::X, i, n);
    assert((m4.row)(DraftBuf::Resid, i) == (m.row)(DraftBuf::Resid, i));
    assert((m5.row)(DraftBuf::RowY, 0) == (m4.row)(DraftBuf::RowY, 0));
    assert((m6.row)(DraftBuf::RowX, 0) == draft_mlp(k, s, li, (m.row)(DraftBuf::Resid, i)));
}

proof fn lemma_mlp<V>(k: DraftKernels<V>, s: DraftShape, m: DraftMem<V>, li: usize, n: int)
    requires
        sound(s, 0),
        0 <= n,
        n * s.h <= usize::MAX,
    ensures
        ({
            let r = run(k, s, m, draft_plan::mlp_ops(s, li, n));
            &&& r.token == m.token
            &&& forall|b: DraftBuf, q: int|
                !mlp_scratch(b) ==> #[trigger] (r.row)(b, q) == (if b == DraftBuf::X && 0 <= q < n {
                    draft_mlp(k, s, li, (m.row)(DraftBuf::Resid, q))
                } else {
                    (m.row)(b, q)
                })
        }),
    decreases n,
{
    let f = |i: int| draft_plan::mlp_row(s, li, i);
    if n <= 0 {
        lemma_none(k, s, m);
    } else {
        let i = n - 1;
        lemma_row_less(i, n, s.h as int);
        lemma_mlp(k, s, m, li, i);
        lemma_cat(k, s, m, draft_plan::repeat(f, i), f(i));
        let r = run(k, s, m, draft_plan::repeat(f, i));
        lemma_mlp_row(k, s, r, li, i);
        assert((r.row)(DraftBuf::Resid, i) == (m.row)(DraftBuf::Resid, i));
    }
}

/// What a draft layer makes of a row of the block at a position.
pub open spec fn draft_layer_value<V>(
    k: DraftKernels<V>,
    s: DraftShape,
    li: usize,
    first: int,
    window: Option<usize>,
    pos: int,
    x: V,
    key: spec_fn(int) -> V,
    val: spec_fn(int) -> V,
) -> V {
    let o = (k.attend)(
        li,
        draft_query(k, s, li, pos, x),
        draft_context(key, val, first, window, pos),
    );
    draft_mlp(k, s, li, (k.plus)(x, (k.mat)(DraftBank::O(li), o)))
}

/// `key` and `val` go on behind the context with what the layer makes of row `i` of the
/// block.
pub open spec fn block_makes<V>(
    k: DraftKernels<V>,
    s: DraftShape,
    m: DraftMem<V>,
    li: usize,
    key: spec_fn(int) -> V,
    val: spec_fn(int) -> V,
    pos: int,
    i: int,
) -> bool {
    let c = block_in(k, s, li, (m.row)(DraftBuf::X, i));
    key(pos + i) == draft_key(k, s, li, pos + i, c) && val(pos + i) == draft_value(k, li, c)
}

/// The buffer holds the context, or the cache of another layer.
pub open spec fn not_of(b: DraftBuf, li: usize) -> bool {
    ||| b == DraftBuf::Context
    ||| b matches DraftBuf::CacheKeys(lj) && lj != li
    ||| b matches DraftBuf::CacheValues(lj) && lj != li
}

/// The context and the caches of the other layers are as they were.
pub open spec fn others_kept<V>(m: DraftMem<V>, r: DraftMem<V>, li: usize) -> bool {
    forall|b: DraftBuf, j: int| not_of(b, li) ==> #[trigger] (r.row)(b, j) == (m.row)(b, j)
}

/// A draft layer takes the newest context rows behind those that it kept, places the block
/// behind them, and makes of each row of the block what the layer is for: the row attends
/// to the context that the layer holds and to the block up to itself, and attention and
/// the feed-forward part are added to it. Its cache then holds the context, in order, and
/// nothing of the block.
#[verifier::spinoff_prover]
#[verifier::rlimit(60)]
pub proof fn a_draft_layer_computes_its_rows<V>(
    k: DraftKernels<V>,
    s: DraftShape,
    m: DraftMem<V>,
    li: usize,
    l: int,
    h_ctx_len: int,
    ctx_t: int,
    window: Option<usize>,
    c: DraftCache,
    key: spec_fn(int) -> V,
    val: spec_fn(int) -> V,
)
    requires
        sound(s, l),
        0 <= l,
        c.wf(),
        0 <= ctx_t <= h_ctx_len,
        h_ctx_len * s.h <= usize::MAX,
        s.addressable(l),
        window matches Some(w) ==> w <= u32::MAX,
        c.len + ctx_t + l < 0x3FFF_FFFF,
        c.offset + ctx_t + l < 0x3FFF_FFFF,
        (c.len + ctx_t + l) * s.kv_dim() <= usize::MAX,
        cache_holds(m, li, draft_plan::cache_kept(window, c), key, val),
        forall|i: int|
            0 <= i < draft_plan::ctx_taken(window, ctx_t) ==> #[trigger] context_makes(
                k,
                s,
                m,
                li,
                key,
                val,
                draft_plan::cache_kept(window, c).offset as int,
                h_ctx_len - draft_plan::ctx_taken(window, ctx_t),
                i,
            ),
        forall|i: int|
            0 <= i < l ==> #[trigger] block_makes(
                k,
                s,
                m,
                li,
                key,
                val,
                draft_plan::cache_after(window, c, ctx_t).offset as int,
                i,
            ),
    ensures
        ({
            let a = draft_plan::cache_after(window, c, ctx_t);
            let r = run(
                k,
                s,
                m,
                draft_plan::layer_ops(s, li, l, h_ctx_len, ctx_t, window, c),
            );
            &&& r.token == m.token
            &&& cache_holds(r, li, a, key, val)
            &&& others_kept(m, r, li)
            &&& forall|i: int|
                0 <= i < l ==> #[trigger] (r.row)(DraftBuf::X, i) == draft_layer_value(
                    k,
                    s,
                    li,
                    a.offset - a.len,
                    window,
                    a.offset + i,
                    (m.row)(DraftBuf::X, i),
                    key,
                    val,
                )
        }),
{
    let kept = draft_plan::cache_kept(window, c);
    let t = draft_plan::ctx_taken(window, ctx_t);
    let after = draft_plan::cache_after(window, c, ctx_t);
    let skip = kv_slot::max2(h_ctx_len - t, 0);
    let o1 = draft_plan::ctx_ops(s, li, skip, t, kept);
    let o2 = draft_plan::block_ops(s, li, l, after.offset as int);
    let o3 = draft_plan::attention_ops(s, li, l, after, window);
    let o4 = draft_plan::residual_ops(s, li, l);
    let o5 = draft_plan::mlp_ops(s, li, l);
    lemma_cat(k, s, m, o1 + o2 + o3 + o4, o5);
    lemma_cat(k, s, m, o1 + o2 + o3, o4);
    lemma_cat(k, s, m, o1 + o2, o3);
    lemma_cat(k, s, m, o1, o2);
    assert(0 <= t <= ctx_t && kept.len <= c.len && kept.offset <= c.offset && kept.wf());
    lemma_row_less(kept.len + t, c.len + ctx_t + l, s.kv_dim());
    lemma_row_less(after.len + l, c.len + ctx_t + l, s.kv_dim());
    context_is_cached_in_order(k, s, m, li, skip, t, kept, key, val);
    let m1 = run(k, s, m, o1);
    lemma_block(k, s, m1, li, l, after.offset as int);
    let m2 = run(k, s, m1, o2);
    assert(cache_holds(m2, li, after, key, val)) by {
        lemma_cache_kept(m1, m2, li, after, key, val);
    }
    assert forall|i: int| 0 <= i < l implies #[trigger] block_holds(
        m2,
        key,
        val,
        after.offset as int,
        i,
    ) by {
        assert(block_makes(k, s, m, li, key, val, after.offset as int, i));
        assert((m1.row)(DraftBuf::X, i) == (m.row)(DraftBuf::X, i));
        assert((m2.row)(DraftBuf::K, i) == draft_key(
            k,
            s,
            li,
            after.offset + i,
            block_in(k, s, li, (m1.row)(DraftBuf::X, i)),
        ));
        assert((m2.row)(DraftBuf::V, i) == draft_value(
            k,
            li,
            block_in(k, s, li, (m1.row)(DraftBuf::X, i)),
        ));
    }
    draft_rows_attend_to_their_context(k, s, m2, li, l, after, window, key, val);
    let m3 = run(k, s, m2, o3);
    lemma_cache_kept(m2, m3, li, after, key, val);
    lemma_residual(k, s, m3, li, l);
    let m4 = run(k, s, m3, o4);
    lemma_cache_kept(m3, m4, li, after, key, val);
    lemma_mlp(k, s, m4, li, l);
    let r = run(k, s, m4, o5);
    lemma_cache_kept(m4, r, li, after, key, val);
    assert forall|i: int| 0 <= i < l implies #[trigger] (r.row)(DraftBuf::X, i)
        == draft_layer_value(
        k,
        s,
        li,
        after.offset - after.len,
        window,
        after.offset + i,
        (m.row)(DraftBuf::X, i),
        key,
        val,
    ) by {
        assert((m1.row)(DraftBuf::X, i) == (m.row)(DraftBuf::X, i));
        assert((m2.row)(DraftBuf::X, i) == (m1.row)(DraftBuf::X, i));
        assert((m3.row)(DraftBuf::X, i) == (m2.row)(DraftBuf::X, i));
        assert((m2.row)(DraftBuf::Q, i) == draft_query(
            k,
            s,
            li,
            after.offset + i,
            (m1.row)(DraftBuf::X, i),
        ));
        assert((m4.row)(DraftBuf::Resid, i) == (k.plus)(
            (m3.row)(DraftBuf::X, i),
            (k.mat)(DraftBank::O(li), (m3.row)(DraftBuf::OAttn, i)),
        ));
    }
    assert forall|b: DraftBuf, j: int| not_of(b, li) implies #[trigger] (r.row)(b, j) == (m.row)(
        b,
        j,
    ) by {
        assert((m4.row)(b, j) == (m3.row)(b, j));
        assert((m3.row)(b, j) == (m2.row)(b, j));
        assert((m2.row)(b, j) == (m1.row)(b, j));
        assert((m1.row)(b, j) == (m.row)(b, j));
    }
}

proof fn lemma_cache_kept<V>(
    a: DraftMem<V>,
    b: DraftMem<V>,
    li: usize,
    c: DraftCache,
    key: spec_fn(int) -> V,
    val: spec_fn(int) -> V,
)
    requires
        cache_holds(a, li, c, key, val),
        forall|j: int| #[trigger] (b.row)(DraftBuf::CacheKeys(li), j) == (a.row)(
            DraftBuf::CacheKeys(li),
            j,
        ),
        forall|j: int| #[trigger] (b.row)(DraftBuf::CacheValues(li), j) == (a.row)(
            DraftBuf::CacheValues(li),
            j,
        ),
    ensures
        cache_holds(b, li, c, key, val),
{
    assert forall|j: int| 0 <= j < c.len implies #[trigger] row_holds(
        b,
        li,
        c.offset - c.len,
        key,
        val,
        j,
    ) by {
        assert(row_holds(a, li, c.offset - c.len, key, val, j));
    }
}

/// A draft pass begins with the embeddings of its block, row by row.
pub proof fn draft_blocks_begin_with_their_tokens<V>(
    k: DraftKernels<V>,
    s: DraftShape,
    m: DraftMem<V>,
    block: Seq<u32>,
)
    requires
        0 < s.h,
        block.len() * s.h <= usize::MAX,
        forall|i: int| 0 <= i < block.len() ==> (#[trigger] block[i]) * s.h <= usize::MAX,
    ensures
        ({
            let r = run(k, s, m, draft::embed_ops(block, s.h as int));
            &&& framed(m, r, |b: DraftBuf| b == DraftBuf::X)
            &&& forall|i: int|
                0 <= i < block.len() ==> #[trigger] (r.row)(DraftBuf::X, i) == (k.embed)(block[i])
        }),
    decreases block.len(),
{
    let h = s.h as int;
    let all = draft::embed_ops(block, h);
    if block.len() == 0 {
        assert(all =~= Seq::<DraftOp>::empty());
        lemma_none(k, s, m);
    } else {
        let i = block.len() - 1;
        let fewer = block.drop_last();
        lemma_row_less(i, block.len() as int, h);
        assert forall|j: int| 0 <= j < fewer.len() implies (#[trigger] fewer[j]) * s.h
            <= usize::MAX by {
            assert(block[j] * s.h <= usize::MAX);
        }
        draft_blocks_begin_with_their_tokens(k, s, m, fewer);
        let before = draft::embed_ops(fewer, h);
        let op = all[i];
        assert(all =~= before + seq![op]);
        lemma_cat(k, s, m, before, seq![op]);
        let r = run(k, s, m, before);
        lemma_one(k, s, r, op);
        let t = block[i] as int;
        assert(block[i] * s.h <= usize::MAX);
        assert(0 <= t * h && h * t == t * h && 0 <= i * h) by (nonlinear_arith)
            requires
                0 <= t,
                0 <= i,
                0 < h,
        ;
        lemma_div_multiples_vanish(t, h);
        let u = exec(k, s, r, op);
        assert forall|j: int| 0 <= j < block.len() implies #[trigger] (u.row)(DraftBuf::X, j) == (
        k.embed)(block[j]) by {
            assert(j * h == i * h ==> j == i) by (nonlinear_arith)
                requires
                    0 < h,
            ;
            if j < i {
                assert((r.row)(DraftBuf::X, j) == (k.embed)(fewer[j]));
            }
        }
    }
}

/// The token that a row of the block proposes.
pub open spec fn proposed<V>(k: DraftKernels<V>, s: DraftShape, x: V) -> u32 {
    (k.choice)((k.mat)(DraftBank::LmHead, (k.norm)(DraftNorm::Final, s.h as int, x)))
}

proof fn lemma_sample_ops(s: DraftShape, hot: bool, l: int)
    requires
        2 <= l,
    ensures
        draft::sample_ops(s, hot, l) == draft::sample_ops(s, hot, l - 1) + draft::sample_row(
            s,
            hot,
            l - 1,
        ),
{
}

/// Every row of the block but the first proposes a token, and the proposals come in the
/// order of the rows.
pub proof fn draft_rows_propose_in_order<V>(
    k: DraftKernels<V>,
    s: DraftShape,
    m: DraftMem<V>,
    hot: bool,
    l: int,
)
    requires
        sound(s, 0),
        1 <= l,
        l * s.h <= usize::MAX,
    ensures
        ({
            let r = run(k, s, m, draft::sample_ops(s, hot, l));
            &&& forall|i: int| #[trigger] (r.row)(DraftBuf::X, i) == (m.row)(DraftBuf::X, i)
            &&& forall|i: int| #[trigger]
                (r.token)(i) == (if 0 <= i < l - 1 {
                    proposed(k, s, (m.row)(DraftBuf::X, i + 1))
                } else {
                    (m.token)(i)
                })
        }),
    decreases l,
{
    if l <= 1 {
        lemma_none(k, s, m);
    } else {
        let t = l - 1;
        lemma_sample_ops(s, hot, l);
        lemma_row_less(t, l, s.h as int);
        draft_rows_propose_in_order(k, s, m, hot, l - 1);
        let fewer = draft::sample_ops(s, hot, t);
        lemma_cat(k, s, m, fewer, draft::sample_row(s, hot, t));
        let r = run(k, s, m, fewer);
        let h = s.h as int;
        lemma_low(h);
        let n = kv_slot::low32(h);
        let wall = draft_plan::wall(s.hazard);
        let a = DraftOp::Copy {
            src: DraftBuf::X,
            from: (t * s.h) as usize,
            dst: DraftBuf::RowX,
            to: 0,
            n,
        };
        let b = DraftOp::Rms {
            src: DraftBuf::RowX,
            weight: DraftNorm::Final,
            dst: DraftBuf::XNormed,
            rows: 1,
            n,
        };
        let g = DraftOp::Gemv {
            bank: DraftBank::LmHead,
            src: DraftBuf::XNormed,
            dst: DraftBuf::Logits,
        };
        let head = if hot {
            seq![g]
        } else {
            seq![DraftOp::Synchronize, DraftOp::HostHead]
        };
        let z = DraftOp::Argmax { index: (t - 1) as usize };
        lemma_cat(k, s, r, seq![a, b] + wall + head, seq![z]);
        lemma_cat(k, s, r, seq![a, b] + wall, head);
        lemma_cat(k, s, r, seq![a, b], wall);
        lemma_two(k, s, r, a, b);
        let m1 = exec(k, s, r, a);
        let m2 = exec(k, s, m1, b);
        lemma_wall(k, s, m2, s.hazard);
        lemma_one(k, s, m2, g);
        lemma_two(k, s, m2, DraftOp::Synchronize, DraftOp::HostHead);
        let m3 = run(k, s, m2, head);
        lemma_one(k, s, m3, z);
        lemma_out(k, s, r, DraftBuf::X, t, DraftBuf::RowX, n);
        assert((r.row)(DraftBuf::X, t) == (m.row)(DraftBuf::X, t));
        let u = exec(k, s, m3, z);
        assert(t <= usize::MAX) by (nonlinear_arith)
            requires
                t * h <= usize::MAX,
                1 <= h,
                0 <= t,
        ;
        assert forall|j: int| #[trigger]
            (u.token)(j) == (if 0 <= j < l - 1 {
                proposed(k, s, (m.row)(DraftBuf::X, j + 1))
            } else {
                (m.token)(j)
            }) by {
            assert((r.token)(j) == (if 0 <= j < l - 2 {
                proposed(k, s, (m.row)(DraftBuf::X, j + 1))
            } else {
                (m.token)(j)
            }));
        }
    }
}

/// What the rows of a block, the context and the caches hold in a draft model: row `i`
/// before layer `li`, and every layer's keys and values by position.
#[verifier::reject_recursive_types(V)]
pub struct DraftModel<V> {
    pub x: spec_fn(int, int) -> V,
    pub key: spec_fn(int) -> spec_fn(int) -> V,
    pub val: spec_fn(int) -> spec_fn(int) -> V,
}

/// Row `i` goes through layer `li`: it puts its key and its value at its position, and
/// becomes what the layer makes of it.
pub open spec fn goes_through<V>(
    k: DraftKernels<V>,
    s: DraftShape,
    d: DFlashGpuDraft,
    ctx_t: int,
    md: DraftModel<V>,
    li: int,
    i: int,
) -> bool {
    let w = d.cfg.window_of(li);
    let a = draft_plan::cache_after(w, d.caches@[li], ctx_t);
    let c = block_in(k, s, li as usize, (md.x)(li, i));
    &&& (md.key)(li)(a.offset + i) == draft_key(k, s, li as usize, a.offset + i, c)
    &&& (md.val)(li)(a.offset + i) == draft_value(k, li as usize, c)
    &&& (md.x)(li + 1, i) == draft_layer_value(
        k,
        s,
        li as usize,
        a.offset - a.len,
        w,
        a.offset + i,
        (md.x)(li, i),
        (md.key)(li),
        (md.val)(li),
    )
}

/// A layer can take its context and the block, its cache holds the model's keys and
/// values, and so do the context rows that it takes.
pub open spec fn layer_prepared<V>(
    k: DraftKernels<V>,
    s: DraftShape,
    d: DFlashGpuDraft,
    m: DraftMem<V>,
    md: DraftModel<V>,
    h_ctx_len: int,
    ctx_t: int,
    l: int,
    li: int,
) -> bool {
    let w = d.cfg.window_of(li);
    let c = d.caches@[li];
    let kept = draft_plan::cache_kept(w, c);
    let t = draft_plan::ctx_taken(w, ctx_t);
    &&& c.wf()
    &&& w matches Some(n) ==> n <= u32::MAX
    &&& c.len + ctx_t + l < 0x3FFF_FFFF
    &&& c.offset + ctx_t + l < 0x3FFF_FFFF
    &&& (c.len + ctx_t + l) * s.kv_dim() <= usize::MAX
    &&& cache_holds(m, li as usize, kept, (md.key)(li), (md.val)(li))
    &&& forall|i: int|
        0 <= i < t ==> #[trigger] context_makes(
            k,
            s,
            m,
            li as usize,
            (md.key)(li),
            (md.val)(li),
            kept.offset as int,
            h_ctx_len - t,
            i,
        )
}

/// The block and the caches once the first `n` layers ran.
pub open spec fn layers_done<V>(
    d: DFlashGpuDraft,
    r: DraftMem<V>,
    md: DraftModel<V>,
    ctx_t: int,
    l: int,
    n: int,
) -> bool {
    &&& forall|i: int| 0 <= i < l ==> #[trigger] (r.row)(DraftBuf::X, i) == (md.x)(n, i)
    &&& forall|li: int| 0 <= li < n ==> #[trigger] layer_done(d, r, md, ctx_t, li)
}

/// The cache of a layer after the pass holds the model's keys and values.
pub open spec fn layer_done<V>(
    d: DFlashGpuDraft,
    r: DraftMem<V>,
    md: DraftModel<V>,
    ctx_t: int,
    li: int,
) -> bool {
    cache_holds(
        r,
        li as usize,
        draft_plan::cache_after(d.cfg.window_of(li), d.caches@[li], ctx_t),
        (md.key)(li),
        (md.val)(li),
    )
}

proof fn lemma_draft_layers(
    d: DFlashGpuDraft,
    s: DraftShape,
    l: int,
    h_ctx_len: int,
    ctx_t: int,
    n: int,
)
    ensures
        n <= 0 ==> draft::draft_layers(d, s, l, h_ctx_len, ctx_t, n) == Seq::<DraftOp>::empty(),
        0 < n ==> draft::draft_layers(d, s, l, h_ctx_len, ctx_t, n) == draft::draft_layers(
            d,
            s,
            l,
            h_ctx_len,
            ctx_t,
            n - 1,
        ) + draft_plan::layer_ops(
            s,
            (n - 1) as usize,
            l,
            h_ctx_len,
            ctx_t,
            d.cfg.window_of(n - 1),
            d.caches@[n - 1],
        ),
{
}

proof fn lemma_prepared<V>(
    k: DraftKernels<V>,
    s: DraftShape,
    d: DFlashGpuDraft,
    m: DraftMem<V>,
    r: DraftMem<V>,
    md: DraftModel<V>,
    h_ctx_len: int,
    ctx_t: int,
    l: int,
    li: int,
)
    requires
        layer_prepared(k, s, d, m, md, h_ctx_len, ctx_t, l, li),
        forall|j: int| #[trigger] (r.row)(DraftBuf::Context, j) == (m.row)(DraftBuf::Context, j),
        forall|j: int| #[trigger] (r.row)(DraftBuf::CacheKeys(li as usize), j) == (m.row)(
            DraftBuf::CacheKeys(li as usize),
            j,
        ),
        forall|j: int| #[trigger] (r.row)(DraftBuf::CacheValues(li as usize), j) == (m.row)(
            DraftBuf::CacheValues(li as usize),
            j,
        ),
    ensures
        layer_prepared(k, s, d, r, md, h_ctx_len, ctx_t, l, li),
{
    let w = d.cfg.window_of(li);
    let kept = draft_plan::cache_kept(w, d.caches@[li]);
    let t = draft_plan::ctx_taken(w, ctx_t);
    lemma_cache_kept(m, r, li as usize, kept, (md.key)(li), (md.val)(li));
    assert forall|i: int| 0 <= i < t implies #[trigger] context_makes(
        k,
        s,
        r,
        li as usize,
        (md.key)(li),
        (md.val)(li),
        kept.offset as int,
        h_ctx_len - t,
        i,
    ) by {
        assert(context_makes(
            k,
            s,
            m,
            li as usize,
            (md.key)(li),
            (md.val)(li),
            kept.offset as int,
            h_ctx_len - t,
            i,
        ));
    }
}

/// The layers of a draft pass make of the block what the draft model makes of it, layer by
/// layer, and leave the model's keys and values of the context in their caches.
#[verifier::spinoff_prover]
#[verifier::rlimit(40)]
pub proof fn draft_layers_compute_the_model<V>(
    k: DraftKernels<V>,
    s: DraftShape,
    d: DFlashGpuDraft,
    m: DraftMem<V>,
    md: DraftModel<V>,
    h_ctx_len: int,
    ctx_t: int,
    l: int,
    n: int,
)
    requires
        sound(s, l),
        0 <= l,
        0 <= n <= d.caches@.len(),
        d.caches@.len() <= usize::MAX,
        0 <= ctx_t <= h_ctx_len,
        h_ctx_len * s.h <= usize::MAX,
        s.addressable(l),
        forall|i: int| 0 <= i < l ==> #[trigger] (m.row)(DraftBuf::X, i) == (md.x)(0, i),
        forall|li: int|
            0 <= li < n ==> #[trigger] layer_prepared(k, s, d, m, md, h_ctx_len, ctx_t, l, li),
        forall|li: int, i: int|
            0 <= li < n && 0 <= i < l ==> #[trigger] goes_through(k, s, d, ctx_t, md, li, i),
    ensures
        ({
            let r = run(k, s, m, draft::draft_layers(d, s, l, h_ctx_len, ctx_t, n));
            &&& r.token == m.token
            &&& layers_done(d, r, md, ctx_t, l, n)
            &&& forall|j: int| #[trigger] (r.row)(DraftBuf::Context, j) == (m.row)(
                DraftBuf::Context,
                j,
            )
            &&& forall|li: usize, j: int|
                n <= li ==> #[trigger] (r.row)(DraftBuf::CacheKeys(li), j) == (m.row)(
                    DraftBuf::CacheKeys(li),
                    j,
                )
            &&& forall|li: usize, j: int|
                n <= li ==> #[trigger] (r.row)(DraftBuf::CacheValues(li), j) == (m.row)(
                    DraftBuf::CacheValues(li),
                    j,
                )
        }),
    decreases n,
{
    lemma_draft_layers(d, s, l, h_ctx_len, ctx_t, n);
    if n <= 0 {
        lemma_none(k, s, m);
    } else {
        let p = n - 1;
        let li = p as usize;
        let w = d.cfg.window_of(p);
        let c = d.caches@[p];
        draft_layers_compute_the_model(k, s, d, m, md, h_ctx_len, ctx_t, l, p);
        let before = draft::draft_layers(d, s, l, h_ctx_len, ctx_t, p);
        let ops = draft_plan::layer_ops(s, li, l, h_ctx_len, ctx_t, w, c);
        lemma_cat(k, s, m, before, ops);
        let r = run(k, s, m, before);
        assert(layer_prepared(k, s, d, m, md, h_ctx_len, ctx_t, l, p));
        lemma_prepared(k, s, d, m, r, md, h_ctx_len, ctx_t, l, p);
        let a = draft_plan::cache_after(w, c, ctx_t);
        assert forall|i: int| 0 <= i < l implies #[trigger] block_makes(
            k,
            s,
            r,
            li,
            (md.key)(p),
            (md.val)(p),
            a.offset as int,
            i,
        ) by {
            assert(goes_through(k, s, d, ctx_t, md, p, i));
            assert((r.row)(DraftBuf::X, i) == (md.x)(p, i));
        }
        a_draft_layer_computes_its_rows(
            k,
            s,
            r,
            li,
            l,
            h_ctx_len,
            ctx_t,
            w,
            c,
            (md.key)(p),
            (md.val)(p),
        );
        let u = run(k, s, r, ops);
        assert forall|i: int| 0 <= i < l implies #[trigger] (u.row)(DraftBuf::X, i) == (md.x)(
            n,
            i,
        ) by {
            assert(goes_through(k, s, d, ctx_t, md, p, i));
            assert((r.row)(DraftBuf::X, i) == (md.x)(p, i));
        }
        assert forall|lj: int| 0 <= lj < n implies #[trigger] layer_done(d, u, md, ctx_t, lj) by {
            if lj < p {
                assert(layer_done(d, r, md, ctx_t, lj));
                assert(lj as usize != li);
                lemma_cache_kept(
                    r,
                    u,
                    lj as usize,
                    draft_plan::cache_after(d.cfg.window_of(lj), d.caches@[lj], ctx_t),
                    (md.key)(lj),
                    (md.val)(lj),
                );
            }
        }
    }
}

/// A draft pass proposes what the draft model proposes: token `i` is chosen from what all
/// layers make of row `i + 1` of the block, whose rows began as the embeddings of the
/// block's tokens.
#[verifier::spinoff_prover]
#[verifier::rlimit(40)]
pub proof fn drafts_compute_the_model<V>(
    k: DraftKernels<V>,
    d: DFlashGpuDraft,
    hazard: bool,
    m: DraftMem<V>,
    md: DraftModel<V>,
    block: Seq<u32>,
    h_ctx_len: int,
    ctx_t: int,
)
    requires
        ({
            let s = d.shape(hazard);
            let l = block.len() as int;
            &&& sound(s, l)
            &&& s.addressable(l)
            &&& 1 <= l
            &&& 0 <= ctx_t <= h_ctx_len
            &&& h_ctx_len * s.h <= usize::MAX
            &&& forall|i: int| 0 <= i < l ==> (#[trigger] block[i]) * s.h <= usize::MAX
            &&& forall|i: int| 0 <= i < l ==> #[trigger] (md.x)(0, i) == (k.embed)(block[i])
            &&& forall|li: int|
                0 <= li < d.caches@.len() ==> #[trigger] layer_prepared(
                    k,
                    s,
                    d,
                    m,
                    md,
                    h_ctx_len,
                    ctx_t,
                    l,
                    li,
                )
            &&& forall|li: int, i: int|
                0 <= li < d.caches@.len() && 0 <= i < l ==> #[trigger] goes_through(
                    k,
                    s,
                    d,
                    ctx_t,
                    md,
                    li,
                    i,
                )
        }),
        d.caches@.len() <= usize::MAX,
    ensures
        ({
            let s = d.shape(hazard);
            let r = run(k, s, m, draft::propose_ops(d, hazard, block, h_ctx_len, ctx_t));
            forall|i: int|
                0 <= i < block.len() - 1 ==> #[trigger] (r.token)(i) == proposed(
                    k,
                    s,
                    (md.x)(d.caches@.len() as int, i + 1),
                )
        }),
{
    let s = d.shape(hazard);
    let l = block.len() as int;
    let n = d.caches@.len() as int;
    let a = draft::embed_ops(block, d.cfg.hidden_size as int);
    let b = draft::draft_layers(d, s, l, h_ctx_len, ctx_t, n);
    let c = draft::sample_ops(s, d.lm_head_hot, l);
    let e = seq![DraftOp::Synchronize];
    lemma_cat(k, s, m, a + b + c, e);
    lemma_cat(k, s, m, a + b, c);
    lemma_cat(k, s, m, a, b);
    draft_blocks_begin_with_their_tokens(k, s, m, block);
    let m1 = run(k, s, m, a);
    assert forall|li: int| 0 <= li < n implies #[trigger] layer_prepared(
        k,
        s,
        d,
        m1,
        md,
        h_ctx_len,
        ctx_t,
        l,
        li,
    ) by {
        assert(layer_prepared(k, s, d, m, md, h_ctx_len, ctx_t, l, li));
        lemma_prepared(k, s, d, m, m1, md, h_ctx_len, ctx_t, l, li);
    }
    assert forall|i: int| 0 <= i < l implies #[trigger] (m1.row)(DraftBuf::X, i) == (md.x)(0, i) by {
        assert((m1.row)(DraftBuf::X, i) == (k.embed)(block[i]));
    }
    draft_layers_compute_the_model(k, s, d, m1, md, h_ctx_len, ctx_t, l, n);
    let m2 = run(k, s, m1, b);
    draft_rows_propose_in_order(k, s, m2, d.lm_head_hot, l);
    let m3 = run(k, s, m2, c);
    lemma_one(k, s, m3, DraftOp::Synchronize);
    assert forall|i: int| 0 <= i < l - 1 implies #[trigger] (m3.token)(i) == proposed(
        k,
        s,
        (md.x)(n, i + 1),
    ) by {
        assert((m2.row)(DraftBuf::X, i + 1) == (md.x)(n, i + 1));
    }
}

} // verus!
