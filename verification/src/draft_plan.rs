//! The command sequence of one draft layer over a block of tokens.

use crate::dflash::DraftCache;
use crate::error;
use crate::error::{Error, Result};
use crate::kv_slot;
use vstd::prelude::*;
use vstd::string::*;

verus! {

/// Buffers of a draft pass.
#[derive(Clone, Copy, Debug, PartialEq, Eq, Structural)]
pub enum DraftBuf {
    /// The context rows of the conditioner.
    Context,
    RowX,
    RowY,
    X,
    XNormed,
    Resid,
    Q,
    K,
    V,
    OAttn,
    AttnFlat,
    KeysFull,
    ValuesFull,
    Gate,
    Up,
    Mid,
    Logits,
    CacheKeys(usize),
    CacheValues(usize),
}

/// Weight banks of a draft layer.
#[derive(Clone, Copy, Debug, PartialEq, Eq, Structural)]
pub enum DraftBank {
    Q(usize),
    K(usize),
    V(usize),
    O(usize),
    Gate(usize),
    Up(usize),
    Down(usize),
    LmHead,
}

/// Norm weights of a draft layer.
#[derive(Clone, Copy, Debug, PartialEq, Eq, Structural)]
pub enum DraftNorm {
    Input(usize),
    PostAttn(usize),
    QHead(usize),
    KHead(usize),
    Final,
}

/// One device command of a draft pass.
#[derive(Clone, Copy, Debug, PartialEq, Eq, Structural)]
pub enum DraftOp {
    Barrier,
    Synchronize,
    Copy { src: DraftBuf, from: usize, dst: DraftBuf, to: usize, n: u32 },
    Gemv { bank: DraftBank, src: DraftBuf, dst: DraftBuf },
    Rms { src: DraftBuf, weight: DraftNorm, dst: DraftBuf, rows: u32, n: u32 },
    /// Head norm and rotary embedding in place, from position `pos` on.
    NormRope { buf: DraftBuf, weight: DraftNorm, rows: u32, heads: u32, dim: u32, pos: u32 },
    Attend { layer: usize, rows: u32, tkv: u32, window: u32, q_pos: u32, kv_pos: u32 },
    Add { dst: DraftBuf, src: DraftBuf, n: u32 },
    Silu { n: u32 },
    /// Write the scaled embedding row that begins at float `start` to float `at`
    /// of the block's rows.
    EmbedRow { start: usize, at: usize },
    /// The vocabulary projection on the host.
    HostHead,
    /// Softcap and argmax of the logits, as token `index` of the proposal.
    Argmax { index: usize },
}

/// A barrier where one is needed.
pub open spec fn wall(need: bool) -> Seq<DraftOp> {
    if need {
        seq![DraftOp::Barrier]
    } else {
        seq![]
    }
}

/// `f(0)`, `f(1)` and so on, `n` of them, one behind the other.
pub open spec fn repeat(f: spec_fn(int) -> Seq<DraftOp>, n: int) -> Seq<DraftOp>
    decreases n,
{
    if n <= 0 {
        seq![]
    } else {
        repeat(f, n - 1) + f(n - 1)
    }
}

/// One more element of a repetition.
pub proof fn lemma_repeat(q: Seq<DraftOp>, f: spec_fn(int) -> Seq<DraftOp>, n: int)
    requires
        0 <= n,
    ensures
        q + repeat(f, n) + f(n) == q + repeat(f, n + 1),
        q + repeat(f, 0) == q,
{
    assert(q + repeat(f, n) + f(n) =~= q + (repeat(f, n) + f(n)));
    assert(q + repeat(f, 0) =~= q);
}

/// Concatenation may be bracketed from the left.
pub proof fn lemma_assoc(q: Seq<DraftOp>, a: Seq<DraftOp>, b: Seq<DraftOp>)
    ensures
        q + a + b == q + (a + b),
{
    assert(q + a + b =~= q + (a + b));
}

/// Shapes of a draft pass.
#[derive(Clone, Copy, Debug, PartialEq, Eq, Structural)]
pub struct DraftShape {
    pub h: usize,
    pub hq: usize,
    pub hkv: usize,
    pub d: usize,
    pub inter: usize,
    pub hazard: bool,
}

impl DraftShape {
    /// Width of the queries.
    pub open spec fn q_dim(self) -> int {
        self.hq * self.d
    }

    /// Width of the keys.
    pub open spec fn kv_dim(self) -> int {
        self.hkv * self.d
    }

    /// Offsets into `rows` rows of every buffer can be computed.
    pub open spec fn addressable(self, rows: int) -> bool {
        &&& self.q_dim() <= usize::MAX
        &&& self.kv_dim() <= usize::MAX
        &&& rows * self.h <= usize::MAX
        &&& rows * self.q_dim() <= usize::MAX
        &&& rows * self.kv_dim() <= usize::MAX
    }
}

/// Offsets of rows fit where the end of the last row does.
pub proof fn lemma_row_bound(i: int, rows: int, width: int)
    requires
        0 <= i <= rows,
        0 <= width,
        rows * width <= usize::MAX,
    ensures
        0 <= i * width <= usize::MAX,
{
    assert(0 <= i * width <= rows * width) by (nonlinear_arith)
        requires
            0 <= i <= rows,
            0 <= width,
    ;
}

/// A matrix applied to row `i` of one buffer, into row `i` of another.
pub open spec fn gemv_row(
    hazard: bool,
    bank: DraftBank,
    src: DraftBuf,
    dst: DraftBuf,
    cols: int,
    rows: int,
    x_stride: int,
    y_stride: int,
    i: int,
) -> Seq<DraftOp> {
    seq![
        DraftOp::Copy {
            src,
            from: (i * x_stride) as usize,
            dst: DraftBuf::RowX,
            to: 0,
            n: kv_slot::low32(cols),
        },
    ] + wall(hazard) + seq![DraftOp::Gemv { bank, src: DraftBuf::RowX, dst: DraftBuf::RowY }]
        + wall(hazard) + seq![
        DraftOp::Copy {
            src: DraftBuf::RowY,
            from: 0,
            dst,
            to: (i * y_stride) as usize,
            n: kv_slot::low32(rows),
        },
    ]
}

/// The same for `t` rows.
pub open spec fn gemv_rows_ops(
    hazard: bool,
    bank: DraftBank,
    src: DraftBuf,
    dst: DraftBuf,
    cols: int,
    rows: int,
    x_stride: int,
    y_stride: int,
    t: int,
) -> Seq<DraftOp> {
    repeat(|i: int| gemv_row(hazard, bank, src, dst, cols, rows, x_stride, y_stride, i), t)
}

/// Queues a barrier where one is needed.
pub fn push_wall(q: &mut Vec<DraftOp>, need: bool)
    ensures
        final(q)@ == old(q)@ + wall(need),
{
    if need {
        q.push(DraftOp::Barrier);
    }
}

/// Applies a matrix of `rows` by `cols` to `t` rows.
pub fn gemv_rows(
    q: &mut Vec<DraftOp>,
    hazard: bool,
    bank: DraftBank,
    src: DraftBuf,
    dst: DraftBuf,
    cols: usize,
    rows: usize,
    t: usize,
    x_stride: usize,
    y_stride: usize,
) -> (r: Result<()>)
    requires
        t * x_stride <= usize::MAX,
        t * y_stride <= usize::MAX,
    ensures
        x_stride < cols || y_stride < rows ==> final(q)@ == old(q)@ && error::fails_with(
            r,
            error::config_error("gemv_rows: stride too small"@),
        ),
        x_stride >= cols && y_stride >= rows ==> r is Ok && final(q)@ == old(q)@ + gemv_rows_ops(
            hazard,
            bank,
            src,
            dst,
            cols as int,
            rows as int,
            x_stride as int,
            y_stride as int,
            t as int,
        ),
{
    if x_stride < cols || y_stride < rows {
        return Err(Error::Config(String::from_str("gemv_rows: stride too small")));
    }
    let ghost f = |i: int|
        gemv_row(
            hazard,
            bank,
            src,
            dst,
            cols as int,
            rows as int,
            x_stride as int,
            y_stride as int,
            i,
        );
    proof {
        lemma_repeat(q@, f, 0);
    }
    let mut i: usize = 0;
    while i < t
        invariant
            i <= t,
            t * x_stride <= usize::MAX,
            t * y_stride <= usize::MAX,
            f == (|i: int|
                gemv_row(
                    hazard,
                    bank,
                    src,
                    dst,
                    cols as int,
                    rows as int,
                    x_stride as int,
                    y_stride as int,
                    i,
                )),
            q@ == old(q)@ + repeat(f, i as int),
        decreases t - i,
    {
        let ghost before = q@;
        proof {
            lemma_row_bound(i as int, t as int, x_stride as int);
            lemma_row_bound(i as int, t as int, y_stride as int);
            lemma_repeat(old(q)@, f, i as int);
        }
        q.push(
            DraftOp::Copy {
                src,
                from: i * x_stride,
                dst: DraftBuf::RowX,
                to: 0,
                n: kv_slot::to_u32(cols),
            },
        );
        push_wall(q, hazard);
        q.push(DraftOp::Gemv { bank, src: DraftBuf::RowX, dst: DraftBuf::RowY });
        push_wall(q, hazard);
        q.push(
            DraftOp::Copy {
                src: DraftBuf::RowY,
                from: 0,
                dst,
                to: i * y_stride,
                n: kv_slot::to_u32(rows),
            },
        );
        assert(q@ =~= before + f(i as int));
        i = i + 1;
    }
    Ok(())
}

/// Keys and values of context row `i`, from row `skip + i` of the context.
pub open spec fn ctx_row(s: DraftShape, li: usize, skip: int, i: int) -> Seq<DraftOp> {
    seq![
        DraftOp::Copy {
            src: DraftBuf::Context,
            from: ((skip + i) * s.h) as usize,
            dst: DraftBuf::RowX,
            to: 0,
            n: kv_slot::low32(s.h as int),
        },
    ] + wall(s.hazard) + seq![
        DraftOp::Gemv { bank: DraftBank::K(li), src: DraftBuf::RowX, dst: DraftBuf::RowY },
    ] + wall(s.hazard) + seq![
        DraftOp::Copy {
            src: DraftBuf::RowY,
            from: 0,
            dst: DraftBuf::K,
            to: (i * s.kv_dim()) as usize,
            n: kv_slot::low32(s.kv_dim()),
        },
        DraftOp::Gemv { bank: DraftBank::V(li), src: DraftBuf::RowX, dst: DraftBuf::RowY },
    ] + wall(s.hazard) + seq![
        DraftOp::Copy {
            src: DraftBuf::RowY,
            from: 0,
            dst: DraftBuf::V,
            to: (i * s.kv_dim()) as usize,
            n: kv_slot::low32(s.kv_dim()),
        },
    ]
}

/// Moving key and value row `i` from one pair of buffers to row `at + i` of
/// another.
pub open spec fn move_row(
    s: DraftShape,
    ks: DraftBuf,
    vs: DraftBuf,
    kd: DraftBuf,
    vd: DraftBuf,
    at: int,
    i: int,
) -> Seq<DraftOp> {
    let n = kv_slot::low32(s.kv_dim());
    let from = (i * s.kv_dim()) as usize;
    let to = ((at + i) * s.kv_dim()) as usize;
    seq![
        DraftOp::Copy { src: ks, from, dst: DraftBuf::RowY, to: 0, n },
        DraftOp::Copy { src: DraftBuf::RowY, from: 0, dst: kd, to, n },
        DraftOp::Copy { src: vs, from, dst: DraftBuf::RowY, to: 0, n },
        DraftOp::Copy { src: DraftBuf::RowY, from: 0, dst: vd, to, n },
    ]
}

/// Moving `n` key and value rows.
pub open spec fn move_rows(
    s: DraftShape,
    ks: DraftBuf,
    vs: DraftBuf,
    kd: DraftBuf,
    vd: DraftBuf,
    at: int,
    n: int,
) -> Seq<DraftOp> {
    repeat(|i: int| move_row(s, ks, vs, kd, vd, at, i), n)
}

fn push_move_rows(
    q: &mut Vec<DraftOp>,
    s: DraftShape,
    ks: DraftBuf,
    vs: DraftBuf,
    kd: DraftBuf,
    vd: DraftBuf,
    at: usize,
    n: usize,
)
    requires
        s.kv_dim() <= usize::MAX,
        at + n <= usize::MAX,
        (at + n) * s.kv_dim() <= usize::MAX,
    ensures
        final(q)@ == old(q)@ + move_rows(s, ks, vs, kd, vd, at as int, n as int),
{
    let w: usize = s.hkv * s.d;
    let len: u32 = kv_slot::to_u32(w);
    let ghost f = |i: int| move_row(s, ks, vs, kd, vd, at as int, i);
    proof {
        lemma_repeat(q@, f, 0);
    }
    let mut i: usize = 0;
    while i < n
        invariant
            i <= n,
            w == s.kv_dim(),
            len == kv_slot::low32(w as int),
            at + n <= usize::MAX,
            (at + n) * w <= usize::MAX,
            f == (|i: int| move_row(s, ks, vs, kd, vd, at as int, i)),
            q@ == old(q)@ + repeat(f, i as int),
        decreases n - i,
    {
        let ghost before = q@;
        proof {
            lemma_row_bound(i as int, at + n, w as int);
            lemma_row_bound(at + i, at + n, w as int);
            lemma_repeat(old(q)@, f, i as int);
        }
        let from: usize = i * w;
        let to: usize = (at + i) * w;
        q.push(DraftOp::Copy { src: ks, from, dst: DraftBuf::RowY, to: 0, n: len });
        q.push(DraftOp::Copy { src: DraftBuf::RowY, from: 0, dst: kd, to, n: len });
        q.push(DraftOp::Copy { src: vs, from, dst: DraftBuf::RowY, to: 0, n: len });
        q.push(DraftOp::Copy { src: DraftBuf::RowY, from: 0, dst: vd, to, n: len });
        assert(q@ =~= before + f(i as int));
        i = i + 1;
    }
}

/// Context rows into the cache.
pub open spec fn ctx_ops(
    s: DraftShape,
    li: usize,
    skip: int,
    ctx_t: int,
    cache: DraftCache,
) -> Seq<DraftOp> {
    if ctx_t <= 0 {
        seq![]
    } else {
        repeat(|i: int| ctx_row(s, li, skip, i), ctx_t) + seq![
            DraftOp::NormRope {
                buf: DraftBuf::K,
                weight: DraftNorm::KHead(li),
                rows: kv_slot::low32(ctx_t),
                heads: kv_slot::low32(s.hkv as int),
                dim: kv_slot::low32(s.d as int),
                pos: kv_slot::low32(cache.offset as int),
            },
        ] + move_rows(
            s,
            DraftBuf::K,
            DraftBuf::V,
            DraftBuf::CacheKeys(li),
            DraftBuf::CacheValues(li),
            cache.len as int,
            ctx_t,
        )
    }
}

fn push_ctx_rows(q: &mut Vec<DraftOp>, s: DraftShape, li: usize, skip: usize, ctx_t: usize)
    requires
        s.kv_dim() <= usize::MAX,
        skip + ctx_t <= usize::MAX,
        (skip + ctx_t) * s.h <= usize::MAX,
        ctx_t * s.kv_dim() <= usize::MAX,
    ensures
        final(q)@ == old(q)@ + repeat(
            |i: int| ctx_row(s, li, skip as int, i),
            ctx_t as int,
        ),
{
    let w: usize = s.hkv * s.d;
    let len: u32 = kv_slot::to_u32(w);
    let h: u32 = kv_slot::to_u32(s.h);
    let ghost f = |i: int| ctx_row(s, li, skip as int, i);
    proof {
        lemma_repeat(q@, f, 0);
    }
    let mut i: usize = 0;
    while i < ctx_t
        invariant
            i <= ctx_t,
            w == s.kv_dim(),
            len == kv_slot::low32(w as int),
            h == kv_slot::low32(s.h as int),
            skip + ctx_t <= usize::MAX,
            (skip + ctx_t) * s.h <= usize::MAX,
            ctx_t * w <= usize::MAX,
            f == (|i: int| ctx_row(s, li, skip as int, i)),
            q@ == old(q)@ + repeat(f, i as int),
        decreases ctx_t - i,
    {
        let ghost before = q@;
        proof {
            lemma_row_bound(skip + i, skip + ctx_t, s.h as int);
            lemma_row_bound(i as int, ctx_t as int, w as int);
            lemma_repeat(old(q)@, f, i as int);
        }
        q.push(
            DraftOp::Copy {
                src: DraftBuf::Context,
                from: (skip + i) * s.h,
                dst: DraftBuf::RowX,
                to: 0,
                n: h,
            },
        );
        push_wall(q, s.hazard);
        q.push(
            DraftOp::Gemv { bank: DraftBank::K(li), src: DraftBuf::RowX, dst: DraftBuf::RowY },
        );
        push_wall(q, s.hazard);
        q.push(
            DraftOp::Copy {
                src: DraftBuf::RowY,
                from: 0,
                dst: DraftBuf::K,
                to: i * w,
                n: len,
            },
        );
        q.push(
            DraftOp::Gemv { bank: DraftBank::V(li), src: DraftBuf::RowX, dst: DraftBuf::RowY },
        );
        push_wall(q, s.hazard);
        q.push(
            DraftOp::Copy {
                src: DraftBuf::RowY,
                from: 0,
                dst: DraftBuf::V,
                to: i * w,
                n: len,
            },
        );
        assert(q@ =~= before + f(i as int));
        i = i + 1;
    }
}

fn push_ctx(
    q: &mut Vec<DraftOp>,
    s: DraftShape,
    li: usize,
    skip: usize,
    ctx_t: usize,
    cache: DraftCache,
)
    requires
        s.kv_dim() <= usize::MAX,
        skip + ctx_t <= usize::MAX,
        (skip + ctx_t) * s.h <= usize::MAX,
        cache.len + ctx_t <= usize::MAX,
        (cache.len + ctx_t) * s.kv_dim() <= usize::MAX,
    ensures
        final(q)@ == old(q)@ + ctx_ops(s, li, skip as int, ctx_t as int, cache),
{
    if ctx_t == 0 {
        assert(q@ =~= old(q)@ + ctx_ops(s, li, skip as int, ctx_t as int, cache));
        return ;
    }
    proof {
        lemma_row_bound(ctx_t as int, cache.len + ctx_t, s.kv_dim());
    }
    push_ctx_rows(q, s, li, skip, ctx_t);
    q.push(
        DraftOp::NormRope {
            buf: DraftBuf::K,
            weight: DraftNorm::KHead(li),
            rows: kv_slot::to_u32(ctx_t),
            heads: kv_slot::to_u32(s.hkv),
            dim: kv_slot::to_u32(s.d),
            pos: kv_slot::to_u32(cache.offset),
        },
    );
    push_move_rows(
        q,
        s,
        DraftBuf::K,
        DraftBuf::V,
        DraftBuf::CacheKeys(li),
        DraftBuf::CacheValues(li),
        cache.len,
        ctx_t,
    );
    assert(q@ =~= old(q)@ + ctx_ops(s, li, skip as int, ctx_t as int, cache));
}

/// Queries of the block.
pub open spec fn rows_q(s: DraftShape, li: usize, l: int) -> Seq<DraftOp> {
    gemv_rows_ops(
        s.hazard,
        DraftBank::Q(li),
        DraftBuf::XNormed,
        DraftBuf::Q,
        s.h as int,
        s.q_dim(),
        s.h as int,
        s.q_dim(),
        l,
    )
}

/// Keys of the block.
pub open spec fn rows_k(s: DraftShape, li: usize, l: int) -> Seq<DraftOp> {
    gemv_rows_ops(
        s.hazard,
        DraftBank::K(li),
        DraftBuf::XNormed,
        DraftBuf::K,
        s.h as int,
        s.kv_dim(),
        s.h as int,
        s.kv_dim(),
        l,
    )
}

/// Values of the block.
pub open spec fn rows_v(s: DraftShape, li: usize, l: int) -> Seq<DraftOp> {
    gemv_rows_ops(
        s.hazard,
        DraftBank::V(li),
        DraftBuf::XNormed,
        DraftBuf::V,
        s.h as int,
        s.kv_dim(),
        s.h as int,
        s.kv_dim(),
        l,
    )
}

/// Head norms and rotary embedding of the block's queries and keys; the values
/// stay as they are.
pub open spec fn rope_pair(s: DraftShape, li: usize, l: int, offset: int) -> Seq<DraftOp> {
    seq![
        DraftOp::NormRope {
            buf: DraftBuf::Q,
            weight: DraftNorm::QHead(li),
            rows: kv_slot::low32(l),
            heads: kv_slot::low32(s.hq as int),
            dim: kv_slot::low32(s.d as int),
            pos: kv_slot::low32(offset),
        },
        DraftOp::NormRope {
            buf: DraftBuf::K,
            weight: DraftNorm::KHead(li),
            rows: kv_slot::low32(l),
            heads: kv_slot::low32(s.hkv as int),
            dim: kv_slot::low32(s.d as int),
            pos: kv_slot::low32(offset),
        },
    ]
}

/// Queries, keys and values of the block.
pub open spec fn block_ops(s: DraftShape, li: usize, l: int, offset: int) -> Seq<DraftOp> {
    seq![
        DraftOp::Rms {
            src: DraftBuf::X,
            weight: DraftNorm::Input(li),
            dst: DraftBuf::XNormed,
            rows: kv_slot::low32(l),
            n: kv_slot::low32(s.h as int),
        },
    ] + wall(s.hazard) + rows_q(s, li, l) + rows_k(s, li, l) + rows_v(s, li, l) + rope_pair(
        s,
        li,
        l,
        offset,
    )
}

fn push_block(q: &mut Vec<DraftOp>, s: DraftShape, li: usize, l: usize, offset: usize)
    requires
        s.addressable(l as int),
    ensures
        final(q)@ == old(q)@ + block_ops(s, li, l as int, offset as int),
{
    let q_dim: usize = s.hq * s.d;
    let kv_dim: usize = s.hkv * s.d;
    q.push(
        DraftOp::Rms {
            src: DraftBuf::X,
            weight: DraftNorm::Input(li),
            dst: DraftBuf::XNormed,
            rows: kv_slot::to_u32(l),
            n: kv_slot::to_u32(s.h),
        },
    );
    push_wall(q, s.hazard);
    let _ = gemv_rows(
        q,
        s.hazard,
        DraftBank::Q(li),
        DraftBuf::XNormed,
        DraftBuf::Q,
        s.h,
        q_dim,
        l,
        s.h,
        q_dim,
    );
    let _ = gemv_rows(
        q,
        s.hazard,
        DraftBank::K(li),
        DraftBuf::XNormed,
        DraftBuf::K,
        s.h,
        kv_dim,
        l,
        s.h,
        kv_dim,
    );
    let _ = gemv_rows(
        q,
        s.hazard,
        DraftBank::V(li),
        DraftBuf::XNormed,
        DraftBuf::V,
        s.h,
        kv_dim,
        l,
        s.h,
        kv_dim,
    );
    q.push(
        DraftOp::NormRope {
            buf: DraftBuf::Q,
            weight: DraftNorm::QHead(li),
            rows: kv_slot::to_u32(l),
            heads: kv_slot::to_u32(s.hq),
            dim: kv_slot::to_u32(s.d),
            pos: kv_slot::to_u32(offset),
        },
    );
    q.push(
        DraftOp::NormRope {
            buf: DraftBuf::K,
            weight: DraftNorm::KHead(li),
            rows: kv_slot::to_u32(l),
            heads: kv_slot::to_u32(s.hkv),
            dim: kv_slot::to_u32(s.d),
            pos: kv_slot::to_u32(offset),
        },
    );
    proof {
        let rms = seq![
            DraftOp::Rms {
                src: DraftBuf::X,
                weight: DraftNorm::Input(li),
                dst: DraftBuf::XNormed,
                rows: kv_slot::low32(l as int),
                n: kv_slot::low32(s.h as int),
            },
        ];
        let w = wall(s.hazard);
        let a = rows_q(s, li, l as int);
        let b = rows_k(s, li, l as int);
        let c = rows_v(s, li, l as int);
        let ropes = rope_pair(s, li, l as int, offset as int);
        assert(old(q)@.push(rms[0]) =~= old(q)@ + rms);
        lemma_assoc(old(q)@, rms, w);
        lemma_assoc(old(q)@, rms + w, a);
        lemma_assoc(old(q)@, rms + w + a, b);
        lemma_assoc(old(q)@, rms + w + a + b, c);
        lemma_assoc(old(q)@, rms + w + a + b + c, ropes);
        assert(q@ =~= old(q)@ + (rms + w + a + b + c) + ropes);
    }
}

/// The window that attention is given: the layer's, or one that no position
/// leaves.
pub open spec fn attend_window(window: Option<usize>) -> u32 {
    match window {
        Some(w) => kv_slot::low32(w as int),
        None => 0x3FFF_FFFF,
    }
}

/// Attention over the cache followed by the block.
pub open spec fn attention_ops(
    s: DraftShape,
    li: usize,
    l: int,
    cache: DraftCache,
    window: Option<usize>,
) -> Seq<DraftOp> {
    move_rows(
        s,
        DraftBuf::CacheKeys(li),
        DraftBuf::CacheValues(li),
        DraftBuf::KeysFull,
        DraftBuf::ValuesFull,
        0,
        cache.len as int,
    ) + move_rows(
        s,
        DraftBuf::K,
        DraftBuf::V,
        DraftBuf::KeysFull,
        DraftBuf::ValuesFull,
        cache.len as int,
        l,
    ) + wall(s.hazard) + seq![
        DraftOp::Attend {
            layer: li,
            rows: kv_slot::low32(l),
            tkv: kv_slot::low32(cache.len + l),
            window: attend_window(window),
            q_pos: kv_slot::low32(cache.offset as int),
            kv_pos: kv_slot::low32(cache.offset - cache.len),
        },
    ] + wall(s.hazard)
}

fn push_attention(
    q: &mut Vec<DraftOp>,
    s: DraftShape,
    li: usize,
    l: usize,
    cache: DraftCache,
    window: Option<usize>,
)
    requires
        cache.wf(),
        s.kv_dim() <= usize::MAX,
        cache.len + l <= usize::MAX,
        (cache.len + l) * s.kv_dim() <= usize::MAX,
    ensures
        final(q)@ == old(q)@ + attention_ops(s, li, l as int, cache, window),
{
    proof {
        lemma_row_bound(cache.len as int, cache.len + l, s.kv_dim());
    }
    push_move_rows(
        q,
        s,
        DraftBuf::CacheKeys(li),
        DraftBuf::CacheValues(li),
        DraftBuf::KeysFull,
        DraftBuf::ValuesFull,
        0,
        cache.len,
    );
    push_move_rows(
        q,
        s,
        DraftBuf::K,
        DraftBuf::V,
        DraftBuf::KeysFull,
        DraftBuf::ValuesFull,
        cache.len,
        l,
    );
    push_wall(q, s.hazard);
    let win: u32 = match window {
        Some(w) => kv_slot::to_u32(w),
        None => 0x3FFF_FFFF,
    };
    q.push(
        DraftOp::Attend {
            layer: li,
            rows: kv_slot::to_u32(l),
            tkv: kv_slot::to_u32(cache.len + l),
            window: win,
            q_pos: kv_slot::to_u32(cache.offset),
            kv_pos: kv_slot::to_u32(cache.offset - cache.len),
        },
    );
    push_wall(q, s.hazard);
    assert(q@ =~= old(q)@ + attention_ops(s, li, l as int, cache, window));
}

/// Output projection and residual of the block.
pub open spec fn residual_ops(s: DraftShape, li: usize, l: int) -> Seq<DraftOp> {
    gemv_rows_ops(
        s.hazard,
        DraftBank::O(li),
        DraftBuf::OAttn,
        DraftBuf::AttnFlat,
        s.q_dim(),
        s.h as int,
        s.q_dim(),
        s.h as int,
        l,
    ) + seq![
        DraftOp::Copy {
            src: DraftBuf::X,
            from: 0,
            dst: DraftBuf::Resid,
            to: 0,
            n: kv_slot::low32(l * s.h),
        },
    ] + wall(s.hazard) + seq![
        DraftOp::Add {
            dst: DraftBuf::Resid,
            src: DraftBuf::AttnFlat,
            n: kv_slot::low32(l * s.h),
        },
    ] + wall(s.hazard)
}

fn push_residual(q: &mut Vec<DraftOp>, s: DraftShape, li: usize, l: usize)
    requires
        s.addressable(l as int),
    ensures
        final(q)@ == old(q)@ + residual_ops(s, li, l as int),
{
    let q_dim: usize = s.hq * s.d;
    let n: u32 = kv_slot::to_u32(l * s.h);
    let _ = gemv_rows(
        q,
        s.hazard,
        DraftBank::O(li),
        DraftBuf::OAttn,
        DraftBuf::AttnFlat,
        q_dim,
        s.h,
        l,
        q_dim,
        s.h,
    );
    q.push(
        DraftOp::Copy { src: DraftBuf::X, from: 0, dst: DraftBuf::Resid, to: 0, n },
    );
    push_wall(q, s.hazard);
    q.push(DraftOp::Add { dst: DraftBuf::Resid, src: DraftBuf::AttnFlat, n });
    push_wall(q, s.hazard);
    assert(q@ =~= old(q)@ + residual_ops(s, li, l as int));
}

/// The feed-forward part of block row `i`.
pub open spec fn mlp_row(s: DraftShape, li: usize, i: int) -> Seq<DraftOp> {
    let h = kv_slot::low32(s.h as int);
    let at = (i * s.h) as usize;
    seq![
        DraftOp::Copy { src: DraftBuf::Resid, from: at, dst: DraftBuf::RowX, to: 0, n: h },
        DraftOp::Rms {
            src: DraftBuf::RowX,
            weight: DraftNorm::PostAttn(li),
            dst: DraftBuf::XNormed,
            rows: 1,
            n: h,
        },
    ] + wall(s.hazard) + seq![
        DraftOp::Gemv { bank: DraftBank::Gate(li), src: DraftBuf::XNormed, dst: DraftBuf::Gate },
        DraftOp::Gemv { bank: DraftBank::Up(li), src: DraftBuf::XNormed, dst: DraftBuf::Up },
    ] + wall(s.hazard) + seq![DraftOp::Silu { n: kv_slot::low32(s.inter as int) }] + wall(
        s.hazard,
    ) + seq![
        DraftOp::Gemv { bank: DraftBank::Down(li), src: DraftBuf::Mid, dst: DraftBuf::RowY },
    ] + wall(s.hazard) + seq![
        DraftOp::Copy { src: DraftBuf::Resid, from: at, dst: DraftBuf::RowX, to: 0, n: h },
        DraftOp::Add { dst: DraftBuf::RowX, src: DraftBuf::RowY, n: h },
        DraftOp::Copy { src: DraftBuf::RowX, from: 0, dst: DraftBuf::X, to: at, n: h },
    ]
}

fn push_mlp_row(q: &mut Vec<DraftOp>, s: DraftShape, li: usize, i: usize)
    requires
        i * s.h <= usize::MAX,
    ensures
        final(q)@ == old(q)@ + mlp_row(s, li, i as int),
{
    let h: u32 = kv_slot::to_u32(s.h);
    let at: usize = i * s.h;
    q.push(DraftOp::Copy { src: DraftBuf::Resid, from: at, dst: DraftBuf::RowX, to: 0, n: h });
    q.push(
        DraftOp::Rms {
            src: DraftBuf::RowX,
            weight: DraftNorm::PostAttn(li),
            dst: DraftBuf::XNormed,
            rows: 1,
            n: h,
        },
    );
    push_wall(q, s.hazard);
    q.push(
        DraftOp::Gemv { bank: DraftBank::Gate(li), src: DraftBuf::XNormed, dst: DraftBuf::Gate },
    );
    q.push(DraftOp::Gemv { bank: DraftBank::Up(li), src: DraftBuf::XNormed, dst: DraftBuf::Up });
    push_wall(q, s.hazard);
    q.push(DraftOp::Silu { n: kv_slot::to_u32(s.inter) });
    push_wall(q, s.hazard);
    q.push(DraftOp::Gemv { bank: DraftBank::Down(li), src: DraftBuf::Mid, dst: DraftBuf::RowY });
    push_wall(q, s.hazard);
    q.push(DraftOp::Copy { src: DraftBuf::Resid, from: at, dst: DraftBuf::RowX, to: 0, n: h });
    q.push(DraftOp::Add { dst: DraftBuf::RowX, src: DraftBuf::RowY, n: h });
    q.push(DraftOp::Copy { src: DraftBuf::RowX, from: 0, dst: DraftBuf::X, to: at, n: h });
    assert(q@ =~= old(q)@ + mlp_row(s, li, i as int));
}

/// The feed-forward part of the block.
pub open spec fn mlp_ops(s: DraftShape, li: usize, l: int) -> Seq<DraftOp> {
    repeat(|i: int| mlp_row(s, li, i), l)
}

fn push_mlp(q: &mut Vec<DraftOp>, s: DraftShape, li: usize, l: usize)
    requires
        l * s.h <= usize::MAX,
    ensures
        final(q)@ == old(q)@ + mlp_ops(s, li, l as int),
{
    let ghost f = |i: int| mlp_row(s, li, i);
    proof {
        lemma_repeat(q@, f, 0);
    }
    let mut i: usize = 0;
    while i < l
        invariant
            i <= l,
            l * s.h <= usize::MAX,
            f == (|i: int| mlp_row(s, li, i)),
            q@ == old(q)@ + repeat(f, i as int),
        decreases l - i,
    {
        proof {
            lemma_row_bound(i as int, l as int, s.h as int);
            lemma_repeat(old(q)@, f, i as int);
        }
        push_mlp_row(q, s, li, i);
        i = i + 1;
    }
}

/// Rows of new context that a layer still takes: a sliding layer takes one fewer
/// than its window at most.
pub open spec fn ctx_taken(window: Option<usize>, ctx_t: int) -> int {
    match window {
        Some(w) => kv_slot::min2(ctx_t, kv_slot::max2(w - 1, 0)),
        None => ctx_t,
    }
}

/// The cache of a layer before new context comes in: a sliding layer keeps one
/// row fewer than its window at most.
pub open spec fn cache_kept(window: Option<usize>, c: DraftCache) -> DraftCache {
    match window {
        Some(w) => c.trimmed(kv_slot::max2(c.len - kv_slot::max2(w - 1, 0), 0)),
        None => c,
    }
}

/// The cache of a layer after a pass.
pub open spec fn cache_after(window: Option<usize>, c: DraftCache, ctx_t: int) -> DraftCache {
    let k = cache_kept(window, c);
    let t = ctx_taken(window, ctx_t);
    DraftCache { len: (k.len + t) as usize, offset: (k.offset + t) as usize }
}

/// A cache of `max_ctx` rows has room for what a layer keeps and takes, and the
/// positions can be counted.
pub open spec fn layer_room(
    window: Option<usize>,
    c: DraftCache,
    ctx_t: int,
    max_ctx: int,
) -> bool {
    let k = cache_kept(window, c);
    let t = ctx_taken(window, ctx_t);
    k.len + t <= max_ctx && k.offset + t <= usize::MAX
}

/// All commands of a draft layer.
pub open spec fn layer_ops(
    s: DraftShape,
    li: usize,
    l: int,
    h_ctx_len: int,
    ctx_t: int,
    window: Option<usize>,
    c: DraftCache,
) -> Seq<DraftOp> {
    let t = ctx_taken(window, ctx_t);
    let after = cache_after(window, c, ctx_t);
    ctx_ops(s, li, kv_slot::max2(h_ctx_len - t, 0), t, cache_kept(window, c)) + block_ops(
        s,
        li,
        l,
        after.offset as int,
    ) + attention_ops(s, li, l, after, window) + residual_ops(s, li, l) + mlp_ops(s, li, l)
}

/// Plans one draft layer over a block of `l` tokens, of which the last `ctx_t`
/// of `h_ctx_len` context rows are new.
pub fn forward_layer(
    q: &mut Vec<DraftOp>,
    s: DraftShape,
    li: usize,
    l: usize,
    h_ctx_len: usize,
    ctx_t: usize,
    window: Option<usize>,
    cache: &mut DraftCache,
    max_ctx: usize,
)
    requires
        old(cache).wf(),
        ctx_t <= h_ctx_len <= max_ctx,
        layer_room(window, *old(cache), ctx_t as int, max_ctx as int),
        max_ctx + l <= usize::MAX,
        s.addressable(max_ctx + l),
    ensures
        final(cache).wf(),
        *final(cache) == cache_after(window, *old(cache), ctx_t as int),
        final(q)@ == old(q)@ + layer_ops(
            s,
            li,
            l as int,
            h_ctx_len as int,
            ctx_t as int,
            window,
            *old(cache),
        ),
{
    let mut take: usize = ctx_t;
    match window {
        Some(w) => {
            let keep: usize = w.saturating_sub(1);
            if take > keep {
                take = keep;
            }
            if cache.len > keep {
                let drop: usize = cache.len - keep;
                cache.trim_recent(drop);
            }
        },
        None => {},
    }
    assert(*cache == cache_kept(window, *old(cache)));
    assert(take == ctx_taken(window, ctx_t as int));
    let skip: usize = h_ctx_len - take;
    proof {
        lemma_row_bound(h_ctx_len as int, max_ctx + l, s.h as int);
        lemma_row_bound(cache.len + take, max_ctx + l, s.kv_dim());
        lemma_row_bound(cache.len + take + l, max_ctx + l, s.kv_dim());
        lemma_row_bound(l as int, max_ctx + l, s.h as int);
        lemma_row_bound(l as int, max_ctx + l, s.kv_dim());
        assert(0 <= s.q_dim()) by (nonlinear_arith)
            requires
                s.q_dim() == s.hq * s.d,
        ;
        lemma_row_bound(l as int, max_ctx + l, s.q_dim());
    }
    push_ctx(q, s, li, skip, take, *cache);
    cache.len = cache.len + take;
    cache.offset = cache.offset + take;
    push_block(q, s, li, l, cache.offset);
    push_attention(q, s, li, l, *cache, window);
    push_residual(q, s, li, l);
    push_mlp(q, s, li, l);
    proof {
        let a = ctx_ops(
            s,
            li,
            skip as int,
            take as int,
            cache_kept(window, *old(cache)),
        );
        let b = block_ops(s, li, l as int, cache.offset as int);
        let c = attention_ops(s, li, l as int, *cache, window);
        let d = residual_ops(s, li, l as int);
        let e = mlp_ops(s, li, l as int);
        lemma_assoc(old(q)@, a, b);
        lemma_assoc(old(q)@, a + b, c);
        lemma_assoc(old(q)@, a + b + c, d);
        lemma_assoc(old(q)@, a + b + c + d, e);
    }
}

/// The key rows that a draft layer attends to stand for consecutive positions,
/// ending with the block: row `j` stands for position `kv_pos + j`, and the block
/// begins at the layer's next position.
pub proof fn draft_positions_are_consecutive(
    window: Option<usize>,
    c: DraftCache,
    ctx_t: int,
    l: int,
)
    requires
        c.wf(),
        0 <= ctx_t,
        0 <= l,
        cache_kept(window, c).offset + ctx_taken(window, ctx_t) <= usize::MAX,
    ensures
        ({
            let a = cache_after(window, c, ctx_t);
            let kv_pos = a.offset - a.len;
            &&& a.wf()
            &&& kv_pos + a.len == a.offset
            &&& kv_pos == c.offset - c.len
            &&& window matches Some(w) ==> w > 0 ==> a.len < 2 * w
        }),
{
}

/// A draft layer with a window keeps and takes at most one row fewer than the window, and
/// no fewer than that where there are so many; one without keeps and takes everything. The
/// rows that it keeps are the oldest of its cache.
pub proof fn draft_layers_keep_what_their_window_holds(
    window: Option<usize>,
    c: DraftCache,
    ctx_t: int,
)
    requires
        c.wf(),
        0 <= ctx_t,
        window matches Some(w) ==> w > 0,
    ensures
        ({
            let k = cache_kept(window, c);
            let t = ctx_taken(window, ctx_t);
            &&& k.offset - k.len == c.offset - c.len
            &&& match window {
                Some(w) => {
                    &&& k.len < w && k.len <= c.len && (k.len == c.len || k.len + 1 == w)
                    &&& t < w && t <= ctx_t && (t == ctx_t || t + 1 == w)
                },
                None => k == c && t == ctx_t,
            }
        }),
{
}

} // verus!
