//! What the commands of a step or a block do, one after another. What the kernels compute
//! is left open; which rows they read and where they put their results is not.

use crate::kv_bank::KvBankV;
use crate::model::GpuSynthModel;
use crate::ops::{Bank, Buf, Factor, KvSrc, NormW, Op, SlotRef};
use vstd::prelude::*;

verus! {

/// What the kernels compute, row by row.
#[verifier::reject_recursive_types(V)]
pub struct Kernels<V> {
    /// The embedding of a token.
    pub embed: spec_fn(u32) -> V,
    /// A norm over so many floats.
    pub norm: spec_fn(NormW, int, V) -> V,
    /// Rounding to half precision.
    pub half: spec_fn(V) -> V,
    pub mat: spec_fn(Bank, V) -> V,
    pub scale: spec_fn(Factor, V) -> V,
    pub plus: spec_fn(V, V) -> V,
    /// Adding to the first floats of a row, so many of them.
    pub plus_part: spec_fn(int, V, V) -> V,
    /// Head norm and rotary embedding of a layer's queries and of its keys at a position,
    /// and the head norm of its values.
    pub rope_q: spec_fn(usize, int, V) -> V,
    pub rope_k: spec_fn(usize, int, V) -> V,
    pub norm_v: spec_fn(usize, V) -> V,
    /// Attention of a query of a layer over keys and values, by their positions.
    pub attend: spec_fn(usize, V, spec_fn(int) -> Option<(V, V)>) -> V,
    pub gelu: spec_fn(V, V) -> V,
    /// The per-layer embedding of a token.
    pub ple: spec_fn(usize, u32) -> V,
    /// The greedy choice among the logits of a row.
    pub choice: spec_fn(V) -> u32,
    /// The projection of a captured row, by its parts, and the norm of what it gives.
    pub fc: spec_fn(spec_fn(int) -> Option<V>) -> V,
    pub cond_norm: spec_fn(int, V) -> V,
    /// The tokens of the block at hand, as the host writes them.
    pub seeds: spec_fn(int) -> u32,
    /// What is found where no row begins.
    pub stray: spec_fn(int) -> V,
}

/// The memory of the device, row by row.
#[verifier::reject_recursive_types(V)]
pub struct Mem<V> {
    pub row: spec_fn(Buf, int) -> V,
    pub keys: spec_fn(SlotRef, int) -> V,
    pub vals: spec_fn(SlotRef, int) -> V,
    pub dense_k: spec_fn(int) -> V,
    pub dense_v: spec_fn(int) -> V,
    /// Floats of a row of the attention output.
    pub o_width: int,
    pub token: spec_fn(Buf, int) -> u32,
    /// Position of the first row.
    pub pos: int,
    /// The buffer that holds the tokens of the pass at hand.
    pub seeds: Buf,
    /// The row that the conditioner works on, and its context.
    pub cond: V,
    pub ctx: spec_fn(int) -> V,
}

/// How wide the rows are that commands address by floats.
#[verifier::reject_recursive_types(V)]
pub struct Shapes<V> {
    pub model: GpuSynthModel,
    pub kernels: Kernels<V>,
    /// Floats of a timestep in a slot.
    pub width: spec_fn(SlotRef) -> int,
    /// Floats of a context row.
    pub ctx_width: int,
    /// Captured layers, each a part of the captured row.
    pub parts: int,
}

/// The captured row, by its parts.
pub open spec fn captured_row<V>(s: Shapes<V>, m: Mem<V>) -> spec_fn(int) -> Option<V> {
    |i: int|
        if 0 <= i < s.parts {
            Some((m.row)(Buf::CaptureRow, i))
        } else {
            None
        }
}

/// The rows of slots, as a bank has them.
pub open spec fn widths_of(b: KvBankV) -> spec_fn(SlotRef) -> int {
    |r: SlotRef| b.slot(r).row()
}

/// The first `n` floats hold the whole of row `i`.
pub open spec fn covers(i: int, width: int, n: int) -> bool {
    0 <= i && (i + 1) * width <= n
}

/// A value times a factor.
pub open spec fn scaled<V>(k: Kernels<V>, by: Factor, v: V) -> V {
    if by == Factor::One {
        v
    } else {
        (k.scale)(by, v)
    }
}

/// Some rows of a buffer are replaced.
pub open spec fn put<V>(m: Mem<V>, b: Buf, at: spec_fn(int) -> bool, v: spec_fn(int) -> V) -> Mem<
    V,
> {
    Mem {
        row: |c: Buf, i: int|
            if c == b && at(i) {
                v(i)
            } else {
                (m.row)(c, i)
            },
        ..m
    }
}

/// One token is replaced.
pub open spec fn put_token<V>(m: Mem<V>, b: Buf, at: int, t: u32) -> Mem<V> {
    Mem {
        token: |c: Buf, i: int|
            if c == b && i == at {
                t
            } else {
                (m.token)(c, i)
            },
        ..m
    }
}

/// One row of a slot is replaced, where a row begins there and is as long.
pub open spec fn put_slot<V>(
    s: Shapes<V>,
    m: Mem<V>,
    slot: SlotRef,
    offset: int,
    len: int,
    k: V,
    v: V,
) -> Mem<V> {
    let w = (s.width)(slot);
    Mem {
        keys: |r: SlotRef, j: int|
            if r == slot && j * w == offset && len == w {
                k
            } else {
                (m.keys)(r, j)
            },
        vals: |r: SlotRef, j: int|
            if r == slot && j * w == offset && len == w {
                v
            } else {
                (m.vals)(r, j)
            },
        ..m
    }
}

/// A query at a position sees the key at position `p`: it is one of those handed over, it
/// is not later, and it lies in the window.
pub open spec fn sees(q_pos: int, kv_pos: int, tkv: int, window: Option<int>, p: int) -> bool {
    &&& kv_pos <= p < kv_pos + tkv
    &&& p <= q_pos
    &&& window matches Some(w) ==> q_pos - p < w
}

/// What an attention command hands to the query of row `i`: keys and values by position.
pub open spec fn handed<V>(
    m: Mem<V>,
    kv: KvSrc,
    q_pos: int,
    kv_pos: int,
    tkv: int,
    window: Option<int>,
    i: int,
) -> spec_fn(int) -> Option<(V, V)> {
    |p: int|
        if !sees(q_pos + i, kv_pos, tkv, window, p) {
            None
        } else {
            match kv {
                KvSrc::Dense => Some(((m.dense_k)(p - kv_pos), (m.dense_v)(p - kv_pos))),
                KvSrc::Slot(r) => Some(((m.keys)(r, p - kv_pos), (m.vals)(r, p - kv_pos))),
            }
        }
}

/// Attention of `rows` queries into a buffer; the shared activations hold half precision.
pub open spec fn attended<V>(
    s: Shapes<V>,
    m: Mem<V>,
    layer: usize,
    kv: KvSrc,
    dst: Buf,
    rows: int,
    tkv: int,
    window: Option<int>,
    q_pos: int,
    kv_pos: int,
) -> Mem<V> {
    let k = s.kernels;
    let p = s.model.layers@[layer as int];
    put(
        Mem { o_width: p.hq * p.head_dim, ..m },
        dst,
        |i: int| 0 <= i < rows,
        |i: int|
            {
                let o = (k.attend)(
                    layer,
                    (m.row)(Buf::Q, i),
                    handed(m, kv, q_pos, kv_pos, tkv, window, i),
                );
                if dst == Buf::Act {
                    (k.half)(o)
                } else {
                    o
                }
            },
    )
}

/// The part between gate and down of a row.
pub open spec fn gated<V>(k: Kernels<V>, layer: usize, h: V) -> V {
    (k.gelu)((k.mat)(Bank::Gate(layer), h), (k.mat)(Bank::Up(layer), h))
}

/// A matrix times rows, into a buffer.
pub open spec fn mat_rows<V>(s: Shapes<V>, m: Mem<V>, bank: Bank, src: Buf, dst: Buf, rows: int) -> Mem<
    V,
> {
    put(m, dst, |i: int| 0 <= i < rows, |i: int| (s.kernels.mat)(bank, (m.row)(src, i)))
}

/// The memory after a command.
pub open spec fn exec<V>(s: Shapes<V>, m: Mem<V>, op: Op) -> Mem<V> {
    let k = s.kernels;
    let hidden = s.model.hidden as int;
    match op {
        Op::WritePos { pos } => Mem { pos: pos as int, seeds: Buf::SeedTok, ..m },
        Op::WriteSeed { token } => put_token(m, Buf::SeedTok, 0, token),
        Op::WriteSeeds => Mem {
            token: |c: Buf, i: int|
                if c == Buf::VerifySeeds {
                    (k.seeds)(i)
                } else {
                    (m.token)(c, i)
                },
            seeds: Buf::VerifySeeds,
            ..m
        },
        Op::WriteToken { dst, index, token } => put_token(m, dst, index as int, token),
        Op::WriteArgmax { token } => put_token(m, Buf::ArgmaxTok, 0, token),
        Op::CopyToken { src, index, dst } => put_token(m, dst, 0, (m.token)(src, index as int)),
        Op::EmbedHot { rows } => put(
            m,
            Buf::X,
            |i: int| 0 <= i < rows,
            |i: int| (k.embed)((m.token)(m.seeds, i)),
        ),
        Op::EmbedQuantRow { token, at_row, scaled } => put(
            m,
            Buf::X,
            |i: int| i == at_row,
            |i: int|
                if scaled {
                    (k.scale)(Factor::Embed, (k.embed)(token))
                } else {
                    (k.embed)(token)
                },
        ),
        Op::EmbedDenseRow { start, at_row, scaled } => {
            let t = start as int / hidden;
            let e = if t * hidden == start {
                (k.embed)(t as u32)
            } else {
                (k.stray)(start as int)
            };
            put(
                m,
                Buf::X,
                |i: int| i == at_row,
                |i: int|
                    if scaled {
                        (k.scale)(Factor::Embed, e)
                    } else {
                        e
                    },
            )
        },
        Op::Scale { dst, by, n } => put(
            m,
            dst,
            |i: int| covers(i, hidden, n as int),
            |i: int| scaled(k, by, (m.row)(dst, i)),
        ),
        Op::RmsAct { src, weight, rows, n } => put(
            m,
            Buf::Act,
            |i: int| 0 <= i < rows,
            |i: int| (k.half)((k.norm)(weight, n as int, (m.row)(src, i))),
        ),
        Op::Rms { src, weight, dst, rows, n } => put(
            m,
            dst,
            |i: int| 0 <= i < rows,
            |i: int| (k.norm)(weight, n as int, (m.row)(src, i)),
        ),
        Op::CastAct { src, n } => put(
            m,
            Buf::Act,
            |i: int|
                match src {
                    Buf::Normed => covers(i, hidden, n as int),
                    Buf::Mid => covers(i, s.model.intermediate as int, n as int),
                    Buf::O => covers(i, m.o_width, n as int),
                    _ => false,
                },
            |i: int| (k.half)((m.row)(src, i)),
        ),
        Op::Mat { bank, src, dst, rows } => mat_rows(s, m, bank, src, dst, rows as int),
        Op::QkvFused { layer } => {
            let a = mat_rows(s, m, Bank::Q(layer), Buf::Act, Buf::Q, 1);
            let b = mat_rows(s, a, Bank::K(layer), Buf::Act, Buf::K, 1);
            mat_rows(s, b, Bank::V(layer), Buf::Act, Buf::V, 1)
        },
        Op::KvFused { layer } => {
            let a = mat_rows(s, m, Bank::K(layer), Buf::Act, Buf::K, 1);
            mat_rows(s, a, Bank::V(layer), Buf::Act, Buf::V, 1)
        },
        Op::Rope { layer, rows, q_only } => roped(s, m, layer, rows as int, q_only),
        Op::RopeStore { layer, slot, offset } => {
            let a = roped(s, m, layer, 1, false);
            put_slot(
                s,
                a,
                slot,
                offset as int,
                (s.width)(slot),
                (a.row)(Buf::K, 0),
                (a.row)(Buf::V, 0),
            )
        },
        Op::Store { slot, store } => {
            let i = store.src_off as int / (s.width)(slot);
            put_slot(
                s,
                m,
                slot,
                store.dst_off as int,
                store.len as int,
                (m.row)(Buf::K, i),
                (m.row)(Buf::V, i),
            )
        },
        Op::Gather { slot, values, view } => {
            let at = |j: int| (view.start + j) % view.capacity as int;
            if view.slot_elems != (s.width)(slot) {
                Mem {
                    dense_k: |j: int| (k.stray)(j),
                    dense_v: |j: int| (k.stray)(j),
                    ..m
                }
            } else if values {
                Mem {
                    dense_v: |j: int|
                        if 0 <= j < view.rows {
                            (m.vals)(slot, at(j))
                        } else {
                            (m.dense_v)(j)
                        },
                    ..m
                }
            } else {
                Mem {
                    dense_k: |j: int|
                        if 0 <= j < view.rows {
                            (m.keys)(slot, at(j))
                        } else {
                            (m.dense_k)(j)
                        },
                    ..m
                }
            }
        },
        Op::AttendSliding { layer, kv, dst, rows, tkv, window, q_pos, kv_pos } => attended(
            s,
            m,
            layer,
            kv,
            dst,
            rows as int,
            tkv as int,
            Some(window as int),
            q_pos as int,
            kv_pos as int,
        ),
        Op::AttendGlobal { layer, kv, dst, rows, tkv, q_pos, kv_pos } => attended(
            s,
            m,
            layer,
            kv,
            dst,
            rows as int,
            tkv as int,
            None,
            q_pos as int,
            kv_pos as int,
        ),
        Op::MatNormAdd { bank, src, weight, by, rows } => put(
            m,
            Buf::X,
            |i: int| 0 <= i < rows,
            |i: int|
                scaled(
                    k,
                    by,
                    (k.plus)(
                        (m.row)(Buf::X, i),
                        (k.norm)(weight, hidden, (k.mat)(bank, (m.row)(src, i))),
                    ),
                ),
        ),
        Op::MatAdd { bank, src, rows } => put(
            m,
            Buf::X,
            |i: int| 0 <= i < rows,
            |i: int| (k.plus)((m.row)(Buf::X, i), (k.mat)(bank, (m.row)(src, i))),
        ),
        Op::ResidualAdd { src, by, at, n } => if src == Buf::PleOut {
            put(
                m,
                Buf::X,
                |i: int| i * hidden == at,
                |i: int|
                    (k.plus_part)(
                        n as int,
                        (m.row)(Buf::X, i),
                        scaled(k, by, (m.row)(src, 0)),
                    ),
            )
        } else {
            put(
                m,
                Buf::X,
                |i: int| at == 0 && covers(i, hidden, n as int),
                |i: int| (k.plus)((m.row)(Buf::X, i), scaled(k, by, (m.row)(src, i))),
            )
        },
        Op::PleFused { layer } => put(
            m,
            Buf::X,
            |i: int| i == 0,
            |i: int|
                (k.plus_part)(
                    s.model.cfg.hidden_size_per_layer_input as int,
                    (m.row)(Buf::X, i),
                    (k.scale)(Factor::InvSqrt2, (k.ple)(layer, (m.token)(Buf::SeedTok, 0))),
                ),
        ),
        Op::PleQ4 { layer } => put(
            m,
            Buf::PleOut,
            |i: int| i == 0,
            |i: int| (k.ple)(layer, (m.token)(Buf::SeedTok, 0)),
        ),
        Op::PleTable { layer } => put(
            m,
            Buf::PleOut,
            |i: int| i == 0,
            |i: int| (k.ple)(layer, (m.token)(Buf::SeedTok, 0)),
        ),
        Op::GateDownFused { layer } => put(
            m,
            Buf::X,
            |i: int| i == 0,
            |i: int|
                (k.plus)(
                    (m.row)(Buf::X, i),
                    (k.mat)(Bank::Down(layer), (k.half)(gated(k, layer, (m.row)(Buf::Act, i)))),
                ),
        ),
        Op::GateUpGelu { layer, half } => put(
            m,
            Buf::Mid,
            |i: int| i == 0,
            |i: int|
                {
                    let g = gated(k, layer, (m.row)(Buf::Act, i));
                    if half {
                        (k.half)(g)
                    } else {
                        g
                    }
                },
        ),
        Op::Gelu { half, n } => put(
            m,
            Buf::Mid,
            |i: int| covers(i, s.model.intermediate as int, n as int),
            |i: int|
                {
                    let g = (k.gelu)((m.row)(Buf::Gate, i), (m.row)(Buf::Up, i));
                    if half {
                        (k.half)(g)
                    } else {
                        g
                    }
                },
        ),
        Op::CopyF32 { src, from, dst, to, n } => put(
            m,
            dst,
            |i: int| to <= i * hidden && (i + 1) * hidden <= to + n,
            |i: int|
                {
                    let a = i * hidden - to + from;
                    let j = a / hidden;
                    if j * hidden == a {
                        (m.row)(src, j)
                    } else {
                        (k.stray)(a)
                    }
                },
        ),
        Op::Argmax { at, dst, index } => {
            let r = at as int / s.model.vocab as int;
            put_token(
                m,
                dst,
                index as int,
                (k.choice)(
                    if r * s.model.vocab == at {
                        (m.row)(Buf::Logits, r)
                    } else {
                        (k.stray)(at as int)
                    },
                ),
            )
        },
        Op::CondFc => Mem { cond: (k.fc)(captured_row(s, m)), ..m },
        Op::CondNorm { n } => Mem { cond: (k.cond_norm)(n as int, m.cond), ..m },
        Op::CondStore { at, n } => Mem {
            ctx: |j: int|
                if j * s.ctx_width == at && n == s.ctx_width {
                    m.cond
                } else {
                    (m.ctx)(j)
                },
            ..m
        },
        _ => m,
    }
}

/// Head norms and rotary embedding of `rows` rows.
pub open spec fn roped<V>(s: Shapes<V>, m: Mem<V>, layer: usize, rows: int, q_only: bool) -> Mem<V> {
    let k = s.kernels;
    Mem {
        row: |c: Buf, i: int|
            if !(0 <= i < rows) {
                (m.row)(c, i)
            } else if c == Buf::Q {
                (k.rope_q)(layer, m.pos + i, (m.row)(c, i))
            } else if c == Buf::K && !q_only {
                (k.rope_k)(layer, m.pos + i, (m.row)(c, i))
            } else if c == Buf::V && !q_only {
                (k.norm_v)(layer, (m.row)(c, i))
            } else {
                (m.row)(c, i)
            },
        ..m
    }
}

/// The memory after commands.
#[verifier::opaque]
pub open spec fn run<V>(s: Shapes<V>, m: Mem<V>, ops: Seq<Op>) -> Mem<V>
    decreases ops.len(),
{
    if ops.len() == 0 {
        m
    } else {
        exec(s, run(s, m, ops.drop_last()), ops.last())
    }
}

pub proof fn lemma_cat<V>(s: Shapes<V>, m: Mem<V>, a: Seq<Op>, b: Seq<Op>)
    ensures
        run(s, m, a + b) == run(s, run(s, m, a), b),
    decreases b.len(),
{
    reveal_with_fuel(run, 2);
    if b.len() == 0 {
        assert(a + b =~= a);
    } else {
        lemma_cat(s, m, a, b.drop_last());
        assert((a + b).drop_last() =~= a + b.drop_last());
        assert((a + b).last() == b.last());
    }
}

pub proof fn lemma_none<V>(s: Shapes<V>, m: Mem<V>)
    ensures
        run(s, m, Seq::<Op>::empty()) == m,
{
    reveal_with_fuel(run, 1);
}

pub proof fn lemma_one<V>(s: Shapes<V>, m: Mem<V>, a: Op)
    ensures
        run(s, m, seq![a]) == exec(s, m, a),
{
    reveal_with_fuel(run, 2);
    assert(seq![a].drop_last() =~= Seq::<Op>::empty());
}

pub proof fn lemma_two<V>(s: Shapes<V>, m: Mem<V>, a: Op, b: Op)
    ensures
        run(s, m, seq![a, b]) == exec(s, exec(s, m, a), b),
{
    assert(seq![a, b] =~= seq![a] + seq![b]);
    lemma_cat(s, m, seq![a], seq![b]);
    lemma_one(s, m, a);
    lemma_one(s, exec(s, m, a), b);
}

/// A barrier changes no memory.
pub proof fn lemma_barrier<V>(s: Shapes<V>, m: Mem<V>, need: bool)
    ensures
        run(s, m, crate::step_plan::barrier_if(need)) == m,
{
    lemma_none(s, m);
    lemma_one(s, m, Op::Barrier);
}

} // verus!
