//! What a whole step and a whole block compute: the residual of every layer at every
//! position is that of the model, the caches hold its keys and values, and the tokens that
//! are chosen are chosen from it.

use crate::capture;
use crate::compute_laws;
use crate::conditioner;
use crate::compute_laws::{chosen, kept, rows_only};
use crate::decode;
use crate::decode::StepRequest;
use crate::kv;
use crate::kv_bank::KvBankV;
use crate::kv_slot;
use crate::layer_laws;
use crate::layer_laws::{
    holds, layer_left, layer_value, makes, reach, ready, slot_kept, slot_ready, within_reach,
};
use crate::machine;
use crate::machine::{Mem, Shapes};
use crate::model;
use crate::model::GpuSynthModel;
use crate::ops::{Buf, Factor, Op, SlotRef};
use crate::session;
use crate::session::{GpuDecodeSession, LayerMode, StepSeed};
use crate::step_plan;
use crate::step_plan::{LayerCaps, StepFlags};
use crate::steps;
use crate::verify;
use crate::verify_plan;
use vstd::arithmetic::div_mod::*;
use vstd::prelude::*;

verus! {

/// Multiplying by an embedding scale of one changes nothing.
pub open spec fn unit_scale<V>(s: Shapes<V>) -> bool {
    !model::scales(s.model.embed_scale_bits) ==> forall|v: V|
        #[trigger] (s.kernels.scale)(Factor::Embed, v) == v
}

/// The residual of a token before the first layer.
pub open spec fn embedded<V>(s: Shapes<V>, token: u32) -> V {
    (s.kernels.scale)(Factor::Embed, (s.kernels.embed)(token))
}

proof fn lemma_dense_row<V>(s: Shapes<V>, m: Mem<V>, token: u32, at: u32)
    requires
        0 < s.model.hidden,
        token * s.model.hidden + s.model.hidden <= s.model.embed_len,
        unit_scale(s),
    ensures
        ({
            let r = machine::exec(
                s,
                m,
                Op::EmbedDenseRow {
                    start: (token * s.model.hidden) as usize,
                    at_row: at,
                    scaled: s.model.embed_scale_bits != model::ONE_BITS,
                },
            );
            &&& rows_only(m, r)
            &&& (r.row)(Buf::X, at as int) == embedded(s, token)
            &&& forall|i: int| i != at ==> #[trigger] (r.row)(Buf::X, i) == (m.row)(Buf::X, i)
        }),
{
    let h = s.model.hidden as int;
    let t = token as int;
    assert(0 <= t * h) by (nonlinear_arith)
        requires
            0 <= t,
            0 < h,
    ;
    assert(h * t == t * h) by (nonlinear_arith);
    lemma_div_multiples_vanish(t, h);
}

/// A step puts its token in place and begins with that token's embedding.
pub proof fn steps_begin_with_their_token<V>(
    s: Shapes<V>,
    m: Mem<V>,
    g: GpuDecodeSession,
    f: StepFlags,
    req: StepRequest,
)
    requires
        g.model == s.model,
        s.model.wf(),
        0 < s.model.hidden,
        unit_scale(s),
        g.pos <= u32::MAX,
        decode::open_run(g, f, req) is Ok,
        match req.seed {
            StepSeed::Host(_) => true,
            StepSeed::FromArgmax => (m.token)(Buf::ArgmaxTok, 0) == req.resident,
            StepSeed::Resident => (m.token)(Buf::SeedTok, 0) == req.resident,
        },
    ensures
        ({
            let r = machine::run(s, m, decode::open_run(g, f, req)->Ok_0);
            &&& r == (Mem {
                row: r.row,
                token: r.token,
                pos: g.pos as int,
                seeds: Buf::SeedTok,
                ..m
            })
            &&& (r.token)(Buf::SeedTok, 0) == req.token()
            &&& (r.row)(Buf::X, 0) == embedded(s, req.token())
        }),
{
    reveal(decode::open_run);
    let first = Op::WritePos { pos: kv_slot::low32(g.pos as int) };
    lemma_small_mod(g.pos as nat, 0x1_0000_0000);
    let seed = session::seed_ops(req.seed, f.hazard);
    let embed = session::embed_run(s.model, f.hazard, req.token())->Ok_0;
    let bar = step_plan::barrier_if(f.hazard);
    machine::lemma_cat(s, m, seq![first] + seed, embed);
    machine::lemma_cat(s, m, seq![first], seed);
    machine::lemma_one(s, m, first);
    let m1 = machine::exec(s, m, first);
    machine::lemma_none(s, m1);
    match req.seed {
        StepSeed::Host(t) => {
            machine::lemma_one(s, m1, Op::WriteSeed { token: t });
        },
        StepSeed::FromArgmax => {
            let c = Op::CopyToken { src: Buf::ArgmaxTok, index: 0, dst: Buf::SeedTok };
            machine::lemma_cat(s, m1, seq![c], bar);
            machine::lemma_one(s, m1, c);
            machine::lemma_barrier(s, machine::exec(s, m1, c), f.hazard);
        },
        StepSeed::Resident => {},
    }
    let m2 = machine::run(s, m1, seed);
    assert((m2.token)(Buf::SeedTok, 0) == req.token());
    let scaled = model::scales(s.model.embed_scale_bits);
    if s.model.has_embed_hot {
        let hot = Op::EmbedHot { rows: 1 };
        let sc = Op::Scale { dst: Buf::X, by: Factor::Embed, n: s.model.hidden as u32 };
        machine::lemma_one(s, m2, hot);
        let m3 = machine::exec(s, m2, hot);
        if scaled {
            machine::lemma_cat(s, m2, seq![hot], bar + seq![sc]);
            machine::lemma_cat(s, m3, bar, seq![sc]);
            machine::lemma_barrier(s, m3, f.hazard);
            machine::lemma_one(s, m3, sc);
            compute_laws::lemma_covers(0, s.model.hidden as int, 1);
        } else {
            assert(embed =~= seq![hot]);
        }
    } else if s.model.has_embed_q {
        machine::lemma_one(
            s,
            m2,
            Op::EmbedQuantRow { token: req.token(), at_row: 0, scaled },
        );
    } else {
        machine::lemma_one(
            s,
            m2,
            Op::EmbedDenseRow {
                start: (req.token() * s.model.hidden) as usize,
                at_row: 0,
                scaled: s.model.embed_scale_bits != model::ONE_BITS,
            },
        );
        lemma_dense_row(s, m2, req.token(), 0);
    }
}

proof fn lemma_embed_rows<V>(s: Shapes<V>, m: Mem<V>, tokens: Seq<u32>, n: int)
    requires
        0 < s.model.hidden,
        unit_scale(s),
        0 <= n <= tokens.len() <= 8,
        verify_plan::embed_rows(s.model, tokens, n) is Ok,
    ensures
        ({
            let r = machine::run(s, m, verify_plan::embed_rows(s.model, tokens, n)->Ok_0);
            &&& rows_only(m, r)
            &&& forall|i: int|
                0 <= i < n ==> #[trigger] (r.row)(Buf::X, i) == embedded(s, tokens[i])
        }),
    decreases n,
{
    if n <= 0 {
        machine::lemma_none(s, m);
    } else {
        lemma_embed_rows(s, m, tokens, n - 1);
        let before = verify_plan::embed_rows(s.model, tokens, n - 1)->Ok_0;
        let all = verify_plan::embed_rows(s.model, tokens, n)->Ok_0;
        let op = all.last();
        assert(all =~= before + seq![op]);
        machine::lemma_cat(s, m, before, seq![op]);
        let r = machine::run(s, m, before);
        machine::lemma_one(s, r, op);
        if !s.model.has_embed_q {
            lemma_dense_row(s, r, tokens[n - 1], (n - 1) as u32);
        }
        let t = machine::exec(s, r, op);
        assert forall|i: int| 0 <= i < n implies #[trigger] (t.row)(Buf::X, i) == embedded(
            s,
            tokens[i],
        ) by {
            if i < n - 1 {
                assert((t.row)(Buf::X, i) == (r.row)(Buf::X, i));
            }
        }
    }
}

/// A block begins with the embeddings of its tokens, row by row.
pub proof fn blocks_begin_with_their_tokens<V>(s: Shapes<V>, m: Mem<V>, tokens: Seq<u32>, pos: int)
    requires
        s.model.wf(),
        verify_plan::block_fits(s.model),
        0 < s.model.hidden,
        unit_scale(s),
        1 <= tokens.len() <= 8,
        0 <= pos <= u32::MAX,
        verify_plan::embed_block(s.model, tokens) is Ok,
        forall|i: int| 0 <= i < tokens.len() ==> #[trigger] (s.kernels.seeds)(i) == tokens[i],
    ensures
        ({
            let r = machine::run(
                s,
                m,
                seq![Op::WritePos { pos: kv_slot::low32(pos) }, Op::WriteSeeds]
                    + verify_plan::embed_block(s.model, tokens)->Ok_0,
            );
            &&& r == (Mem {
                row: r.row,
                token: r.token,
                pos,
                seeds: Buf::VerifySeeds,
                ..m
            })
            &&& forall|i: int|
                0 <= i < tokens.len() ==> #[trigger] (r.token)(Buf::VerifySeeds, i) == tokens[i]
            &&& forall|i: int|
                0 <= i < tokens.len() ==> #[trigger] (r.row)(Buf::X, i) == embedded(s, tokens[i])
        }),
{
    let a = Op::WritePos { pos: kv_slot::low32(pos) };
    lemma_small_mod(pos as nat, 0x1_0000_0000);
    let embed = verify_plan::embed_block(s.model, tokens)->Ok_0;
    machine::lemma_cat(s, m, seq![a, Op::WriteSeeds], embed);
    machine::lemma_two(s, m, a, Op::WriteSeeds);
    let m1 = machine::exec(s, machine::exec(s, m, a), Op::WriteSeeds);
    let n = tokens.len() as int;
    let h = s.model.hidden as int;
    assert forall|i: int| 0 <= i < n implies #[trigger] (m1.token)(Buf::VerifySeeds, i)
        == tokens[i] by {
        assert((s.kernels.seeds)(i) == tokens[i]);
    }
    if s.model.has_embed_hot {
        let hot = Op::EmbedHot { rows: n as u32 };
        assert(0 <= n * h <= 8 * h) by (nonlinear_arith)
            requires
                0 <= n <= 8,
                0 < h,
        ;
        let sc = Op::Scale { dst: Buf::X, by: Factor::Embed, n: (n * h) as u32 };
        machine::lemma_two(s, m1, hot, sc);
        let r = machine::exec(s, machine::exec(s, m1, hot), sc);
        assert forall|i: int| 0 <= i < n implies #[trigger] (r.row)(Buf::X, i) == embedded(
            s,
            tokens[i],
        ) by {
            compute_laws::lemma_covers(i, h, n);
            assert((m1.token)(Buf::VerifySeeds, i) == tokens[i]);
        }
    } else {
        lemma_embed_rows(s, m1, tokens, n);
    }
}

/// What the model computes: the residual before each layer and after the last one, at every
/// position, for the tokens at those positions.
#[verifier::reject_recursive_types(V)]
pub struct Residuals<V> {
    pub x: spec_fn(int, int) -> V,
    pub token: spec_fn(int) -> u32,
}

/// The layer whose keys and values a layer reads: itself, or the one that feeds the shared
/// cache of its kind.
pub open spec fn source(md: GpuSynthModel, li: int) -> int {
    if md.layers@[li].produces() {
        li
    } else {
        choose|j: int| feeds(md, j, li)
    }
}

/// Layer `j` feeds the shared cache that layer `li` reads.
pub open spec fn feeds(md: GpuSynthModel, j: int, li: int) -> bool {
    md.kv.feeds_shared(j) && md.layers@[j].layer_type == md.layers@[li].layer_type
}

/// The keys of a layer, by position.
pub open spec fn keys_of<V>(s: Shapes<V>, run: Residuals<V>, li: int) -> spec_fn(int) -> V {
    |p: int| layer_laws::key_of(s, li as usize, p, (run.x)(li, p))
}

/// The values of a layer, by position.
pub open spec fn vals_of<V>(s: Shapes<V>, run: Residuals<V>, li: int) -> spec_fn(int) -> V {
    |p: int| layer_laws::value_of(s, li as usize, (run.x)(li, p))
}

/// The residual after layer `li` at a position is made from the one before it and from the
/// keys and values of the layer that it reads.
pub open spec fn layer_follows<V>(
    s: Shapes<V>,
    f: StepFlags,
    run: Residuals<V>,
    li: int,
    p: int,
) -> bool {
    let from = source(s.model, li);
    (run.x)(li + 1, p) == layer_value(
        s,
        f,
        li as usize,
        (run.token)(p),
        p,
        (run.x)(li, p),
        keys_of(s, run, from),
        vals_of(s, run, from),
    )
}

/// The residuals are those of the model.
pub open spec fn follows<V>(s: Shapes<V>, f: StepFlags, run: Residuals<V>) -> bool {
    &&& forall|p: int|
        0 <= p ==> #[trigger] (run.x)(0, p) == embedded(s, (run.token)(p))
    &&& forall|li: int, p: int|
        0 <= li < s.model.layers@.len() && 0 <= p ==> #[trigger] layer_follows(s, f, run, li, p)
}

/// A writing layer's caches hold its keys and values up to where the pass has come.
pub open spec fn layer_synced<V>(
    s: Shapes<V>,
    m: Mem<V>,
    b: KvBankV,
    run: Residuals<V>,
    to: int,
    l: int,
) -> bool {
    let p = s.model.layers@[l];
    p.produces() ==> {
        &&& slot_ready(s, m, b, p.reads(), keys_of(s, run, l), vals_of(s, run, l), to)
        &&& s.model.kv.feeds_shared(l) ==> slot_ready(
            s,
            m,
            b,
            p.shares(),
            keys_of(s, run, l),
            vals_of(s, run, l),
            to,
        )
    }
}

/// The caches hold the model's keys and values: those of the first `n` layers up to
/// position `pos + rows`, the others up to `pos`.
pub open spec fn synced<V>(
    s: Shapes<V>,
    m: Mem<V>,
    b: KvBankV,
    run: Residuals<V>,
    pos: int,
    rows: int,
    n: int,
) -> bool {
    forall|l: int|
        0 <= l < s.model.layers@.len() ==> #[trigger] layer_synced(
            s,
            m,
            b,
            run,
            upto(pos, rows, n, l),
            l,
        )
}

/// How far the caches of layer `l` reach once the first `n` layers ran.
pub open spec fn upto(pos: int, rows: int, n: int, l: int) -> int {
    if l < n {
        pos + rows
    } else {
        pos
    }
}

/// Every layer finds what it reads: a reading layer has its feeder, and no row is
/// overwritten that a row of the pass attends to.
pub open spec fn reachable(md: GpuSynthModel, b: KvBankV, pos: int, rows: int, l: int) -> bool {
    let p = md.layers@[l];
    &&& within_reach(b.slot(p.reads()), pos, rows, reach(p))
    &&& reach(p) matches Some(w) ==> w <= u32::MAX
    &&& layer_laws::stageable(md, b, l as usize)
    &&& !p.produces() ==> exists|j: int| feeds(md, j, l)
}

/// The same for all layers.
pub open spec fn all_reachable(md: GpuSynthModel, b: KvBankV, pos: int, rows: int) -> bool {
    forall|l: int| 0 <= l < md.layers@.len() ==> #[trigger] reachable(md, b, pos, rows, l)
}

/// The bank once layer `li` has written `rows` timesteps.
pub open spec fn written(md: GpuSynthModel, b: KvBankV, li: int, rows: int) -> KvBankV {
    let p = md.layers@[li];
    let o = b.slot(p.reads());
    let a = b.with(p.reads(), o.holding(o.seq_len + rows));
    let t = a.slot(p.shares());
    if !p.produces() {
        b
    } else if md.kv.feeds_shared(li) {
        a.with(p.shares(), t.holding(t.seq_len + rows))
    } else {
        a
    }
}

proof fn lemma_reads_apart(md: GpuSynthModel, l: int, n: int)
    requires
        md.wf(),
        0 <= l < md.layers@.len(),
        0 <= n < md.layers@.len(),
        md.layers@[l].produces(),
        md.layers@[n].produces(),
        l != n,
    ensures
        md.layers@[l].reads() != md.layers@[n].reads(),
        md.layers@[l].reads() != md.layers@[n].shares(),
        md.layers@[l].shares() != md.layers@[n].reads(),
        md.kv.feeds_shared(l) && md.kv.feeds_shared(n) ==> md.layers@[l].shares()
            != md.layers@[n].shares(),
{
    assert(md.layers@[l].role == md.kv.layers@[l].role);
    assert(md.layers@[n].role == md.kv.layers@[n].role);
    kv::producers_have_distinct_slots(md.kv, l, n);
    if md.kv.feeds_shared(l) && md.kv.feeds_shared(n) && md.layers@[l].shares()
        == md.layers@[n].shares() {
        assert(md.kv.layers@[l].layer_type == md.kv.layers@[n].layer_type);
        kv::one_layer_feeds_shared(md.kv, l, n);
    }
}

/// One more layer brings the caches one layer further.
#[verifier::spinoff_prover]
proof fn lemma_synced_next<V>(
    s: Shapes<V>,
    m: Mem<V>,
    r: Mem<V>,
    b: KvBankV,
    run: Residuals<V>,
    pos: int,
    rows: int,
    n: int,
)
    requires
        s.model.wf(),
        step_plan::bank_fits(s.model, b),
        0 <= n < s.model.layers@.len(),
        0 <= pos,
        0 <= rows,
        pos + rows <= u32::MAX,
        synced(s, m, b, run, pos, rows, n),
        layer_left(
            s,
            m,
            r,
            b,
            n as usize,
            keys_of(s, run, source(s.model, n)),
            vals_of(s, run, source(s.model, n)),
            pos,
            rows,
        ),
    ensures
        synced(s, r, written(s.model, b, n, rows), run, pos, rows, n + 1),
{
    let md = s.model;
    let p = md.layers@[n];
    let own = p.reads();
    let sh = p.shares();
    let c = written(md, b, n, rows);
    step_plan::lemma_slots_exist(md, b, n);
    assert forall|l: int| 0 <= l < md.layers@.len() implies #[trigger] layer_synced(
        s,
        r,
        c,
        run,
        upto(pos, rows, n + 1, l),
        l,
    ) by {
        let q = md.layers@[l];
        let to = upto(pos, rows, n, l);
        let key = keys_of(s, run, l);
        let val = vals_of(s, run, l);
        assert(layer_synced(s, m, b, run, to, l));
        step_plan::lemma_slots_exist(md, b, l);
        if q.produces() && l != n {
            if p.produces() {
                lemma_reads_apart(md, l, n);
            }
            assert(slot_kept(m, r, q.reads()));
            layer_laws::lemma_still_holds(m, r, q.reads(), b.slot(q.reads()), key, val, to);
            assert(c.slot(q.reads()) == b.slot(q.reads()));
            if md.kv.feeds_shared(l) {
                assert(slot_kept(m, r, q.shares()));
                layer_laws::lemma_still_holds(
                    m,
                    r,
                    q.shares(),
                    b.slot(q.shares()),
                    key,
                    val,
                    to,
                );
                assert(c.slot(q.shares()) == b.slot(q.shares()));
            }
        } else if q.produces() {
            assert(own != sh);
            let o = b.slot(own);
            assert(c.slot(own) == o.holding(o.seq_len + rows));
            layer_laws::lemma_same_places(r, own, o, c.slot(own), key, val, pos + rows);
            if md.kv.feeds_shared(n) {
                let t = b.slot(sh);
                assert(c.slot(sh) == t.holding(t.seq_len + rows));
                layer_laws::lemma_same_places(r, sh, t, c.slot(sh), key, val, pos + rows);
            }
        }
    }
}

/// A layer finds its caches ready.
proof fn lemma_ready<V>(
    s: Shapes<V>,
    m: Mem<V>,
    b: KvBankV,
    run: Residuals<V>,
    pos: int,
    rows: int,
    n: int,
)
    requires
        s.model.wf(),
        0 <= n < s.model.layers@.len(),
        0 <= pos,
        1 <= rows,
        synced(s, m, b, run, pos, rows, n),
        reachable(s.model, b, pos, rows, n),
        forall|i: int| 0 <= i < rows ==> #[trigger] (m.row)(Buf::X, i) == (run.x)(n, pos + i),
    ensures
        ready(
            s,
            m,
            b,
            n as usize,
            keys_of(s, run, source(s.model, n)),
            vals_of(s, run, source(s.model, n)),
            pos,
            rows,
        ),
{
    let md = s.model;
    let p = md.layers@[n];
    let j = source(md, n);
    let key = keys_of(s, run, j);
    let val = vals_of(s, run, j);
    assert(p.role == md.kv.layers@[n].role);
    if p.produces() {
        assert(layer_synced(s, m, b, run, upto(pos, rows, n, n), n));
        assert forall|i: int| 0 <= i < rows implies #[trigger] makes(
            s,
            m,
            n as usize,
            key,
            val,
            pos,
            i,
        ) by {
            assert((m.row)(Buf::X, i) == (run.x)(n, pos + i));
        }
    } else {
        assert(feeds(md, j, n));
        assert(md.layers@[j].role == md.kv.layers@[j].role);
        assert(md.layers@[j].produces());
        assert(j < n);
        assert(layer_synced(s, m, b, run, upto(pos, rows, n, j), j));
        assert(md.layers@[j].shares() == p.reads());
    }
}

/// Part `k` of the captured row is the residual after the layer that it is for.
pub open spec fn part_captured<V>(
    m: Mem<V>,
    ids: Seq<usize>,
    run: Residuals<V>,
    pos: int,
    k: int,
) -> bool {
    (m.row)(Buf::CaptureRow, k) == (run.x)(ids[k] + 1, pos)
}

/// The captured row holds the residuals after those of the first `n` layers that are
/// captured, each in the place of its layer.
pub open spec fn row_captured<V>(
    m: Mem<V>,
    f: StepFlags,
    ids: Option<Seq<usize>>,
    run: Residuals<V>,
    pos: int,
    n: int,
) -> bool {
    ids matches Some(s) ==> !f.capture_nop ==> forall|k: int|
        0 <= k < s.len() && s[k] < n && capture::first_index(s, s[k], k) ==> #[trigger]
            part_captured(m, s, run, pos, k)
}

/// The captured layers can be addressed.
pub open spec fn ids_fit(ids: Option<Seq<usize>>, hidden: int) -> bool {
    ids matches Some(s) ==> s.len() * hidden <= usize::MAX
}

proof fn lemma_capture<V>(
    s: Shapes<V>,
    m: Mem<V>,
    f: StepFlags,
    ids: Option<Seq<usize>>,
    run: Residuals<V>,
    pos: int,
    li: int,
)
    requires
        0 < s.model.hidden <= u32::MAX,
        0 <= li < usize::MAX,
        ids_fit(ids, s.model.hidden as int),
        row_captured(m, f, ids, run, pos, li),
        (m.row)(Buf::X, 0) == (run.x)(li + 1, pos),
    ensures
        ({
            let r = machine::run(
                s,
                m,
                session::capture_ops(f, ids, li as usize, s.model.hidden as int),
            );
            &&& r == (Mem { row: r.row, ..m })
            &&& kept(m, r, Buf::X)
            &&& row_captured(r, f, ids, run, pos, li + 1)
        }),
{
    let h = s.model.hidden as int;
    let ops = session::capture_ops(f, ids, li as usize, h);
    let r = machine::run(s, m, ops);
    machine::lemma_none(s, m);
    if let Some(t) = ids {
        let l = li as usize;
        if f.capture_nop {
        } else if !t.contains(l) {
            assert forall|k: int|
                0 <= k < t.len() && t[k] < li + 1 && capture::first_index(
                    t,
                    t[k],
                    k,
                ) implies #[trigger] part_captured(r, t, run, pos, k) by {
                assert(t[k] != l);
                assert(part_captured(m, t, run, pos, k));
            }
        } else {
            let slot = choose|i: int| capture::first_index(t, l, i);
            lemma_first_exists(t, l);
            let pre: Seq<Op> = if f.hazard {
                seq![Op::Synchronize]
            } else if f.capture_barrier {
                seq![Op::Barrier]
            } else {
                seq![]
            };
            assert(0 <= slot * h <= t.len() * h) by (nonlinear_arith)
                requires
                    0 <= slot <= t.len(),
                    0 < h,
            ;
            let op = Op::CopyF32 {
                src: Buf::X,
                from: 0,
                dst: Buf::CaptureRow,
                to: (slot * h) as usize,
                n: h as u32,
            };
            machine::lemma_cat(s, m, pre, seq![op]);
            machine::lemma_one(s, m, Op::Synchronize);
            machine::lemma_one(s, m, Op::Barrier);
            machine::lemma_one(s, m, op);
            assert(machine::run(s, m, pre) == m);
            assert(r == machine::exec(s, m, op));
            assert((slot + 1) * h == slot * h + h) by (nonlinear_arith);
            assert(slot * h - slot * h + 0 == 0);
            assert(0int / h == 0) by {
                lemma_basic_div(0, h);
            }
            assert(0int * h == 0) by (nonlinear_arith);
            assert((r.row)(Buf::CaptureRow, slot) == (m.row)(Buf::X, 0));
            assert forall|k: int|
                0 <= k < t.len() && t[k] < li + 1 && capture::first_index(
                    t,
                    t[k],
                    k,
                ) implies #[trigger] part_captured(r, t, run, pos, k) by {
                if t[k] == l {
                    assert(k == slot) by {
                        if k < slot {
                            assert(t[k] != l);
                        } else if slot < k {
                            assert(t[slot] != t[k]);
                        }
                    }
                } else {
                    assert(part_captured(m, t, run, pos, k));
                    assert(k != slot);
                    assert(!(slot * h <= k * h && (k + 1) * h <= slot * h + h)) by (nonlinear_arith)
                        requires
                            k != slot,
                            0 < h,
                    ;
                }
            }
        }
    }
}

proof fn lemma_first_exists(t: Seq<usize>, l: usize)
    requires
        t.contains(l),
    ensures
        exists|i: int| capture::first_index(t, l, i),
{
    let w = choose|w: int| 0 <= w < t.len() && t[w] == l;
    lemma_first_before(t, l, w);
}

proof fn lemma_first_before(t: Seq<usize>, l: usize, w: int)
    requires
        0 <= w < t.len(),
        t[w] == l,
    ensures
        exists|i: int| capture::first_index(t, l, i),
    decreases w,
{
    if forall|j: int| 0 <= j < w ==> t[j] != l {
        assert(capture::first_index(t, l, w));
    } else {
        let j = choose|j: int| 0 <= j < w && t[j] == l;
        lemma_first_before(t, l, j);
    }
}

/// What the layers of a step change: buffers and caches.
pub open spec fn pass_left<V>(a: Mem<V>, b: Mem<V>) -> bool {
    b == (Mem {
        row: b.row,
        keys: b.keys,
        vals: b.vals,
        dense_k: b.dense_k,
        dense_v: b.dense_v,
        o_width: b.o_width,
        token: b.token,
        ..a
    })
}

/// The layers of a step compute the model's residual at its position and leave the model's
/// keys and values in the caches; the captured row holds the residuals that it is for.
#[verifier::spinoff_prover]
#[verifier::rlimit(60)]
pub proof fn layers_compute_the_model<V>(
    s: Shapes<V>,
    m: Mem<V>,
    f: StepFlags,
    caps: Seq<LayerCaps>,
    ids: Option<Seq<usize>>,
    b: KvBankV,
    run: Residuals<V>,
    pos: int,
    n: int,
)
    requires
        s.model.wf(),
        s.model.layers@.len() < usize::MAX,
        0 < s.model.hidden,
        step_plan::bank_fits(s.model, b),
        b.lens_at_most(usize::MAX - s.model.layers@.len() - 1),
        0 <= n <= s.model.layers@.len(),
        session::layers_run(f, s.model, caps, ids, b, pos, n) is Ok,
        follows(s, f, run),
        ids_fit(ids, s.model.hidden as int),
        all_reachable(s.model, b, pos, 1),
        0 <= pos < u32::MAX,
        synced(s, m, b, run, pos, 1, 0),
        m.pos == pos,
        (m.token)(Buf::SeedTok, 0) == (run.token)(pos),
        (m.row)(Buf::X, 0) == (run.x)(0, pos),
    ensures
        ({
            let (c, ops) = session::layers_run(f, s.model, caps, ids, b, pos, n)->Ok_0;
            let r = machine::run(s, m, ops);
            &&& pass_left(m, r)
            &&& r.token == m.token
            &&& synced(s, r, c, run, pos, 1, n)
            &&& (r.row)(Buf::X, 0) == (run.x)(n, pos)
            &&& row_captured(r, f, ids, run, pos, n)
            &&& step_plan::bank_fits(s.model, c)
            &&& c.same_shapes(b)
            &&& c.lens_at_most(usize::MAX - s.model.layers@.len() - 1 + n)
        }),
    decreases n,
{
    let md = s.model;
    if n <= 0 {
        machine::lemma_none(s, m);
    } else {
        let l = n - 1;
        layers_compute_the_model(s, m, f, caps, ids, b, run, pos, l);
        let (c, before) = session::layers_run(f, md, caps, ids, b, pos, l)->Ok_0;
        let r = machine::run(s, m, before);
        let (d, more) = step_plan::layer_run(f, md, caps[l], c, l as usize, pos)->Ok_0;
        let cap = session::capture_ops(f, ids, l as usize, md.hidden as int);
        machine::lemma_cat(s, m, before + more, cap);
        machine::lemma_cat(s, m, before, more);
        let t = machine::run(s, r, more);
        step_plan::lemma_slots_exist(md, b, l);
        assert(reachable(md, b, pos, 1, l));
        lemma_reachable_shapes(md, b, c, pos, 1, l);
        lemma_ready(s, r, c, run, pos, 1, l);
        let j = source(md, l);
        layer_laws::a_layer_computes_its_row(
            s,
            r,
            f,
            caps[l],
            c,
            l as usize,
            pos,
            keys_of(s, run, j),
            vals_of(s, run, j),
        );
        lemma_synced_next(s, r, t, c, run, pos, 1, l);
        lemma_written_step(f, md, caps[l], c, l as usize, pos);
        session::lemma_layer_growth(
            f,
            md,
            caps[l],
            c,
            l as usize,
            pos,
            usize::MAX - md.layers@.len() - 1 + l,
        );
        assert(layer_follows(s, f, run, l, pos));
        assert((t.row)(Buf::X, 0) == (run.x)(n, pos));
        assert(row_captured(t, f, ids, run, pos, l)) by {
            if let Some(q) = ids {
                if !f.capture_nop {
                    assert forall|k: int|
                        0 <= k < q.len() && q[k] < l && capture::first_index(
                            q,
                            q[k],
                            k,
                        ) implies #[trigger] part_captured(t, q, run, pos, k) by {
                        assert(part_captured(r, q, run, pos, k));
                        assert((t.row)(Buf::CaptureRow, k) == (r.row)(Buf::CaptureRow, k));
                    }
                }
            }
        }
        lemma_capture(s, t, f, ids, run, pos, l);
        let u = machine::run(s, t, cap);
        assert(synced(s, u, d, run, pos, 1, n)) by {
            lemma_synced_rows(s, t, u, d, run, pos, 1, n);
        }
        lemma_shapes(b, c, d);
        assert(pass_left(m, u));
    }
}

proof fn lemma_shapes(a: KvBankV, b: KvBankV, c: KvBankV)
    requires
        b.same_shapes(a),
        c.same_shapes(b),
    ensures
        c.same_shapes(a),
{
    assert forall|r: SlotRef| #[trigger] c.has(r) implies c.slot(r).same_shape(a.slot(r)) by {
        assert(b.has(r));
        assert(b.slot(r).same_shape(a.slot(r)));
    }
}

/// Rows of buffers have no part in what the caches hold.
proof fn lemma_synced_rows<V>(
    s: Shapes<V>,
    m: Mem<V>,
    r: Mem<V>,
    b: KvBankV,
    run: Residuals<V>,
    pos: int,
    rows: int,
    n: int,
)
    requires
        synced(s, m, b, run, pos, rows, n),
        r.keys == m.keys,
        r.vals == m.vals,
    ensures
        synced(s, r, b, run, pos, rows, n),
{
    assert forall|l: int| 0 <= l < s.model.layers@.len() implies #[trigger] layer_synced(
        s,
        r,
        b,
        run,
        upto(pos, rows, n, l),
        l,
    ) by {
        let to = upto(pos, rows, n, l);
        let p = s.model.layers@[l];
        assert(layer_synced(s, m, b, run, to, l));
        if p.produces() {
            let key = keys_of(s, run, l);
            let val = vals_of(s, run, l);
            layer_laws::lemma_still_holds(m, r, p.reads(), b.slot(p.reads()), key, val, to);
            if s.model.kv.feeds_shared(l) {
                layer_laws::lemma_still_holds(m, r, p.shares(), b.slot(p.shares()), key, val, to);
            }
        }
    }
}

proof fn lemma_reachable_shapes(
    md: GpuSynthModel,
    b: KvBankV,
    c: KvBankV,
    pos: int,
    rows: int,
    l: int,
)
    requires
        md.wf(),
        step_plan::bank_fits(md, b),
        step_plan::bank_fits(md, c),
        c.same_shapes(b),
        0 <= l < md.layers@.len(),
        reachable(md, b, pos, rows, l),
    ensures
        reachable(md, c, pos, rows, l),
{
    step_plan::lemma_slots_exist(md, b, l);
    step_plan::lemma_slots_exist(md, c, l);
    let p = md.layers@[l];
    assert(c.slot(p.reads()).same_shape(b.slot(p.reads())));
    assert(c.slot(p.shares()).same_shape(b.slot(p.shares())));
}

/// The bank after a layer of a step is the one that it has written.
proof fn lemma_written_step(
    f: StepFlags,
    md: GpuSynthModel,
    c: LayerCaps,
    b: KvBankV,
    li: usize,
    pos: int,
)
    requires
        step_plan::layer_run(f, md, c, b, li, pos) is Ok,
    ensures
        step_plan::layer_run(f, md, c, b, li, pos)->Ok_0.0 == written(md, b, li as int, 1),
{
    reveal(step_plan::layer_run);
}

/// The context row of a position: the projection of the residuals after the captured
/// layers.
pub open spec fn context_of<V>(s: Shapes<V>, run: Residuals<V>, ids: Seq<usize>, p: int) -> V {
    (s.kernels.cond_norm)(
        s.ctx_width,
        (s.kernels.fc)(
            |k: int|
                if 0 <= k < ids.len() {
                    Some((run.x)(ids[k] + 1, p))
                } else {
                    None
                },
        ),
    )
}

/// Every captured layer has one place, and is a layer of the model.
pub open spec fn ids_sound(ids: Seq<usize>, layers: int) -> bool {
    forall|k: int|
        0 <= k < ids.len() ==> (#[trigger] ids[k]) < layers && capture::first_index(
            ids,
            ids[k],
            k,
        )
}

/// A captured row that is complete makes the context row of its position.
proof fn lemma_context_row<V>(
    s: Shapes<V>,
    m: Mem<V>,
    ids: Seq<usize>,
    run: Residuals<V>,
    p: int,
)
    requires
        s.parts == ids.len(),
        forall|k: int| 0 <= k < ids.len() ==> #[trigger] part_captured(m, ids, run, p, k),
    ensures
        compute_laws::context_row(s, m) == context_of(s, run, ids, p),
{
    let a = machine::captured_row(s, m);
    let c = |k: int|
        if 0 <= k < ids.len() {
            Some((run.x)(ids[k] + 1, p))
        } else {
            None
        };
    assert forall|k: int| #[trigger] a(k) == c(k) by {
        if 0 <= k < ids.len() {
            assert(part_captured(m, ids, run, p, k));
        }
    }
    assert(a =~= c);
}

proof fn lemma_all_parts<V>(
    m: Mem<V>,
    f: StepFlags,
    ids: Seq<usize>,
    run: Residuals<V>,
    p: int,
    n: int,
)
    requires
        row_captured(m, f, Some(ids), run, p, n),
        !f.capture_nop,
        ids_sound(ids, n),
    ensures
        forall|k: int| 0 <= k < ids.len() ==> #[trigger] part_captured(m, ids, run, p, k),
{
    assert forall|k: int| 0 <= k < ids.len() implies #[trigger] part_captured(
        m,
        ids,
        run,
        p,
        k,
    ) by {
        let o = Some(ids);
        assert(o->0 == ids);
        assert(ids[k] < n && capture::first_index(ids, ids[k], k));
        assert(part_captured(m, o->0, run, p, k));
    }
}

/// The token that a step is asked for is the one that stands at its position, and it is in
/// place where the host does not write it.
pub open spec fn token_in_place<V>(
    m: Mem<V>,
    run: Residuals<V>,
    g: GpuDecodeSession,
    req: StepRequest,
) -> bool {
    &&& req.token() == (run.token)(g.pos as int)
    &&& match req.seed {
        StepSeed::Host(_) => true,
        StepSeed::FromArgmax => (m.token)(Buf::ArgmaxTok, 0) == req.resident,
        StepSeed::Resident => (m.token)(Buf::SeedTok, 0) == req.resident,
    }
}

/// The memory, the caches and the session agree with the model up to the session's
/// position, and there is room for `rows` more positions.
pub open spec fn on_course<V>(
    s: Shapes<V>,
    m: Mem<V>,
    g: GpuDecodeSession,
    flags: StepFlags,
    run: Residuals<V>,
    rows: int,
) -> bool {
    let f = session::effective(flags, g.capture is Some);
    &&& g.wf()
    &&& g.model == s.model
    &&& 0 < s.model.hidden
    &&& 0 < s.model.vocab
    &&& unit_scale(s)
    &&& follows(s, f, run)
    &&& g.pos + rows < u32::MAX
    &&& g.kv@.lens_at_most(usize::MAX - 8 * (s.model.layers@.len() + 1))
    &&& all_reachable(s.model, g.kv@, g.pos as int, rows)
    &&& synced(s, m, g.kv@, run, g.pos as int, rows, 0)
}

/// The middle of a step, where its layers are encoded or recorded.
proof fn lemma_step_middle<V>(
    s: Shapes<V>,
    m: Mem<V>,
    g: GpuDecodeSession,
    flags: StepFlags,
    caps: Seq<LayerCaps>,
    mode: LayerMode,
    tape: Option<Seq<crate::icb::IcbScalarTapeOp>>,
    run: Residuals<V>,
)
    requires
        on_course(s, m, g, flags, run, 1),
        mode == LayerMode::Encode || mode == LayerMode::Record,
        decode::middle_run(
            g,
            session::effective(flags, g.capture is Some),
            caps,
            mode,
            tape,
        ) is Ok,
        m.pos == g.pos,
        (m.token)(Buf::SeedTok, 0) == (run.token)(g.pos as int),
        (m.row)(Buf::X, 0) == (run.x)(0, g.pos as int),
    ensures
        ({
            let f = session::effective(flags, g.capture is Some);
            let n = s.model.layers@.len() as int;
            let (c, ops) = decode::middle_run(g, f, caps, mode, tape)->Ok_0;
            let r = machine::run(s, m, ops);
            &&& pass_left(m, r)
            &&& synced(s, r, c, run, g.pos as int, 1, n)
            &&& (r.row)(Buf::X, 0) == (run.x)(n, g.pos as int)
            &&& row_captured(r, f, session::ids_of(g.capture), run, g.pos as int, n)
        }),
{
    reveal(decode::middle_run);
    let f = session::effective(flags, g.capture is Some);
    let ids = session::ids_of(g.capture);
    let n = s.model.layers@.len() as int;
    assert(ids_fit(ids, s.model.hidden as int));
    layers_compute_the_model(s, m, f, caps, ids, g.kv@, run, g.pos as int, n);
    let layers = session::layers_run(f, g.model, caps, ids, g.kv@, g.pos as int, n)->Ok_0.1;
    if mode == LayerMode::Record {
        let a = seq![Op::BeginRecord];
        let z = seq![Op::EndRecord];
        machine::lemma_cat(s, m, a + layers, z);
        machine::lemma_cat(s, m, a, layers);
        machine::lemma_one(s, m, Op::BeginRecord);
        machine::lemma_one(s, machine::run(s, m, layers), Op::EndRecord);
    }
}

/// What a step does behind its layers.
#[verifier::spinoff_prover]
proof fn lemma_step_back<V>(
    s: Shapes<V>,
    m: Mem<V>,
    g: GpuDecodeSession,
    flags: StepFlags,
    req: StepRequest,
    run: Residuals<V>,
)
    requires
        g.wf(),
        g.model == s.model,
        0 < s.model.vocab,
        req.mode == LayerMode::Encode || req.mode == LayerMode::Record,
        decode::back_run(g, flags, req) is Ok,
        (m.row)(Buf::X, 0) == (run.x)(s.model.layers@.len() as int, g.pos as int),
        row_captured(
            m,
            session::effective(flags, g.capture is Some),
            session::ids_of(g.capture),
            run,
            g.pos as int,
            s.model.layers@.len() as int,
        ),
    ensures
        ({
            let n = s.model.layers@.len() as int;
            let pos = g.pos as int;
            let r = machine::run(s, m, decode::back_run(g, flags, req)->Ok_0);
            &&& r.keys == m.keys
            &&& r.vals == m.vals
            &&& req.head ==> (r.token)(Buf::ArgmaxTok, 0) == chosen(s, (run.x)(n, pos))
            &&& row_captured(
                r,
                session::effective(flags, g.capture is Some),
                session::ids_of(g.capture),
                run,
                pos,
                n,
            )
            &&& context_grows(s, m, r, g, flags, req, run)
        }),
{
    reveal(decode::back_run);
    let f = session::effective(flags, g.capture is Some);
    let n = s.model.layers@.len() as int;
    let pos = g.pos as int;
    let settle = decode::settle_ops(req.mode, f.hazard);
    let head = decode::head_ops(f, s.model, req.head);
    let flush = decode::flush_run(g, f.hazard, req.readback)->Ok_0;
    let bar = step_plan::barrier_if(f.hazard);
    machine::lemma_cat(s, m, settle + head, flush);
    machine::lemma_cat(s, m, settle, head);
    machine::lemma_none(s, m);
    compute_laws::steps_choose_from_their_row(s, m, f);
    let m1 = machine::run(s, m, head);
    machine::lemma_none(s, m1);
    lemma_captured_kept(m, m1, f, session::ids_of(g.capture), run, pos, n);
    let r = machine::run(s, m1, flush);
    if g.capture is Some && !req.readback {
        let sync = seq![Op::Synchronize];
        machine::lemma_barrier(s, m1, f.hazard);
        match g.conditioner {
            None => {
                machine::lemma_cat(s, m1, bar, sync);
                machine::lemma_one(s, m1, Op::Synchronize);
            },
            Some(c) => {
                let ops = conditioner::project_ops(f.hazard, c.hidden as int, c.ctx_len as int);
                machine::lemma_cat(s, m1, bar + ops, sync);
                machine::lemma_cat(s, m1, bar, ops);
                let m2 = machine::run(s, m1, ops);
                machine::lemma_one(s, m2, Op::Synchronize);
                lemma_project_frame(s, m1, f.hazard, c.hidden as int, c.ctx_len as int);
                lemma_captured_kept(m1, m2, f, session::ids_of(g.capture), run, pos, n);
                let ids = g.capture->0.layer_ids@;
                assert(session::ids_of(g.capture) == Some(ids));
                assert(row_captured(m1, f, Some(ids), run, pos, n));
                if s.ctx_width == c.hidden && s.parts == ids.len() && 0 < c.hidden <= u32::MAX
                    && !f.capture_nop && ids_sound(ids, n) {
                    lemma_all_parts(m1, f, ids, run, pos, n);
                    lemma_context_row(s, m1, ids, run, pos);
                    assert(c.ctx_len * c.hidden <= c.max_ctx * c.hidden) by (nonlinear_arith)
                        requires
                            c.ctx_len <= c.max_ctx,
                    ;
                    assert forall|j: int| #[trigger] (m2.ctx)(j) == (if j == c.ctx_len {
                        context_of(s, run, ids, pos)
                    } else {
                        (m.ctx)(j)
                    }) by {
                        compute_laws::projected_rows_are_appended(
                            s,
                            m1,
                            f.hazard,
                            c.ctx_len as int,
                            j,
                        );
                    }
                }
            },
        }
    }
}

/// The context grows by the row of the step's position, where one is owed, and keeps the
/// rows that it had.
pub open spec fn context_grows<V>(
    s: Shapes<V>,
    m: Mem<V>,
    r: Mem<V>,
    g: GpuDecodeSession,
    flags: StepFlags,
    req: StepRequest,
    run: Residuals<V>,
) -> bool {
    match (g.capture, g.conditioner) {
        (Some(p), Some(c)) => {
            let ids = p.layer_ids@;
            &&& s.ctx_width == c.hidden && s.parts == ids.len() && 0 < c.hidden <= u32::MAX
                && !flags.capture_nop && ids_sound(ids, s.model.layers@.len() as int)
                && !req.readback ==> forall|j: int| #[trigger]
                (r.ctx)(j) == (if j == c.ctx_len {
                    context_of(s, run, ids, g.pos as int)
                } else {
                    (m.ctx)(j)
                })
            &&& req.readback ==> r.ctx == m.ctx
        },
        _ => r.ctx == m.ctx,
    }
}

proof fn lemma_project_frame<V>(s: Shapes<V>, m: Mem<V>, hazard: bool, w: int, n: int)
    ensures
        ({
            let r = machine::run(s, m, conditioner::project_ops(hazard, w, n));
            r == (Mem { cond: r.cond, ctx: r.ctx, ..m })
        }),
{
    let bar = step_plan::barrier_if(hazard);
    let norm = Op::CondNorm { n: kv_slot::low32(w) };
    let store = Op::CondStore { at: (n * w) as usize, n: kv_slot::low32(w) };
    machine::lemma_cat(s, m, seq![Op::CondFc] + bar, seq![norm, store]);
    machine::lemma_cat(s, m, seq![Op::CondFc], bar);
    machine::lemma_one(s, m, Op::CondFc);
    let m1 = machine::exec(s, m, Op::CondFc);
    machine::lemma_barrier(s, m1, hazard);
    machine::lemma_two(s, m1, norm, store);
}

proof fn lemma_captured_kept<V>(
    m: Mem<V>,
    r: Mem<V>,
    f: StepFlags,
    ids: Option<Seq<usize>>,
    run: Residuals<V>,
    pos: int,
    n: int,
)
    requires
        row_captured(m, f, ids, run, pos, n),
        kept(m, r, Buf::CaptureRow),
    ensures
        row_captured(r, f, ids, run, pos, n),
{
    if let Some(q) = ids {
        if !f.capture_nop {
            assert forall|k: int|
                0 <= k < q.len() && q[k] < n && capture::first_index(
                    q,
                    q[k],
                    k,
                ) implies #[trigger] part_captured(r, q, run, pos, k) by {
                assert(part_captured(m, q, run, pos, k));
                assert((r.row)(Buf::CaptureRow, k) == (m.row)(Buf::CaptureRow, k));
            }
        }
    }
}

/// A step computes the model. Where memory and caches agree with the model up to a
/// position, a step with the token of that position chooses what the model's last residual
/// there chooses, leaves memory and caches in agreement with the model up to the next
/// position, and captures and projects the residuals that it is asked to.
#[verifier::spinoff_prover]
#[verifier::rlimit(100)]
pub proof fn steps_compute_the_model<V>(
    s: Shapes<V>,
    m: Mem<V>,
    g: GpuDecodeSession,
    flags: StepFlags,
    caps: Seq<LayerCaps>,
    req: StepRequest,
    tape: Option<Seq<crate::icb::IcbScalarTapeOp>>,
    run: Residuals<V>,
)
    requires
        on_course(s, m, g, flags, run, 1),
        token_in_place(m, run, g, req),
        req.mode == LayerMode::Encode || req.mode == LayerMode::Record,
        decode::encode_run(g, flags, caps, req, tape) is Ok,
    ensures
        ({
            let f = session::effective(flags, g.capture is Some);
            let n = s.model.layers@.len() as int;
            let pos = g.pos as int;
            let (c, ops) = decode::encode_run(g, flags, caps, req, tape)->Ok_0;
            let r = machine::run(s, m, ops);
            &&& synced(s, r, c, run, pos + 1, 1, 0)
            &&& req.head ==> (r.token)(Buf::ArgmaxTok, 0) == chosen(s, (run.x)(n, pos))
            &&& row_captured(r, f, session::ids_of(g.capture), run, pos, n)
            &&& context_grows(s, m, r, g, flags, req, run)
        }),
{
    reveal(decode::encode_run);
    let f = session::effective(flags, g.capture is Some);
    let n = s.model.layers@.len() as int;
    let pos = g.pos as int;
    let open = decode::open_run(g, f, req)->Ok_0;
    let (c, mid) = decode::middle_run(g, f, caps, req.mode, tape)->Ok_0;
    let back = decode::back_run(g, flags, req)->Ok_0;
    let none = decode::replay_ops(req.mode);
    machine::lemma_cat(s, m, open + mid + none, back);
    machine::lemma_cat(s, m, open + mid, none);
    machine::lemma_cat(s, m, open, mid);
    steps_begin_with_their_token(s, m, g, f, req);
    let m1 = machine::run(s, m, open);
    lemma_synced_rows(s, m, m1, g.kv@, run, pos, 1, 0);
    assert((run.x)(0, pos) == embedded(s, (run.token)(pos)));
    lemma_step_middle(s, m1, g, flags, caps, req.mode, tape, run);
    let m2 = machine::run(s, m1, mid);
    machine::lemma_none(s, m2);
    lemma_step_back(s, m2, g, flags, req, run);
    let r = machine::run(s, m2, back);
    lemma_synced_rows(s, m2, r, c, run, pos, 1, n);
    assert forall|l: int| 0 <= l < n implies #[trigger] layer_synced(
        s,
        r,
        c,
        run,
        upto(pos + 1, 1, 0, l),
        l,
    ) by {
        assert(layer_synced(s, r, c, run, upto(pos, 1, n, l), l));
    }
}

/// Where part `k` of staged row `i` stands among the staged parts.
pub open spec fn cell(parts: int, i: int, k: int) -> int {
    i * parts + k
}

proof fn lemma_cells_apart(parts: int, i: int, k: int, j: int, l: int)
    requires
        0 <= k < parts,
        0 <= l < parts,
        cell(parts, i, k) == cell(parts, j, l),
    ensures
        i == j,
        k == l,
{
    assert(i == j) by (nonlinear_arith)
        requires
            i * parts + k == j * parts + l,
            0 <= k < parts,
            0 <= l < parts,
    ;
}

/// A copy of one row between row boundaries.
proof fn lemma_copy_row<V>(s: Shapes<V>, m: Mem<V>, src: Buf, from: int, dst: Buf, to: int)
    requires
        0 < s.model.hidden <= u32::MAX,
        0 <= from,
        0 <= to,
        from * s.model.hidden <= usize::MAX,
        to * s.model.hidden <= usize::MAX,
    ensures
        ({
            let h = s.model.hidden as int;
            let r = machine::exec(
                s,
                m,
                Op::CopyF32 {
                    src,
                    from: (from * h) as usize,
                    dst,
                    to: (to * h) as usize,
                    n: h as u32,
                },
            );
            &&& r == (Mem { row: r.row, ..m })
            &&& forall|b: Buf, q: int| #[trigger]
                (r.row)(b, q) == (if b == dst && q == to {
                    (m.row)(src, from)
                } else {
                    (m.row)(b, q)
                })
        }),
{
    let h = s.model.hidden as int;
    assert(0 <= from * h && 0 <= to * h && h * from == from * h) by (nonlinear_arith)
        requires
            0 <= from,
            0 <= to,
            0 < h,
    ;
    lemma_div_multiples_vanish(from, h);
    let op = Op::CopyF32 {
        src,
        from: (from * h) as usize,
        dst,
        to: (to * h) as usize,
        n: h as u32,
    };
    let r = machine::exec(s, m, op);
    assert forall|b: Buf, q: int| #[trigger]
        (r.row)(b, q) == (if b == dst && q == to {
            (m.row)(src, from)
        } else {
            (m.row)(b, q)
        }) by {
        assert((to * h <= q * h && (q + 1) * h <= to * h + h) == (q == to)) by (nonlinear_arith)
            requires
                0 < h,
        ;
        if q == to {
            assert(q * h - to * h + from * h == from * h);
        }
    }
}

proof fn lemma_stage_copies<V>(s: Shapes<V>, m: Mem<V>, slot: int, parts: int, n: int)
    requires
        0 < s.model.hidden <= u32::MAX,
        0 <= slot < parts,
        0 <= n,
        n * (parts * s.model.hidden) <= usize::MAX,
    ensures
        ({
            let h = s.model.hidden as int;
            let r = machine::run(s, m, verify::stage_copies(slot, parts * h, h, n));
            &&& r == (Mem { row: r.row, ..m })
            &&& forall|b: Buf, q: int|
                b != Buf::CaptureStage ==> #[trigger] (r.row)(b, q) == (m.row)(b, q)
            &&& forall|i: int, k: int|
                0 <= i && 0 <= k < parts ==> #[trigger] (r.row)(
                    Buf::CaptureStage,
                    cell(parts, i, k),
                ) == (if k == slot && i < n {
                    (m.row)(Buf::X, i)
                } else {
                    (m.row)(Buf::CaptureStage, cell(parts, i, k))
                })
        }),
    decreases n,
{
    let h = s.model.hidden as int;
    let all = verify::stage_copies(slot, parts * h, h, n);
    if n == 0 {
        assert(all =~= Seq::<Op>::empty());
        machine::lemma_none(s, m);
    } else {
        let i0 = n - 1;
        assert(i0 * (parts * h) <= n * (parts * h)) by (nonlinear_arith)
            requires
                i0 <= n,
                0 < parts,
                0 < h,
        ;
        lemma_stage_copies(s, m, slot, parts, i0);
        let before = verify::stage_copies(slot, parts * h, h, i0);
        let op = all[i0];
        assert(all =~= before + seq![op]);
        machine::lemma_cat(s, m, before, seq![op]);
        let t = machine::run(s, m, before);
        machine::lemma_one(s, t, op);
        let c0 = cell(parts, i0, slot);
        assert(i0 * (parts * h) + slot * h == c0 * h) by (nonlinear_arith)
            requires
                c0 == i0 * parts + slot,
        ;
        assert(c0 * h <= n * (parts * h)) by (nonlinear_arith)
            requires
                c0 == i0 * parts + slot,
                i0 == n - 1,
                slot < parts,
                0 < h,
        ;
        assert(0 <= c0) by (nonlinear_arith)
            requires
                c0 == i0 * parts + slot,
                0 <= i0,
                0 <= slot < parts,
        ;
        assert(i0 * h <= c0 * h) by (nonlinear_arith)
            requires
                c0 == i0 * parts + slot,
                0 <= i0,
                0 <= slot < parts,
                0 < h,
        ;
        lemma_copy_row(s, t, Buf::X, i0, Buf::CaptureStage, c0);
        let r = machine::exec(s, t, op);
        assert forall|i: int, k: int| 0 <= i && 0 <= k < parts implies #[trigger] (r.row)(
            Buf::CaptureStage,
            cell(parts, i, k),
        ) == (if k == slot && i < n {
            (m.row)(Buf::X, i)
        } else {
            (m.row)(Buf::CaptureStage, cell(parts, i, k))
        }) by {
            if cell(parts, i, k) == c0 {
                lemma_cells_apart(parts, i, k, i0, slot);
            }
            assert((t.row)(Buf::CaptureStage, cell(parts, i, k)) == (if k == slot && i < i0 {
                (m.row)(Buf::X, i)
            } else {
                (m.row)(Buf::CaptureStage, cell(parts, i, k))
            }));
        }
    }
}

/// Part `k` of staged row `i` is the residual after the layer that it is for.
pub open spec fn cell_captured<V>(
    m: Mem<V>,
    ids: Seq<usize>,
    run: Residuals<V>,
    pos: int,
    i: int,
    k: int,
) -> bool {
    (m.row)(Buf::CaptureStage, cell(ids.len() as int, i, k)) == (run.x)(ids[k] + 1, pos + i)
}

/// The staged rows hold the residuals after those of the first `n` layers that are
/// captured, row by row and each in the place of its layer.
pub open spec fn rows_captured<V>(
    m: Mem<V>,
    ids: Seq<usize>,
    run: Residuals<V>,
    pos: int,
    rows: int,
    n: int,
) -> bool {
    forall|i: int, k: int|
        0 <= i < rows && 0 <= k < ids.len() && ids[k] < n && capture::first_index(
            ids,
            ids[k],
            k,
        ) ==> #[trigger] cell_captured(m, ids, run, pos, i, k)
}

#[verifier::spinoff_prover]
proof fn lemma_block_capture<V>(
    s: Shapes<V>,
    m: Mem<V>,
    f: StepFlags,
    ids: Seq<usize>,
    run: Residuals<V>,
    pos: int,
    rows: int,
    li: int,
)
    requires
        0 < s.model.hidden <= u32::MAX,
        0 <= li < usize::MAX,
        0 <= rows,
        rows * (ids.len() * s.model.hidden) <= usize::MAX,
        rows_captured(m, ids, run, pos, rows, li),
        forall|i: int| 0 <= i < rows ==> #[trigger] (m.row)(Buf::X, i) == (run.x)(li + 1, pos + i),
    ensures
        ({
            let r = machine::run(
                s,
                m,
                verify::block_capture_ops(
                    f,
                    Some(ids),
                    li as usize,
                    s.model.hidden as int,
                    rows,
                ),
            );
            &&& r == (Mem { row: r.row, ..m })
            &&& kept(m, r, Buf::X)
            &&& rows_captured(r, ids, run, pos, rows, li + 1)
        }),
{
    let h = s.model.hidden as int;
    let l = li as usize;
    let ops = verify::block_capture_ops(f, Some(ids), l, h, rows);
    let r = machine::run(s, m, ops);
    machine::lemma_none(s, m);
    if !ids.contains(l) {
        assert(r == m);
        assert forall|i: int, k: int|
            0 <= i < rows && 0 <= k < ids.len() && ids[k] < li + 1 && capture::first_index(
                ids,
                ids[k],
                k,
            ) implies #[trigger] cell_captured(r, ids, run, pos, i, k) by {
            assert(ids[k] != l);
            assert(cell_captured(m, ids, run, pos, i, k));
        }
    } else {
        let slot = choose|i: int| capture::first_index(ids, l, i);
        lemma_first_exists(ids, l);
        let pre: Seq<Op> = if f.hazard {
            seq![Op::Synchronize]
        } else if f.capture_barrier {
            seq![Op::Barrier]
        } else {
            seq![]
        };
        let parts = ids.len() as int;
        let copies = verify::stage_copies(slot, parts * h, h, rows);
        assert(ops == pre + copies);
        machine::lemma_cat(s, m, pre, copies);
        machine::lemma_one(s, m, Op::Synchronize);
        machine::lemma_one(s, m, Op::Barrier);
        assert(machine::run(s, m, pre) == m);
        lemma_stage_copies(s, m, slot, parts, rows);
        assert forall|i: int, k: int|
            0 <= i < rows && 0 <= k < ids.len() && ids[k] < li + 1 && capture::first_index(
                ids,
                ids[k],
                k,
            ) implies #[trigger] cell_captured(r, ids, run, pos, i, k) by {
            assert((r.row)(Buf::CaptureStage, cell(parts, i, k)) == (if k == slot && i < rows {
                (m.row)(Buf::X, i)
            } else {
                (m.row)(Buf::CaptureStage, cell(parts, i, k))
            }));
            if ids[k] == l {
                assert(k == slot) by {
                    if k < slot {
                        assert(ids[k] != l);
                    } else if slot < k {
                        assert(ids[slot] != ids[k]);
                    }
                }
                assert((m.row)(Buf::X, i) == (run.x)(li + 1, pos + i));
            } else {
                assert(k != slot);
                assert(cell_captured(m, ids, run, pos, i, k));
            }
        }
    }
}

/// The staged rows of a block, where a capture is on.
pub open spec fn block_captured<V>(
    m: Mem<V>,
    ids: Option<Seq<usize>>,
    run: Residuals<V>,
    pos: int,
    rows: int,
    n: int,
) -> bool {
    match ids {
        Some(q) => rows_captured(m, q, run, pos, rows, n),
        None => true,
    }
}

/// The staged rows of the captured layers can be addressed.
pub open spec fn stage_fits(ids: Option<Seq<usize>>, hidden: int, rows: int) -> bool {
    match ids {
        Some(q) => rows * (q.len() * hidden) <= usize::MAX,
        None => true,
    }
}

proof fn lemma_written_block(
    f: StepFlags,
    md: GpuSynthModel,
    b: KvBankV,
    li: usize,
    pos: int,
    rows: int,
)
    requires
        verify_plan::block_layer_run(f, md, b, li, pos, rows) is Ok,
    ensures
        verify_plan::block_layer_run(f, md, b, li, pos, rows)->Ok_0.0 == written(
            md,
            b,
            li as int,
            rows,
        ),
{
    reveal(verify_plan::block_layer_run);
}

/// The rows hold the residual before layer `n`, at the positions from `pos` on.
pub open spec fn rows_hold<V>(m: Mem<V>, run: Residuals<V>, pos: int, rows: int, n: int) -> bool {
    forall|i: int| 0 <= i < rows ==> #[trigger] (m.row)(Buf::X, i) == (run.x)(n, pos + i)
}

/// The seeds of the block are the tokens at the positions from `pos` on.
pub open spec fn seeds_hold<V>(m: Mem<V>, run: Residuals<V>, pos: int, rows: int) -> bool {
    forall|i: int|
        0 <= i < rows ==> #[trigger] (m.token)(Buf::VerifySeeds, i) == (run.token)(pos + i)
}

/// The layers of a block compute the model's residual at the position of every row, and
/// leave the model's keys and values in the caches.
#[verifier::spinoff_prover]
#[verifier::rlimit(80)]
pub proof fn block_layers_compute_the_model<V>(
    s: Shapes<V>,
    m: Mem<V>,
    f: StepFlags,
    ids: Option<Seq<usize>>,
    b: KvBankV,
    run: Residuals<V>,
    pos: int,
    rows: int,
    n: int,
)
    requires
        s.model.wf(),
        verify_plan::block_fits(s.model),
        s.model.layers@.len() < usize::MAX,
        0 < s.model.hidden,
        step_plan::bank_fits(s.model, b),
        b.lens_at_most(usize::MAX - 8 * (s.model.layers@.len() + 1)),
        0 <= n <= s.model.layers@.len(),
        verify::blocks_run(f, s.model, ids, b, pos, rows, n) is Ok,
        follows(s, f, run),
        stage_fits(ids, s.model.hidden as int, rows),
        all_reachable(s.model, b, pos, rows),
        0 <= pos,
        1 <= rows <= 8,
        pos + rows < u32::MAX,
        synced(s, m, b, run, pos, rows, 0),
        m.pos == pos,
        seeds_hold(m, run, pos, rows),
        rows_hold(m, run, pos, rows, 0),
    ensures
        ({
            let (c, ops) = verify::blocks_run(f, s.model, ids, b, pos, rows, n)->Ok_0;
            let r = machine::run(s, m, ops);
            &&& pass_left(m, r)
            &&& seeds_hold(r, run, pos, rows)
            &&& synced(s, r, c, run, pos, rows, n)
            &&& rows_hold(r, run, pos, rows, n)
            &&& block_captured(r, ids, run, pos, rows, n)
            &&& step_plan::bank_fits(s.model, c)
            &&& c.same_shapes(b)
            &&& c.lens_at_most(usize::MAX - 8 * (s.model.layers@.len() + 1) + 8 * n)
        }),
    decreases n,
{
    let md = s.model;
    if n <= 0 {
        machine::lemma_none(s, m);
    } else {
        let l = n - 1;
        block_layers_compute_the_model(s, m, f, ids, b, run, pos, rows, l);
        let (c, before) = verify::blocks_run(f, md, ids, b, pos, rows, l)->Ok_0;
        let r = machine::run(s, m, before);
        let (d, more) = verify_plan::block_layer_run(f, md, c, l as usize, pos, rows)->Ok_0;
        let cap = verify::block_capture_ops(f, ids, l as usize, md.hidden as int, rows);
        machine::lemma_cat(s, m, before + more, cap);
        machine::lemma_cat(s, m, before, more);
        let t = machine::run(s, r, more);
        assert(reachable(md, b, pos, rows, l));
        lemma_reachable_shapes(md, b, c, pos, rows, l);
        lemma_ready(s, r, c, run, pos, rows, l);
        let j = source(md, l);
        layer_laws::a_block_layer_computes_its_rows(
            s,
            r,
            f,
            c,
            l as usize,
            pos,
            rows,
            keys_of(s, run, j),
            vals_of(s, run, j),
        );
        lemma_synced_next(s, r, t, c, run, pos, rows, l);
        lemma_written_block(f, md, c, l as usize, pos, rows);
        verify::lemma_block_growth(
            f,
            md,
            c,
            l as usize,
            pos,
            rows,
            usize::MAX - 8 * (md.layers@.len() + 1) + 8 * l,
        );
        lemma_lens(d, usize::MAX - 8 * (md.layers@.len() + 1) + 8 * l + rows, usize::MAX - 8 * (
        md.layers@.len() + 1) + 8 * n);
        assert(rows_hold(t, run, pos, rows, n)) by {
            assert forall|i: int| 0 <= i < rows implies #[trigger] (t.row)(Buf::X, i) == (run.x)(
                n,
                pos + i,
            ) by {
                assert(layer_follows(s, f, run, l, pos + i));
                assert((r.row)(Buf::X, i) == (run.x)(l, pos + i));
                assert((r.token)(Buf::VerifySeeds, i) == (run.token)(pos + i));
            }
        }
        assert(seeds_hold(t, run, pos, rows)) by {
            assert forall|i: int| 0 <= i < rows implies #[trigger] (t.token)(Buf::VerifySeeds, i)
                == (run.token)(pos + i) by {
                assert((r.token)(Buf::VerifySeeds, i) == (run.token)(pos + i));
            }
        }
        let u = machine::run(s, t, cap);
        lemma_block_capture_step(s, r, t, f, ids, run, pos, rows, l);
        lemma_synced_rows(s, t, u, d, run, pos, rows, n);
        lemma_shapes(b, c, d);
        assert(pass_left(m, u));
        assert(rows_hold(u, run, pos, rows, n)) by {
            assert forall|i: int| 0 <= i < rows implies #[trigger] (u.row)(Buf::X, i) == (run.x)(
                n,
                pos + i,
            ) by {
                assert((t.row)(Buf::X, i) == (run.x)(n, pos + i));
            }
        }
    }
}

proof fn lemma_lens(b: KvBankV, k: int, n: int)
    requires
        b.lens_at_most(k),
        k <= n,
    ensures
        b.lens_at_most(n),
{
}

proof fn lemma_block_capture_step<V>(
    s: Shapes<V>,
    r: Mem<V>,
    t: Mem<V>,
    f: StepFlags,
    ids: Option<Seq<usize>>,
    run: Residuals<V>,
    pos: int,
    rows: int,
    l: int,
)
    requires
        0 < s.model.hidden <= u32::MAX,
        0 <= l < usize::MAX,
        1 <= rows <= 8,
        stage_fits(ids, s.model.hidden as int, rows),
        block_captured(r, ids, run, pos, rows, l),
        kept(r, t, Buf::CaptureStage),
        rows_hold(t, run, pos, rows, l + 1),
    ensures
        ({
            let u = machine::run(
                s,
                t,
                verify::block_capture_ops(f, ids, l as usize, s.model.hidden as int, rows),
            );
            &&& u == (Mem { row: u.row, ..t })
            &&& kept(t, u, Buf::X)
            &&& block_captured(u, ids, run, pos, rows, l + 1)
        }),
{
    machine::lemma_none(s, t);
    if let Some(q) = ids {
        assert forall|i: int, k: int|
            0 <= i < rows && 0 <= k < q.len() && q[k] < l && capture::first_index(
                q,
                q[k],
                k,
            ) implies #[trigger] cell_captured(t, q, run, pos, i, k) by {
            assert(cell_captured(r, q, run, pos, i, k));
            let c = cell(q.len() as int, i, k);
            assert((t.row)(Buf::CaptureStage, c) == (r.row)(Buf::CaptureStage, c));
        }
        lemma_block_capture(s, t, f, q, run, pos, rows, l);
    }
}

/// A staged row is taken over as the captured row.
proof fn lemma_take_row<V>(
    s: Shapes<V>,
    m: Mem<V>,
    ids: Seq<usize>,
    run: Residuals<V>,
    pos: int,
    rows: int,
    i: int,
    n: int,
)
    requires
        0 < s.model.hidden,
        0 < ids.len(),
        ids.len() * s.model.hidden <= u32::MAX,
        rows * (ids.len() * s.model.hidden) <= usize::MAX,
        0 <= i < rows,
        rows_captured(m, ids, run, pos, rows, n),
        ids_sound(ids, n),
    ensures
        ({
            let stride = ids.len() * s.model.hidden;
            let r = machine::exec(
                s,
                m,
                Op::CopyF32 {
                    src: Buf::CaptureStage,
                    from: (i * stride) as usize,
                    dst: Buf::CaptureRow,
                    to: 0,
                    n: kv_slot::low32(stride),
                },
            );
            &&& r == (Mem { row: r.row, ..m })
            &&& forall|b: Buf, q: int|
                b != Buf::CaptureRow ==> #[trigger] (r.row)(b, q) == (m.row)(b, q)
            &&& forall|k: int|
                0 <= k < ids.len() ==> #[trigger] part_captured(r, ids, run, pos + i, k)
        }),
{
    let h = s.model.hidden as int;
    let parts = ids.len() as int;
    let stride = parts * h;
    lemma_small_mod(stride as nat, 0x1_0000_0000);
    assert(0 <= i * stride <= rows * stride) by (nonlinear_arith)
        requires
            0 <= i <= rows,
            0 <= stride,
    ;
    let op = Op::CopyF32 {
        src: Buf::CaptureStage,
        from: (i * stride) as usize,
        dst: Buf::CaptureRow,
        to: 0,
        n: kv_slot::low32(stride),
    };
    let r = machine::exec(s, m, op);
    assert forall|k: int| 0 <= k < ids.len() implies #[trigger] part_captured(
        r,
        ids,
        run,
        pos + i,
        k,
    ) by {
        let c = cell(parts, i, k);
        assert(0 <= k * h && (k + 1) * h <= parts * h) by (nonlinear_arith)
            requires
                0 <= k,
                k + 1 <= parts,
                0 < h,
        ;
        assert(k * h + i * (parts * h) == c * h && h * c == c * h) by (nonlinear_arith)
            requires
                c == i * parts + k,
        ;
        lemma_div_multiples_vanish(c, h);
        assert((r.row)(Buf::CaptureRow, k) == (m.row)(Buf::CaptureStage, c));
        assert(ids[k] < n && capture::first_index(ids, ids[k], k));
        assert(cell_captured(m, ids, run, pos, i, k));
    }
}

/// Projecting the staged rows of a block appends the context rows of its positions, in
/// order.
#[verifier::spinoff_prover]
proof fn lemma_stage_rows<V>(
    s: Shapes<V>,
    m: Mem<V>,
    hazard: bool,
    ids: Seq<usize>,
    run: Residuals<V>,
    pos: int,
    rows: int,
    ctx: int,
    k: int,
    n: int,
)
    requires
        0 < s.model.hidden,
        0 < ids.len(),
        ids.len() * s.model.hidden <= u32::MAX,
        rows * (ids.len() * s.model.hidden) <= usize::MAX,
        0 <= k <= rows,
        rows_captured(m, ids, run, pos, rows, n),
        ids_sound(ids, n),
        s.parts == ids.len(),
        0 < s.ctx_width <= u32::MAX,
        0 <= ctx,
        (ctx + rows) * s.ctx_width <= usize::MAX,
    ensures
        ({
            let stride = ids.len() * s.model.hidden;
            let r = machine::run(
                s,
                m,
                verify::stage_rows_ops(hazard, stride, Some(s.ctx_width), ctx, k),
            );
            &&& r == (Mem { row: r.row, cond: r.cond, ctx: r.ctx, ..m })
            &&& forall|b: Buf, q: int|
                b != Buf::CaptureRow ==> #[trigger] (r.row)(b, q) == (m.row)(b, q)
            &&& forall|j: int| #[trigger]
                (r.ctx)(j) == (if ctx <= j < ctx + k {
                    context_of(s, run, ids, pos + (j - ctx))
                } else {
                    (m.ctx)(j)
                })
        }),
    decreases k,
{
    let stride = ids.len() * s.model.hidden;
    if k <= 0 {
        machine::lemma_none(s, m);
    } else {
        let i = k - 1;
        lemma_stage_rows(s, m, hazard, ids, run, pos, rows, ctx, i, n);
        let before = verify::stage_rows_ops(hazard, stride, Some(s.ctx_width), ctx, i);
        let row = verify::stage_row_ops(hazard, stride, Some(s.ctx_width), i, ctx + i);
        let r = machine::run(s, m, before);
        machine::lemma_cat(s, m, before, row);
        let op = Op::CopyF32 {
            src: Buf::CaptureStage,
            from: (i * stride) as usize,
            dst: Buf::CaptureRow,
            to: 0,
            n: kv_slot::low32(stride),
        };
        let bar = step_plan::barrier_if(hazard);
        let pro = conditioner::project_ops(hazard, s.ctx_width, ctx + i);
        machine::lemma_cat(s, r, seq![op], bar + pro);
        machine::lemma_one(s, r, op);
        let t = machine::exec(s, r, op);
        machine::lemma_cat(s, t, bar, pro);
        machine::lemma_barrier(s, t, hazard);
        assert(rows_captured(r, ids, run, pos, rows, n)) by {
            assert forall|a: int, q: int|
                0 <= a < rows && 0 <= q < ids.len() && ids[q] < n && capture::first_index(
                    ids,
                    ids[q],
                    q,
                ) implies #[trigger] cell_captured(r, ids, run, pos, a, q) by {
                assert(cell_captured(m, ids, run, pos, a, q));
                let c = cell(ids.len() as int, a, q);
                assert((r.row)(Buf::CaptureStage, c) == (m.row)(Buf::CaptureStage, c));
            }
        }
        lemma_take_row(s, r, ids, run, pos, rows, i, n);
        lemma_context_row(s, t, ids, run, pos + i);
        assert((ctx + i) * s.ctx_width <= (ctx + rows) * s.ctx_width) by (nonlinear_arith)
            requires
                i <= rows,
                0 < s.ctx_width,
        ;
        let u = machine::run(s, t, pro);
        assert forall|j: int| #[trigger]
            (u.ctx)(j) == (if ctx <= j < ctx + k {
                context_of(s, run, ids, pos + (j - ctx))
            } else {
                (m.ctx)(j)
            }) by {
            compute_laws::projected_rows_are_appended(s, t, hazard, ctx + i, j);
            assert((r.ctx)(j) == (if ctx <= j < ctx + i {
                context_of(s, run, ids, pos + (j - ctx))
            } else {
                (m.ctx)(j)
            }));
        }
        compute_laws::projected_rows_are_appended(s, t, hazard, ctx + i, 0);
    }
}

proof fn lemma_stage_frame<V>(
    s: Shapes<V>,
    m: Mem<V>,
    hazard: bool,
    stride: int,
    w: Option<int>,
    ctx: int,
    n: int,
)
    ensures
        ({
            let r = machine::run(s, m, verify::stage_rows_ops(hazard, stride, w, ctx, n));
            &&& r == (Mem { row: r.row, cond: r.cond, ctx: r.ctx, ..m })
            &&& kept(m, r, Buf::CaptureStage)
            &&& w is None ==> r.ctx == m.ctx
        }),
    decreases n,
{
    if n <= 0 {
        machine::lemma_none(s, m);
    } else {
        let i = n - 1;
        lemma_stage_frame(s, m, hazard, stride, w, ctx, i);
        let before = verify::stage_rows_ops(hazard, stride, w, ctx, i);
        let row = verify::stage_row_ops(hazard, stride, w, i, ctx + i);
        let r = machine::run(s, m, before);
        machine::lemma_cat(s, m, before, row);
        let op = Op::CopyF32 {
            src: Buf::CaptureStage,
            from: (i * stride) as usize,
            dst: Buf::CaptureRow,
            to: 0,
            n: kv_slot::low32(stride),
        };
        let bar = step_plan::barrier_if(hazard);
        machine::lemma_one(s, r, op);
        let t = machine::exec(s, r, op);
        match w {
            None => {
                assert(row =~= seq![op]);
            },
            Some(h) => {
                let pro = conditioner::project_ops(hazard, h, ctx + i);
                machine::lemma_cat(s, r, seq![op], bar + pro);
                machine::lemma_cat(s, t, bar, pro);
                machine::lemma_barrier(s, t, hazard);
                lemma_project_frame(s, t, hazard, h, ctx + i);
            },
        }
    }
}

/// The context grows by the rows of the block's positions, in order, and keeps the rows
/// that it had.
pub open spec fn block_context_grows<V>(
    s: Shapes<V>,
    m: Mem<V>,
    r: Mem<V>,
    g: GpuDecodeSession,
    run: Residuals<V>,
    rows: int,
) -> bool {
    match (g.capture, g.conditioner) {
        (Some(p), Some(c)) => {
            let ids = p.layer_ids@;
            s.ctx_width == c.hidden && s.parts == ids.len() && 0 < c.hidden <= u32::MAX
                && ids.len() * s.model.hidden <= u32::MAX && ids_sound(
                ids,
                s.model.layers@.len() as int,
            ) ==> forall|j: int| #[trigger]
                (r.ctx)(j) == (if c.ctx_len <= j < c.ctx_len + rows {
                    context_of(s, run, ids, g.pos + (j - c.ctx_len))
                } else {
                    (m.ctx)(j)
                })
        },
        _ => r.ctx == m.ctx,
    }
}

#[verifier::spinoff_prover]
proof fn lemma_block_flush<V>(
    s: Shapes<V>,
    m: Mem<V>,
    g: GpuDecodeSession,
    hazard: bool,
    run: Residuals<V>,
    rows: int,
)
    requires
        g.wf(),
        g.model == s.model,
        0 < s.model.hidden,
        1 <= rows <= 8,
        stage_fits(session::ids_of(g.capture), s.model.hidden as int, rows),
        verify::block_flush_run(g, hazard, rows) is Ok,
        block_captured(
            m,
            session::ids_of(g.capture),
            run,
            g.pos as int,
            rows,
            s.model.layers@.len() as int,
        ),
    ensures
        ({
            let r = machine::run(s, m, verify::block_flush_run(g, hazard, rows)->Ok_0);
            &&& r.keys == m.keys
            &&& r.vals == m.vals
            &&& r.token == m.token
            &&& kept(m, r, Buf::CaptureStage)
            &&& block_context_grows(s, m, r, g, run, rows)
        }),
{
    let n = s.model.layers@.len() as int;
    let pos = g.pos as int;
    machine::lemma_none(s, m);
    match g.capture {
        None => {},
        Some(p) => {
            let ids = p.layer_ids@;
            let stride = p.stride();
            assert(stride == ids.len() * s.model.hidden);
            let (w, ctx): (Option<int>, int) = match g.conditioner {
                None => (None, 0),
                Some(c) => (Some(c.hidden as int), c.ctx_len as int),
            };
            let ops = verify::stage_rows_ops(hazard, stride, w, ctx, rows);
            let all = verify::block_flush_run(g, hazard, rows)->Ok_0;
            assert(all == ops.push(Op::Synchronize));
            assert(all =~= ops + seq![Op::Synchronize]);
            machine::lemma_cat(s, m, ops, seq![Op::Synchronize]);
            let r = machine::run(s, m, ops);
            machine::lemma_one(s, r, Op::Synchronize);
            lemma_stage_frame(s, m, hazard, stride, w, ctx, rows);
            if let Some(c) = g.conditioner {
                if s.ctx_width == c.hidden && s.parts == ids.len() && 0 < c.hidden <= u32::MAX
                    && ids.len() * s.model.hidden <= u32::MAX && ids_sound(ids, n) {
                    assert((c.ctx_len + rows) * c.hidden <= c.max_ctx * c.hidden)
                        by (nonlinear_arith)
                        requires
                            c.ctx_len + rows <= c.max_ctx,
                    ;
                    assert(rows_captured(m, ids, run, pos, rows, n));
                    lemma_stage_rows(s, m, hazard, ids, run, pos, rows, ctx, rows, n);
                }
            }
        },
    }
}

/// A block computes the model. Where memory and caches agree with the model up to a
/// position, a block of the tokens from there on answers, for each of its rows, what the
/// model's last residual at the row's position chooses, and leaves memory and caches in
/// agreement with the model behind its last row; the rows that it captures are the
/// residuals that they are for, and its context rows come in the order of the positions.
#[verifier::spinoff_prover]
#[verifier::rlimit(100)]
pub proof fn blocks_compute_the_model<V>(
    s: Shapes<V>,
    m: Mem<V>,
    g: GpuDecodeSession,
    flags: StepFlags,
    tokens: Seq<u32>,
    run: Residuals<V>,
)
    requires
        1 <= tokens.len() <= 8,
        on_course(s, m, g, flags, run, tokens.len() as int),
        verify_plan::block_fits(s.model),
        stage_fits(
            session::ids_of(g.capture),
            s.model.hidden as int,
            tokens.len() as int,
        ),
        verify::block_run(g, flags, tokens) is Ok,
        forall|i: int| 0 <= i < tokens.len() ==> #[trigger] (s.kernels.seeds)(i) == tokens[i],
        forall|i: int| 0 <= i < tokens.len() ==> #[trigger] tokens[i] == (run.token)(g.pos + i),
    ensures
        ({
            let n = s.model.layers@.len() as int;
            let rows = tokens.len() as int;
            let pos = g.pos as int;
            let (c, ops) = verify::block_run(g, flags, tokens)->Ok_0;
            let r = machine::run(s, m, ops);
            &&& forall|i: int|
                0 <= i < rows ==> #[trigger] (r.token)(Buf::VerifyOuts, i) == chosen(
                    s,
                    (run.x)(n, pos + i),
                )
            &&& synced(s, r, c, run, pos + rows, 1, 0)
            &&& block_captured(r, session::ids_of(g.capture), run, pos, rows, n)
            &&& block_context_grows(s, m, r, g, run, rows)
        }),
{
    let md = s.model;
    let f = session::effective(flags, g.capture is Some);
    let n = md.layers@.len() as int;
    let rows = tokens.len() as int;
    let pos = g.pos as int;
    let ids = session::ids_of(g.capture);
    let embed = verify_plan::embed_block(md, tokens)->Ok_0;
    let (c, layers) = verify::blocks_run(f, md, ids, g.kv@, pos, rows, n)->Ok_0;
    let sample = verify::block_sample_ops(f, md, rows);
    let flush = verify::block_flush_run(g, f.hazard, rows)->Ok_0;
    let first = seq![Op::WritePos { pos: kv_slot::low32(pos) }, Op::WriteSeeds];
    let last = seq![Op::Synchronize];
    machine::lemma_cat(s, m, first + embed + layers + sample + flush, last);
    machine::lemma_cat(s, m, first + embed + layers + sample, flush);
    machine::lemma_cat(s, m, first + embed + layers, sample);
    machine::lemma_cat(s, m, first + embed, layers);
    blocks_begin_with_their_tokens(s, m, tokens, pos);
    let m1 = machine::run(s, m, first + embed);
    lemma_synced_rows(s, m, m1, g.kv@, run, pos, rows, 0);
    lemma_begun(s, m1, run, f, tokens, pos);
    block_layers_compute_the_model(s, m1, f, ids, g.kv@, run, pos, rows, n);
    let m2 = machine::run(s, m1, layers);
    let m3 = machine::run(s, m2, sample);
    assert forall|i: int| 0 <= i < rows implies #[trigger] (m3.token)(Buf::VerifyOuts, i)
        == chosen(s, (run.x)(n, pos + i)) by {
        compute_laws::block_rows_choose_for_themselves(s, m2, f, rows, i);
        assert((m2.row)(Buf::X, i) == (run.x)(n, pos + i));
    }
    compute_laws::block_rows_choose_for_themselves(s, m2, f, rows, 0);
    lemma_block_kept(m2, m3, ids, run, pos, rows, n);
    lemma_block_flush(s, m3, g, f.hazard, run, rows);
    let m4 = machine::run(s, m3, flush);
    machine::lemma_one(s, m4, Op::Synchronize);
    lemma_block_kept(m3, m4, ids, run, pos, rows, n);
    lemma_synced_rows(s, m2, m4, c, run, pos, rows, n);
    assert forall|l: int| 0 <= l < n implies #[trigger] layer_synced(
        s,
        m4,
        c,
        run,
        upto(pos + rows, 1, 0, l),
        l,
    ) by {
        assert(layer_synced(s, m4, c, run, upto(pos, rows, n, l), l));
    }
}

proof fn lemma_begun<V>(
    s: Shapes<V>,
    m: Mem<V>,
    run: Residuals<V>,
    f: StepFlags,
    tokens: Seq<u32>,
    pos: int,
)
    requires
        0 <= pos,
        follows(s, f, run),
        forall|i: int| 0 <= i < tokens.len() ==> #[trigger] tokens[i] == (run.token)(pos + i),
        forall|i: int|
            0 <= i < tokens.len() ==> #[trigger] (m.token)(Buf::VerifySeeds, i) == tokens[i],
        forall|i: int|
            0 <= i < tokens.len() ==> #[trigger] (m.row)(Buf::X, i) == embedded(s, tokens[i]),
    ensures
        seeds_hold(m, run, pos, tokens.len() as int),
        rows_hold(m, run, pos, tokens.len() as int, 0),
{
    assert forall|i: int| 0 <= i < tokens.len() implies #[trigger] (m.token)(Buf::VerifySeeds, i)
        == (run.token)(pos + i) by {
        assert(tokens[i] == (run.token)(pos + i));
    }
    assert forall|i: int| 0 <= i < tokens.len() implies #[trigger] (m.row)(Buf::X, i) == (run.x)(
        0,
        pos + i,
    ) by {
        assert(tokens[i] == (run.token)(pos + i));
        assert((run.x)(0, pos + i) == embedded(s, (run.token)(pos + i)));
    }
}

proof fn lemma_block_kept<V>(
    m: Mem<V>,
    r: Mem<V>,
    ids: Option<Seq<usize>>,
    run: Residuals<V>,
    pos: int,
    rows: int,
    n: int,
)
    requires
        block_captured(m, ids, run, pos, rows, n),
        kept(m, r, Buf::CaptureStage),
    ensures
        block_captured(r, ids, run, pos, rows, n),
{
    if let Some(q) = ids {
        assert forall|i: int, k: int|
            0 <= i < rows && 0 <= k < q.len() && q[k] < n && capture::first_index(
                q,
                q[k],
                k,
            ) implies #[trigger] cell_captured(r, q, run, pos, i, k) by {
            assert(cell_captured(m, q, run, pos, i, k));
            let c = cell(q.len() as int, i, k);
            assert((r.row)(Buf::CaptureStage, c) == (m.row)(Buf::CaptureStage, c));
        }
    }
}

proof fn lemma_buffer<V>(
    s: Shapes<V>,
    m: Mem<V>,
    dst: Buf,
    tokens: Seq<u32>,
    n: int,
    c: Buf,
    i: int,
)
    requires
        0 <= n <= 8,
    ensures
        (machine::run(s, m, steps::buffer_ops(dst, tokens).subrange(0, n)).token)(c, i) == (if c
            == dst && 0 <= i < n {
            if i < tokens.len() {
                tokens[i]
            } else {
                0
            }
        } else {
            (m.token)(c, i)
        }),
    decreases n,
{
    let all = steps::buffer_ops(dst, tokens);
    if n <= 0 {
        assert(all.subrange(0, n) =~= Seq::<Op>::empty());
        machine::lemma_none(s, m);
    } else {
        lemma_buffer(s, m, dst, tokens, n - 1, c, i);
        let before = all.subrange(0, n - 1);
        assert(all.subrange(0, n) =~= before + seq![all[n - 1]]);
        machine::lemma_cat(s, m, before, seq![all[n - 1]]);
        machine::lemma_one(s, machine::run(s, m, before), all[n - 1]);
    }
}

/// The tokens of a verify lie in their buffer in their own order, and nothing of an
/// earlier verify stays behind them.
pub proof fn verify_buffers_hold_their_tokens<V>(
    s: Shapes<V>,
    m: Mem<V>,
    dst: Buf,
    tokens: Seq<u32>,
    i: int,
)
    requires
        0 <= i < 8,
    ensures
        ({
            let r = machine::run(s, m, steps::buffer_ops(dst, tokens));
            &&& i < tokens.len() ==> (r.token)(dst, i) == tokens[i]
            &&& i >= tokens.len() ==> (r.token)(dst, i) == 0
        }),
{
    let all = steps::buffer_ops(dst, tokens);
    assert(all.subrange(0, 8) =~= all);
    lemma_buffer(s, m, dst, tokens, 8, dst, i);
}

} // verus!
