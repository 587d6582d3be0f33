//! What steps, blocks and roll-backs do to the caches, whatever switches are
//! set: each adds its timesteps to every writer, and rolling back undoes it.

use crate::capture;
use crate::config::LayerType;
use crate::decode;
use crate::decode::StepRequest;
use crate::icb;
use crate::icb::IcbScalarTapeOp;
use crate::kv;
use crate::kv::KvLayout;
use crate::kv_bank;
use crate::kv_bank::KvBankV;
use crate::kv_slot;
use crate::kv_slot::GpuKvSlot;
use crate::model::GpuSynthModel;
use crate::ops::SlotRef;
use crate::session;
use crate::session::{GpuDecodeSession, LayerMode};
use crate::step_plan;
use crate::step_plan::{LayerCaps, StepFlags};
use crate::verify;
use crate::verify_plan;
use vstd::prelude::*;

verus! {

/// One of the first `n` layers feeds the shared cache of this kind.
#[verifier::opaque]
pub open spec fn fed(l: KvLayout, kind: LayerType, n: int) -> bool {
    exists|j: int| #![trigger l.feeds_shared(j)] 0 <= j < n && l.feeds_shared(j) && l.layers@[j].layer_type == kind
}

/// The slot with `k` more timesteps.
#[verifier::opaque]
pub open spec fn grown(s: GpuKvSlot, k: int) -> GpuKvSlot {
    s.holding(s.seq_len + k)
}

/// The caches once the first `n` layers have each written `k` timesteps.
pub open spec fn grown_upto(l: KvLayout, b: KvBankV, n: int, k: int) -> KvBankV {
    let w = kv_slot::min2(n, l.first_kv_shared as int);
    KvBankV {
        rings: Seq::new(
            b.rings.len(),
            |i: int|
                if i < kv::count_kind(l.kinds(), LayerType::SlidingAttention, w) {
                    grown(b.rings[i], k)
                } else {
                    b.rings[i]
                },
        ),
        globals: Seq::new(
            b.globals.len(),
            |i: int|
                if i < kv::count_kind(l.kinds(), LayerType::FullAttention, w) {
                    grown(b.globals[i], k)
                } else {
                    b.globals[i]
                },
        ),
        shared_sliding: if fed(l, LayerType::SlidingAttention, n) {
            grown(b.shared_sliding, k)
        } else {
            b.shared_sliding
        },
        shared_global: if fed(l, LayerType::FullAttention, n) {
            grown(b.shared_global, k)
        } else {
            b.shared_global
        },
    }
}

/// The caches once every layer has written `k` timesteps.
pub open spec fn advanced(m: GpuSynthModel, b: KvBankV, k: int) -> KvBankV {
    grown_upto(m.kv, b, m.layers@.len() as int, k)
}

/// The shared caches after one more layer.
proof fn lemma_fed_next(l: KvLayout, li: int)
    requires
        l.wf(),
        0 <= li < l.layers@.len(),
    ensures
        forall|kind: LayerType|
            !(l.feeds_shared(li) && l.layers@[li].layer_type == kind) ==> #[trigger] fed(
                l,
                kind,
                li + 1,
            ) == fed(l, kind, li),
        l.feeds_shared(li) ==> fed(l, l.layers@[li].layer_type, li + 1) && !fed(
            l,
            l.layers@[li].layer_type,
            li,
        ),
{
    reveal(fed);
    assert forall|kind: LayerType|
        !(l.feeds_shared(li) && l.layers@[li].layer_type == kind) implies #[trigger] fed(
        l,
        kind,
        li + 1,
    ) == fed(l, kind, li) by {
        if fed(l, kind, li + 1) {
            let j = choose|j: int|
                #![trigger l.feeds_shared(j)]
                0 <= j < li + 1 && l.feeds_shared(j) && l.layers@[j].layer_type == kind;
            assert(0 <= j < li && l.feeds_shared(j) && l.layers@[j].layer_type == kind);
        }
        if fed(l, kind, li) {
            let j = choose|j: int|
                #![trigger l.feeds_shared(j)]
                0 <= j < li && l.feeds_shared(j) && l.layers@[j].layer_type == kind;
            assert(0 <= j < li + 1 && l.feeds_shared(j) && l.layers@[j].layer_type == kind);
        }
    }
    if l.feeds_shared(li) {
        let kind = l.layers@[li].layer_type;
        if fed(l, kind, li) {
            let j = choose|j: int|
                #![trigger l.feeds_shared(j)]
                0 <= j < li && l.feeds_shared(j) && l.layers@[j].layer_type == kind;
            kv::one_layer_feeds_shared(l, j, li);
        }
    }
}

/// The writers' counts after one more layer.
proof fn lemma_counts_next(l: KvLayout, li: int)
    requires
        l.wf(),
        0 <= li < l.layers@.len(),
    ensures
        ({
            let first = l.first_kv_shared as int;
            let kinds = l.kinds();
            let w0 = kv_slot::min2(li, first);
            let w1 = kv_slot::min2(li + 1, first);
            &&& li >= first ==> w0 == w1
            &&& li < first ==> forall|kind: LayerType| #[trigger]
                kv::count_kind(kinds, kind, w1) == kv::count_kind(kinds, kind, w0) + (if kind
                    == l.layers@[li].layer_type {
                    1nat
                } else {
                    0
                })
            &&& li < first ==> kv::count_kind(kinds, l.layers@[li].layer_type, w0)
                < kv::count_kind(kinds, l.layers@[li].layer_type, first)
            &&& kv::count_kind(kinds, l.layers@[li].layer_type, w0) <= usize::MAX
        }),
{
    let first = l.first_kv_shared as int;
    let kinds = l.kinds();
    kv::lemma_count_kind(kinds, kinds[li], 0, kv_slot::min2(li, first));
    if li < first {
        kv::lemma_count_kind(kinds, kinds[li], li + 1, first);
    }
}

/// One more layer adds its own slot and, where it feeds the shared cache, that
/// one too.
proof fn lemma_next_layer(m: GpuSynthModel, b: KvBankV, li: int, k: int)
    requires
        m.wf(),
        step_plan::bank_fits(m, b),
        0 <= li < m.layers@.len(),
    ensures
        ({
            let c = grown_upto(m.kv, b, li, k);
            let d = grown_upto(m.kv, b, li + 1, k);
            let p = m.layers@[li];
            &&& !p.produces() ==> d == c
            &&& p.produces() ==> {
                &&& c.slot(p.reads()) == b.slot(p.reads())
                &&& m.kv.feeds_shared(li) ==> c.slot(p.shares()) == b.slot(p.shares()) && d == c.with(
                    p.reads(),
                    grown(b.slot(p.reads()), k),
                ).with(p.shares(), grown(b.slot(p.shares()), k))
                &&& !m.kv.feeds_shared(li) ==> d == c.with(
                    p.reads(),
                    grown(b.slot(p.reads()), k),
                )
            }
        }),
{
    let l = m.kv;
    let p = m.layers@[li];
    assert(l.layers@[li].role == kv::role_of(l.kinds(), l.first_kv_shared as int, li));
    assert(p.role == l.layers@[li].role);
    assert(p.layer_type == l.layers@[li].layer_type);
    lemma_fed_next(l, li);
    lemma_counts_next(l, li);
    lemma_next_banks(
        l,
        b,
        li,
        k,
        p.layer_type,
        kv::count_kind(
            l.kinds(),
            p.layer_type,
            kv_slot::min2(li, l.first_kv_shared as int),
        ) as int,
    );
}

/// The same over the bare layout; `at` is the place of the layer's own slot.
proof fn lemma_next_banks(l: KvLayout, b: KvBankV, li: int, k: int, kind: LayerType, at: int)
    requires
        0 <= li,
        0 <= at <= usize::MAX,
        l.feeds_shared(li) ==> li < l.first_kv_shared,
        at == kv::count_kind(l.kinds(), kind, kv_slot::min2(li, l.first_kv_shared as int)),
        kind == l.layers@[li].layer_type,
        forall|q: LayerType|
            !(l.feeds_shared(li) && kind == q) ==> #[trigger] fed(l, q, li + 1) == fed(l, q, li),
        l.feeds_shared(li) ==> fed(l, kind, li + 1) && !fed(l, kind, li),
        li < l.first_kv_shared ==> forall|q: LayerType| #[trigger]
            kv::count_kind(l.kinds(), q, li + 1) == kv::count_kind(l.kinds(), q, li) + (if q
                == kind {
                1nat
            } else {
                0
            }),
    ensures
        ({
            let c = grown_upto(l, b, li, k);
            let d = grown_upto(l, b, li + 1, k);
            let own = if kind == LayerType::SlidingAttention {
                SlotRef::Ring(at as usize)
            } else {
                SlotRef::Global(at as usize)
            };
            let shared = if kind == LayerType::SlidingAttention {
                SlotRef::SharedSliding
            } else {
                SlotRef::SharedGlobal
            };
            &&& li >= l.first_kv_shared ==> d == c
            &&& li < l.first_kv_shared && b.has(own) ==> {
                &&& c.slot(own) == b.slot(own)
                &&& l.feeds_shared(li) ==> c.slot(shared) == b.slot(shared) && d == c.with(
                    own,
                    grown(b.slot(own), k),
                ).with(shared, grown(b.slot(shared), k))
                &&& !l.feeds_shared(li) ==> d == c.with(own, grown(b.slot(own), k))
            }
        }),
{
    let c = grown_upto(l, b, li, k);
    let d = grown_upto(l, b, li + 1, k);
    if li >= l.first_kv_shared {
        assert(d.rings =~= c.rings);
        assert(d.globals =~= c.globals);
        assert(d =~= c);
    } else {
        match kind {
            LayerType::SlidingAttention => {
                let own = SlotRef::Ring(at as usize);
                if b.has(own) {
                    let e = c.with(own, grown(b.slot(own), k));
                    assert(d.rings =~= e.rings);
                    assert(d.globals =~= e.globals);
                }
            },
            LayerType::FullAttention => {
                let own = SlotRef::Global(at as usize);
                if b.has(own) {
                    let e = c.with(own, grown(b.slot(own), k));
                    assert(d.rings =~= e.rings);
                    assert(d.globals =~= e.globals);
                }
            },
        }
    }
}

proof fn lemma_upto_zero(l: KvLayout, b: KvBankV, k: int)
    ensures
        grown_upto(l, b, 0, k) == b,
{
    reveal(fed);
    let c = grown_upto(l, b, 0, k);
    assert(kv::count_kind(l.kinds(), LayerType::SlidingAttention, kv_slot::min2(0, l.first_kv_shared as int)) == 0);
    assert(kv::count_kind(l.kinds(), LayerType::FullAttention, kv_slot::min2(0, l.first_kv_shared as int)) == 0);
    assert(c.rings =~= b.rings);
    assert(c.globals =~= b.globals);
    assert(!fed(l, LayerType::SlidingAttention, 0));
    assert(!fed(l, LayerType::FullAttention, 0));
    assert(c =~= b);
}

/// A successful decode step adds exactly one timestep to the cache of every
/// writing layer and to the shared caches that a layer feeds, whatever kernels
/// it uses.
pub proof fn step_adds_one_timestep(
    f: StepFlags,
    m: GpuSynthModel,
    caps: Seq<LayerCaps>,
    ids: Option<Seq<usize>>,
    b: KvBankV,
    pos: int,
    n: int,
)
    requires
        m.wf(),
        step_plan::bank_fits(m, b),
        0 <= n <= m.layers@.len(),
        session::layers_run(f, m, caps, ids, b, pos, n) is Ok,
    ensures
        session::layers_run(f, m, caps, ids, b, pos, n)->Ok_0.0 == grown_upto(m.kv, b, n, 1),
        n == m.layers@.len() ==> session::layers_run(f, m, caps, ids, b, pos, n)->Ok_0.0
            == advanced(m, b, 1),
    decreases n,
{
    reveal(grown);
    if n == 0 {
        lemma_upto_zero(m.kv, b, 1);
    } else {
        step_adds_one_timestep(f, m, caps, ids, b, pos, n - 1);
        let li = n - 1;
        lemma_next_layer(m, b, li, 1);
        step_plan::lemma_slots_exist(m, b, li);
        reveal(step_plan::layer_run);
        let p = m.layers@[li];
        let c = grown_upto(m.kv, b, li, 1);
        assert(p.reads() != p.shares() || !p.produces());
    }
}

/// A successful verify call of `rows` tokens adds exactly `rows` timesteps to
/// the same caches.
pub proof fn block_adds_its_timesteps(
    f: StepFlags,
    m: GpuSynthModel,
    ids: Option<Seq<usize>>,
    b: KvBankV,
    pos0: int,
    rows: int,
    n: int,
)
    requires
        m.wf(),
        step_plan::bank_fits(m, b),
        0 <= n <= m.layers@.len(),
        verify::blocks_run(f, m, ids, b, pos0, rows, n) is Ok,
    ensures
        verify::blocks_run(f, m, ids, b, pos0, rows, n)->Ok_0.0 == grown_upto(m.kv, b, n, rows),
        n == m.layers@.len() ==> verify::blocks_run(f, m, ids, b, pos0, rows, n)->Ok_0.0
            == advanced(m, b, rows),
    decreases n,
{
    reveal(grown);
    if n == 0 {
        lemma_upto_zero(m.kv, b, rows);
    } else {
        block_adds_its_timesteps(f, m, ids, b, pos0, rows, n - 1);
        let li = n - 1;
        lemma_next_layer(m, b, li, rows);
        step_plan::lemma_slots_exist(m, b, li);
        reveal(verify_plan::block_layer_run);
        let p = m.layers@[li];
        assert(p.reads() != p.shares() || !p.produces());
    }
}

/// The caches are in step with the position: writers and fed caches hold `pos`
/// timesteps, a shared cache that nothing feeds holds none.
pub open spec fn in_step(m: GpuSynthModel, b: KvBankV, pos: int) -> bool {
    let n = m.layers@.len() as int;
    &&& forall|i: int| 0 <= i < b.rings.len() ==> (#[trigger] b.rings[i]).seq_len == pos
    &&& forall|i: int| 0 <= i < b.globals.len() ==> (#[trigger] b.globals[i]).seq_len == pos
    &&& b.shared_sliding.seq_len == (if fed(m.kv, LayerType::SlidingAttention, n) {
        pos
    } else {
        0
    })
    &&& b.shared_global.seq_len == (if fed(m.kv, LayerType::FullAttention, n) {
        pos
    } else {
        0
    })
}

/// In a fitting bank every ring and every global slot has its writer.
proof fn lemma_all_written(m: GpuSynthModel, b: KvBankV, k: int)
    requires
        m.wf(),
        step_plan::bank_fits(m, b),
    ensures
        forall|i: int|
            0 <= i < b.rings.len() ==> #[trigger] advanced(m, b, k).rings[i] == grown(
                b.rings[i],
                k,
            ),
        forall|i: int|
            0 <= i < b.globals.len() ==> #[trigger] advanced(m, b, k).globals[i] == grown(
                b.globals[i],
                k,
            ),
{
}

/// The caches of a new session are in step with position zero.
pub proof fn new_session_in_step(m: GpuSynthModel)
    requires
        m.wf(),
    ensures
        in_step(m, session::empty_bank(m), 0),
{
}

/// Adding timesteps keeps the caches in step.
pub proof fn growth_keeps_in_step(m: GpuSynthModel, b: KvBankV, pos: int, k: int)
    requires
        m.wf(),
        step_plan::bank_fits(m, b),
        in_step(m, b, pos),
        0 <= k,
        0 <= pos,
        pos + k <= usize::MAX,
    ensures
        in_step(m, advanced(m, b, k), pos + k),
{
    reveal(grown);
    lemma_all_written(m, b, k);
}

/// Rolling back keeps the caches in step.
pub proof fn trim_keeps_in_step(m: GpuSynthModel, b: KvBankV, pos: int, k: int)
    requires
        step_plan::bank_fits(m, b),
        in_step(m, b, pos),
        0 <= k <= pos <= usize::MAX,
    ensures
        in_step(m, b.trimmed(k), pos - k),
{
}

/// Verifying `rows` tokens and then keeping the first `keep` of them leaves the
/// caches as if only those had been decoded.
pub proof fn keep_equals_shorter_run(m: GpuSynthModel, b: KvBankV, pos: int, rows: int, keep: int)
    requires
        m.wf(),
        step_plan::bank_fits(m, b),
        in_step(m, b, pos),
        0 <= pos,
        0 <= keep <= rows,
        pos + rows <= usize::MAX,
    ensures
        advanced(m, b, rows).trimmed(rows - keep) == advanced(m, b, keep),
{
    lemma_all_written(m, b, rows);
    lemma_all_written(m, b, keep);
    let x = advanced(m, b, rows).trimmed(rows - keep);
    let y = advanced(m, b, keep);
    assert(b.has(SlotRef::SharedSliding));
    assert(b.has(SlotRef::SharedGlobal));
    lemma_unfed(b.shared_sliding);
    lemma_unfed(b.shared_global);
    lemma_trim_grown(b.shared_sliding, rows, keep);
    lemma_trim_grown(b.shared_global, rows, keep);
    assert forall|i: int| 0 <= i < b.rings.len() implies #[trigger] x.rings[i] == y.rings[i] by {
        assert(b.rings[i].seq_len == pos);
        lemma_trim_grown(b.rings[i], rows, keep);
    }
    assert forall|i: int| 0 <= i < b.globals.len() implies #[trigger] x.globals[i]
        == y.globals[i] by {
        assert(b.globals[i].seq_len == pos);
        lemma_trim_grown(b.globals[i], rows, keep);
    }
    assert(x.rings =~= y.rings);
    assert(x.globals =~= y.globals);
    assert(x =~= y);
}

proof fn lemma_trim_grown(s: GpuKvSlot, rows: int, keep: int)
    requires
        0 <= keep <= rows,
        s.seq_len + rows <= usize::MAX,
    ensures
        kv_bank::trimmed_slot(grown(s, rows), rows - keep) == grown(s, keep),
{
    reveal(grown);
}

proof fn lemma_unfed(s: GpuKvSlot)
    requires
        s.wf(),
    ensures
        s.holding(s.seq_len as int) == s,
        s.holding(s.seq_len - 0) == s,
{
    if s.is_ring && s.capacity > 0 {
        vstd::arithmetic::div_mod::lemma_mod_bound(s.seq_len as int, s.capacity as int);
    }
}

/// Decoding `a` and then `c` tokens grows the caches as decoding `a + c` does.
pub proof fn growth_adds_up(m: GpuSynthModel, b: KvBankV, pos: int, a: int, c: int)
    requires
        m.wf(),
        step_plan::bank_fits(m, b),
        in_step(m, b, pos),
        0 <= pos,
        0 <= a,
        0 <= c,
        pos + a + c <= usize::MAX,
    ensures
        advanced(m, advanced(m, b, a), c) == advanced(m, b, a + c),
{
    reveal(grown);
    lemma_all_written(m, b, a);
    lemma_all_written(m, b, a + c);
    let x = advanced(m, advanced(m, b, a), c);
    let y = advanced(m, b, a + c);
    assert(x.rings =~= y.rings);
    assert(x.globals =~= y.globals);
    assert(x =~= y);
}

proof fn lemma_same_slot(s: GpuKvSlot, t: GpuKvSlot)
    requires
        s.wf(),
        t.wf(),
        s.same_shape(t),
        s.seq_len == t.seq_len,
    ensures
        s == t,
{
}

/// Writing a tape that counts a row for each cache that a step writes, and for no other,
/// leaves the caches as the step does: one that skips its layers and one that walks them
/// cannot be told apart by what they count.
pub proof fn taped_steps_add_one_timestep(
    m: GpuSynthModel,
    b: KvBankV,
    tape: Seq<IcbScalarTapeOp>,
    pos: int,
)
    requires
        m.wf(),
        step_plan::bank_fits(m, b),
        icb::addresses(b, tape),
        b.lens_at_most(usize::MAX - 1 - tape.len()),
        icb::tape_run(b, tape, pos, tape.len() as int).fault is None,
        forall|r: SlotRef| #[trigger]
            b.has(r) ==> icb::commits(tape, r, tape.len() as int) == advanced(m, b, 1).slot(
                r,
            ).seq_len - b.slot(r).seq_len,
    ensures
        icb::tape_run(b, tape, pos, tape.len() as int).kv == advanced(m, b, 1),
{
    reveal(grown);
    let n = tape.len() as int;
    let c = icb::tape_run(b, tape, pos, n).kv;
    let d = advanced(m, b, 1);
    assert(b.has(SlotRef::SharedSliding));
    assert(b.has(SlotRef::SharedGlobal));
    assert forall|r: SlotRef| #[trigger] b.has(r) implies c.slot(r) == d.slot(r) by {
        icb::tape_adds_its_commits(b, tape, pos, n, r);
        let s = b.slot(r);
        assert(c.has(r));
        assert(c.slot(r).same_shape(s));
        assert(s.wf());
        if d.slot(r) == s {
        } else {
            assert(d.slot(r) == s.holding(s.seq_len + 1));
            assert(c.slot(r).seq_len == s.seq_len + 1);
            if s.is_ring && s.capacity > 0 {
                vstd::arithmetic::div_mod::lemma_mod_bound(s.seq_len + 1, s.capacity as int);
            }
        }
        lemma_same_slot(c.slot(r), d.slot(r));
    }
    icb::tape_adds_its_commits(b, tape, pos, n, SlotRef::SharedSliding);
    assert forall|i: int| 0 <= i < b.rings.len() implies c.rings[i] == d.rings[i] by {
        assert(b.has(SlotRef::Ring(i as usize)));
        assert(c.slot(SlotRef::Ring(i as usize)) == d.slot(SlotRef::Ring(i as usize)));
    }
    assert forall|i: int| 0 <= i < b.globals.len() implies c.globals[i] == d.globals[i] by {
        assert(b.has(SlotRef::Global(i as usize)));
        assert(c.slot(SlotRef::Global(i as usize)) == d.slot(SlotRef::Global(i as usize)));
    }
    assert(c.rings =~= d.rings);
    assert(c.globals =~= d.globals);
    assert(c.slot(SlotRef::SharedSliding) == d.slot(SlotRef::SharedSliding));
    assert(c.slot(SlotRef::SharedGlobal) == d.slot(SlotRef::SharedGlobal));
    assert(c =~= d);
}

/// A step that skips its layers fills no slot of the capture. Where one is on, finishing
/// such a step fails, whatever the device answers.
pub proof fn skipped_steps_capture_nothing(
    s: GpuDecodeSession,
    after: GpuDecodeSession,
    flags: StepFlags,
    caps: Seq<LayerCaps>,
    req: StepRequest,
    tape: Option<Seq<IcbScalarTapeOp>>,
    row_len: int,
    fail: u32,
)
    requires
        s.wf(),
        s.capture is Some,
        req.mode == LayerMode::Skip,
        decode::front_run(s, flags, caps, req, tape) is Ok,
        s.fronted(
            (GpuDecodeSession { conditioner: s.conditioner, ..after }),
            flags,
            caps,
            req,
            tape,
        ),
    ensures
        after.finish_refusal(flags.interp, req.readback, row_len, fail) is Some,
{
    reveal(GpuDecodeSession::midway);
    reveal(decode::middle_reach);
    let c = after.capture->0;
    assert(c.layer_ids@.len() > 0);
    assert(c.step_mask@ == session::filled_by(s.capture->0.layer_ids@, 0));
    assert(capture::first_hole(c.step_mask@, 0));
    assert(c.row_refusal(row_len) is Some);
}

} // verus!
