//! What holds of a device whatever its memory is and its commands do to it: commands
//! run one after another, each on what the ones before it left.

use crate::decode;
use crate::decode::StepRequest;
use crate::error::ErrorV;
use crate::icb::IcbScalarTapeOp;
use crate::kv_bank::KvBankV;
use crate::kv_slot;
use crate::kv_slot::{FaView, GpuKvSlot};
use crate::model::{GpuSynthLayer, GpuSynthModel};
use crate::ops::Op;
use crate::session;
use crate::session::{GpuDecodeSession, LayerMode};
use crate::step_plan;
use crate::step_plan::{LayerCaps, StepFlags};
use crate::steps::StepwiseVerify;
use vstd::prelude::*;

verus! {

/// The memory of a device after commands.
#[verifier::opaque]
pub open spec fn run_all<M>(device: spec_fn(M, Op) -> M, mem: M, ops: Seq<Op>) -> M
    decreases ops.len(),
{
    if ops.len() == 0 {
        mem
    } else {
        device(run_all(device, mem, ops.drop_last()), ops.last())
    }
}

proof fn lemma_run_append<M>(device: spec_fn(M, Op) -> M, mem: M, a: Seq<Op>, b: Seq<Op>)
    ensures
        run_all(device, mem, a + b) == run_all(device, run_all(device, mem, a), b),
    decreases b.len(),
{
    reveal_with_fuel(run_all, 2);
    if b.len() == 0 {
        assert(a + b =~= a);
    } else {
        lemma_run_append(device, mem, a, b.drop_last());
        assert((a + b).drop_last() =~= a + b.drop_last());
        assert((a + b).last() == b.last());
    }
}

/// The interpreter stand-ins work on buffers of their own: they leave everything else
/// as it is.
pub open spec fn stand_ins_are_apart<M>(device: spec_fn(M, Op) -> M) -> bool {
    forall|mem: M|
        device(mem, Op::InterpFaO) == mem && #[trigger] device(mem, Op::InterpGateDown) == mem
}

/// Two settings of the switches that differ at most in the interpreter stand-ins.
pub open spec fn same_but_stand_ins(a: StepFlags, b: StepFlags) -> bool {
    a == (StepFlags { interp: a.interp, ..b })
}

proof fn lemma_stand_ins<M>(device: spec_fn(M, Op) -> M, mem: M, f: StepFlags)
    requires
        stand_ins_are_apart(device),
    ensures
        run_all(device, mem, step_plan::interp_ops(f)) == mem,
{
    reveal_with_fuel(run_all, 3);
    let ops = step_plan::interp_ops(f);
    if f.interp {
        assert(ops.drop_last() =~= seq![Op::InterpFaO]);
        assert(ops.drop_last().drop_last() =~= Seq::<Op>::empty());
        assert(device(mem, Op::InterpGateDown) == mem);
    }
}

proof fn lemma_same_caches(
    a: StepFlags,
    b: StepFlags,
    m: GpuSynthModel,
    bank: KvBankV,
    li: usize,
)
    requires
        same_but_stand_ins(a, b),
    ensures
        step_plan::cache_ops(a, m, bank, li) == step_plan::cache_ops(b, m, bank, li),
{
}

proof fn lemma_same_head(
    a: StepFlags,
    b: StepFlags,
    m: GpuSynthModel,
    c: LayerCaps,
    li: usize,
)
    requires
        same_but_stand_ins(a, b),
    ensures
        step_plan::head_ops(a, m, c, li) == step_plan::head_ops(b, m, c, li),
{
}

proof fn lemma_same_attention(
    a: StepFlags,
    b: StepFlags,
    p: GpuSynthLayer,
    slot: GpuKvSlot,
    li: usize,
    pos: int,
)
    requires
        same_but_stand_ins(a, b),
    ensures
        step_plan::attend_ops(
            a,
            p,
            slot,
            li,
            1,
            kv_slot::low32(pos + 1),
            kv_slot::low32(pos),
        ) == step_plan::attend_ops(
            b,
            p,
            slot,
            li,
            1,
            kv_slot::low32(pos + 1),
            kv_slot::low32(pos),
        ),
{
}

proof fn lemma_same_rest(
    a: StepFlags,
    b: StepFlags,
    m: GpuSynthModel,
    c: LayerCaps,
    li: usize,
)
    requires
        same_but_stand_ins(a, b),
    ensures
        step_plan::dual_norm(a, m, li as int) == step_plan::dual_norm(b, m, li as int),
        step_plan::out_proj_ops(
            a,
            step_plan::dual_norm(a, m, li as int),
            li,
            1,
            m.hidden as int,
        ) == step_plan::out_proj_ops(
            b,
            step_plan::dual_norm(b, m, li as int),
            li,
            1,
            m.hidden as int,
        ),
        step_plan::ple_ops(a, m, li) == step_plan::ple_ops(b, m, li),
        step_plan::mlp_ops(a, m, c, li) == step_plan::mlp_ops(b, m, c, li),
{
}

proof fn lemma_layer<M>(
    device: spec_fn(M, Op) -> M,
    mem: M,
    a: StepFlags,
    b: StepFlags,
    m: GpuSynthModel,
    c: LayerCaps,
    bank: KvBankV,
    li: usize,
    pos: int,
)
    requires
        stand_ins_are_apart(device),
        same_but_stand_ins(a, b),
    ensures
        match (
            step_plan::layer_run(a, m, c, bank, li, pos),
            step_plan::layer_run(b, m, c, bank, li, pos),
        ) {
            (Ok((b1, x)), Ok((b2, y))) => b1 == b2 && run_all(device, mem, x) == run_all(
                device,
                mem,
                y,
            ),
            (Err(e1), Err(e2)) => e1 == e2,
            _ => false,
        },
{
    reveal(step_plan::layer_run);
    lemma_same_caches(a, b, m, bank, li);
    lemma_same_head(a, b, m, c, li);
    let p = m.layers@[li as int];
    if let Ok((b1, cache)) = step_plan::cache_ops(a, m, bank, li) {
        lemma_same_attention(a, b, p, b1.slot(p.reads()), li, pos);
        lemma_same_rest(a, b, m, c, li);
        let base = step_plan::head_ops(a, m, c, li) + cache + step_plan::attend_ops(
            a,
            p,
            b1.slot(p.reads()),
            li,
            1,
            kv_slot::low32(pos + 1),
            kv_slot::low32(pos),
        ) + step_plan::out_proj_ops(
            a,
            step_plan::dual_norm(a, m, li as int),
            li,
            1,
            m.hidden as int,
        ) + step_plan::ple_ops(a, m, li) + step_plan::mlp_ops(a, m, c, li);
        lemma_run_append(device, mem, base, step_plan::interp_ops(a));
        lemma_run_append(device, mem, base, step_plan::interp_ops(b));
        lemma_stand_ins(device, run_all(device, mem, base), a);
        lemma_stand_ins(device, run_all(device, mem, base), b);
    }
}

proof fn lemma_layers<M>(
    device: spec_fn(M, Op) -> M,
    mem: M,
    a: StepFlags,
    b: StepFlags,
    m: GpuSynthModel,
    caps: Seq<LayerCaps>,
    ids: Option<Seq<usize>>,
    bank: KvBankV,
    pos: int,
    n: int,
)
    requires
        stand_ins_are_apart(device),
        same_but_stand_ins(a, b),
    ensures
        match (
            session::layers_run(a, m, caps, ids, bank, pos, n),
            session::layers_run(b, m, caps, ids, bank, pos, n),
        ) {
            (Ok((b1, x)), Ok((b2, y))) => b1 == b2 && run_all(device, mem, x) == run_all(
                device,
                mem,
                y,
            ),
            (Err(e1), Err(e2)) => e1 == e2,
            _ => false,
        },
    decreases n,
{
    if n > 0 {
        lemma_layers(device, mem, a, b, m, caps, ids, bank, pos, n - 1);
        if let (Ok((b1, x)), Ok((b2, y))) = (
            session::layers_run(a, m, caps, ids, bank, pos, n - 1),
            session::layers_run(b, m, caps, ids, bank, pos, n - 1),
        ) {
            let li = (n - 1) as usize;
            let mid = run_all(device, mem, x);
            lemma_layer(device, mid, a, b, m, caps[n - 1], b1, li, pos);
            if let (Ok((_, u)), Ok((_, v))) = (
                step_plan::layer_run(a, m, caps[n - 1], b1, li, pos),
                step_plan::layer_run(b, m, caps[n - 1], b1, li, pos),
            ) {
                let cap = session::capture_ops(a, ids, li, m.hidden as int);
                assert(cap == session::capture_ops(b, ids, li, m.hidden as int));
                lemma_run_append(device, mem, x + u, cap);
                lemma_run_append(device, mem, y + v, cap);
                lemma_run_append(device, mem, x, u);
                lemma_run_append(device, mem, y, v);
            }
        }
    }
}

proof fn lemma_same_sample(
    a: StepFlags,
    b: StepFlags,
    m: GpuSynthModel,
    head: bool,
)
    requires
        same_but_stand_ins(a, b),
    ensures
        decode::head_ops(a, m, head) == decode::head_ops(b, m, head),
{
}

/// Two requests for the same step that differ at most in how its layers reach the
/// device.
pub open spec fn same_but_mode(a: StepRequest, b: StepRequest) -> bool {
    a == (StepRequest { mode: a.mode, ..b })
}

/// Two steps, each the caches after it and its commands, come to the same: the caches
/// are counted alike, and a memory is left alike. If one fails, both do, with the same
/// error.
#[verifier::opaque]
pub open spec fn alike<M>(
    device: spec_fn(M, Op) -> M,
    mem: M,
    a: std::result::Result<(KvBankV, Seq<Op>), ErrorV>,
    b: std::result::Result<(KvBankV, Seq<Op>), ErrorV>,
) -> bool {
    match (a, b) {
        (Ok((b1, x)), Ok((b2, y))) => b1 == b2 && run_all(device, mem, x) == run_all(
            device,
            mem,
            y,
        ),
        (Err(e1), Err(e2)) => e1 == e2,
        _ => false,
    }
}

/// What a step asks of the device before its layers.
pub open spec fn opening(s: GpuDecodeSession, flags: StepFlags, req: StepRequest) -> Seq<Op> {
    match decode::open_run(s, session::effective(flags, s.capture is Some), req) {
        Ok(ops) => ops,
        Err(_) => seq![],
    }
}

/// That a device records commands leaves its memory as it is.
pub open spec fn recording_is_apart<M>(device: spec_fn(M, Op) -> M) -> bool {
    forall|mem: M|
        device(mem, Op::BeginRecord) == mem && #[trigger] device(mem, Op::EndRecord) == mem
}

/// What stands for the layers of this step does on a memory what encoding them would, and
/// counts the caches alike.
#[verifier::opaque]
pub open spec fn replays<M>(
    device: spec_fn(M, Op) -> M,
    mem: M,
    s: GpuDecodeSession,
    flags: StepFlags,
    caps: Seq<LayerCaps>,
    mode: LayerMode,
    tape: Option<Seq<IcbScalarTapeOp>>,
) -> bool {
    let f = session::effective(flags, s.capture is Some);
    match (
        decode::middle_run(s, f, caps, LayerMode::Encode, None),
        decode::middle_run(s, f, caps, mode, tape),
    ) {
        (Ok((b1, layers)), Ok((b2, ops))) => b1 == b2 && run_all(
            device,
            mem,
            ops + decode::replay_ops(mode),
        ) == run_all(device, mem, layers),
        (Err(e1), Err(e2)) => e1 == e2,
        _ => false,
    }
}

/// The layers reach the device as the recorded graph.
pub open spec fn is_replay(mode: LayerMode) -> bool {
    mode == LayerMode::Replay || mode == LayerMode::Skip
}

proof fn lemma_middle<M>(
    device: spec_fn(M, Op) -> M,
    mem: M,
    s: GpuDecodeSession,
    flags: StepFlags,
    caps: Seq<LayerCaps>,
    mode: LayerMode,
    tape: Option<Seq<IcbScalarTapeOp>>,
)
    requires
        recording_is_apart(device),
        is_replay(mode) ==> replays(device, mem, s, flags, caps, mode, tape),
    ensures
        replays(device, mem, s, flags, caps, mode, tape),
{
    reveal(decode::middle_run);
    reveal(replays);
    let f = session::effective(flags, s.capture is Some);
    if let Ok((_, layers)) = decode::middle_run(s, f, caps, LayerMode::Encode, None) {
        if mode == LayerMode::Encode {
            assert(layers + decode::replay_ops(mode) =~= layers);
        } else if mode == LayerMode::Record {
            let begin = seq![Op::BeginRecord];
            let end = seq![Op::EndRecord];
            let ops = begin + layers + end;
            assert(ops + decode::replay_ops(mode) =~= ops);
            lemma_run_append(device, mem, begin + layers, end);
            lemma_run_append(device, mem, begin, layers);
            assert(begin.drop_last() =~= Seq::<Op>::empty());
            assert(end.drop_last() =~= Seq::<Op>::empty());
            reveal_with_fuel(run_all, 2);
            assert(device(mem, Op::EndRecord) == mem);
            let done = run_all(device, mem, layers);
            assert(device(done, Op::EndRecord) == done);
        }
    }
}

/// The switches that choose how a step is encoded, command by command or as a recorded
/// graph, with the interpreter stand-ins or without them, change nothing that the step
/// leaves behind: the caches are counted alike, and the device's memory, and with it the
/// token that is read from it, is the same. Automatic barriers are on.
#[verifier::spinoff_prover]
#[verifier::rlimit(100)]
pub proof fn switches_change_no_step<M>(
    device: spec_fn(M, Op) -> M,
    mem: M,
    s: GpuDecodeSession,
    fa: StepFlags,
    fb: StepFlags,
    caps: Seq<LayerCaps>,
    ra: StepRequest,
    rb: StepRequest,
    ta: Option<Seq<IcbScalarTapeOp>>,
    tb: Option<Seq<IcbScalarTapeOp>>,
)
    requires
        stand_ins_are_apart(device),
        recording_is_apart(device),
        same_but_stand_ins(fa, fb),
        !fa.hazard,
        same_but_mode(ra, rb),
        is_replay(ra.mode) ==> replays(
            device,
            run_all(device, mem, opening(s, fa, ra)),
            s,
            fa,
            caps,
            ra.mode,
            ta,
        ),
        is_replay(rb.mode) ==> replays(
            device,
            run_all(device, mem, opening(s, fb, rb)),
            s,
            fb,
            caps,
            rb.mode,
            tb,
        ),
    ensures
        alike(
            device,
            mem,
            decode::encode_run(s, fa, caps, ra, ta),
            decode::encode_run(s, fb, caps, rb, tb),
        ),
{
    let ea = session::effective(fa, s.capture is Some);
    let eb = session::effective(fb, s.capture is Some);
    let start = opening(s, fa, ra);
    let oa = decode::open_run(s, ea, ra);
    let ob = decode::open_run(s, eb, rb);
    let ma = decode::middle_run(s, ea, caps, ra.mode, ta);
    let mb = decode::middle_run(s, eb, caps, rb.mode, tb);
    let pa = decode::replay_ops(ra.mode);
    let pb = decode::replay_ops(rb.mode);
    let ba = decode::back_run(s, fa, ra);
    let bb = decode::back_run(s, fb, rb);
    let a = decode::encode_run(s, fa, caps, ra, ta);
    let b = decode::encode_run(s, fb, caps, rb, tb);
    assert(same(start, opening(s, fb, rb)) && same(oa, ob) && same(ba, bb)) by {
        lemma_same_ends(s, fa, fb, ra, rb);
    }
    assert(alike(device, run_all(device, mem, start), followed(ma, pa), followed(mb, pb))) by {
        lemma_middles(
            device,
            run_all(device, mem, start),
            s,
            fa,
            fb,
            caps,
            ra.mode,
            rb.mode,
            ta,
            tb,
            ma,
            mb,
        );
    }
    assert(same(a, joined(oa, ma, pa, ba))) by {
        lemma_parts(s, fa, caps, ra, ta);
    }
    assert(same(b, joined(ob, mb, pb, bb))) by {
        lemma_parts(s, fb, caps, rb, tb);
    }
    assert(oa matches Ok(o) ==> same(start, o));
    lemma_switched(device, mem, start, oa, ma, mb, pa, pb, ba, ob, bb, a, b);
}

proof fn lemma_switched<M>(
    device: spec_fn(M, Op) -> M,
    mem: M,
    start: Seq<Op>,
    open: std::result::Result<Seq<Op>, ErrorV>,
    ma: std::result::Result<(KvBankV, Seq<Op>), ErrorV>,
    mb: std::result::Result<(KvBankV, Seq<Op>), ErrorV>,
    pa: Seq<Op>,
    pb: Seq<Op>,
    back: std::result::Result<Seq<Op>, ErrorV>,
    open_b: std::result::Result<Seq<Op>, ErrorV>,
    back_b: std::result::Result<Seq<Op>, ErrorV>,
    a: std::result::Result<(KvBankV, Seq<Op>), ErrorV>,
    b: std::result::Result<(KvBankV, Seq<Op>), ErrorV>,
)
    requires
        open matches Ok(o) ==> same(start, o),
        same(open, open_b),
        same(back, back_b),
        alike(device, run_all(device, mem, start), followed(ma, pa), followed(mb, pb)),
        same(a, joined(open, ma, pa, back)),
        same(b, joined(open_b, mb, pb, back_b)),
    ensures
        alike(device, mem, a, b),
{
    lemma_joined(device, mem, open, ma, mb, pa, pb, back);
    reveal(alike);
    reveal(joined);
    reveal(followed);
}

spec fn same<T>(a: T, b: T) -> bool {
    a == b
}

/// A part of a step with more commands behind it.
#[verifier::opaque]
pub open spec fn followed(
    middle: std::result::Result<(KvBankV, Seq<Op>), ErrorV>,
    more: Seq<Op>,
) -> std::result::Result<(KvBankV, Seq<Op>), ErrorV> {
    match middle {
        Err(e) => Err(e),
        Ok((b, ops)) => Ok((b, ops + more)),
    }
}

/// The parts of a step, put together.
#[verifier::opaque]
pub open spec fn joined(
    open: std::result::Result<Seq<Op>, ErrorV>,
    middle: std::result::Result<(KvBankV, Seq<Op>), ErrorV>,
    replay: Seq<Op>,
    back: std::result::Result<Seq<Op>, ErrorV>,
) -> std::result::Result<(KvBankV, Seq<Op>), ErrorV> {
    match open {
        Err(e) => Err(e),
        Ok(o) => match middle {
            Err(e) => Err(e),
            Ok((b, m)) => match back {
                Err(e) => Err(e),
                Ok(l) => Ok((b, o + m + replay + l)),
            },
        },
    }
}

proof fn lemma_parts(
    s: GpuDecodeSession,
    flags: StepFlags,
    caps: Seq<LayerCaps>,
    req: StepRequest,
    tape: Option<Seq<IcbScalarTapeOp>>,
)
    ensures
        same(
            decode::encode_run(s, flags, caps, req, tape),
            joined(
                decode::open_run(s, session::effective(flags, s.capture is Some), req),
                decode::middle_run(
                    s,
                    session::effective(flags, s.capture is Some),
                    caps,
                    req.mode,
                    tape,
                ),
                decode::replay_ops(req.mode),
                decode::back_run(s, flags, req),
            ),
        ),
{
    reveal(decode::encode_run);
    reveal(joined);
}

proof fn lemma_joined<M>(
    device: spec_fn(M, Op) -> M,
    mem: M,
    open: std::result::Result<Seq<Op>, ErrorV>,
    ma: std::result::Result<(KvBankV, Seq<Op>), ErrorV>,
    mb: std::result::Result<(KvBankV, Seq<Op>), ErrorV>,
    pa: Seq<Op>,
    pb: Seq<Op>,
    back: std::result::Result<Seq<Op>, ErrorV>,
)
    requires
        open matches Ok(o) ==> alike(
            device,
            run_all(device, mem, o),
            followed(ma, pa),
            followed(mb, pb),
        ),
    ensures
        alike(device, mem, joined(open, ma, pa, back), joined(open, mb, pb, back)),
{
    reveal(alike);
    reveal(joined);
    reveal(followed);
    if let (Ok(o), Ok((_, x)), Ok((_, y)), Ok(l)) = (open, ma, mb, back) {
        lemma_run_parts(device, mem, o, x, pa, l);
        lemma_run_parts(device, mem, o, y, pb, l);
    }
}

proof fn lemma_middles<M>(
    device: spec_fn(M, Op) -> M,
    mem: M,
    s: GpuDecodeSession,
    fa: StepFlags,
    fb: StepFlags,
    caps: Seq<LayerCaps>,
    ra: LayerMode,
    rb: LayerMode,
    ta: Option<Seq<IcbScalarTapeOp>>,
    tb: Option<Seq<IcbScalarTapeOp>>,
    ma: std::result::Result<(KvBankV, Seq<Op>), ErrorV>,
    mb: std::result::Result<(KvBankV, Seq<Op>), ErrorV>,
)
    requires
        stand_ins_are_apart(device),
        recording_is_apart(device),
        same_but_stand_ins(fa, fb),
        is_replay(ra) ==> replays(device, mem, s, fa, caps, ra, ta),
        is_replay(rb) ==> replays(device, mem, s, fb, caps, rb, tb),
        ma == decode::middle_run(s, session::effective(fa, s.capture is Some), caps, ra, ta),
        mb == decode::middle_run(s, session::effective(fb, s.capture is Some), caps, rb, tb),
    ensures
        alike(
            device,
            mem,
            followed(ma, decode::replay_ops(ra)),
            followed(mb, decode::replay_ops(rb)),
        ),
{
    lemma_encoded(device, mem, s, fa, fb, caps);
    lemma_middle(device, mem, s, fa, caps, ra, ta);
    lemma_middle(device, mem, s, fb, caps, rb, tb);
    reveal(replays);
    reveal(alike);
    reveal(followed);
}

proof fn lemma_run_parts<M>(
    device: spec_fn(M, Op) -> M,
    mem: M,
    start: Seq<Op>,
    middle: Seq<Op>,
    replay: Seq<Op>,
    back: Seq<Op>,
)
    ensures
        run_all(device, mem, start + middle + replay + back) == run_all(
            device,
            run_all(device, run_all(device, mem, start), middle + replay),
            back,
        ),
{
    assert(start + middle + replay =~= start + (middle + replay));
    lemma_run_append(device, mem, start, middle + replay);
    lemma_run_append(device, mem, start + middle + replay, back);
}

/// The first and the last part of a step are the same with the stand-ins and without
/// them, however its layers reach the device.
proof fn lemma_same_ends(
    s: GpuDecodeSession,
    fa: StepFlags,
    fb: StepFlags,
    ra: StepRequest,
    rb: StepRequest,
)
    requires
        same_but_stand_ins(fa, fb),
        !fa.hazard,
        same_but_mode(ra, rb),
    ensures
        same(opening(s, fa, ra), opening(s, fb, rb)),
        same(
            decode::open_run(s, session::effective(fa, s.capture is Some), ra),
            decode::open_run(s, session::effective(fb, s.capture is Some), rb),
        ),
        same(decode::back_run(s, fa, ra), decode::back_run(s, fb, rb)),
{
    let ea = session::effective(fa, s.capture is Some);
    let eb = session::effective(fb, s.capture is Some);
    assert(ea.hazard == eb.hazard);
    assert(ra.token() == rb.token());
    lemma_same_open(s, ea, eb, ra, rb);
    lemma_same_back(s, fa, fb, ra, rb);
}

proof fn lemma_same_open(
    s: GpuDecodeSession,
    ea: StepFlags,
    eb: StepFlags,
    ra: StepRequest,
    rb: StepRequest,
)
    requires
        ea.hazard == eb.hazard,
        ra.token() == rb.token(),
        ra.seed == rb.seed,
    ensures
        same(decode::open_run(s, ea, ra), decode::open_run(s, eb, rb)),
{
    reveal(decode::open_run);
}

proof fn lemma_same_back(
    s: GpuDecodeSession,
    fa: StepFlags,
    fb: StepFlags,
    ra: StepRequest,
    rb: StepRequest,
)
    requires
        same_but_stand_ins(fa, fb),
        !fa.hazard,
        same_but_mode(ra, rb),
    ensures
        same(decode::back_run(s, fa, ra), decode::back_run(s, fb, rb)),
{
    reveal(decode::back_run);
    let ea = session::effective(fa, s.capture is Some);
    let eb = session::effective(fb, s.capture is Some);
    assert(same_but_stand_ins(ea, eb));
    lemma_same_sample(ea, eb, s.model, ra.head);
    assert(decode::settle_ops(ra.mode, false) =~= decode::settle_ops(rb.mode, false));
}

proof fn lemma_encoded<M>(
    device: spec_fn(M, Op) -> M,
    mem: M,
    s: GpuDecodeSession,
    fa: StepFlags,
    fb: StepFlags,
    caps: Seq<LayerCaps>,
)
    requires
        stand_ins_are_apart(device),
        same_but_stand_ins(fa, fb),
    ensures
        match (
            decode::middle_run(
                s,
                session::effective(fa, s.capture is Some),
                caps,
                LayerMode::Encode,
                None,
            ),
            decode::middle_run(
                s,
                session::effective(fb, s.capture is Some),
                caps,
                LayerMode::Encode,
                None,
            ),
        ) {
            (Ok((b1, x)), Ok((b2, y))) => b1 == b2 && run_all(device, mem, x) == run_all(
                device,
                mem,
                y,
            ),
            (Err(e1), Err(e2)) => e1 == e2,
            _ => false,
        },
{
    reveal(decode::middle_run);
    lemma_layers(
        device,
        mem,
        session::effective(fa, s.capture is Some),
        session::effective(fb, s.capture is Some),
        s.model,
        caps,
        session::ids_of(s.capture),
        s.kv@,
        s.pos as int,
        s.model.layers@.len() as int,
    );
}

/// A session that decodes tokens one by one on a device: its states and the device's
/// memory before each step and after the last one. Nothing is captured.
pub struct Decoding<M> {
    pub flags: StepFlags,
    pub states: Seq<GpuDecodeSession>,
    pub mems: Seq<M>,
    pub modes: Seq<LayerMode>,
    /// The tape of the recorded layers, as each step finds it.
    pub tapes: Seq<Option<Seq<IcbScalarTapeOp>>>,
}

/// The request for a decoded token.
pub open spec fn request(token: u32, mode: LayerMode) -> StepRequest {
    StepRequest {
        seed: session::StepSeed::Host(token),
        resident: token,
        readback: true,
        head: true,
        mode,
    }
}

/// Step `i` of a decoding was made: encoded, run and finished.
pub open spec fn step_made<M>(
    d: Decoding<M>,
    device: spec_fn(M, Op) -> M,
    caps: Seq<LayerCaps>,
    tokens: Seq<u32>,
    i: int,
) -> bool {
    let s = d.states[i];
    let t = d.states[i + 1];
    let req = request(tokens[i], d.modes[i]);
    &&& s.capture is None
    &&& t.capture is None
    &&& t.model == s.model
    &&& t.pos == s.pos + 1
    &&& decode::encode_run(s, d.flags, caps, req, d.tapes[i]) matches Ok((bank, ops)) && t.kv@
        == bank && d.mems[i + 1] == run_all(device, d.mems[i], ops)
    &&& is_replay(d.modes[i]) ==> replays(
        device,
        run_all(device, d.mems[i], opening(s, d.flags, req)),
        s,
        d.flags,
        caps,
        d.modes[i],
        d.tapes[i],
    )
}

/// All tokens were decoded.
pub open spec fn decoded<M>(
    d: Decoding<M>,
    device: spec_fn(M, Op) -> M,
    caps: Seq<LayerCaps>,
    tokens: Seq<u32>,
) -> bool {
    &&& d.states.len() == tokens.len() + 1
    &&& d.mems.len() == tokens.len() + 1
    &&& d.modes.len() == tokens.len()
    &&& d.states[0].capture is None
    &&& forall|i: int| 0 <= i < tokens.len() ==> #[trigger] step_made(d, device, caps, tokens, i)
}

/// What a step asks for depends on the model, the caches and the position.
proof fn lemma_alike(
    a: GpuDecodeSession,
    b: GpuDecodeSession,
    flags: StepFlags,
    caps: Seq<LayerCaps>,
    req: StepRequest,
    tape: Option<Seq<IcbScalarTapeOp>>,
)
    requires
        a.capture is None,
        b.capture is None,
        a.model == b.model,
        a.kv@ == b.kv@,
        a.pos == b.pos,
    ensures
        decode::encode_run(a, flags, caps, req, tape) == decode::encode_run(
            b,
            flags,
            caps,
            req,
            tape,
        ),
{
    reveal(decode::encode_run);
    reveal(decode::middle_run);
    reveal(decode::open_run);
    reveal(decode::back_run);
    assert(session::ids_of(a.capture) == session::ids_of(b.capture));
}

/// Two sessions over the same model that begin alike and decode the same tokens, one
/// with recorded graphs or stand-ins and one without them, are alike after every step:
/// whatever token is read from the memory of one is read from that of the other.
pub proof fn switches_change_no_token<M>(
    a: Decoding<M>,
    b: Decoding<M>,
    device: spec_fn(M, Op) -> M,
    caps: Seq<LayerCaps>,
    tokens: Seq<u32>,
    i: int,
)
    requires
        stand_ins_are_apart(device),
        recording_is_apart(device),
        same_but_stand_ins(a.flags, b.flags),
        !a.flags.hazard,
        decoded(a, device, caps, tokens),
        decoded(b, device, caps, tokens),
        forall|k: int| 0 <= k < tokens.len() ==> #[trigger] b.modes[k] == LayerMode::Encode,
        a.states[0].model == b.states[0].model,
        a.states[0].kv@ == b.states[0].kv@,
        a.states[0].pos == b.states[0].pos,
        a.mems[0] == b.mems[0],
        0 <= i <= tokens.len(),
    ensures
        a.mems[i] == b.mems[i],
        a.states[i].model == b.states[i].model,
        a.states[i].kv@ == b.states[i].kv@,
        a.states[i].pos == b.states[i].pos,
        a.states[i].capture is None,
        b.states[i].capture is None,
    decreases i,
{
    if i > 0 {
        let k = i - 1;
        switches_change_no_token(a, b, device, caps, tokens, k);
        assert(step_made(a, device, caps, tokens, k));
        assert(step_made(b, device, caps, tokens, k));
        assert(b.modes[k] == LayerMode::Encode);
        let ra = request(tokens[k], a.modes[k]);
        let rb = request(tokens[k], b.modes[k]);
        lemma_alike(a.states[k], b.states[k], b.flags, caps, rb, b.tapes[k]);
        reveal(alike);
        switches_change_no_step(
            device,
            a.mems[k],
            a.states[k],
            a.flags,
            b.flags,
            caps,
            ra,
            rb,
            a.tapes[k],
            b.tapes[k],
        );
    }
}

/// The answers of a device that is handed tokens one by one, and its state after them.
pub open spec fn stepped<S>(
    device: spec_fn(S, u32) -> (S, u32),
    s: S,
    tokens: Seq<u32>,
) -> (S, Seq<u32>)
    decreases tokens.len(),
{
    if tokens.len() == 0 {
        (s, seq![])
    } else {
        let before = stepped(device, s, tokens.drop_last());
        let now = device(before.0, tokens.last());
        (now.0, before.1.push(now.1))
    }
}

/// The answers so far are those of single steps with the same tokens.
pub open spec fn follows_steps<S>(
    v: StepwiseVerify,
    device: spec_fn(S, u32) -> (S, u32),
    s: S,
) -> bool {
    &&& v.wf()
    &&& v.next_tokens@ == stepped(
        device,
        s,
        v.tokens@.subrange(0, v.next_tokens@.len() as int),
    ).1
}

/// A verify that steps its tokens answers what single steps with those tokens answer: it
/// does so when it begins, goes on to do so with every answer, and when all are in, its
/// result is what the single steps gave, in order.
pub proof fn verified_steps_are_single_steps<S>(
    before: StepwiseVerify,
    after: StepwiseVerify,
    device: spec_fn(S, u32) -> (S, u32),
    s: S,
)
    requires
        before.wf(),
        before.next_tokens@.len() < before.tokens@.len(),
        after == (StepwiseVerify { next_tokens: after.next_tokens, ..before }),
        after.next_tokens@ == before.next_tokens@.push(
            device(
                stepped(
                    device,
                    s,
                    before.tokens@.subrange(0, before.next_tokens@.len() as int),
                ).0,
                before.tokens@[before.next_tokens@.len() as int],
            ).1,
        ),
    ensures
        before.next_tokens@.len() == 0 ==> follows_steps(before, device, s),
        follows_steps(before, device, s) ==> follows_steps(after, device, s),
        follows_steps(after, device, s) && after.next_tokens@.len() == after.tokens@.len()
            ==> after.next_tokens@ == stepped(device, s, after.tokens@).1,
{
    let k = before.next_tokens@.len() as int;
    let longer = after.tokens@.subrange(0, k + 1);
    assert(longer.drop_last() =~= before.tokens@.subrange(0, k));
    assert(longer.last() == before.tokens@[k]);
    if k == 0 {
        assert(before.tokens@.subrange(0, 0).len() == 0);
        assert(before.next_tokens@ =~= Seq::<u32>::empty());
    }
    assert(after.tokens@.subrange(0, after.tokens@.len() as int) =~= after.tokens@);
}

/// A query at a position attends to the key at position `j`: the key is there, it is not
/// later, and it lies in the window.
pub open spec fn attends(v: FaView, q_pos: int, window: Option<usize>, j: int) -> bool {
    &&& v.kv_pos_offset <= j < v.kv_pos_offset + v.rows
    &&& j <= q_pos
    &&& window matches Some(w) ==> q_pos - j < w
}

/// What later rows of a block write does not take the place of what its rows attend to:
/// the cache has room for the whole block, or it is a ring that is longer than the window
/// by as much as the block goes on after a row.
pub open spec fn block_leaves_reads(s: GpuKvSlot, rows: int, window: Option<usize>) -> bool {
    s.seq_len + rows <= s.capacity || (s.is_ring && (window matches Some(w) && w + rows - 1
        <= s.capacity))
}

/// Each row of a verified block attends to the positions that a single step at its
/// position attends to, as long as the block does not overwrite them.
pub proof fn block_rows_attend_as_steps(
    s: GpuKvSlot,
    rows: int,
    i: int,
    window: Option<usize>,
    j: int,
)
    requires
        s.wf(),
        0 <= i < rows,
        block_leaves_reads(s, rows, window),
        s.seq_len + rows <= u32::MAX,
    ensures
        ({
            let p = s.seq_len as int;
            let block = s.holding(p + rows).fa_view(kv_slot::low32(p + rows));
            let step = s.holding(p + i + 1).fa_view(kv_slot::low32(p + i + 1));
            attends(block, p + i, window, j) == attends(step, p + i, window, j)
        }),
{
}

} // verus!
