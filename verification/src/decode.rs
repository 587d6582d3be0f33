//! One decode step of a session: encoding up to the point where the device's
//! answer is needed, finishing with that answer, and rolling back.

use crate::capture::HiddenCapture;
use crate::conditioner;
use crate::conditioner::DFlashGpuConditioner;
use crate::error;
use crate::error::{Error, ErrorV, Result};
use crate::icb;
use crate::icb::{IcbScalarTapeOp, Push};
use crate::kv_bank::KvBankV;
use crate::kv_slot;
use crate::model;
use crate::model::GpuSynthModel;
use crate::ops::{Bank, Buf, Factor, NormW, Op};
use crate::session;
use crate::session::{GpuDecodeSession, LayerMode, StepSeed};
use crate::step_plan;
use crate::step_plan::{LayerCaps, StepFlags};
use crate::text;
use vstd::prelude::*;
use vstd::string::*;

verus! {

/// One step's request.
#[derive(Clone, Copy, Debug, PartialEq, Eq, Structural)]
pub struct StepRequest {
    pub seed: StepSeed,
    /// The token that is in place where the host does not write one.
    pub resident: u32,
    /// The result is read back.
    pub readback: bool,
    /// The vocabulary projection runs.
    pub head: bool,
    pub mode: LayerMode,
}

impl StepRequest {
    /// The input token.
    pub open spec fn token(self) -> u32 {
        match self.seed {
            StepSeed::Host(t) => t,
            _ => self.resident,
        }
    }
}

/// A pushed scalar, as a command.
pub open spec fn push_op(p: Push) -> Op {
    match p {
        Push::U32(value) => Op::PushU32 { value },
        Push::F32(bits) => Op::PushF32 { bits },
    }
}

/// Pushed scalars, as commands.
pub open spec fn push_ops(p: Seq<Push>) -> Seq<Op> {
    p.map(|i: int, x: Push| push_op(x))
}

/// What stands between the embedding of a step and its head, up to the replay where
/// there is one: the caches after it and its commands.
#[verifier::opaque]
pub open spec fn middle_run(
    s: GpuDecodeSession,
    f: StepFlags,
    caps: Seq<LayerCaps>,
    mode: LayerMode,
    tape: Option<Seq<IcbScalarTapeOp>>,
) -> std::result::Result<(KvBankV, Seq<Op>), ErrorV> {
    if mode == LayerMode::Skip {
        match tape {
            None => Err(icb::no_tape()),
            Some(t) => {
                let run = icb::tape_run(s.kv@, t, s.pos as int, t.len() as int);
                match run.fault {
                    Some(e) => Err(e),
                    None => Ok((run.kv, push_ops(run.pushes))),
                }
            },
        }
    } else {
        match session::layers_run(
            f,
            s.model,
            caps,
            session::ids_of(s.capture),
            s.kv@,
            s.pos as int,
            s.model.layers@.len() as int,
        ) {
            Err(e) => Err(e),
            Ok((b, layers)) => Ok(
                (
                    b,
                    match mode {
                        LayerMode::Encode => layers,
                        LayerMode::Record => seq![Op::BeginRecord] + layers + seq![Op::EndRecord],
                        _ => seq![],
                    },
                ),
            ),
        }
    }
}

/// How far the middle of a step gets: how many layers are walked to their end, and the
/// caches where it ends or stops.
#[verifier::opaque]
pub open spec fn middle_reach(
    s: GpuDecodeSession,
    f: StepFlags,
    caps: Seq<LayerCaps>,
    mode: LayerMode,
    tape: Option<Seq<IcbScalarTapeOp>>,
) -> (int, KvBankV) {
    if mode == LayerMode::Skip {
        match tape {
            None => (0, s.kv@),
            Some(t) => (0, icb::tape_run(s.kv@, t, s.pos as int, t.len() as int).kv),
        }
    } else {
        session::layers_reach(
            f,
            s.model,
            caps,
            session::ids_of(s.capture),
            s.kv@,
            s.pos as int,
            s.model.layers@.len() as int,
        )
    }
}

/// The replay, where the layers reach the device as the recorded graph.
pub open spec fn replay_ops(mode: LayerMode) -> Seq<Op> {
    if mode == LayerMode::Replay || mode == LayerMode::Skip {
        seq![Op::ReplayGraph]
    } else {
        seq![]
    }
}

/// A barrier behind the replay, where one is needed.
pub open spec fn settle_ops(mode: LayerMode, hazard: bool) -> Seq<Op> {
    if mode == LayerMode::Replay || mode == LayerMode::Skip {
        step_plan::barrier_if(hazard)
    } else {
        seq![]
    }
}

/// The commands that choose the next token, where it is wanted.
pub open spec fn head_ops(f: StepFlags, m: GpuSynthModel, head: bool) -> Seq<Op> {
    if head {
        session::sample_ops(f, m)
    } else {
        seq![]
    }
}

/// What a step that is not read back does with the captured row.
pub open spec fn flush_run(s: GpuDecodeSession, hazard: bool, readback: bool) -> std::result::Result<
    Seq<Op>,
    ErrorV,
> {
    if s.capture is None || readback {
        Ok(seq![])
    } else {
        match s.conditioner {
            None => Ok(step_plan::barrier_if(hazard) + seq![Op::Synchronize]),
            Some(c) => match c.refusal(s.row_bytes()) {
                Some(e) => Err(e),
                None => Ok(
                    step_plan::barrier_if(hazard) + conditioner::project_ops(
                        hazard,
                        c.hidden as int,
                        c.ctx_len as int,
                    ) + seq![Op::Synchronize],
                ),
            },
        }
    }
}

/// What a step asks of the device ahead of its layers.
#[verifier::opaque]
pub open spec fn open_run(s: GpuDecodeSession, f: StepFlags, req: StepRequest) -> std::result::Result<
    Seq<Op>,
    ErrorV,
> {
    match session::embed_run(s.model, f.hazard, req.token()) {
        Err(e) => Err(e),
        Ok(embed) => Ok(
            seq![Op::WritePos { pos: kv_slot::low32(s.pos as int) }] + session::seed_ops(
                req.seed,
                f.hazard,
            ) + embed,
        ),
    }
}

/// The first part of a step, up to its replay or its head: the caches after it and its
/// commands.
pub open spec fn front_run(
    s: GpuDecodeSession,
    flags: StepFlags,
    caps: Seq<LayerCaps>,
    req: StepRequest,
    tape: Option<Seq<IcbScalarTapeOp>>,
) -> std::result::Result<(KvBankV, Seq<Op>), ErrorV> {
    let f = session::effective(flags, s.capture is Some);
    match open_run(s, f, req) {
        Err(e) => Err(e),
        Ok(opening) => match middle_run(s, f, caps, req.mode, tape) {
            Err(e) => Err(e),
            Ok((b, middle)) => Ok((b, opening + middle)),
        },
    }
}

/// The last part of a step, behind its replay, up to the device's answer.
#[verifier::opaque]
pub open spec fn back_run(s: GpuDecodeSession, flags: StepFlags, req: StepRequest) -> std::result::Result<
    Seq<Op>,
    ErrorV,
> {
    let f = session::effective(flags, s.capture is Some);
    match flush_run(s, f.hazard, req.readback) {
        Err(e) => Err(e),
        Ok(flush) => Ok(
            settle_ops(req.mode, f.hazard) + head_ops(f, s.model, req.head) + flush,
        ),
    }
}

/// A whole step up to the device's answer: the caches after it and its commands.
#[verifier::opaque]
pub open spec fn encode_run(
    s: GpuDecodeSession,
    flags: StepFlags,
    caps: Seq<LayerCaps>,
    req: StepRequest,
    tape: Option<Seq<IcbScalarTapeOp>>,
) -> std::result::Result<(KvBankV, Seq<Op>), ErrorV> {
    match front_run(s, flags, caps, req, tape) {
        Err(e) => Err(e),
        Ok((b, front)) => match back_run(s, flags, req) {
            Err(e) => Err(e),
            Ok(back) => Ok((b, front + replay_ops(req.mode) + back)),
        },
    }
}

fn push_seed(q: &mut Vec<Op>, seed: StepSeed, hazard: bool)
    ensures
        final(q)@ == old(q)@ + session::seed_ops(seed, hazard),
{
    match seed {
        StepSeed::Host(t) => {
            q.push(Op::WriteSeed { token: t });
        },
        StepSeed::FromArgmax => {
            q.push(Op::CopyToken { src: Buf::ArgmaxTok, index: 0, dst: Buf::SeedTok });
            if hazard {
                q.push(Op::Barrier);
            }
        },
        StepSeed::Resident => {},
    }
    assert(q@ =~= old(q)@ + session::seed_ops(seed, hazard));
}

/// Queues the embedding of the token that is in place.
pub fn push_embed(q: &mut Vec<Op>, m: &GpuSynthModel, hazard: bool, tid: u32) -> (r: Result<()>)
    requires
        m.wf(),
    ensures
        match session::embed_run(*m, hazard, tid) {
            Ok(ops) => r is Ok && final(q)@ == old(q)@ + ops,
            Err(e) => error::fails_with(r, e) && final(q)@ == old(q)@,
        },
{
    let scaled = model::differs_from_one(m.embed_scale_bits);
    if m.has_embed_hot {
        q.push(Op::EmbedHot { rows: 1 });
        if scaled {
            if hazard {
                q.push(Op::Barrier);
            }
            q.push(Op::Scale { dst: Buf::X, by: Factor::Embed, n: m.hidden as u32 });
        }
        assert(q@ =~= old(q)@ + session::embed_run(*m, hazard, tid)->Ok_0);
        return Ok(());
    }
    if m.has_embed_q {
        q.push(Op::EmbedQuantRow { token: tid, at_row: 0, scaled });
        return Ok(());
    }
    match dense_row(m, tid) {
        None => Err(Error::Config(text::text1("token ", tid as u64, " OOV"))),
        Some(start) => {
            q.push(
                Op::EmbedDenseRow {
                    start,
                    at_row: 0,
                    scaled: m.embed_scale_bits != model::ONE_BITS,
                },
            );
            Ok(())
        },
    }
}

/// Where the dense embedding row of a token begins, if the table has one.
pub fn dense_row(m: &GpuSynthModel, tid: u32) -> (r: Option<usize>)
    requires
        m.hidden <= u32::MAX,
    ensures
        match r {
            Some(start) => start == tid * m.hidden && tid * m.hidden + m.hidden <= m.embed_len,
            None => tid * m.hidden + m.hidden > m.embed_len,
        },
{
    let h: u64 = m.hidden as u64;
    assert(tid * h <= 0xFFFF_FFFF * 0xFFFF_FFFF) by (nonlinear_arith)
        requires
            tid <= 0xFFFF_FFFF,
            h <= 0xFFFF_FFFF,
    ;
    let row: u64 = tid as u64 * h;
    if row + h > m.embed_len as u64 {
        None
    } else {
        Some(row as usize)
    }
}

fn push_sample(q: &mut Vec<Op>, f: StepFlags, m: &GpuSynthModel)
    requires
        m.wf(),
    ensures
        final(q)@ == old(q)@ + session::sample_ops(f, *m),
{
    step_plan::push_norm_act(q, f, NormW::Final, 1, m.hidden as u32);
    if f.hazard {
        q.push(Op::Barrier);
    }
    q.push(Op::Mat { bank: Bank::LmHead, src: Buf::Act, dst: Buf::Logits, rows: 1 });
    q.push(Op::Barrier);
    q.push(Op::Argmax { at: 0, dst: Buf::ArgmaxTok, index: 0 });
    assert(q@ =~= old(q)@ + session::sample_ops(f, *m));
}

fn push_head(q: &mut Vec<Op>, f: StepFlags, m: &GpuSynthModel, head: bool)
    requires
        m.wf(),
    ensures
        final(q)@ == old(q)@ + head_ops(f, *m, head),
{
    if head {
        push_sample(q, f, m);
    } else {
        assert(q@ =~= old(q)@ + head_ops(f, *m, head));
    }
}

fn push_scalars(q: &mut Vec<Op>, pushes: &Vec<Push>)
    ensures
        final(q)@ == old(q)@ + push_ops(pushes@),
{
    let ghost all = push_ops(pushes@);
    let mut i: usize = 0;
    assert(q@ =~= old(q)@ + all.subrange(0, 0));
    while i < pushes.len()
        invariant
            i <= pushes@.len(),
            all == push_ops(pushes@),
            q@ == old(q)@ + all.subrange(0, i as int),
        decreases pushes@.len() - i,
    {
        match pushes[i] {
            Push::U32(value) => {
                q.push(Op::PushU32 { value });
            },
            Push::F32(bits) => {
                q.push(Op::PushF32 { bits });
            },
        }
        i = i + 1;
        assert(q@ =~= old(q)@ + all.subrange(0, i as int));
    }
    assert(all.subrange(0, i as int) =~= all);
}

proof fn lemma_can_count(s: GpuDecodeSession, k: int)
    requires
        s.kv@.lens_at_most(k),
        k < usize::MAX,
        s.pos < usize::MAX,
    ensures
        s.can_count(1),
{
}

proof fn lemma_recorded(q: Seq<Op>, layers: Seq<Op>)
    ensures
        (q.push(Op::BeginRecord) + layers).push(Op::EndRecord) == q + (seq![Op::BeginRecord]
            + layers + seq![Op::EndRecord]),
{
    assert((q.push(Op::BeginRecord) + layers).push(Op::EndRecord) =~= q + (seq![Op::BeginRecord]
        + layers + seq![Op::EndRecord]));
}

proof fn lemma_cat2(q: Seq<Op>, a: Seq<Op>, b: Seq<Op>)
    ensures
        q + a + b == q + (a + b),
{
    assert(q + a + b =~= q + (a + b));
}

fn push_replay(q: &mut Vec<Op>, mode: LayerMode)
    ensures
        final(q)@ == old(q)@ + replay_ops(mode),
{
    match mode {
        LayerMode::Replay | LayerMode::Skip => {
            q.push(Op::ReplayGraph);
        },
        _ => {},
    }
    assert(q@ =~= old(q)@ + replay_ops(mode));
}

fn push_settle(q: &mut Vec<Op>, mode: LayerMode, hazard: bool)
    ensures
        final(q)@ == old(q)@ + settle_ops(mode, hazard),
{
    match mode {
        LayerMode::Replay | LayerMode::Skip => {
            step_plan::push_barrier(q, hazard);
        },
        _ => {
            assert(q@ =~= old(q)@ + settle_ops(mode, hazard));
        },
    }
}

/// The capture at the end of an encoded step.
pub open spec fn capture_after(
    before: Option<HiddenCapture>,
    after: Option<HiddenCapture>,
    layers: int,
) -> bool {
    match (before, after) {
        (Some(x), Some(y)) => {
            &&& y.same_setup(x)
            &&& y.concat == x.concat
            &&& y.t == x.t
            &&& y.step_mask@ == session::filled_by(x.layer_ids@, layers)
        },
        (None, None) => true,
        _ => false,
    }
}

/// The conditioner after one more projected row, or unchanged.
pub open spec fn conditioner_after(
    before: Option<DFlashGpuConditioner>,
    after: Option<DFlashGpuConditioner>,
    more: bool,
) -> bool {
    match (before, after) {
        (Some(x), Some(y)) => y == (DFlashGpuConditioner {
            ctx_len: (x.ctx_len + if more {
                1int
            } else {
                0
            }) as usize,
            ..x
        }),
        (None, None) => true,
        _ => false,
    }
}

/// The captured row, where one is owed, is taken over.
pub open spec fn row_taken(
    before: Option<HiddenCapture>,
    after: Option<HiddenCapture>,
    row: Seq<u32>,
) -> bool {
    match (before, after) {
        (Some(x), Some(y)) => {
            &&& y.same_setup(x)
            &&& y.step_mask == x.step_mask
            &&& y.t == x.t + 1
            &&& y.concat@ == x.concat@ + row.subrange(0, x.stride())
        },
        (None, None) => true,
        _ => false,
    }
}

/// The error of a stand-in that did not get through its barrier.
pub open spec fn spin_timeout() -> ErrorV {
    error::metal_error(
        "persistent_interp mini decode: barrier spin timeout (Metal forward-progress caveat)"@,
    )
}

impl GpuDecodeSession {
    fn push_flush(&mut self, q: &mut Vec<Op>, hazard: bool, readback: bool) -> (r: Result<()>)
        requires
            old(self).wf(),
        ensures
            final(self).wf(),
            *final(self) == (GpuDecodeSession {
                conditioner: final(self).conditioner,
                ..*old(self)
            }),
            match flush_run(*old(self), hazard, readback) {
                Ok(ops) => {
                    &&& r is Ok
                    &&& final(q)@ == old(q)@ + ops
                    &&& conditioner_after(
                        old(self).conditioner,
                        final(self).conditioner,
                        old(self).capture is Some && !readback,
                    )
                },
                Err(e) => error::fails_with(r, e) && conditioner_after(
                    old(self).conditioner,
                    final(self).conditioner,
                    false,
                ),
            },
    {
        if readback {
            return Ok(());
        }
        let bytes: usize = match &self.capture {
            None => {
                return Ok(());
            },
            Some(c) => c.row_stride() * 4,
        };
        if hazard {
            q.push(Op::Barrier);
        }
        let ghost q1 = q@;
        assert(q1 =~= old(q)@ + step_plan::barrier_if(hazard));
        match self.conditioner.take() {
            None => {},
            Some(mut c) => {
                let r = c.project_row(bytes, hazard, q);
                self.conditioner = Some(c);
                match r {
                    Err(e) => {
                        return Err(e);
                    },
                    Ok(()) => {},
                }
            },
        }
        q.push(Op::Synchronize);
        assert(q@ =~= old(q)@ + flush_run(*old(self), hazard, readback)->Ok_0);
        Ok(())
    }

    /// What the middle of a step asks for does not depend on which slots of the capture
    /// were filled before it.
    proof fn lemma_middle_same(
        self,
        mid: GpuDecodeSession,
        f: StepFlags,
        caps: Seq<LayerCaps>,
        mode: LayerMode,
        tape: Option<Seq<IcbScalarTapeOp>>,
        interp: bool,
    )
        requires
            self.midway(mid, self.kv@, 0, 0, interp),
        ensures
            middle_run(mid, f, caps, mode, tape) == middle_run(self, f, caps, mode, tape),
            middle_reach(mid, f, caps, mode, tape) == middle_reach(self, f, caps, mode, tape),
            mid.capture is Some == self.capture is Some,
            mid.model == self.model,
            mid.pos == self.pos,
            mid.kv@ == self.kv@,
            mid.capture matches Some(c) ==> c.step_mask@ == session::filled_by(c.layer_ids@, 0),
    {
        reveal(GpuDecodeSession::midway);
        reveal(middle_run);
        reveal(middle_reach);
        assert(session::ids_of(mid.capture) == session::ids_of(self.capture));
    }

    /// A step begun and walked is a step walked.
    proof fn lemma_midway_joins(
        self,
        mid: GpuDecodeSession,
        after: GpuDecodeSession,
        b: KvBankV,
        k: int,
        interp: bool,
    )
        requires
            self.midway(mid, self.kv@, 0, 0, interp),
            mid.midway(after, b, k, k, interp),
            0 <= k,
        ensures
            self.midway(after, b, k, k, interp),
    {
        reveal(GpuDecodeSession::midway);
    }

    /// What follows the layers does not depend on what they left.
    proof fn lemma_back_same(
        self,
        mid: GpuDecodeSession,
        flags: StepFlags,
        caps: Seq<LayerCaps>,
        req: StepRequest,
        tape: Option<Seq<IcbScalarTapeOp>>,
    )
        requires
            self.fronted(mid, flags, caps, req, tape),
        ensures
            back_run(mid, flags, req) == back_run(self, flags, req),
            mid.conditioner == self.conditioner,
            mid.capture is Some == self.capture is Some,
    {
        reveal(GpuDecodeSession::midway);
        reveal(back_run);
    }

    /// The session in the middle of a step: the caches are `b`, the stand-ins ran for
    /// `walked` layers, and the slots of the first `captured` layers are filled.
    #[verifier::opaque]
    pub open spec fn midway(
        self,
        after: GpuDecodeSession,
        b: KvBankV,
        walked: int,
        captured: int,
        interp: bool,
    ) -> bool {
        &&& after == (GpuDecodeSession {
            kv: after.kv,
            capture: after.capture,
            gate_down_hits: if interp {
                session::hits_after(self.gate_down_hits, walked as nat)
            } else {
                self.gate_down_hits
            },
            fa_o_hits: if interp {
                session::hits_after(self.fa_o_hits, walked as nat)
            } else {
                self.fa_o_hits
            },
            ..self
        })
        &&& after.kv@ == b
        &&& capture_after(self.capture, after.capture, captured)
    }

    /// Puts a step's token in place and embeds it. From here on no slot of the capture
    /// is filled.
    pub fn step_open(&mut self, flags: StepFlags, req: StepRequest, q: &mut Vec<Op>) -> (r: Result<()>)
        requires
            old(self).wf(),
        ensures
            final(self).wf(),
            match open_run(
                *old(self),
                session::effective(flags, old(self).capture is Some),
                req,
            ) {
                Ok(ops) => {
                    &&& r is Ok
                    &&& final(q)@ == old(q)@ + ops
                    &&& old(self).midway(*final(self), old(self).kv@, 0, 0, flags.interp)
                },
                Err(e) => error::fails_with(r, e) && *final(self) == *old(self),
            },
    {
        reveal(GpuDecodeSession::midway);
        reveal(open_run);
        let f = session::capture_guard(flags, self.capture.is_some());
        let tid: u32 = match req.seed {
            StepSeed::Host(t) => t,
            _ => req.resident,
        };
        q.push(Op::WritePos { pos: kv_slot::to_u32(self.pos) });
        push_seed(q, req.seed, f.hazard);
        match push_embed(q, &self.model, f.hazard, tid) {
            Err(e) => {
                return Err(e);
            },
            Ok(()) => {},
        }
        proof {
            let first = seq![Op::WritePos { pos: kv_slot::low32(old(self).pos as int) }];
            assert(old(q)@.push(first[0]) =~= old(q)@ + first);
            step_plan::lemma_cat3(
                old(q)@,
                first,
                session::seed_ops(req.seed, f.hazard),
                session::embed_run(old(self).model, f.hazard, req.token())->Ok_0,
            );
        }
        match self.capture.take() {
            None => {},
            Some(mut c) => {
                c.begin_step();
                assert(c.step_mask@ =~= session::filled_by(c.layer_ids@, 0));
                self.capture = Some(c);
            },
        }
        Ok(())
    }

    /// Plans layer `li` of a step, up to where its residual is complete.
    pub fn step_layer(
        &mut self,
        flags: StepFlags,
        cap: LayerCaps,
        li: usize,
        q: &mut Vec<Op>,
    ) -> (r: Result<()>)
        requires
            old(self).wf(),
            li < old(self).model.layers@.len(),
            old(self).can_count(1),
        ensures
            final(self).wf(),
            match step_plan::layer_run(
                session::effective(flags, old(self).capture is Some),
                old(self).model,
                cap,
                old(self).kv@,
                li,
                old(self).pos as int,
            ) {
                Ok((b, ops)) => {
                    &&& r is Ok
                    &&& final(q)@ == old(q)@ + ops
                    &&& *final(self) == (GpuDecodeSession {
                        kv: final(self).kv,
                        gate_down_hits: if flags.interp {
                            session::hits_after(old(self).gate_down_hits, 1)
                        } else {
                            old(self).gate_down_hits
                        },
                        fa_o_hits: if flags.interp {
                            session::hits_after(old(self).fa_o_hits, 1)
                        } else {
                            old(self).fa_o_hits
                        },
                        ..*old(self)
                    })
                    &&& final(self).kv@ == b
                },
                Err(e) => {
                    &&& error::fails_with(r, e)
                    &&& *final(self) == (GpuDecodeSession { kv: final(self).kv, ..*old(self) })
                    &&& final(self).kv@ == step_plan::layer_stop(
                        old(self).model,
                        old(self).kv@,
                        li,
                    )
                },
            },
    {
        let f = session::capture_guard(flags, self.capture.is_some());
        let pos: usize = self.pos;
        match step_plan::plan_layer(q, f, &self.model, cap, &mut self.kv, li, pos) {
            Err(e) => {
                return Err(e);
            },
            Ok(()) => {},
        }
        if f.interp {
            self.gate_down_hits = self.gate_down_hits.saturating_add(1);
            self.fa_o_hits = self.fa_o_hits.saturating_add(1);
        }
        Ok(())
    }

    /// Captures the residual after layer `li` of a step, where that layer is captured.
    pub fn step_capture(&mut self, flags: StepFlags, li: usize, q: &mut Vec<Op>)
        requires
            old(self).wf(),
            li < old(self).model.layers@.len(),
            old(self).capture matches Some(c) ==> c.step_mask@ == session::filled_by(
                c.layer_ids@,
                li as int,
            ),
        ensures
            final(self).wf(),
            *final(self) == (GpuDecodeSession { capture: final(self).capture, ..*old(self) }),
            capture_after(old(self).capture, final(self).capture, li + 1),
            final(q)@ == old(q)@ + session::capture_ops(
                session::effective(flags, old(self).capture is Some),
                session::ids_of(old(self).capture),
                li,
                old(self).model.hidden as int,
            ),
    {
        let f = session::capture_guard(flags, self.capture.is_some());
        let hidden: usize = self.model.hidden;
        session::push_capture(q, f, &mut self.capture, li, hidden);
    }

    /// A layer of a step ran, and its residual was captured: the session and the queue
    /// before it and after it.
    #[verifier::opaque]
    spec fn layer_done(
        self,
        after: GpuDecodeSession,
        flags: StepFlags,
        cap: LayerCaps,
        li: usize,
        r: Result<()>,
        q0: Seq<Op>,
        q1: Seq<Op>,
    ) -> bool {
        let f = session::effective(flags, self.capture is Some);
        match step_plan::layer_run(f, self.model, cap, self.kv@, li, self.pos as int) {
            Ok((b, ops)) => {
                &&& r is Ok
                &&& q1 == q0 + ops + session::capture_ops(
                    f,
                    session::ids_of(self.capture),
                    li,
                    self.model.hidden as int,
                )
                &&& after == (GpuDecodeSession {
                    kv: after.kv,
                    capture: after.capture,
                    gate_down_hits: if flags.interp {
                        session::hits_after(self.gate_down_hits, 1)
                    } else {
                        self.gate_down_hits
                    },
                    fa_o_hits: if flags.interp {
                        session::hits_after(self.fa_o_hits, 1)
                    } else {
                        self.fa_o_hits
                    },
                    ..self
                })
                &&& after.kv@ == b
                &&& capture_after(self.capture, after.capture, li + 1)
            },
            Err(e) => {
                &&& error::fails_with(r, e)
                &&& after == (GpuDecodeSession { kv: after.kv, ..self })
                &&& after.kv@ == step_plan::layer_stop(self.model, self.kv@, li)
            },
        }
    }

    fn walk_layer(&mut self, flags: StepFlags, cap: LayerCaps, li: usize, q: &mut Vec<Op>) -> (r: Result<
        (),
    >)
        requires
            old(self).wf(),
            li < old(self).model.layers@.len(),
            old(self).can_count(1),
            old(self).capture matches Some(c) ==> c.step_mask@ == session::filled_by(
                c.layer_ids@,
                li as int,
            ),
        ensures
            final(self).wf(),
            old(self).layer_done(*final(self), flags, cap, li, r, old(q)@, final(q)@),
    {
        reveal(GpuDecodeSession::layer_done);
        let r = self.step_layer(flags, cap, li, q);
        if r.is_ok() {
            self.step_capture(flags, li, q);
        }
        r
    }

    #[verifier::spinoff_prover]
    #[verifier::rlimit(50)]
    fn run_layers(&mut self, flags: StepFlags, caps: &Vec<LayerCaps>, q: &mut Vec<Op>) -> (r: Result<
        (),
    >)
        requires
            old(self).wf(),
            caps@.len() == old(self).model.layers@.len(),
            old(self).can_count((old(self).model.layers@.len() + 1) as int),
            old(self).capture matches Some(c) ==> c.step_mask@ == session::filled_by(
                c.layer_ids@,
                0,
            ),
        ensures
            final(self).wf(),
            old(self).walked(
                *final(self),
                flags,
                caps@,
                LayerMode::Encode,
                None,
                r,
                old(q)@,
                final(q)@,
            ),
    {
        let ghost s = *self;
        let ghost q0 = q@;
        let n: usize = self.model.layers.len();
        let ghost k0 = usize::MAX - 1 - n;
        let mut li: usize = 0;
        proof {
            s.lemma_walk_begins(flags, caps@, q0);
        }
        while li < n
            invariant
                li <= n,
                s == *old(self),
                q0 == old(q)@,
                n == s.model.layers@.len(),
                caps@.len() == n,
                s.wf(),
                s.pos + n + 1 <= usize::MAX,
                k0 == usize::MAX - 1 - n,
                self.wf(),
                self.kv@.lens_at_most(k0 + li),
                s.walking(*self, flags, caps@, li as int, q0, q@),
            decreases n - li,
        {
            let ghost now = *self;
            let ghost q1 = q@;
            proof {
                s.lemma_walking(now, flags, caps@, li as int, q0, q1);
                lemma_can_count(now, k0 + li);
            }
            let r = self.walk_layer(flags, caps[li], li, q);
            proof {
                s.lemma_walk_next(now, *self, flags, caps@, li, r, q0, q1, q@, k0 + li);
            }
            if r.is_err() {
                return r;
            }
            li = li + 1;
        }
        proof {
            s.lemma_walk_ended(*self, flags, caps@, q0, q@);
        }
        Ok(())
    }

    /// The session and the queue after the first `n` layers of a step.
    #[verifier::opaque]
    spec fn walking(
        self,
        now: GpuDecodeSession,
        flags: StepFlags,
        caps: Seq<LayerCaps>,
        n: int,
        q0: Seq<Op>,
        q: Seq<Op>,
    ) -> bool {
        session::layers_run(
            session::effective(flags, self.capture is Some),
            self.model,
            caps,
            session::ids_of(self.capture),
            self.kv@,
            self.pos as int,
            n,
        ) matches Ok((b, ops)) && q == q0 + ops && self.midway(now, b, n, n, flags.interp)
    }

    proof fn lemma_walk_begins(self, flags: StepFlags, caps: Seq<LayerCaps>, q0: Seq<Op>)
        requires
            self.capture matches Some(c) ==> c.step_mask@ == session::filled_by(c.layer_ids@, 0),
        ensures
            self.walking(self, flags, caps, 0, q0, q0),
    {
        reveal(GpuDecodeSession::walking);
        reveal(GpuDecodeSession::midway);
        assert(q0 =~= q0 + Seq::<Op>::empty());
    }

    proof fn lemma_walking(
        self,
        now: GpuDecodeSession,
        flags: StepFlags,
        caps: Seq<LayerCaps>,
        n: int,
        q0: Seq<Op>,
        q: Seq<Op>,
    )
        requires
            self.walking(now, flags, caps, n, q0, q),
        ensures
            now.model == self.model,
            now.pos == self.pos,
            now.capture is Some == self.capture is Some,
            session::ids_of(now.capture) == session::ids_of(self.capture),
            now.capture matches Some(c) ==> c.step_mask@ == session::filled_by(c.layer_ids@, n),
            session::layers_run(
                session::effective(flags, self.capture is Some),
                self.model,
                caps,
                session::ids_of(self.capture),
                self.kv@,
                self.pos as int,
                n,
            ) matches Ok((b, ops)) && now.kv@ == b,
    {
        reveal(GpuDecodeSession::walking);
        reveal(GpuDecodeSession::midway);
    }

    proof fn lemma_walk_next(
        self,
        now: GpuDecodeSession,
        after: GpuDecodeSession,
        flags: StepFlags,
        caps: Seq<LayerCaps>,
        li: usize,
        r: Result<()>,
        q0: Seq<Op>,
        q1: Seq<Op>,
        q2: Seq<Op>,
        k: int,
    )
        requires
            now.wf(),
            now.model == self.model,
            li < self.model.layers@.len(),
            self.walking(now, flags, caps, li as int, q0, q1),
            now.layer_done(after, flags, caps[li as int], li, r, q1, q2),
            now.kv@.lens_at_most(k),
            k < usize::MAX,
        ensures
            r is Ok ==> self.walking(after, flags, caps, li + 1, q0, q2)
                && after.kv@.lens_at_most(k + 1),
            r is Err ==> self.walked(after, flags, caps, LayerMode::Encode, None, r, q0, q2),
    {
        now.lemma_done_grows(after, flags, caps[li as int], li, r, q1, q2, k);
        if r is Ok {
            self.lemma_walk_on(now, after, flags, caps, li, r, q0, q1, q2);
        } else {
            self.lemma_walk_stopped(now, after, flags, caps, li, r, q0, q1, q2);
        }
    }

    proof fn lemma_done_grows(
        self,
        after: GpuDecodeSession,
        flags: StepFlags,
        cap: LayerCaps,
        li: usize,
        r: Result<()>,
        q0: Seq<Op>,
        q1: Seq<Op>,
        k: int,
    )
        requires
            self.wf(),
            li < self.model.layers@.len(),
            self.layer_done(after, flags, cap, li, r, q0, q1),
            self.kv@.lens_at_most(k),
            k < usize::MAX,
        ensures
            r is Ok ==> after.kv@.lens_at_most(k + 1),
    {
        reveal(GpuDecodeSession::layer_done);
        session::lemma_layer_growth(
            session::effective(flags, self.capture is Some),
            self.model,
            cap,
            self.kv@,
            li,
            self.pos as int,
            k,
        );
    }

    proof fn lemma_walk_on(
        self,
        now: GpuDecodeSession,
        after: GpuDecodeSession,
        flags: StepFlags,
        caps: Seq<LayerCaps>,
        li: usize,
        r: Result<()>,
        q0: Seq<Op>,
        q1: Seq<Op>,
        q2: Seq<Op>,
    )
        requires
            self.walking(now, flags, caps, li as int, q0, q1),
            now.layer_done(after, flags, caps[li as int], li, r, q1, q2),
            r is Ok,
        ensures
            self.walking(after, flags, caps, li + 1, q0, q2),
    {
        self.lemma_walking(now, flags, caps, li as int, q0, q1);
        reveal(GpuDecodeSession::layer_done);
        reveal(GpuDecodeSession::walking);
        reveal(GpuDecodeSession::midway);
        let f = session::effective(flags, self.capture is Some);
        let ids = session::ids_of(self.capture);
        let pos = self.pos as int;
        let (b, ops) = session::layers_run(f, self.model, caps, ids, self.kv@, pos, li as int)->Ok_0;
        let more = step_plan::layer_run(f, self.model, caps[li as int], b, li, pos)->Ok_0.1;
        let cap = session::capture_ops(f, ids, li, self.model.hidden as int);
        step_plan::lemma_cat3(q0, ops, more, cap);
        assert((li + 1 - 1) as usize == li);
    }

    proof fn lemma_walk_stopped(
        self,
        now: GpuDecodeSession,
        after: GpuDecodeSession,
        flags: StepFlags,
        caps: Seq<LayerCaps>,
        li: usize,
        r: Result<()>,
        q0: Seq<Op>,
        q1: Seq<Op>,
        q2: Seq<Op>,
    )
        requires
            li < self.model.layers@.len(),
            self.walking(now, flags, caps, li as int, q0, q1),
            now.layer_done(after, flags, caps[li as int], li, r, q1, q2),
            r is Err,
        ensures
            self.walked(after, flags, caps, LayerMode::Encode, None, r, q0, q2),
    {
        self.lemma_walking(now, flags, caps, li as int, q0, q1);
        reveal(GpuDecodeSession::layer_done);
        reveal(GpuDecodeSession::walking);
        reveal(GpuDecodeSession::walked);
        reveal(GpuDecodeSession::midway);
        reveal(middle_run);
        reveal(middle_reach);
        assert((li + 1 - 1) as usize == li);
        session::lemma_prefix_err(
            session::effective(flags, self.capture is Some),
            self.model,
            caps,
            session::ids_of(self.capture),
            self.kv@,
            self.pos as int,
            li + 1,
            self.model.layers@.len() as int,
        );
    }

    proof fn lemma_walk_ended(
        self,
        after: GpuDecodeSession,
        flags: StepFlags,
        caps: Seq<LayerCaps>,
        q0: Seq<Op>,
        q1: Seq<Op>,
    )
        requires
            self.walking(after, flags, caps, self.model.layers@.len() as int, q0, q1),
        ensures
            self.walked(after, flags, caps, LayerMode::Encode, None, Ok(()), q0, q1),
    {
        reveal(GpuDecodeSession::walking);
        reveal(GpuDecodeSession::walked);
        reveal(middle_run);
        reveal(middle_reach);
        session::lemma_reach_all(
            session::effective(flags, self.capture is Some),
            self.model,
            caps,
            session::ids_of(self.capture),
            self.kv@,
            self.pos as int,
            self.model.layers@.len() as int,
        );
    }

    /// Writes the tape of the recorded layers for this step.
    pub fn step_tape(&mut self, tape: Option<&Vec<IcbScalarTapeOp>>, q: &mut Vec<Op>) -> (r: Result<
        (),
    >)
        requires
            old(self).wf(),
            old(self).can_write(icb::tape_view(tape)),
        ensures
            final(self).wf(),
            *final(self) == (GpuDecodeSession { kv: final(self).kv, ..*old(self) }),
            match icb::tape_view(tape) {
                None => {
                    &&& error::fails_with(r, icb::no_tape())
                    &&& final(self).kv@ == old(self).kv@
                },
                Some(t) => {
                    let run = icb::tape_run(
                        old(self).kv@,
                        t,
                        old(self).pos as int,
                        t.len() as int,
                    );
                    &&& final(self).kv@ == run.kv
                    &&& match run.fault {
                        Some(e) => error::fails_with(r, e),
                        None => r is Ok && final(q)@ == old(q)@ + push_ops(run.pushes),
                    }
                },
            },
    {
        let mut pushes: Vec<Push> = Vec::new();
        match icb::apply_icb_scalar_write_tape(&mut self.kv, tape, self.pos, &mut pushes) {
            Err(e) => {
                return Err(e);
            },
            Ok(()) => {},
        }
        push_scalars(q, &pushes);
        Ok(())
    }

    /// The tape names slots that are there, and they can count its rows.
    pub open spec fn can_write(self, tape: Option<Seq<IcbScalarTapeOp>>) -> bool {
        &&& self.pos < usize::MAX
        &&& tape matches Some(t) ==> icb::addresses(self.kv@, t) && self.kv@.lens_at_most(
            usize::MAX - t.len(),
        )
    }

    fn run_recorded(&mut self, flags: StepFlags, caps: &Vec<LayerCaps>, q: &mut Vec<Op>) -> (r: Result<
        (),
    >)
        requires
            old(self).wf(),
            caps@.len() == old(self).model.layers@.len(),
            old(self).can_count((old(self).model.layers@.len() + 1) as int),
            old(self).capture matches Some(c) ==> c.step_mask@ == session::filled_by(
                c.layer_ids@,
                0,
            ),
        ensures
            final(self).wf(),
            old(self).walked(
                *final(self),
                flags,
                caps@,
                LayerMode::Record,
                None,
                r,
                old(q)@,
                final(q)@,
            ),
    {
        q.push(Op::BeginRecord);
        let r = self.run_layers(flags, caps, q);
        let ghost q1 = q@;
        if r.is_ok() {
            q.push(Op::EndRecord);
        }
        proof {
            old(self).lemma_walk_recorded(*self, flags, caps@, r, old(q)@, q1);
        }
        r
    }

    proof fn lemma_walk_recorded(
        self,
        after: GpuDecodeSession,
        flags: StepFlags,
        caps: Seq<LayerCaps>,
        r: Result<()>,
        q0: Seq<Op>,
        q1: Seq<Op>,
    )
        requires
            self.walked(
                after,
                flags,
                caps,
                LayerMode::Encode,
                None,
                r,
                q0.push(Op::BeginRecord),
                q1,
            ),
        ensures
            self.walked(
                after,
                flags,
                caps,
                LayerMode::Record,
                None,
                r,
                q0,
                if r is Ok {
                    q1.push(Op::EndRecord)
                } else {
                    q1
                },
            ),
    {
        reveal(GpuDecodeSession::walked);
        reveal(middle_run);
        reveal(middle_reach);
        let f = session::effective(flags, self.capture is Some);
        lemma_recorded(q0, middle_run(self, f, caps, LayerMode::Encode, None)->Ok_0.1);
    }

    proof fn lemma_walk_dropped(
        self,
        after: GpuDecodeSession,
        flags: StepFlags,
        caps: Seq<LayerCaps>,
        r: Result<()>,
        q0: Seq<Op>,
        q1: Seq<Op>,
        q: Seq<Op>,
    )
        requires
            self.walked(after, flags, caps, LayerMode::Encode, None, r, q0, q1),
        ensures
            self.walked(after, flags, caps, LayerMode::Replay, None, r, q, q),
    {
        reveal(GpuDecodeSession::walked);
        reveal(middle_run);
        reveal(middle_reach);
        assert(q =~= q + Seq::<Op>::empty());
    }

    /// Layers that are walked have no use for a tape.
    proof fn lemma_walk_untaped(
        self,
        after: GpuDecodeSession,
        flags: StepFlags,
        caps: Seq<LayerCaps>,
        mode: LayerMode,
        tape: Option<Seq<IcbScalarTapeOp>>,
        r: Result<()>,
        q0: Seq<Op>,
        q1: Seq<Op>,
    )
        requires
            mode != LayerMode::Skip,
            self.walked(after, flags, caps, mode, None, r, q0, q1),
        ensures
            self.walked(after, flags, caps, mode, tape, r, q0, q1),
    {
        reveal(GpuDecodeSession::walked);
        reveal(middle_run);
        reveal(middle_reach);
    }

    fn run_dropped(&mut self, flags: StepFlags, caps: &Vec<LayerCaps>, q: &mut Vec<Op>) -> (r: Result<
        (),
    >)
        requires
            old(self).wf(),
            caps@.len() == old(self).model.layers@.len(),
            old(self).can_count((old(self).model.layers@.len() + 1) as int),
            old(self).capture matches Some(c) ==> c.step_mask@ == session::filled_by(
                c.layer_ids@,
                0,
            ),
        ensures
            final(self).wf(),
            old(self).walked(
                *final(self),
                flags,
                caps@,
                LayerMode::Replay,
                None,
                r,
                old(q)@,
                final(q)@,
            ),
    {
        let mut dropped: Vec<Op> = Vec::new();
        let ghost d0 = dropped@;
        let r = self.run_layers(flags, caps, &mut dropped);
        proof {
            old(self).lemma_walk_dropped(*self, flags, caps@, r, d0, dropped@, q@);
        }
        r
    }

    fn run_skipped(
        &mut self,
        flags: StepFlags,
        caps: &Vec<LayerCaps>,
        tape: Option<&Vec<IcbScalarTapeOp>>,
        q: &mut Vec<Op>,
    ) -> (r: Result<()>)
        requires
            old(self).wf(),
            old(self).can_write(icb::tape_view(tape)),
            old(self).capture matches Some(c) ==> c.step_mask@ == session::filled_by(
                c.layer_ids@,
                0,
            ),
        ensures
            final(self).wf(),
            old(self).walked(
                *final(self),
                flags,
                caps@,
                LayerMode::Skip,
                icb::tape_view(tape),
                r,
                old(q)@,
                final(q)@,
            ),
    {
        reveal(GpuDecodeSession::midway);
        reveal(GpuDecodeSession::walked);
        reveal(middle_run);
        reveal(middle_reach);
        self.step_tape(tape, q)
    }

    /// What the middle of a step does to the session and to the queue.
    #[verifier::opaque]
    pub open spec fn walked(
        self,
        after: GpuDecodeSession,
        flags: StepFlags,
        caps: Seq<LayerCaps>,
        mode: LayerMode,
        tape: Option<Seq<IcbScalarTapeOp>>,
        r: Result<()>,
        q0: Seq<Op>,
        q1: Seq<Op>,
    ) -> bool {
        let f = session::effective(flags, self.capture is Some);
        let (k, b) = middle_reach(self, f, caps, mode, tape);
        &&& self.midway(after, b, k, k, flags.interp)
        &&& match middle_run(self, f, caps, mode, tape) {
            Ok((_, ops)) => r is Ok && q1 == q0 + ops,
            Err(e) => error::fails_with(r, e),
        }
    }

    fn run_middle(
        &mut self,
        flags: StepFlags,
        caps: &Vec<LayerCaps>,
        mode: LayerMode,
        tape: Option<&Vec<IcbScalarTapeOp>>,
        q: &mut Vec<Op>,
    ) -> (r: Result<()>)
        requires
            old(self).wf(),
            caps@.len() == old(self).model.layers@.len(),
            old(self).can_count((old(self).model.layers@.len() + 1) as int),
            mode == LayerMode::Skip ==> old(self).can_write(icb::tape_view(tape)),
            old(self).capture matches Some(c) ==> c.step_mask@ == session::filled_by(
                c.layer_ids@,
                0,
            ),
        ensures
            final(self).wf(),
            old(self).walked(
                *final(self),
                flags,
                caps@,
                mode,
                icb::tape_view(tape),
                r,
                old(q)@,
                final(q)@,
            ),
    {
        let r = match mode {
            LayerMode::Skip => {
                return self.run_skipped(flags, caps, tape, q);
            },
            LayerMode::Encode => self.run_layers(flags, caps, q),
            LayerMode::Record => self.run_recorded(flags, caps, q),
            LayerMode::Replay => self.run_dropped(flags, caps, q),
        };
        proof {
            old(self).lemma_walk_untaped(
                *self,
                flags,
                caps@,
                mode,
                icb::tape_view(tape),
                r,
                old(q)@,
                q@,
            );
        }
        r
    }

    /// Encodes the first part of a step: its token, its embedding and its layers, up to
    /// the replay where the layers are recorded. Where it fails, what the layers did until
    /// then stays done.
    #[verifier::spinoff_prover]
    pub fn step_front(
        &mut self,
        flags: StepFlags,
        caps: &Vec<LayerCaps>,
        req: StepRequest,
        tape: Option<&Vec<IcbScalarTapeOp>>,
        q: &mut Vec<Op>,
    ) -> (r: Result<()>)
        requires
            old(self).wf(),
            caps@.len() == old(self).model.layers@.len(),
            old(self).can_count((old(self).model.layers@.len() + 1) as int),
            req.mode == LayerMode::Skip ==> old(self).can_write(icb::tape_view(tape)),
        ensures
            final(self).wf(),
            old(self).fronted(*final(self), flags, caps@, req, icb::tape_view(tape)),
            match front_run(*old(self), flags, caps@, req, icb::tape_view(tape)) {
                Ok((b, ops)) => {
                    &&& r is Ok
                    &&& final(self).kv@ == b
                    &&& final(q)@ == old(q)@ + ops
                },
                Err(e) => error::fails_with(r, e),
            },
    {
        match self.step_open(flags, req, q) {
            Err(e) => {
                return Err(e);
            },
            Ok(()) => {},
        }
        let ghost mid = *self;
        let ghost s = *old(self);
        let ghost f = session::effective(flags, s.capture is Some);
        let ghost t = icb::tape_view(tape);
        proof {
            s.lemma_middle_same(mid, f, caps@, req.mode, t, flags.interp);
        }
        let ghost q1 = q@;
        let r = self.run_middle(flags, caps, req.mode, tape, q);
        proof {
            s.lemma_fronted(mid, *self, flags, caps@, req, t, r, old(q)@, q1, q@);
        }
        r
    }

    /// A step that was opened and walked.
    proof fn lemma_fronted(
        self,
        mid: GpuDecodeSession,
        after: GpuDecodeSession,
        flags: StepFlags,
        caps: Seq<LayerCaps>,
        req: StepRequest,
        tape: Option<Seq<IcbScalarTapeOp>>,
        r: Result<()>,
        q0: Seq<Op>,
        q1: Seq<Op>,
        q2: Seq<Op>,
    )
        requires
            self.midway(mid, self.kv@, 0, 0, flags.interp),
            open_run(self, session::effective(flags, self.capture is Some), req) is Ok,
            q1 == q0 + open_run(
                self,
                session::effective(flags, self.capture is Some),
                req,
            )->Ok_0,
            mid.walked(after, flags, caps, req.mode, tape, r, q1, q2),
        ensures
            self.fronted(after, flags, caps, req, tape),
            match front_run(self, flags, caps, req, tape) {
                Ok((b, ops)) => r is Ok && after.kv@ == b && q2 == q0 + ops,
                Err(e) => error::fails_with(r, e),
            },
    {
        self.lemma_walk_joins(mid, after, flags, caps, req.mode, tape, r, q1, q2);
        reveal(GpuDecodeSession::walked);
        let f = session::effective(flags, self.capture is Some);
        self.lemma_reached(after, flags, caps, req, tape);
        lemma_cat2(
            q0,
            open_run(self, f, req)->Ok_0,
            middle_run(self, f, caps, req.mode, tape)->Ok_0.1,
        );
    }

    proof fn lemma_walk_joins(
        self,
        mid: GpuDecodeSession,
        after: GpuDecodeSession,
        flags: StepFlags,
        caps: Seq<LayerCaps>,
        mode: LayerMode,
        tape: Option<Seq<IcbScalarTapeOp>>,
        r: Result<()>,
        q1: Seq<Op>,
        q2: Seq<Op>,
    )
        requires
            self.midway(mid, self.kv@, 0, 0, flags.interp),
            mid.walked(after, flags, caps, mode, tape, r, q1, q2),
        ensures
            self.walked(after, flags, caps, mode, tape, r, q1, q2),
    {
        reveal(GpuDecodeSession::walked);
        let f = session::effective(flags, self.capture is Some);
        self.lemma_middle_same(mid, f, caps, mode, tape, flags.interp);
        let (k, b) = middle_reach(self, f, caps, mode, tape);
        assert(0 <= k) by {
            reveal(middle_reach);
            session::lemma_reach_all(
                f,
                self.model,
                caps,
                session::ids_of(self.capture),
                self.kv@,
                self.pos as int,
                self.model.layers@.len() as int,
            );
        }
        self.lemma_midway_joins(mid, after, b, k, flags.interp);
    }

    proof fn lemma_reached(
        self,
        after: GpuDecodeSession,
        flags: StepFlags,
        caps: Seq<LayerCaps>,
        req: StepRequest,
        tape: Option<Seq<IcbScalarTapeOp>>,
    )
        requires
            self.fronted(after, flags, caps, req, tape),
        ensures
            front_run(self, flags, caps, req, tape) matches Ok((b, _)) ==> after.kv@ == b,
    {
        reveal(GpuDecodeSession::midway);
        reveal(middle_run);
        reveal(middle_reach);
        session::lemma_reach_all(
            session::effective(flags, self.capture is Some),
            self.model,
            caps,
            session::ids_of(self.capture),
            self.kv@,
            self.pos as int,
            self.model.layers@.len() as int,
        );
    }

    /// What the first part of a step leaves of the session, whether it fails or not.
    pub open spec fn fronted(
        self,
        after: GpuDecodeSession,
        flags: StepFlags,
        caps: Seq<LayerCaps>,
        req: StepRequest,
        tape: Option<Seq<IcbScalarTapeOp>>,
    ) -> bool {
        let f = session::effective(flags, self.capture is Some);
        if open_run(self, f, req) is Err {
            after == self
        } else {
            let (k, b) = middle_reach(self, f, caps, req.mode, tape);
            self.midway(after, b, k, k, flags.interp)
        }
    }

    /// Encodes the last part of a step, behind its replay where there is one.
    #[verifier::spinoff_prover]
    pub fn step_back(&mut self, flags: StepFlags, req: StepRequest, q: &mut Vec<Op>) -> (r: Result<()>)
        requires
            old(self).wf(),
        ensures
            final(self).wf(),
            *final(self) == (GpuDecodeSession {
                conditioner: final(self).conditioner,
                ..*old(self)
            }),
            match back_run(*old(self), flags, req) {
                Ok(ops) => {
                    &&& r is Ok
                    &&& final(q)@ == old(q)@ + ops
                    &&& conditioner_after(
                        old(self).conditioner,
                        final(self).conditioner,
                        old(self).capture is Some && !req.readback,
                    )
                },
                Err(e) => error::fails_with(r, e) && final(self).conditioner
                    == old(self).conditioner,
            },
    {
        reveal(back_run);
        let f = session::capture_guard(flags, self.capture.is_some());
        push_settle(q, req.mode, f.hazard);
        push_head(q, f, &self.model, req.head);
        match self.push_flush(q, f.hazard, req.readback) {
            Err(e) => {
                return Err(e);
            },
            Ok(()) => {},
        }
        proof {
            step_plan::lemma_cat3(
                old(q)@,
                settle_ops(req.mode, f.hazard),
                head_ops(f, old(self).model, req.head),
                flush_run(*old(self), f.hazard, req.readback)->Ok_0,
            );
        }
        Ok(())
    }

    /// Encodes one step up to the point where the device's answer is needed. Where it
    /// fails, what its layers did until then stays done, and nothing is projected.
    #[verifier::spinoff_prover]
    pub fn step_encode(
        &mut self,
        flags: StepFlags,
        caps: &Vec<LayerCaps>,
        req: StepRequest,
        tape: Option<&Vec<IcbScalarTapeOp>>,
        q: &mut Vec<Op>,
    ) -> (r: Result<()>)
        requires
            old(self).wf(),
            caps@.len() == old(self).model.layers@.len(),
            old(self).can_count((old(self).model.layers@.len() + 1) as int),
            req.mode == LayerMode::Skip ==> old(self).can_write(icb::tape_view(tape)),
        ensures
            final(self).wf(),
            old(self).fronted(
                (GpuDecodeSession { conditioner: old(self).conditioner, ..*final(self) }),
                flags,
                caps@,
                req,
                icb::tape_view(tape),
            ),
            match encode_run(*old(self), flags, caps@, req, icb::tape_view(tape)) {
                Ok((b, ops)) => {
                    &&& r is Ok
                    &&& final(self).kv@ == b
                    &&& final(q)@ == old(q)@ + ops
                    &&& conditioner_after(
                        old(self).conditioner,
                        final(self).conditioner,
                        old(self).capture is Some && !req.readback,
                    )
                },
                Err(e) => error::fails_with(r, e) && final(self).conditioner
                    == old(self).conditioner,
            },
    {
        reveal(encode_run);
        let fronted = self.step_front(flags, caps, req, tape, q);
        proof {
            old(self).lemma_back_same(*self, flags, caps@, req, icb::tape_view(tape));
            assert((GpuDecodeSession { conditioner: old(self).conditioner, ..*self }) == *self);
        }
        match fronted {
            Err(e) => {
                return Err(e);
            },
            Ok(()) => {},
        }
        push_replay(q, req.mode);
        match self.step_back(flags, req, q) {
            Err(e) => {
                return Err(e);
            },
            Ok(()) => {},
        }
        proof {
            let front = front_run(*old(self), flags, caps@, req, icb::tape_view(tape))->Ok_0.1;
            step_plan::lemma_cat3(
                old(q)@,
                front,
                replay_ops(req.mode),
                back_run(*old(self), flags, req)->Ok_0,
            );
        }
        Ok(())
    }

    /// Why finishing a step fails, if it does.
    pub open spec fn finish_refusal(
        self,
        interp: bool,
        readback: bool,
        row_len: int,
        fail: u32,
    ) -> Option<ErrorV> {
        let row = match self.capture {
            Some(c) => c.row_refusal(row_len),
            None => None,
        };
        let timeout = if interp && fail != 0 {
            Some(spin_timeout())
        } else {
            None
        };
        if !readback {
            if row is Some {
                row
            } else {
                timeout
            }
        } else {
            if timeout is Some {
                timeout
            } else {
                match self.conditioner {
                    Some(c) => match c.refusal(self.row_bytes()) {
                        Some(e) => Some(e),
                        None => row,
                    },
                    None => row,
                }
            }
        }
    }

    /// What a step that cannot be finished leaves of the session. One that is not read
    /// back hands over its row first, and counts as a step once it has; one that is read
    /// back counts as a step first.
    pub open spec fn unfinished(
        self,
        after: GpuDecodeSession,
        interp: bool,
        readback: bool,
        row: Seq<u32>,
        fail: u32,
    ) -> bool {
        let row_fault = match self.capture {
            Some(c) => c.row_refusal(row.len() as int),
            None => None,
        };
        let timed_out = interp && fail != 0;
        let counted = GpuDecodeSession {
            pos: (self.pos + 1) as usize,
            last_fail: if interp {
                fail
            } else {
                self.last_fail
            },
            ..self
        };
        if !readback {
            if row_fault is Some {
                after == self
            } else {
                &&& after == (GpuDecodeSession { capture: after.capture, ..counted })
                &&& row_taken(self.capture, after.capture, row)
            }
        } else if timed_out || (self.conditioner matches Some(c) && c.refusal(
            self.row_bytes(),
        ) is Some) {
            after == counted
        } else {
            &&& after == (GpuDecodeSession { conditioner: after.conditioner, ..counted })
            &&& conditioner_after(self.conditioner, after.conditioner, true)
        }
    }

    /// Commands of a finished step: with a conditioner, a step that was read
    /// back projects its row now.
    pub open spec fn finish_ops(self, hazard: bool, readback: bool) -> Seq<Op> {
        match self.conditioner {
            Some(c) => if readback {
                step_plan::barrier_if(hazard) + conditioner::project_ops(
                    hazard,
                    c.hidden as int,
                    c.ctx_len as int,
                ) + seq![Op::Synchronize]
            } else {
                seq![]
            },
            None => seq![],
        }
    }

    fn take_row(&mut self, row: &[u32]) -> (r: Result<()>)
        requires
            old(self).wf(),
        ensures
            final(self).wf(),
            *final(self) == (GpuDecodeSession { capture: final(self).capture, ..*old(self) }),
            match old(self).capture {
                None => r is Ok && final(self).capture is None,
                Some(c) => match c.row_refusal(row@.len() as int) {
                    Some(e) => error::fails_with(r, e) && final(self).capture == old(self).capture,
                    None => r is Ok && row_taken(old(self).capture, final(self).capture, row@),
                },
            },
    {
        match self.capture.take() {
            None => Ok(()),
            Some(mut c) => {
                let r = c.finish_step_from_row(row);
                self.capture = Some(c);
                r
            },
        }
    }

    fn check_spin(&mut self, interp: bool, fail: u32) -> (r: Result<()>)
        requires
            old(self).wf(),
        ensures
            final(self).wf(),
            *final(self) == (GpuDecodeSession {
                last_fail: if interp {
                    fail
                } else {
                    old(self).last_fail
                },
                ..*old(self)
            }),
            interp && fail != 0 ==> error::fails_with(r, spin_timeout()),
            !(interp && fail != 0) ==> r is Ok,
    {
        if !interp {
            return Ok(());
        }
        self.last_fail = fail;
        if fail != 0 {
            return Err(
                Error::Metal(
                    String::from_str(
                        "persistent_interp mini decode: barrier spin timeout (Metal forward-progress caveat)",
                    ),
                ),
            );
        }
        Ok(())
    }

    /// Finishes a step with the device's answer: the captured `row`, the token
    /// `next` where it was read back, and the stand-ins' `fail` flag.
    pub fn step_finish(
        &mut self,
        flags: StepFlags,
        readback: bool,
        row: &[u32],
        next: u32,
        fail: u32,
        q: &mut Vec<Op>,
    ) -> (r: Result<u32>)
        requires
            old(self).wf(),
            old(self).pos < usize::MAX,
        ensures
            final(self).wf(),
            *final(self) == (GpuDecodeSession {
                pos: final(self).pos,
                capture: final(self).capture,
                conditioner: final(self).conditioner,
                last_fail: final(self).last_fail,
                ..*old(self)
            }),
            match old(self).finish_refusal(flags.interp, readback, row@.len() as int, fail) {
                Some(e) => error::fails_with(r, e) && old(self).unfinished(
                    *final(self),
                    flags.interp,
                    readback,
                    row@,
                    fail,
                ),
                None => {
                    &&& r == Ok::<u32, Error>(if readback {
                        next
                    } else {
                        0
                    })
                    &&& final(self).pos == old(self).pos + 1
                    &&& final(self).last_fail == (if flags.interp {
                        fail
                    } else {
                        old(self).last_fail
                    })
                    &&& row_taken(old(self).capture, final(self).capture, row@)
                    &&& conditioner_after(
                        old(self).conditioner,
                        final(self).conditioner,
                        readback,
                    )
                    &&& final(q)@ == old(q)@ + old(self).finish_ops(
                        session::effective(flags, old(self).capture is Some).hazard,
                        readback,
                    )
                },
            },
    {
        let f = session::capture_guard(flags, self.capture.is_some());
        if !readback {
            match self.take_row(row) {
                Err(e) => {
                    return Err(e);
                },
                Ok(()) => {},
            }
            self.pos = self.pos + 1;
            match self.check_spin(flags.interp, fail) {
                Err(e) => {
                    return Err(e);
                },
                Ok(()) => {},
            }
            assert(q@ =~= old(q)@ + old(self).finish_ops(f.hazard, readback));
            return Ok(0);
        }
        self.pos = self.pos + 1;
        match self.check_spin(flags.interp, fail) {
            Err(e) => {
                return Err(e);
            },
            Ok(()) => {},
        }
        let bytes: usize = match &self.capture {
            None => 0,
            Some(c) => c.row_stride() * 4,
        };
        match self.conditioner.take() {
            None => {},
            Some(mut c) => {
                if f.hazard {
                    q.push(Op::Barrier);
                }
                assert(q@ =~= old(q)@ + step_plan::barrier_if(f.hazard));
                let r = c.project_row(bytes, f.hazard, q);
                self.conditioner = Some(c);
                match r {
                    Err(e) => {
                        return Err(e);
                    },
                    Ok(()) => {},
                }
                q.push(Op::Synchronize);
            },
        }
        assert(old(self).conditioner is Some ==> old(self).conditioner->0.refusal(
            old(self).row_bytes(),
        ) is None);
        assert(q@ =~= old(q)@ + old(self).finish_ops(f.hazard, readback));
        match self.take_row(row) {
            Err(e) => Err(e),
            Ok(()) => Ok(next),
        }
    }

    /// The session after rolling back by `n` tokens: every cache, the captured rows
    /// and the context lose their last `n` rows, as far as they have so many.
    pub open spec fn rolled_back(self, after: GpuDecodeSession, n: int) -> bool {
        if n == 0 {
            after == self
        } else {
            &&& after == (GpuDecodeSession {
                kv: after.kv,
                pos: (self.pos - n) as usize,
                capture: after.capture,
                conditioner: after.conditioner,
                ..self
            })
            &&& after.kv@ == self.kv@.trimmed(n)
            &&& session::cut(self.capture, after.capture, n)
            &&& session::shortened(self.conditioner, after.conditioner, n)
        }
    }

    /// The command that goes with rolling back by `n` tokens: the device is told the
    /// position.
    pub open spec fn roll_back_ops(self, n: int) -> Seq<Op> {
        if n == 0 {
            seq![]
        } else {
            seq![Op::WritePos { pos: kv_slot::low32(self.pos - n) }]
        }
    }

    /// Rolls the session back by `n` tokens.
    pub fn trim_kv(&mut self, n: usize, q: &mut Vec<Op>) -> (r: Result<()>)
        requires
            old(self).wf(),
        ensures
            final(self).wf(),
            n > old(self).pos ==> *final(self) == *old(self) && final(q)@ == old(q)@
                && error::fails_with(
                r,
                error::kv_error(
                    "trim_kv "@ + text::dec(n as nat) + " > pos "@ + text::dec(
                        old(self).pos as nat,
                    ),
                ),
            ),
            n <= old(self).pos ==> {
                &&& r is Ok
                &&& old(self).rolled_back(*final(self), n as int)
                &&& final(q)@ == old(q)@ + old(self).roll_back_ops(n as int)
            },
    {
        if n == 0 {
            assert(q@ =~= old(q)@ + old(self).roll_back_ops(0));
            return Ok(());
        }
        if n > self.pos {
            return Err(
                Error::Kv(text::text_num2("trim_kv ", n as u64, " > pos ", self.pos as u64)),
            );
        }
        self.kv.trim(n);
        self.pos = self.pos - n;
        q.push(Op::WritePos { pos: kv_slot::to_u32(self.pos) });
        assert(q@ =~= old(q)@ + old(self).roll_back_ops(n as int));
        match self.capture.take() {
            None => {},
            Some(mut c) => {
                let k: usize = if n <= c.t {
                    n
                } else {
                    c.t
                };
                let _ = c.trim_recent(k);
                self.capture = Some(c);
            },
        }
        self.trim_context(n);
        Ok(())
    }

    /// After a verify call of `m` tokens, keeps the first `keep` of them.
    pub fn commit_verify(&mut self, m: usize, keep: usize, q: &mut Vec<Op>) -> (r: Result<()>)
        requires
            old(self).wf(),
        ensures
            final(self).wf(),
            keep > m ==> *final(self) == *old(self) && final(q)@ == old(q)@ && error::fails_with(
                r,
                error::config_error(
                    "commit_verify: keep="@ + text::dec(keep as nat) + " > m="@ + text::dec(
                        m as nat,
                    ),
                ),
            ),
            keep <= m && m - keep > old(self).pos ==> *final(self) == *old(self) && final(q)@
                == old(q)@ && error::fails_with(
                r,
                error::kv_error(
                    "trim_kv "@ + text::dec((m - keep) as nat) + " > pos "@ + text::dec(
                        old(self).pos as nat,
                    ),
                ),
            ),
            keep <= m && m - keep <= old(self).pos ==> {
                &&& r is Ok
                &&& old(self).rolled_back(*final(self), m - keep)
                &&& final(q)@ == old(q)@ + old(self).roll_back_ops(m - keep)
            },
    {
        if keep > m {
            return Err(
                Error::Config(
                    text::text_num2("commit_verify: keep=", keep as u64, " > m=", m as u64),
                ),
            );
        }
        self.trim_kv(m - keep, q)
    }
}

} // verus!
