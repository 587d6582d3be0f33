//! Recorded layer graphs: when a step records one or replays one, and the tape of
//! scalars that a replay writes in place of the layers.

use crate::error;
use crate::error::{Error, ErrorV, Result};
use crate::kv_bank;
use crate::kv_bank::{KvBank, KvBankV};
use crate::kv_slot;
use crate::kv_slot::GpuKvSlot;
use crate::ops::SlotRef;
use crate::session::LayerMode;
use crate::text;
use vstd::prelude::*;
use vstd::string::*;

verus! {

/// What is known of the recorded graph when a step begins.
#[derive(Clone, Copy, Debug, PartialEq, Eq, Structural)]
pub struct GraphState {
    /// Commands are encoded once and kept.
    pub encode_once: bool,
    /// Recorded graphs are switched on.
    pub decode_icb: bool,
    /// The model may use them.
    pub eligible: bool,
    /// Something recorded is attached.
    pub wired: bool,
    /// It is a graph of the layers.
    pub layer_graph: bool,
    /// A slot is ready to replay.
    pub ready_slot: bool,
    /// A graph is replayed from its tape, not encoded anew.
    pub tape_exec: bool,
}

/// What a step does with recorded graphs.
#[derive(Clone, Copy, Debug, PartialEq, Eq, Structural)]
pub enum GraphMode {
    /// Encodes its layers.
    Live,
    /// Encodes its layers and records them.
    Capture,
    /// Replays the recorded layers.
    Replay,
    /// Encodes its layers, and counts as a replay.
    LiveReplay,
    /// Runs the attached chain of copies first.
    ChainFirst,
    /// Replays kept commands first, where some are ready.
    KeptFirst,
}

/// What a step does. Only steps with a head record or replay the layers, so a
/// graph is never replayed for a step that differs from the one recorded.
pub open spec fn mode_of(s: GraphState, head: bool) -> GraphMode {
    if s.encode_once && s.decode_icb && s.eligible {
        if s.layer_graph && s.ready_slot {
            if !head {
                GraphMode::Live
            } else if s.tape_exec {
                GraphMode::Replay
            } else {
                GraphMode::LiveReplay
            }
        } else if !s.wired {
            if head {
                GraphMode::Capture
            } else {
                GraphMode::Live
            }
        } else if !s.layer_graph {
            GraphMode::ChainFirst
        } else {
            GraphMode::Live
        }
    } else if s.encode_once {
        GraphMode::KeptFirst
    } else {
        GraphMode::Live
    }
}

/// A switch as text.
pub open spec fn flag_text(on: bool) -> Seq<char> {
    if on {
        "true"@
    } else {
        "false"@
    }
}

fn push_flag(out: &mut String, name: &str, on: bool)
    ensures
        final(out)@ == old(out)@ + name@ + flag_text(on),
{
    out.append(name);
    if on {
        out.append("true");
    } else {
        out.append("false");
    }
}

impl GraphState {
    /// What is known when nothing was recorded yet.
    pub fn unrecorded(encode_once: bool, decode_icb: bool, eligible: bool, tape_exec: bool) -> (r:
        GraphState)
        ensures
            r == (GraphState {
                encode_once,
                decode_icb,
                eligible,
                wired: false,
                layer_graph: false,
                ready_slot: false,
                tape_exec,
            }),
    {
        GraphState {
            encode_once,
            decode_icb,
            eligible,
            wired: false,
            layer_graph: false,
            ready_slot: false,
            tape_exec,
        }
    }

    /// The state of what is recorded, in a line.
    pub fn status_line(&self) -> (r: String)
        ensures
            r@ == "encode_once wired="@ + flag_text(self.wired) + " layer_graph="@ + flag_text(
                self.layer_graph,
            ) + " ready="@ + flag_text(self.ready_slot),
    {
        let mut out = String::from_str("encode_once wired=");
        if self.wired {
            out.append("true");
        } else {
            out.append("false");
        }
        push_flag(&mut out, " layer_graph=", self.layer_graph);
        push_flag(&mut out, " ready=", self.ready_slot);
        out
    }

    /// What a step does with recorded graphs.
    pub fn mode(&self, head: bool) -> (r: GraphMode)
        ensures
            r == mode_of(*self, head),
    {
        if self.encode_once && self.decode_icb && self.eligible {
            if self.layer_graph && self.ready_slot {
                if !head {
                    GraphMode::Live
                } else if self.tape_exec {
                    GraphMode::Replay
                } else {
                    GraphMode::LiveReplay
                }
            } else if !self.wired {
                if head {
                    GraphMode::Capture
                } else {
                    GraphMode::Live
                }
            } else if !self.layer_graph {
                GraphMode::ChainFirst
            } else {
                GraphMode::Live
            }
        } else if self.encode_once {
            GraphMode::KeptFirst
        } else {
            GraphMode::Live
        }
    }
}

/// A step without a head neither records nor replays the layers.
pub proof fn prefill_is_live(s: GraphState)
    ensures
        mode_of(s, false) != GraphMode::Capture,
        mode_of(s, false) != GraphMode::Replay,
        mode_of(s, false) != GraphMode::LiveReplay,
{
}

/// A setting asks for execution of indirect commands.
pub open spec fn asks_icb(s: Option<Seq<char>>) -> bool {
    match s {
        Some(v) => v == "1"@ || v == "true"@ || v == "icb"@,
        None => false,
    }
}

/// A setting turns the replay from the tape off.
pub open spec fn turns_tape_off(s: Option<Seq<char>>) -> bool {
    match s {
        Some(v) => v == "0"@ || v == "false"@ || v == "off"@ || v == "live"@,
        None => false,
    }
}

fn asks(s: Option<&str>) -> (r: bool)
    ensures
        r == asks_icb(text::setting(s)),
{
    match s {
        Some(v) => text::str_eq(v, "1") || text::str_eq(v, "true") || text::str_eq(v, "icb"),
        None => false,
    }
}

/// Whether pipelines must support indirect commands.
pub fn wants_icb_pipelines(a: Option<&str>, b: Option<&str>, freeze_binds: bool) -> (r: bool)
    ensures
        r == (asks_icb(text::setting(a)) || asks_icb(text::setting(b)) || freeze_binds),
{
    asks(a) || asks(b) || freeze_binds
}

fn keeps_tape(s: Option<&str>) -> (r: bool)
    ensures
        r == !turns_tape_off(text::setting(s)),
{
    match s {
        Some(v) => !(text::str_eq(v, "0") || text::str_eq(v, "false") || text::str_eq(v, "off")
            || text::str_eq(v, "live")),
        None => true,
    }
}

/// Whether a graph is replayed from its tape: unless one of the settings turns
/// that off.
pub fn tape_executes(a: Option<&str>, b: Option<&str>) -> (r: bool)
    ensures
        r == (!turns_tape_off(text::setting(a)) && !turns_tape_off(text::setting(b))),
{
    keeps_tape(a) && keeps_tape(b)
}

/// Whether a replay writes the tape in place of walking the layers.
pub fn skips_layers(mode: GraphMode, skip_enabled: bool, tape_len: Option<usize>) -> (r: bool)
    ensures
        r == (mode == GraphMode::Replay && skip_enabled && (tape_len matches Some(n) && n > 0)),
{
    match tape_len {
        Some(n) => mode == GraphMode::Replay && skip_enabled && n > 0,
        None => false,
    }
}

/// How an attempt to replay ended.
#[derive(Clone, Debug)]
pub enum ReplayOutcome {
    Done,
    NotReady,
    NotWired,
    Failed(String),
}

/// What an attempt whose readiness does not matter comes to.
pub open spec fn attempt_fault(o: ReplayOutcome, label: Seq<char>) -> Option<ErrorV> {
    match o {
        ReplayOutcome::Failed(e) => Some(error::metal_error(label + e@)),
        _ => None,
    }
}

/// Ends an attempt to run the chain of copies.
pub fn chain_ended(o: &ReplayOutcome) -> (r: Result<()>)
    ensures
        match attempt_fault(*o, "encode_once try_replay_icb: "@) {
            Some(e) => error::fails_with(r, e),
            None => r is Ok,
        },
{
    match o {
        ReplayOutcome::Failed(e) => {
            let mut m = String::from_str("encode_once try_replay_icb: ");
            m.append(e.as_str());
            Err(Error::Metal(m))
        },
        _ => Ok(()),
    }
}

/// Ends an attempt to replay kept commands.
pub fn kept_ended(o: &ReplayOutcome) -> (r: Result<()>)
    ensures
        match attempt_fault(*o, "encode_once try_replay: "@) {
            Some(e) => error::fails_with(r, e),
            None => r is Ok,
        },
{
    match o {
        ReplayOutcome::Failed(e) => {
            let mut m = String::from_str("encode_once try_replay: ");
            m.append(e.as_str());
            Err(Error::Metal(m))
        },
        _ => Ok(()),
    }
}

/// Ends the note that a step counts as a replay though it encodes its layers: `fault` is
/// what the device has against it.
pub fn live_noted(fault: Option<&str>) -> (r: Result<()>)
    ensures
        match text::setting(fault) {
            Some(e) => error::fails_with(
                r,
                error::metal_error("encode_once note_layer_live_replay: "@ + e),
            ),
            None => r is Ok,
        },
{
    match fault {
        None => Ok(()),
        Some(e) => {
            let mut m = String::from_str("encode_once note_layer_live_replay: ");
            m.append(e);
            Err(Error::Metal(m))
        },
    }
}

/// What a replay of the layers comes to, if not to an end.
pub open spec fn replay_fault(o: ReplayOutcome) -> Option<ErrorV> {
    match o {
        ReplayOutcome::Done => None,
        ReplayOutcome::NotReady => Some(
            error::metal_error("encode_once: layer-graph replay expected Ready slot"@),
        ),
        ReplayOutcome::NotWired => Some(
            error::metal_error("encode_once: layer-graph DecodeIcb not wired at replay"@),
        ),
        ReplayOutcome::Failed(e) => Some(
            error::metal_error("encode_once try_replay_icb: "@ + e@),
        ),
    }
}

/// Ends a replay of the layers.
pub fn replay_ended(o: &ReplayOutcome) -> (r: Result<()>)
    ensures
        match replay_fault(*o) {
            Some(e) => error::fails_with(r, e),
            None => r is Ok,
        },
{
    match o {
        ReplayOutcome::Done => Ok(()),
        ReplayOutcome::NotReady => Err(
            Error::Metal(String::from_str("encode_once: layer-graph replay expected Ready slot")),
        ),
        ReplayOutcome::NotWired => Err(
            Error::Metal(String::from_str("encode_once: layer-graph DecodeIcb not wired at replay")),
        ),
        ReplayOutcome::Failed(e) => {
            let mut m = String::from_str("encode_once try_replay_icb: ");
            m.append(e.as_str());
            Err(Error::Metal(m))
        },
    }
}

/// The error for a replay whose scalars do not lie where the recorded ones lay.
pub open spec fn mismatch(pos: int, c: (usize, usize), n: (usize, usize)) -> ErrorV {
    error::metal_error(
        "encode_once: ICB scalar-cursor mismatch at pos="@ + text::dec(pos as nat)
            + ": capture=(u32 "@ + text::dec(c.0 as nat) + ", f32 "@ + text::dec(c.1 as nat)
            + ") replay=(u32 "@ + text::dec(n.0 as nat) + ", f32 "@ + text::dec(n.1 as nat)
            + ") — step graph shape diverged from captured tape"@,
    )
}

/// Checks that a replay left the scalar cursors where the recording left them.
pub fn check_watermark(pos: usize, capture: Option<(usize, usize)>, now: (usize, usize)) -> (r:
    Result<()>)
    ensures
        match capture {
            Some(c) => if c.0 != now.0 || c.1 != now.1 {
                error::fails_with(r, mismatch(pos as int, c, now))
            } else {
                r is Ok
            },
            None => r is Ok,
        },
{
    match capture {
        None => Ok(()),
        Some(c) => {
            if c.0 != now.0 || c.1 != now.1 {
                let mut m = text::text2(
                    "encode_once: ICB scalar-cursor mismatch at pos=",
                    pos as u64,
                    ": capture=(u32 ",
                    c.0 as u64,
                    ", f32 ",
                );
                text::push_dec(&mut m, c.1 as u64);
                m.append(") replay=(u32 ");
                text::push_dec(&mut m, now.0 as u64);
                m.append(", f32 ");
                text::push_dec(&mut m, now.1 as u64);
                m.append(") — step graph shape diverged from captured tape");
                return Err(Error::Metal(m));
            }
            Ok(())
        },
    }
}

/// What is attached after a recording.
#[derive(Clone, Copy, Debug, PartialEq, Eq, Structural)]
pub enum Attach {
    /// The recorded graph, with its tape.
    Graph,
    /// A chain of copies, on the synthetic graph only.
    CopyChain,
    Nothing,
}

/// What is attached after a recording of `commands` commands, where `built` says
/// whether a graph could be made of them.
pub fn attach_after(commands: Option<usize>, min_commands: usize, built: bool, mini: bool) -> (r:
    Attach)
    ensures
        commands is None ==> r == Attach::Nothing,
        commands matches Some(n) ==> r == (if n >= min_commands && built {
            Attach::Graph
        } else if mini {
            Attach::CopyChain
        } else {
            Attach::Nothing
        }),
{
    match commands {
        None => Attach::Nothing,
        Some(n) => if n >= min_commands && built {
            Attach::Graph
        } else if mini {
            Attach::CopyChain
        } else {
            Attach::Nothing
        },
    }
}

/// How a finished step counts.
#[derive(Clone, Copy, Debug, PartialEq, Eq, Structural)]
pub enum Ledger {
    Replayed,
    Encoded,
    /// It was counted before, or nothing is counted.
    Nothing,
}

/// How a finished step counts.
pub fn ledger_of(encode_once: bool, mode: GraphMode) -> (r: Ledger)
    ensures
        r == (if !encode_once || mode == GraphMode::LiveReplay {
            Ledger::Nothing
        } else if mode == GraphMode::Replay {
            Ledger::Replayed
        } else {
            Ledger::Encoded
        }),
{
    if !encode_once {
        return Ledger::Nothing;
    }
    match mode {
        GraphMode::Replay => Ledger::Replayed,
        GraphMode::LiveReplay => Ledger::Nothing,
        _ => Ledger::Encoded,
    }
}

/// A scalar that differs from step to step.
#[derive(Clone, Copy, Debug, PartialEq, Eq, Structural)]
pub enum IcbDynSrc {
    /// The position.
    Pos,
    /// Where a slot takes its next row.
    Peek(SlotRef),
    /// Rows of a slot that attention reads.
    Filled(SlotRef),
    /// The oldest row of a ring.
    Start(SlotRef),
    /// The position of the oldest row.
    KvPos(SlotRef),
    /// Rows that attention reads.
    Tkv(SlotRef),
}

/// An entry of the tape.
#[derive(Clone, Copy, Debug, PartialEq, Eq, Structural)]
pub enum IcbScalarTapeOp {
    U32Const(u32),
    U32Dyn(IcbDynSrc),
    /// A float, as bits.
    F32Const(u32),
    /// A row of a slot counts as written.
    Kv(SlotRef),
}

/// What is pushed for the replayed commands to read.
#[derive(Clone, Copy, Debug, PartialEq, Eq, Structural)]
pub enum Push {
    U32(u32),
    F32(u32),
}

/// The slot that a source looks at.
pub open spec fn slot_of(src: IcbDynSrc) -> Option<SlotRef> {
    match src {
        IcbDynSrc::Pos => None,
        IcbDynSrc::Peek(r) => Some(r),
        IcbDynSrc::Filled(r) => Some(r),
        IcbDynSrc::Start(r) => Some(r),
        IcbDynSrc::KvPos(r) => Some(r),
        IcbDynSrc::Tkv(r) => Some(r),
    }
}

/// The slot that an entry looks at.
pub open spec fn names(op: IcbScalarTapeOp) -> Option<SlotRef> {
    match op {
        IcbScalarTapeOp::U32Dyn(src) => slot_of(src),
        IcbScalarTapeOp::Kv(r) => Some(r),
        _ => None,
    }
}

/// Rows of a slot that attention reads at a position.
pub open spec fn rows_at(s: GpuKvSlot, pos: int) -> u32 {
    s.fa_view(kv_slot::low32(pos + 1)).rows
}

/// The value of a source at a position.
pub open spec fn eval(b: KvBankV, src: IcbDynSrc, pos: int) -> std::result::Result<u32, ErrorV> {
    match src {
        IcbDynSrc::Pos => Ok(kv_slot::low32(pos)),
        IcbDynSrc::Peek(r) => match b.slot(r).write_refusal() {
            Some(e) => Err(e),
            None => Ok(b.slot(r).write_offset()),
        },
        IcbDynSrc::Filled(r) => Ok(rows_at(b.slot(r), pos)),
        IcbDynSrc::Tkv(r) => Ok(rows_at(b.slot(r), pos)),
        IcbDynSrc::Start(r) => Ok(
            if b.slot(r).wrapped() {
                kv_slot::low32(b.slot(r).head as int)
            } else {
                0
            },
        ),
        IcbDynSrc::KvPos(r) => Ok(
            if b.slot(r).wrapped() {
                kv_slot::low32(b.slot(r).seq_len - b.slot(r).capacity)
            } else {
                0
            },
        ),
    }
}

/// The value of a source at a position.
pub fn eval_icb_dyn_u32(kv: &KvBank, src: IcbDynSrc, pos: usize) -> (r: Result<u32>)
    requires
        kv@.wf(),
        slot_of(src) matches Some(s) ==> kv@.has(s),
        pos < usize::MAX,
    ensures
        match eval(kv@, src, pos as int) {
            Ok(v) => r == Ok::<u32, Error>(v),
            Err(e) => error::fails_with(r, e),
        },
{
    let limit: u32 = kv_slot::to_u32(pos + 1);
    match src {
        IcbDynSrc::Pos => Ok(kv_slot::to_u32(pos)),
        IcbDynSrc::Peek(r) => kv.slot(r).peek_write_offset(),
        IcbDynSrc::Filled(r) => Ok(kv.slot(r).fa_buffers(limit).rows),
        IcbDynSrc::Tkv(r) => Ok(kv.slot(r).fa_buffers(limit).rows),
        IcbDynSrc::Start(r) => {
            let s = kv.slot(r);
            Ok(
                if s.is_ring && s.seq_len > s.capacity {
                    kv_slot::to_u32(s.head)
                } else {
                    0
                },
            )
        },
        IcbDynSrc::KvPos(r) => {
            let s = kv.slot(r);
            Ok(
                if s.is_ring && s.seq_len > s.capacity {
                    kv_slot::to_u32(s.seq_len - s.capacity)
                } else {
                    0
                },
            )
        },
    }
}

/// The state of a tape being written.
pub struct TapeRun {
    pub kv: KvBankV,
    pub pushes: Seq<Push>,
    pub fault: Option<ErrorV>,
}

/// One entry of the tape, written at a position.
pub open spec fn tape_step(s: TapeRun, op: IcbScalarTapeOp, pos: int) -> TapeRun {
    match op {
        IcbScalarTapeOp::U32Const(v) => TapeRun { pushes: s.pushes.push(Push::U32(v)), ..s },
        IcbScalarTapeOp::F32Const(v) => TapeRun { pushes: s.pushes.push(Push::F32(v)), ..s },
        IcbScalarTapeOp::U32Dyn(src) => match eval(s.kv, src, pos) {
            Ok(v) => TapeRun { pushes: s.pushes.push(Push::U32(v)), ..s },
            Err(e) => TapeRun { fault: Some(e), ..s },
        },
        IcbScalarTapeOp::Kv(r) => match s.kv.append(r) {
            Ok((b, _)) => TapeRun { kv: b, ..s },
            Err(e) => TapeRun { fault: Some(e), ..s },
        },
    }
}

/// The first `n` entries of the tape, up to the first fault.
pub open spec fn tape_run(kv: KvBankV, ops: Seq<IcbScalarTapeOp>, pos: int, n: int) -> TapeRun
    decreases n,
{
    if n <= 0 {
        TapeRun { kv, pushes: Seq::empty(), fault: None }
    } else {
        let s = tape_run(kv, ops, pos, n - 1);
        if s.fault is Some {
            s
        } else {
            tape_step(s, ops[n - 1], pos)
        }
    }
}

proof fn lemma_fault_stays(kv: KvBankV, ops: Seq<IcbScalarTapeOp>, pos: int, n: int, m: int)
    requires
        0 <= n <= m,
        tape_run(kv, ops, pos, n).fault is Some,
    ensures
        tape_run(kv, ops, pos, m) == tape_run(kv, ops, pos, n),
    decreases m,
{
    if n < m {
        lemma_fault_stays(kv, ops, pos, n, m - 1);
    }
}

/// The error for a replay without a tape.
pub open spec fn no_tape() -> ErrorV {
    error::metal_error("icb scalar-write tape missing"@)
}

/// The entries of a tape, where there is one.
pub open spec fn tape_view(tape: Option<&Vec<IcbScalarTapeOp>>) -> Option<Seq<IcbScalarTapeOp>> {
    match tape {
        Some(t) => Some(t@),
        None => None,
    }
}

/// Every slot that the tape names exists.
pub open spec fn addresses(kv: KvBankV, ops: Seq<IcbScalarTapeOp>) -> bool {
    forall|i: int| 0 <= i < ops.len() ==> (names(#[trigger] ops[i]) matches Some(r) ==> kv.has(r))
}

/// Writes the tape for a position: pushes its scalars and counts its rows.
pub fn apply_icb_scalar_write_tape(
    kv: &mut KvBank,
    tape: Option<&Vec<IcbScalarTapeOp>>,
    pos: usize,
    pushes: &mut Vec<Push>,
) -> (r: Result<()>)
    requires
        old(kv)@.wf(),
        pos < usize::MAX,
        tape matches Some(t) ==> addresses(old(kv)@, t@) && old(kv)@.lens_at_most(
            usize::MAX - t@.len(),
        ),
        old(pushes)@.len() == 0,
    ensures
        final(kv)@.wf(),
        final(kv)@.same_shapes(old(kv)@),
        match tape {
            None => {
                &&& error::fails_with(r, no_tape())
                &&& final(kv)@ == old(kv)@
                &&& final(pushes)@ == old(pushes)@
            },
            Some(t) => {
                let s = tape_run(old(kv)@, t@, pos as int, t@.len() as int);
                &&& final(kv)@ == s.kv
                &&& final(pushes)@ == s.pushes
                &&& match s.fault {
                    Some(e) => error::fails_with(r, e),
                    None => r is Ok,
                }
            },
        },
{
    let t = match tape {
        None => {
            return Err(Error::Metal(String::from_str("icb scalar-write tape missing")));
        },
        Some(t) => t,
    };
    let ghost first = kv@;
    let ghost room = usize::MAX - t@.len();
    let mut i: usize = 0;
    assert(pushes@ =~= Seq::<Push>::empty());
    while i < t.len()
        invariant
            i <= t@.len(),
            pos < usize::MAX,
            room == usize::MAX - t@.len(),
            first == old(kv)@,
            tape == Some(t),
            kv@.wf(),
            kv@.same_shapes(first),
            addresses(first, t@),
            kv@.lens_at_most(room + i),
            ({
                let s = tape_run(first, t@, pos as int, i as int);
                s.kv == kv@ && s.pushes == pushes@ && s.fault is None
            }),
        decreases t@.len() - i,
    {
        let op = t[i];
        let ghost before = kv@;
        proof {
            assert(t@[i as int] == op);
            if let Some(r) = names(op) {
                assert(first.has(r));
                assert(kv@.has(r));
            }
        }
        match op {
            IcbScalarTapeOp::U32Const(v) => {
                pushes.push(Push::U32(v));
            },
            IcbScalarTapeOp::F32Const(v) => {
                pushes.push(Push::F32(v));
            },
            IcbScalarTapeOp::U32Dyn(src) => {
                match eval_icb_dyn_u32(kv, src, pos) {
                    Err(e) => {
                        proof {
                            lemma_fault_stays(first, t@, pos as int, i + 1, t@.len() as int);
                        }
                        return Err(e);
                    },
                    Ok(v) => {
                        pushes.push(Push::U32(v));
                    },
                }
            },
            IcbScalarTapeOp::Kv(r) => {
                match kv.commit(r) {
                    Err(e) => {
                        proof {
                            lemma_fault_stays(first, t@, pos as int, i + 1, t@.len() as int);
                        }
                        return Err(e);
                    },
                    Ok(()) => {
                        proof {
                            let s = before.slot(r).holding(before.slot(r).seq_len + 1);
                            kv_slot::holding_is_wf(before.slot(r), before.slot(r).seq_len + 1);
                            kv_bank::lemma_with(before, r, s);
                            assert forall|q: SlotRef| #[trigger] kv@.has(q) implies kv@.slot(
                                q,
                            ).seq_len <= room + i + 1 by {
                                assert(before.has(q));
                            }
                        }
                    },
                }
            },
        }
        i = i + 1;
        proof {
            assert forall|q: SlotRef| #[trigger] kv@.has(q) implies kv@.slot(q).seq_len <= room + i
                && kv@.slot(q).same_shape(first.slot(q)) by {
                assert(before.has(q));
                assert(before.slot(q).same_shape(first.slot(q)));
            }
        }
    }
    Ok(())
}

/// Whether every slot that a tape names exists.
pub fn tape_addresses(kv: &KvBank, tape: &Vec<IcbScalarTapeOp>) -> (r: bool)
    ensures
        r == addresses(kv@, tape@),
{
    let mut i: usize = 0;
    while i < tape.len()
        invariant
            i <= tape@.len(),
            forall|j: int|
                0 <= j < i ==> (names(#[trigger] tape@[j]) matches Some(r) ==> kv@.has(r)),
        decreases tape@.len() - i,
    {
        let named: Option<SlotRef> = match tape[i] {
            IcbScalarTapeOp::U32Dyn(src) => match src {
                IcbDynSrc::Pos => None,
                IcbDynSrc::Peek(r) => Some(r),
                IcbDynSrc::Filled(r) => Some(r),
                IcbDynSrc::Start(r) => Some(r),
                IcbDynSrc::KvPos(r) => Some(r),
                IcbDynSrc::Tkv(r) => Some(r),
            },
            IcbScalarTapeOp::Kv(r) => Some(r),
            _ => None,
        };
        assert(named == names(tape@[i as int]));
        let there = match named {
            None => true,
            Some(SlotRef::Ring(k)) => k < kv.sliding_rings.len(),
            Some(SlotRef::Global(k)) => k < kv.global_slots.len(),
            Some(_) => true,
        };
        if !there {
            return false;
        }
        i = i + 1;
    }
    true
}

/// What is recorded of a session's layers.
#[derive(Clone, Debug)]
pub struct Recorded {
    pub state: GraphState,
    /// A replay writes its tape in place of walking the layers, where there is one.
    pub skip: bool,
    pub tape: Option<Vec<IcbScalarTapeOp>>,
    /// Where the scalar cursors stood when the recording ended.
    pub watermark: Option<(usize, usize)>,
}

/// How the layers of a step reach the device.
pub open spec fn layer_mode_of(mode: GraphMode, skips: bool) -> LayerMode {
    match mode {
        GraphMode::Capture => LayerMode::Record,
        GraphMode::Replay => if skips {
            LayerMode::Skip
        } else {
            LayerMode::Replay
        },
        _ => LayerMode::Encode,
    }
}

impl Recorded {
    /// Nothing is recorded.
    pub fn nothing(state: GraphState, skip: bool) -> (r: Recorded)
        ensures
            r.state == state,
            r.skip == skip,
            r.tape is None,
            r.watermark is None,
    {
        Recorded { state, skip, tape: None, watermark: None }
    }

    /// A replay writes the tape in place of walking the layers.
    pub open spec fn skips(self) -> bool {
        self.skip && (self.tape matches Some(t) && t@.len() > 0)
    }

    /// How the layers of a step reach the device: they are recorded by the first step with
    /// a head, and replayed by the ones that follow.
    pub fn layer_mode(&self, head: bool) -> (r: LayerMode)
        ensures
            r == layer_mode_of(mode_of(self.state, head), self.skips()),
    {
        let mode = self.state.mode(head);
        let tape_len: Option<usize> = match &self.tape {
            Some(t) => Some(t.len()),
            None => None,
        };
        match mode {
            GraphMode::Capture => LayerMode::Record,
            GraphMode::Replay => if skips_layers(mode, self.skip, tape_len) {
                LayerMode::Skip
            } else {
                LayerMode::Replay
            },
            _ => LayerMode::Encode,
        }
    }

    /// Takes over what a recording came to: the graph with its tape and its cursors, or a
    /// chain of copies, or nothing.
    pub fn attached(
        &mut self,
        attach: Attach,
        chain_built: bool,
        tape: Option<Vec<IcbScalarTapeOp>>,
        cursors: (usize, usize),
    )
        ensures
            match attach {
                Attach::Graph => {
                    &&& final(self).state == (GraphState {
                        wired: true,
                        layer_graph: true,
                        ..old(self).state
                    })
                    &&& final(self).watermark == Some(cursors)
                    &&& final(self).tape == (if tape is Some {
                        tape
                    } else {
                        old(self).tape
                    })
                    &&& final(self).skip == old(self).skip
                },
                Attach::CopyChain => *final(self) == (if chain_built {
                    Recorded {
                        state: GraphState {
                            wired: true,
                            layer_graph: false,
                            ..old(self).state
                        },
                        ..*old(self)
                    }
                } else {
                    *old(self)
                }),
                Attach::Nothing => *final(self) == *old(self),
            },
    {
        match attach {
            Attach::Graph => {
                self.state.wired = true;
                self.state.layer_graph = true;
                self.watermark = Some(cursors);
                if tape.is_some() {
                    self.tape = tape;
                }
            },
            Attach::CopyChain => {
                if chain_built {
                    self.state.wired = true;
                    self.state.layer_graph = false;
                }
            },
            Attach::Nothing => {},
        }
    }
}

/// What is to be done next in a step.
#[derive(Clone, Copy, Debug, PartialEq, Eq, Structural)]
pub enum StepAsk {
    /// Run the attached chain of copies.
    Chain,
    /// Replay kept commands, where some are ready.
    Kept,
    /// Note that the step counts as a replay.
    NoteLive,
    /// Encode the token, the embedding and all layers, and run them.
    Front,
    /// Encode the token and the embedding, and run them.
    Open,
    /// Begin to record.
    Begin,
    /// Encode a layer, and run it.
    Layer(usize),
    /// Look at the residual after a layer.
    Probe(usize),
    /// Encode the capture of a layer, and run it.
    Capture(usize),
    /// The recording ends.
    End,
    /// Take over what was recorded.
    Attach,
    /// Hold the scalar cursors against those of the recording.
    Cursors,
    /// Replay the recorded layers.
    Replay,
    /// Encode what follows the layers, and run it.
    Back,
    /// Finish the step with the device's answer.
    Finish,
}

/// What a step does first.
pub open spec fn first_asks(mode: GraphMode) -> Seq<StepAsk> {
    match mode {
        GraphMode::ChainFirst => seq![StepAsk::Chain],
        GraphMode::KeptFirst => seq![StepAsk::Kept],
        GraphMode::LiveReplay => seq![StepAsk::NoteLive],
        _ => seq![],
    }
}

/// Walking the first `n` layers, each looked at before it is captured.
pub open spec fn probed_asks(n: int) -> Seq<StepAsk>
    decreases n,
{
    if n <= 0 {
        seq![]
    } else {
        probed_asks(n - 1) + seq![
            StepAsk::Layer((n - 1) as usize),
            StepAsk::Probe((n - 1) as usize),
            StepAsk::Capture((n - 1) as usize),
        ]
    }
}

/// What a step does up to the end of its layers. Only layers that are walked are looked
/// at.
pub open spec fn layer_asks(mode: LayerMode, probe: bool, n: int) -> Seq<StepAsk> {
    if !probe || mode == LayerMode::Skip {
        seq![StepAsk::Front]
    } else if mode == LayerMode::Record {
        seq![StepAsk::Open, StepAsk::Begin] + probed_asks(n) + seq![StepAsk::End]
    } else {
        seq![StepAsk::Open] + probed_asks(n)
    }
}

/// What a step does between its layers and its head.
pub open spec fn later_asks(mode: GraphMode) -> Seq<StepAsk> {
    match mode {
        GraphMode::Capture => seq![StepAsk::Attach],
        GraphMode::Replay => seq![StepAsk::Cursors, StepAsk::Replay],
        _ => seq![],
    }
}

/// All that a step does, in order. The first of it that fails ends the step.
pub open spec fn asks_of(r: Recorded, head: bool, probe: bool, n: int) -> Seq<StepAsk> {
    let mode = mode_of(r.state, head);
    first_asks(mode) + layer_asks(layer_mode_of(mode, r.skips()), probe, n) + later_asks(mode)
        + seq![StepAsk::Back, StepAsk::Finish]
}

fn push_probed(out: &mut Vec<StepAsk>, n: usize)
    ensures
        final(out)@ == old(out)@ + probed_asks(n as int),
{
    let mut li: usize = 0;
    assert(out@ =~= old(out)@ + probed_asks(0));
    while li < n
        invariant
            li <= n,
            out@ == old(out)@ + probed_asks(li as int),
        decreases n - li,
    {
        out.push(StepAsk::Layer(li));
        out.push(StepAsk::Probe(li));
        out.push(StepAsk::Capture(li));
        li = li + 1;
        assert(out@ =~= old(out)@ + probed_asks(li as int));
    }
}

fn push_layer_asks(out: &mut Vec<StepAsk>, mode: LayerMode, probe: bool, n: usize)
    ensures
        final(out)@ == old(out)@ + layer_asks(mode, probe, n as int),
{
    match mode {
        LayerMode::Skip => {
            out.push(StepAsk::Front);
        },
        _ => {
            if !probe {
                out.push(StepAsk::Front);
            } else {
                out.push(StepAsk::Open);
                match mode {
                    LayerMode::Record => {
                        out.push(StepAsk::Begin);
                        push_probed(out, n);
                        out.push(StepAsk::End);
                    },
                    _ => {
                        push_probed(out, n);
                    },
                }
            }
        },
    }
    assert(out@ =~= old(out)@ + layer_asks(mode, probe, n as int));
}

impl Recorded {
    /// All that a step of a model with `layers` layers does, in order. The first of it
    /// that fails ends the step.
    pub fn asks(&self, head: bool, probe: bool, layers: usize) -> (r: Vec<StepAsk>)
        ensures
            r@ == asks_of(*self, head, probe, layers as int),
    {
        let mode = self.state.mode(head);
        let mut out: Vec<StepAsk> = Vec::new();
        match mode {
            GraphMode::ChainFirst => {
                out.push(StepAsk::Chain);
            },
            GraphMode::KeptFirst => {
                out.push(StepAsk::Kept);
            },
            GraphMode::LiveReplay => {
                out.push(StepAsk::NoteLive);
            },
            _ => {},
        }
        assert(out@ =~= first_asks(mode));
        push_layer_asks(&mut out, self.layer_mode(head), probe, layers);
        let ghost so_far = out@;
        match mode {
            GraphMode::Capture => {
                out.push(StepAsk::Attach);
            },
            GraphMode::Replay => {
                out.push(StepAsk::Cursors);
                out.push(StepAsk::Replay);
            },
            _ => {},
        }
        assert(out@ =~= so_far + later_asks(mode));
        out.push(StepAsk::Back);
        out.push(StepAsk::Finish);
        assert(out@ =~= so_far + later_asks(mode) + seq![StepAsk::Back, StepAsk::Finish]);
        out
    }
}

/// A step without a head walks and encodes its layers, whatever is recorded.
pub proof fn prefill_encodes_its_layers(r: Recorded)
    ensures
        layer_mode_of(mode_of(r.state, false), r.skips()) == LayerMode::Encode,
{
}

/// How many of the first `n` entries count a row of slot `r`.
pub open spec fn commits(ops: Seq<IcbScalarTapeOp>, r: SlotRef, n: int) -> int
    decreases n,
{
    if n <= 0 {
        0
    } else {
        commits(ops, r, n - 1) + (if ops[n - 1] == IcbScalarTapeOp::Kv(r) {
            1int
        } else {
            0
        })
    }
}

/// Writing a tape adds to each slot exactly the rows that the tape counts for it,
/// whatever the position: a replay grows the caches as the recorded step did.
pub proof fn tape_adds_its_commits(
    kv: KvBankV,
    ops: Seq<IcbScalarTapeOp>,
    pos: int,
    n: int,
    r: SlotRef,
)
    requires
        kv.wf(),
        addresses(kv, ops),
        kv.has(r),
        0 <= n <= ops.len(),
        kv.lens_at_most(usize::MAX - ops.len()),
        tape_run(kv, ops, pos, n).fault is None,
    ensures
        ({
            let b = tape_run(kv, ops, pos, n).kv;
            &&& b.wf()
            &&& b.same_shapes(kv)
            &&& b.slot(r).seq_len == kv.slot(r).seq_len + commits(ops, r, n)
            &&& 0 <= commits(ops, r, n) <= n
        }),
    decreases n,
{
    if n > 0 {
        let s = tape_run(kv, ops, pos, n - 1);
        tape_adds_its_commits(kv, ops, pos, n - 1, r);
        if let Some(q) = names(ops[n - 1]) {
            assert(kv.has(q));
            assert(s.kv.has(q));
            if q != r {
                tape_adds_its_commits(kv, ops, pos, n - 1, q);
            }
            assert(kv.slot(q).seq_len <= usize::MAX - ops.len());
            if ops[n - 1] == IcbScalarTapeOp::Kv(q) && s.kv.slot(q).write_refusal() is None {
                let t = s.kv.slot(q).holding(s.kv.slot(q).seq_len + 1);
                kv_slot::holding_is_wf(s.kv.slot(q), s.kv.slot(q).seq_len + 1);
                kv_bank::lemma_with(s.kv, q, t);
                assert(s.kv.has(r));
                let b = s.kv.with(q, t);
                assert(tape_run(kv, ops, pos, n).kv == b);
                assert forall|p: SlotRef| #[trigger] b.has(p) implies b.slot(p).same_shape(
                    kv.slot(p),
                ) by {
                    assert(s.kv.has(p));
                    assert(b.slot(p).same_shape(s.kv.slot(p)));
                }
            }
        }
    }
}

/// What a replay reads: up to the position that was just written it reads the newest
/// timesteps that the slot still holds, oldest first, each from the row where it lies.
pub proof fn replayed_reads_find_their_rows(b: KvBankV, r: SlotRef, pos: int, j: int)
    requires
        b.slot(r).wf(),
        b.slot(r).seq_len == pos + 1,
        b.slot(r).seq_len <= u32::MAX,
        0 < b.slot(r).capacity <= u32::MAX,
        0 <= j < b.slot(r).seq_len,
        0 <= j < b.slot(r).capacity,
    ensures
        eval(b, IcbDynSrc::Pos, pos) == Ok::<u32, ErrorV>(pos as u32),
        eval(b, IcbDynSrc::Filled(r), pos) == eval(b, IcbDynSrc::Tkv(r), pos),
        match (
            eval(b, IcbDynSrc::Tkv(r), pos),
            eval(b, IcbDynSrc::Start(r), pos),
            eval(b, IcbDynSrc::KvPos(r), pos),
        ) {
            (Ok(rows), Ok(start), Ok(first)) => {
                &&& first + rows == pos + 1
                &&& rows == pos + 1 || rows == b.slot(r).capacity
                &&& rows <= b.slot(r).capacity
                &&& if b.slot(r).is_ring {
                    (start + j) % (b.slot(r).capacity as int) == (first + j) % (b.slot(
                        r,
                    ).capacity as int)
                } else {
                    start == 0 && first == 0
                }
            },
            _ => false,
        },
{
    let s = b.slot(r);
    let limit = kv_slot::low32(pos + 1);
    vstd::arithmetic::div_mod::lemma_small_mod((pos + 1) as nat, 0x1_0000_0000);
    vstd::arithmetic::div_mod::lemma_small_mod(s.filled() as nat, 0x1_0000_0000);
    kv_slot::fa_rows_are_consecutive_positions(s, limit, j);
}

/// Where a replay writes: the next timestep goes to the row behind the newest one, which
/// in a ring is the first row again after the last. A full slot refuses it.
pub proof fn replayed_writes_find_their_row(b: KvBankV, r: SlotRef, pos: int)
    requires
        b.slot(r).wf(),
        0 < b.slot(r).capacity,
        b.slot(r).capacity * (b.slot(r).heads * b.slot(r).dim) <= u32::MAX,
    ensures
        !b.slot(r).is_ring && b.slot(r).seq_len == b.slot(r).capacity ==> eval(
            b,
            IcbDynSrc::Peek(r),
            pos,
        ) is Err,
        b.slot(r).is_ring || b.slot(r).seq_len < b.slot(r).capacity ==> (eval(
            b,
            IcbDynSrc::Peek(r),
            pos,
        ) matches Ok(at) && at == (b.slot(r).seq_len as int % b.slot(r).capacity as int) * (b.slot(
            r,
        ).heads * b.slot(r).dim)),
{
    let s = b.slot(r);
    let c = s.capacity as int;
    let n = s.seq_len as int;
    let w = s.heads * s.dim;
    if s.is_ring || n < c {
        vstd::arithmetic::div_mod::lemma_mod_bound(n, c);
        if n < c {
            vstd::arithmetic::div_mod::lemma_small_mod(n as nat, c as nat);
        }
        let i = n % c;
        assert(0 <= w) by (nonlinear_arith)
            requires
                w == s.heads * s.dim,
                0 <= s.heads,
                0 <= s.dim,
        ;
        assert(0 <= i * w <= c * w) by (nonlinear_arith)
            requires
                0 <= i < c,
                0 <= w,
        ;
        vstd::arithmetic::div_mod::lemma_small_mod((i * w) as nat, 0x1_0000_0000);
    }
}

} // verus!
