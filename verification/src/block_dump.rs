//! The diagnostic dump of the first drafted block on the large model: what is done in
//! which order, which blocks are proposed for, and which rows are looked at.

use crate::golden;
use crate::text;
use vstd::prelude::*;
use vstd::string::*;

verus! {

/// Tokens of a dumped block.
pub const DUMP_BLOCK: usize = 5;

/// Layers of the draft that is dumped.
pub const DUMP_LAYERS: usize = 5;

/// A stage of the dump.
#[derive(Clone, Copy, Debug, PartialEq, Eq, Structural)]
pub enum DumpStage {
    /// Make a conditioner, attach it, bind the draft, and forget what was decoded.
    Conditioner,
    Attach,
    Bind,
    /// Read the prompt up to its last token.
    Prefill(usize),
    /// Decode the last token: the answer is the anchor.
    Step,
    /// Read the captured rows and the conditioner's rows.
    Concat,
    FcOut,
    Context,
    /// Project the captured rows on the host.
    HostContext,
    /// Propose for the block that begins with the anchor.
    StreamBuffer,
    StreamPropose,
    /// Propose for the block that begins with the prompt's last token.
    RecordedBuffer,
    RecordedPropose,
    /// Propose on the host, where that was asked for.
    HostBind,
    HostPropose,
    Write,
    /// The dump was written.
    Done,
    /// Something failed.
    Failed,
}

impl DumpStage {
    /// The stage is one for a prompt of `n` tokens.
    pub open spec fn wf(self, n: int) -> bool {
        match self {
            DumpStage::Prefill(i) => i + 1 < n,
            _ => true,
        }
    }

    /// What follows a stage that went well, for a prompt of `n` tokens.
    pub open spec fn follows(self, n: int, dense: bool) -> DumpStage {
        match self {
            DumpStage::Conditioner => DumpStage::Attach,
            DumpStage::Attach => DumpStage::Bind,
            DumpStage::Bind => if n > 1 {
                DumpStage::Prefill(0)
            } else {
                DumpStage::Step
            },
            DumpStage::Prefill(i) => if i + 2 < n {
                DumpStage::Prefill((i + 1) as usize)
            } else {
                DumpStage::Step
            },
            DumpStage::Step => DumpStage::Concat,
            DumpStage::Concat => DumpStage::FcOut,
            DumpStage::FcOut => DumpStage::Context,
            DumpStage::Context => DumpStage::HostContext,
            DumpStage::HostContext => DumpStage::StreamBuffer,
            DumpStage::StreamBuffer => DumpStage::StreamPropose,
            DumpStage::StreamPropose => DumpStage::RecordedBuffer,
            DumpStage::RecordedBuffer => DumpStage::RecordedPropose,
            DumpStage::RecordedPropose => if dense {
                DumpStage::HostBind
            } else {
                DumpStage::Write
            },
            DumpStage::HostBind => DumpStage::HostPropose,
            DumpStage::HostPropose => DumpStage::Write,
            DumpStage::Write => DumpStage::Done,
            DumpStage::Done => DumpStage::Done,
            DumpStage::Failed => DumpStage::Failed,
        }
    }

    /// What follows a stage.
    pub open spec fn then_stage(self, n: int, dense: bool, ok: bool) -> DumpStage {
        if ok || self is Done {
            self.follows(n, dense)
        } else {
            DumpStage::Failed
        }
    }

    /// What follows a stage, for a prompt of `n` tokens. `dense` says whether the host
    /// proposes too.
    pub fn next(self, n: usize, dense: bool, ok: bool) -> (r: DumpStage)
        requires
            n >= 1,
            self.wf(n as int),
        ensures
            r == self.then_stage(n as int, dense, ok),
            r.wf(n as int),
    {
        if matches!(self, DumpStage::Done) {
            return DumpStage::Done;
        }
        if !ok {
            return DumpStage::Failed;
        }
        match self {
            DumpStage::Conditioner => DumpStage::Attach,
            DumpStage::Attach => DumpStage::Bind,
            DumpStage::Bind => if n > 1 {
                DumpStage::Prefill(0)
            } else {
                DumpStage::Step
            },
            DumpStage::Prefill(i) => if i + 1 < n - 1 {
                DumpStage::Prefill(i + 1)
            } else {
                DumpStage::Step
            },
            DumpStage::Step => DumpStage::Concat,
            DumpStage::Concat => DumpStage::FcOut,
            DumpStage::FcOut => DumpStage::Context,
            DumpStage::Context => DumpStage::HostContext,
            DumpStage::HostContext => DumpStage::StreamBuffer,
            DumpStage::StreamBuffer => DumpStage::StreamPropose,
            DumpStage::StreamPropose => DumpStage::RecordedBuffer,
            DumpStage::RecordedBuffer => DumpStage::RecordedPropose,
            DumpStage::RecordedPropose => if dense {
                DumpStage::HostBind
            } else {
                DumpStage::Write
            },
            DumpStage::HostBind => DumpStage::HostPropose,
            DumpStage::HostPropose => DumpStage::Write,
            DumpStage::Write => DumpStage::Done,
            DumpStage::Done => DumpStage::Done,
            DumpStage::Failed => DumpStage::Failed,
        }
    }

    /// Automatic barriers are left out once the stage is reached: never while the dump
    /// is made, and as before once it was written.
    pub fn hazard(self, before: bool) -> (r: bool)
        ensures
            r == (before && self is Done),
    {
        before && matches!(self, DumpStage::Done)
    }

    /// What stands before the error where the stage fails.
    pub open spec fn label(self) -> Seq<char> {
        match self {
            DumpStage::Conditioner => "dump conditioner: "@,
            DumpStage::Attach => "dump attach: "@,
            DumpStage::Bind => "dump bind: "@,
            DumpStage::Prefill(_) => "dump prefill: "@,
            DumpStage::Step => "dump step: "@,
            DumpStage::Concat => "dump concat: "@,
            DumpStage::FcOut => "dump fc_out: "@,
            DumpStage::Context => "dump h_ctx: "@,
            DumpStage::HostContext => "dump host h_ctx: "@,
            DumpStage::StreamBuffer => "dump h_ctx buf: "@,
            DumpStage::StreamPropose => "dump gpu propose stream: "@,
            DumpStage::RecordedBuffer => "dump h_ctx buf2: "@,
            DumpStage::RecordedPropose => "dump gpu propose golden: "@,
            DumpStage::HostBind => "dump host bind: "@,
            DumpStage::HostPropose => "dump host propose: "@,
            DumpStage::Write => "write dump: "@,
            DumpStage::Done => ""@,
            DumpStage::Failed => ""@,
        }
    }

    /// The error of the dump where the stage fails with the given text.
    pub fn failed(self, e: &str) -> (r: String)
        ensures
            r@ == self.label() + e@,
    {
        let label: &str = match self {
            DumpStage::Conditioner => "dump conditioner: ",
            DumpStage::Attach => "dump attach: ",
            DumpStage::Bind => "dump bind: ",
            DumpStage::Prefill(_i) => "dump prefill: ",
            DumpStage::Step => "dump step: ",
            DumpStage::Concat => "dump concat: ",
            DumpStage::FcOut => "dump fc_out: ",
            DumpStage::Context => "dump h_ctx: ",
            DumpStage::HostContext => "dump host h_ctx: ",
            DumpStage::StreamBuffer => "dump h_ctx buf: ",
            DumpStage::StreamPropose => "dump gpu propose stream: ",
            DumpStage::RecordedBuffer => "dump h_ctx buf2: ",
            DumpStage::RecordedPropose => "dump gpu propose golden: ",
            DumpStage::HostBind => "dump host bind: ",
            DumpStage::HostPropose => "dump host propose: ",
            DumpStage::Write => "write dump: ",
            DumpStage::Done => "",
            DumpStage::Failed => "",
        };
        let mut out = String::from_str(label);
        out.append(e);
        out
    }

    /// How many stages are left at most, for a prompt of `n` tokens.
    pub open spec fn left(self, n: int) -> int {
        match self {
            DumpStage::Conditioner => n + 15,
            DumpStage::Attach => n + 14,
            DumpStage::Bind => n + 13,
            DumpStage::Prefill(i) => n - i + 12,
            DumpStage::Step => 12,
            DumpStage::Concat => 11,
            DumpStage::FcOut => 10,
            DumpStage::Context => 9,
            DumpStage::HostContext => 8,
            DumpStage::StreamBuffer => 7,
            DumpStage::StreamPropose => 6,
            DumpStage::RecordedBuffer => 5,
            DumpStage::RecordedPropose => 4,
            DumpStage::HostBind => 3,
            DumpStage::HostPropose => 2,
            DumpStage::Write => 1,
            DumpStage::Done => 0,
            DumpStage::Failed => 0,
        }
    }
}

/// Every stage brings the dump closer to its end.
pub proof fn dumps_come_to_an_end(s: DumpStage, n: int, dense: bool, ok: bool)
    requires
        1 <= n <= usize::MAX,
        s.wf(n),
        s != DumpStage::Done,
        s != DumpStage::Failed,
    ensures
        s.then_stage(n, dense, ok).wf(n),
        0 <= s.then_stage(n, dense, ok).left(n) < s.left(n),
{
}

/// A dump ends well only by being written.
pub proof fn dumps_end_by_being_written(s: DumpStage, n: int, dense: bool, ok: bool)
    requires
        s.then_stage(n, dense, ok) is Done,
        !(s is Done),
    ensures
        s is Write,
        ok,
{
}

/// The rows of context that the dump has room for: thirty-two more than the prompt, or
/// as many as the benchmark has where those are more.
pub fn dump_context(prompt_len: usize, max_ctx: usize) -> (r: usize)
    requires
        prompt_len + 32 <= usize::MAX,
    ensures
        r == (if prompt_len + 32 > max_ctx {
            prompt_len + 32
        } else {
            max_ctx as int
        }),
{
    let need: usize = prompt_len + 32;
    if need > max_ctx {
        need
    } else {
        max_ctx
    }
}

/// The two blocks that the draft proposes for: one that begins with the anchor, as in a
/// generation, and one that begins with the prompt's last token, as recorded.
pub fn dump_blocks(prompt: &[u32], anchor: u32, mask: u32) -> (r: (Vec<u32>, Vec<u32>))
    requires
        prompt@.len() >= 1,
    ensures
        r.0@ == golden::masked(anchor, mask, 5),
        r.1@ == golden::masked(prompt@.last(), mask, 5),
{
    let last: u32 = prompt[prompt.len() - 1];
    (golden::mask_block(anchor, mask, DUMP_BLOCK), golden::mask_block(last, mask, DUMP_BLOCK))
}

/// Where the last of `t` rows of `h` floats lies.
pub fn last_row(t: usize, h: usize) -> (r: (usize, usize))
    requires
        t >= 1,
        t * h <= usize::MAX,
    ensures
        r.0 == (t - 1) * h,
        r.1 == t * h,
{
    assert((t - 1) * h <= t * h) by (nonlinear_arith)
        requires
            t >= 1,
    ;
    assert((t - 1) * h >= 0) by (nonlinear_arith)
        requires
            t >= 1,
    ;
    ((t - 1) * h, t * h)
}

/// What a layer's attention is told of positions in the dumped block.
#[derive(Clone, Copy, Debug, PartialEq, Eq, Structural)]
pub struct DumpOffsets {
    /// Rows of context.
    pub s: usize,
    /// Tokens of the block.
    pub lq: usize,
    pub q_rope_offset: usize,
    pub ctx_rope_offset: usize,
    /// The window of a sliding layer.
    pub window: Option<usize>,
}

/// What layer `i` is told with `ctx_t` rows of context: all but the last one slide.
pub open spec fn offsets_of(i: int, ctx_t: usize) -> DumpOffsets {
    DumpOffsets {
        s: ctx_t,
        lq: DUMP_BLOCK,
        q_rope_offset: ctx_t,
        ctx_rope_offset: 0,
        window: if i < 4 {
            Some(2048usize)
        } else {
            None
        },
    }
}

/// What each layer is told with `ctx_t` rows of context.
pub fn dump_offsets(ctx_t: usize) -> (r: Vec<DumpOffsets>)
    ensures
        r@ == Seq::new(5, |i: int| offsets_of(i, ctx_t)),
{
    let mut out: Vec<DumpOffsets> = Vec::new();
    let mut i: usize = 0;
    while i < DUMP_LAYERS
        invariant
            i <= 5,
            out@ =~= Seq::new(i as nat, |k: int| offsets_of(k, ctx_t)),
        decreases 5 - i,
    {
        out.push(
            DumpOffsets {
                s: ctx_t,
                lq: DUMP_BLOCK,
                q_rope_offset: ctx_t,
                ctx_rope_offset: 0,
                window: if i < 4 {
                    Some(2048)
                } else {
                    None
                },
            },
        );
        i = i + 1;
    }
    out
}

/// What the benchmark says of the dump: the proposed tokens, or what went wrong.
pub fn dump_line(ok: bool, detail: &str) -> (r: String)
    ensures
        r@ == (if ok {
            "  block1 dump ok; gpu_stream proposed="@ + detail@
                + " mlx_q4g64=[602,236787,532,532]"@
        } else {
            "  block1 dump FAILED: "@ + detail@
        }),
{
    if ok {
        text::text_around(
            "  block1 dump ok; gpu_stream proposed=",
            detail,
            " mlx_q4g64=[602,236787,532,532]",
        )
    } else {
        let mut out = String::from_str("  block1 dump FAILED: ");
        out.append(detail);
        out
    }
}

} // verus!
