//! What single steps ask of the device, the token-by-token verify, and the mini
//! graph's extra kernels.

use crate::decode::StepRequest;
use crate::error;
use crate::error::{Error, ErrorV, Result};
use crate::floats::LogitsStats;
use crate::model::GpuSynthModel;
use crate::ops::{Buf, Op};
use crate::session::{LayerMode, StepSeed, StepVerifyResult, VERIFY_MAX_M};
use crate::text;
use crate::verify_plan;
use vstd::prelude::*;
use vstd::string::*;

verus! {

/// A decode step: the host writes the token and reads the next one.
pub fn step(token: u32, mode: LayerMode) -> (r: StepRequest)
    ensures
        r == (StepRequest {
            seed: StepSeed::Host(token),
            resident: token,
            readback: true,
            head: true,
            mode,
        }),
{
    StepRequest { seed: StepSeed::Host(token), resident: token, readback: true, head: true, mode }
}

/// A prefill step: nothing is sampled and nothing is read.
pub fn step_prefill(token: u32) -> (r: StepRequest)
    ensures
        r == (StepRequest {
            seed: StepSeed::Host(token),
            resident: token,
            readback: false,
            head: false,
            mode: LayerMode::Encode,
        }),
{
    StepRequest {
        seed: StepSeed::Host(token),
        resident: token,
        readback: false,
        head: false,
        mode: LayerMode::Encode,
    }
}

/// A decode step that takes the token that the last one sampled.
pub fn step_chained(sampled: u32, readback: bool, mode: LayerMode) -> (r: StepRequest)
    ensures
        r == (StepRequest {
            seed: StepSeed::FromArgmax,
            resident: sampled,
            readback,
            head: true,
            mode,
        }),
{
    StepRequest { seed: StepSeed::FromArgmax, resident: sampled, readback, head: true, mode }
}

/// The commands that write a whole verify buffer: tokens, and zeros behind them.
pub open spec fn buffer_ops(dst: Buf, tokens: Seq<u32>) -> Seq<Op> {
    Seq::new(
        8,
        |i: int|
            Op::WriteToken {
                dst,
                index: i as usize,
                token: if i < tokens.len() {
                    tokens[i]
                } else {
                    0
                },
            },
    )
}

fn push_buffer(q: &mut Vec<Op>, dst: Buf, tokens: &Vec<u32>)
    ensures
        final(q)@ == old(q)@ + buffer_ops(dst, tokens@),
{
    let ghost all = buffer_ops(dst, tokens@);
    let mut i: usize = 0;
    assert(q@ =~= old(q)@ + all.subrange(0, 0));
    while i < VERIFY_MAX_M
        invariant
            i <= 8,
            all == buffer_ops(dst, tokens@),
            q@ == old(q)@ + all.subrange(0, i as int),
        decreases 8 - i,
    {
        let token: u32 = if i < tokens.len() {
            tokens[i]
        } else {
            0
        };
        q.push(Op::WriteToken { dst, index: i, token });
        i = i + 1;
        assert(q@ =~= old(q)@ + all.subrange(0, i as int));
    }
    assert(all.subrange(0, 8) =~= all);
}

/// A token-by-token verify under way.
#[derive(Clone, Debug)]
pub struct StepwiseVerify {
    pub pos0: usize,
    pub tokens: Vec<u32>,
    pub next_tokens: Vec<u32>,
}

impl StepwiseVerify {
    /// No more answers than tokens.
    pub open spec fn wf(self) -> bool {
        self.next_tokens@.len() <= self.tokens@.len()
    }

    /// Begins a verify of one to eight tokens at a position. The device is given the
    /// tokens.
    pub fn start(pos0: usize, tokens: Vec<u32>, q: &mut Vec<Op>) -> (r: Result<StepwiseVerify>)
        ensures
            tokens@.len() == 0 || tokens@.len() > 8 ==> error::fails_with(
                r,
                verify_plan::bad_block(tokens@.len() as int),
            ) && final(q)@ == old(q)@,
            1 <= tokens@.len() <= 8 ==> (r matches Ok(v) && v.wf() && v.pos0 == pos0 && v.tokens
                == tokens && v.next_tokens@.len() == 0) && final(q)@ == old(q)@ + buffer_ops(
                Buf::VerifySeeds,
                tokens@,
            ),
    {
        match verify_plan::verify_path(tokens.len(), true, false, false) {
            Err(e) => Err(e),
            Ok(_p) => {
                push_buffer(q, Buf::VerifySeeds, &tokens);
                Ok(StepwiseVerify { pos0, tokens, next_tokens: Vec::new() })
            },
        }
    }

    /// The token to step next, while there is one.
    pub fn wants(&self) -> (r: Option<u32>)
        requires
            self.wf(),
        ensures
            self.next_tokens@.len() == self.tokens@.len() ==> r is None,
            self.next_tokens@.len() < self.tokens@.len() ==> r == Some(
                self.tokens@[self.next_tokens@.len() as int],
            ),
    {
        let i: usize = self.next_tokens.len();
        if i < self.tokens.len() {
            Some(self.tokens[i])
        } else {
            None
        }
    }

    /// Takes the answer to a step.
    pub fn answered(&mut self, next: u32)
        requires
            old(self).next_tokens@.len() < old(self).tokens@.len(),
        ensures
            final(self).wf(),
            *final(self) == (StepwiseVerify { next_tokens: final(self).next_tokens, ..*old(self) }),
            final(self).next_tokens@ == old(self).next_tokens@.push(next),
    {
        self.next_tokens.push(next);
    }

    /// The outcome, once every token was answered. The device is given the answers.
    pub fn finish(self, q: &mut Vec<Op>) -> (r: StepVerifyResult)
        requires
            self.next_tokens@.len() == self.tokens@.len(),
        ensures
            r.pos0 == self.pos0,
            r.tokens == self.tokens,
            r.next_tokens == self.next_tokens,
            final(q)@ == old(q)@ + buffer_ops(Buf::VerifyOuts, self.next_tokens@),
    {
        push_buffer(q, Buf::VerifyOuts, &self.next_tokens);
        StepVerifyResult { pos0: self.pos0, tokens: self.tokens, next_tokens: self.next_tokens }
    }
}

/// Checks that rows fit in an activation buffer.
pub fn write_x_rows(data_len: usize, x_bytes: usize) -> (r: Result<()>)
    ensures
        data_len > x_bytes / 4 ==> error::fails_with(
            r,
            error::config_error(
                "write_x_rows: data "@ + text::dec(data_len as nat) + " > x scratch "@ + text::dec(
                    (x_bytes / 4) as nat,
                ),
            ),
        ),
        data_len <= x_bytes / 4 ==> r is Ok,
{
    let cap: usize = x_bytes / 4;
    if data_len > cap {
        return Err(
            Error::Config(
                text::text_num2(
                    "write_x_rows: data ",
                    data_len as u64,
                    " > x scratch ",
                    cap as u64,
                ),
            ),
        );
    }
    Ok(())
}

/// Whether a step runs the mini graph's extra kernels: switched on, on that graph
/// only, with the kernels there. Scratch that exists shows that they are.
pub fn interp_hook_runs(enabled: bool, m: &GpuSynthModel, have_scratch: bool, kernels: bool) -> (r:
    bool)
    ensures
        r == (enabled && m.mini_shape() && (have_scratch || kernels)),
{
    enabled && m.is_synthetic_mini() && (have_scratch || kernels)
}

/// Floats of the scratch of the mini graph's extra kernels.
#[derive(Clone, Copy, Debug, PartialEq, Eq, Structural)]
pub struct InterpScratch {
    /// Each of the three vectors of the feed-forward width.
    pub mid: usize,
    pub w_down: usize,
    pub out_down: usize,
    /// The query, key, value and context vectors.
    pub ctx: usize,
    pub w_o: usize,
    pub out_o: usize,
    pub deps: usize,
    pub fail: usize,
}

/// The scratch for a mini graph.
pub fn interp_scratch(m: &GpuSynthModel) -> (r: InterpScratch)
    requires
        m.mini_shape(),
    ensures
        r == (InterpScratch {
            mid: 512,
            w_down: 131072,
            out_down: 256,
            ctx: 256,
            w_o: 65536,
            out_o: 256,
            deps: 2,
            fail: 1,
        }),
{
    let n_mid: usize = m.intermediate;
    let n_hidden: usize = m.hidden;
    let n_ctx: usize = m.cfg.num_attention_heads * m.cfg.head_dim;
    InterpScratch {
        mid: n_mid,
        w_down: n_hidden * n_mid,
        out_down: n_hidden,
        ctx: n_ctx,
        w_o: n_hidden * n_ctx,
        out_o: n_hidden,
        deps: 2,
        fail: 1,
    }
}

/// Why the fused feed-forward kernel cannot run, before it is tried.
pub open spec fn fuse_fault(enabled: bool) -> Option<ErrorV> {
    if !enabled {
        Some(error::metal_error("fuse_gate_down scratch: GEMMA_METAL_FUSE_GATE_DOWN off"@))
    } else {
        None
    }
}

/// Whether scratch for the fused feed-forward kernel must be made.
pub fn ensure_fuse_gate_down_scratch(enabled: bool, have_scratch: bool) -> (r: Result<bool>)
    ensures
        match fuse_fault(enabled) {
            Some(e) => error::fails_with(r, e),
            None => r == Ok::<bool, Error>(!have_scratch),
        },
{
    if !enabled {
        return Err(
            Error::Metal(
                String::from_str("fuse_gate_down scratch: GEMMA_METAL_FUSE_GATE_DOWN off"),
            ),
        );
    }
    Ok(!have_scratch)
}

/// Ends a run of the fused feed-forward kernel: its scratch must be there, and its
/// failure word must be zero.
pub fn fuse_gate_down_ended(have_scratch: bool, fail: u32) -> (r: Result<()>)
    ensures
        !have_scratch ==> error::fails_with(
            r,
            error::metal_error("fuse_gate_down scratch missing (ensure first)"@),
        ),
        have_scratch && fail != 0 ==> error::fails_with(
            r,
            error::metal_error(
                "GEMMA_METAL_FUSE_GATE_DOWN: grid barrier spin timeout (Metal FP caveat)"@,
            ),
        ),
        have_scratch && fail == 0 ==> r is Ok,
{
    if !have_scratch {
        return Err(
            Error::Metal(String::from_str("fuse_gate_down scratch missing (ensure first)")),
        );
    }
    if fail != 0 {
        return Err(
            Error::Metal(
                String::from_str(
                    "GEMMA_METAL_FUSE_GATE_DOWN: grid barrier spin timeout (Metal FP caveat)",
                ),
            ),
        );
    }
    Ok(())
}

/// The error for a residual that does not hold numbers alone.
pub open spec fn probe_fault(li: int, pos: int, nan: int) -> ErrorV {
    error::metal_error(
        "layer_probe: NaN residual after layer "@ + text::dec(li as nat) + " pos="@ + text::dec(
            pos as nat,
        ) + " nan="@ + text::dec(nan as nat),
    )
}

/// Looks at what a probe found in the residual after a layer: a value that is no number
/// stops the step.
pub fn layer_probe(li: usize, pos: usize, stats: &LogitsStats) -> (r: Result<()>)
    ensures
        !stats.finite ==> error::fails_with(
            r,
            probe_fault(li as int, pos as int, stats.nan as int),
        ),
        stats.finite ==> r is Ok,
{
    if !stats.finite {
        let mut m = text::text_num2(
            "layer_probe: NaN residual after layer ",
            li as u64,
            " pos=",
            pos as u64,
        );
        m.append(" nan=");
        text::push_dec(&mut m, stats.nan as u64);
        return Err(Error::Metal(m));
    }
    Ok(())
}

} // verus!
