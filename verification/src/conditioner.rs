//! Bookkeeping of the conditioner that projects captured rows into the context
//! a draft model attends to.

use crate::error;
use crate::error::{Error, ErrorV, Result};
use crate::host_draft::HostDFlashDraft;
use crate::kv_slot;
use crate::ops::Op;
use crate::session;
use crate::step_plan;
use crate::text;
use vstd::prelude::*;
use vstd::string::*;

verus! {

/// A conditioner with room for `max_ctx` context rows of width `hidden`.
#[derive(Clone, Debug)]
pub struct DFlashGpuConditioner {
    pub target_layer_ids: Vec<usize>,
    pub ctx_len: usize,
    pub max_ctx: usize,
    pub hidden: usize,
    pub concat_dim: usize,
}

/// The commands that project one row into context row `at_row`.
pub open spec fn project_ops(hazard: bool, hidden: int, at_row: int) -> Seq<Op> {
    seq![Op::CondFc] + step_plan::barrier_if(hazard) + seq![
        Op::CondNorm { n: kv_slot::low32(hidden) },
        Op::CondStore { at: (at_row * hidden) as usize, n: kv_slot::low32(hidden) },
    ]
}

fn prefix(v: &[u32], n: usize) -> (r: Vec<u32>)
    requires
        n <= v@.len(),
    ensures
        r@ == v@.subrange(0, n as int),
{
    let mut out: Vec<u32> = Vec::new();
    let mut i: usize = 0;
    while i < n
        invariant
            i <= n <= v@.len(),
            out@ =~= v@.subrange(0, i as int),
        decreases n - i,
    {
        out.push(v[i]);
        i = i + 1;
    }
    out
}

impl DFlashGpuConditioner {
    /// The context fits its buffer, and the buffers can be addressed.
    pub open spec fn wf(self) -> bool {
        &&& self.target_layer_ids@.len() > 0
        &&& self.ctx_len <= self.max_ctx
        &&& 0 < self.max_ctx
        &&& self.max_ctx * self.hidden * 4 <= usize::MAX
        &&& self.concat_dim * 4 <= usize::MAX
    }

    /// Same setup, whatever the context holds.
    pub open spec fn same_setup(self, other: DFlashGpuConditioner) -> bool {
        &&& self.target_layer_ids == other.target_layer_ids
        &&& self.max_ctx == other.max_ctx
        &&& self.hidden == other.hidden
        &&& self.concat_dim == other.concat_dim
    }

    /// What is wrong with the weights that a conditioner is made from, if
    /// anything is.
    pub open spec fn setup_fault(
        ids: Seq<usize>,
        fc_len: int,
        norm_len: int,
        hidden: int,
        concat_dim: int,
    ) -> Option<ErrorV> {
        if ids.len() == 0 {
            Some(error::config_error("DFlashGpuConditioner: empty layer ids"@))
        } else if fc_len != hidden * concat_dim {
            Some(
                error::config_error(
                    "DFlashGpuConditioner: fc len "@ + text::dec(fc_len as nat) + " != "@
                        + text::dec(hidden as nat) + "×"@ + text::dec(concat_dim as nat),
                ),
            )
        } else if norm_len != hidden {
            Some(
                error::config_error(
                    "DFlashGpuConditioner: hidden_norm len "@ + text::dec(norm_len as nat)
                        + " != "@ + text::dec(hidden as nat),
                ),
            )
        } else {
            None
        }
    }

    /// An empty conditioner for weights of the given lengths.
    pub fn from_host(
        target_layer_ids: Vec<usize>,
        fc_len: usize,
        hidden_norm_len: usize,
        hidden: usize,
        concat_dim: usize,
        max_ctx: usize,
    ) -> (r: Result<DFlashGpuConditioner>)
        requires
            hidden * concat_dim <= usize::MAX,
            kv_slot::max2(max_ctx as int, 1) * hidden * 4 <= usize::MAX,
            concat_dim * 4 <= usize::MAX,
        ensures
            match Self::setup_fault(
                target_layer_ids@,
                fc_len as int,
                hidden_norm_len as int,
                hidden as int,
                concat_dim as int,
            ) {
                Some(e) => error::fails_with(r, e),
                None => r == Ok::<DFlashGpuConditioner, Error>(
                    DFlashGpuConditioner {
                        target_layer_ids,
                        ctx_len: 0,
                        max_ctx: kv_slot::max2(max_ctx as int, 1) as usize,
                        hidden,
                        concat_dim,
                    },
                ) && r->Ok_0.wf(),
            },
    {
        if target_layer_ids.len() == 0 {
            return Err(
                Error::Config(String::from_str("DFlashGpuConditioner: empty layer ids")),
            );
        }
        if fc_len != hidden * concat_dim {
            let mut m = text::text_num2(
                "DFlashGpuConditioner: fc len ",
                fc_len as u64,
                " != ",
                hidden as u64,
            );
            m.append("×");
            text::push_dec(&mut m, concat_dim as u64);
            return Err(Error::Config(m));
        }
        if hidden_norm_len != hidden {
            return Err(
                Error::Config(
                    text::text_num2(
                        "DFlashGpuConditioner: hidden_norm len ",
                        hidden_norm_len as u64,
                        " != ",
                        hidden as u64,
                    ),
                ),
            );
        }
        let max_ctx: usize = if max_ctx >= 1 {
            max_ctx
        } else {
            1
        };
        Ok(DFlashGpuConditioner { target_layer_ids, ctx_len: 0, max_ctx, hidden, concat_dim })
    }

    /// An empty conditioner with the weights of a draft.
    pub fn from_draft(draft: &HostDFlashDraft, max_ctx: usize) -> (r: Result<DFlashGpuConditioner>)
        requires
            draft.cfg.concat_width() * 4 <= usize::MAX,
            draft.cfg.hidden_size * draft.cfg.concat_width() <= usize::MAX,
            kv_slot::max2(max_ctx as int, 1) * draft.cfg.hidden_size * 4 <= usize::MAX,
        ensures
            match Self::setup_fault(
                draft.cfg.target_layer_ids@,
                draft.fc_len as int,
                draft.norm_len as int,
                draft.cfg.hidden_size as int,
                draft.cfg.concat_width(),
            ) {
                Some(e) => error::fails_with(r, e),
                None => r matches Ok(c) && {
                    &&& c.wf()
                    &&& c.target_layer_ids@ == draft.cfg.target_layer_ids@
                    &&& c.ctx_len == 0
                    &&& c.max_ctx == kv_slot::max2(max_ctx as int, 1)
                    &&& c.hidden == draft.cfg.hidden_size
                    &&& c.concat_dim == draft.cfg.concat_width()
                },
            },
    {
        Self::from_host(
            session::copy_ids(&draft.cfg.target_layer_ids),
            draft.fc_len,
            draft.norm_len,
            draft.cfg.hidden_size,
            draft.cfg.concat_dim(),
            max_ctx,
        )
    }

    /// Context rows so far.
    pub fn h_ctx_len(&self) -> (r: usize)
        ensures
            r == self.ctx_len,
    {
        self.ctx_len
    }

    /// Width of a context row.
    pub fn hidden(&self) -> (r: usize)
        ensures
            r == self.hidden,
    {
        self.hidden
    }

    /// Floats of the context so far.
    fn h_ctx_floats(&self) -> (r: usize)
        requires
            self.wf(),
        ensures
            r == self.ctx_len * self.hidden,
    {
        assert(self.ctx_len * self.hidden <= self.max_ctx * self.hidden) by (nonlinear_arith)
            requires
                self.ctx_len <= self.max_ctx,
        ;
        self.ctx_len * self.hidden
    }

    /// The context so far, out of what its buffer holds; floats as bits.
    pub fn read_h_ctx(&self, buffer: &[u32]) -> (r: Vec<u32>)
        requires
            self.wf(),
            self.ctx_len * self.hidden <= buffer@.len(),
        ensures
            r@ == buffer@.subrange(0, self.ctx_len * self.hidden),
    {
        prefix(buffer, self.h_ctx_floats())
    }

    /// The last projected row, before its norm, out of what its buffer holds;
    /// floats as bits.
    pub fn read_fc_out(&self, buffer: &[u32]) -> (r: Vec<u32>)
        requires
            self.hidden <= buffer@.len(),
        ensures
            r@ == buffer@.subrange(0, self.hidden as int),
    {
        prefix(buffer, self.hidden)
    }

    /// Bytes of the buffer that holds the context.
    pub fn h_ctx_buf(&self) -> (r: usize)
        requires
            self.wf(),
        ensures
            r == self.max_ctx * self.hidden * 4,
    {
        self.max_ctx * self.hidden * 4
    }

    /// Forgets the context.
    pub fn clear(&mut self)
        requires
            old(self).wf(),
        ensures
            final(self).wf(),
            *final(self) == (DFlashGpuConditioner { ctx_len: 0, ..*old(self) }),
    {
        self.ctx_len = 0;
    }

    /// Forgets the last `n` context rows.
    pub fn trim_recent(&mut self, n: usize) -> (r: Result<()>)
        requires
            old(self).wf(),
        ensures
            final(self).wf(),
            n <= old(self).ctx_len ==> r is Ok && *final(self) == (DFlashGpuConditioner {
                ctx_len: (old(self).ctx_len - n) as usize,
                ..*old(self)
            }),
            n > old(self).ctx_len ==> *final(self) == *old(self) && error::fails_with(
                r,
                error::config_error(
                    "DFlashGpuConditioner::trim_recent "@ + text::dec(n as nat) + " > "@
                        + text::dec(old(self).ctx_len as nat),
                ),
            ),
    {
        if n == 0 {
            return Ok(());
        }
        if n > self.ctx_len {
            return Err(
                Error::Config(
                    text::text_num2(
                        "DFlashGpuConditioner::trim_recent ",
                        n as u64,
                        " > ",
                        self.ctx_len as u64,
                    ),
                ),
            );
        }
        self.ctx_len = self.ctx_len - n;
        Ok(())
    }

    /// Why a captured row of `row_bytes` bytes cannot be projected, if it cannot.
    pub open spec fn refusal(self, row_bytes: int) -> Option<ErrorV> {
        if self.ctx_len >= self.max_ctx {
            Some(
                error::config_error(
                    "DFlashGpuConditioner: h_ctx full (max="@ + text::dec(self.max_ctx as nat)
                        + ")"@,
                ),
            )
        } else if row_bytes < self.concat_dim * 4 {
            Some(
                error::config_error(
                    "DFlashGpuConditioner: concat_row "@ + text::dec(row_bytes as nat)
                        + " B < concat_dim "@ + text::dec((self.concat_dim * 4) as nat),
                ),
            )
        } else {
            None
        }
    }

    /// Queues the projection of the captured row and counts it.
    pub fn project_row(&mut self, row_bytes: usize, hazard: bool, q: &mut Vec<Op>) -> (r: Result<
        (),
    >)
        requires
            old(self).wf(),
        ensures
            final(self).wf(),
            final(self).same_setup(*old(self)),
            match old(self).refusal(row_bytes as int) {
                Some(e) => error::fails_with(r, e) && *final(self) == *old(self) && final(q)@
                    == old(q)@,
                None => {
                    &&& r is Ok
                    &&& final(self).ctx_len == old(self).ctx_len + 1
                    &&& final(q)@ == old(q)@ + project_ops(
                        hazard,
                        old(self).hidden as int,
                        old(self).ctx_len as int,
                    )
                },
            },
    {
        if self.ctx_len >= self.max_ctx {
            return Err(
                Error::Config(
                    text::text1(
                        "DFlashGpuConditioner: h_ctx full (max=",
                        self.max_ctx as u64,
                        ")",
                    ),
                ),
            );
        }
        if row_bytes < self.concat_dim * 4 {
            return Err(
                Error::Config(
                    text::text_num2(
                        "DFlashGpuConditioner: concat_row ",
                        row_bytes as u64,
                        " B < concat_dim ",
                        (self.concat_dim * 4) as u64,
                    ),
                ),
            );
        }
        let n: u32 = kv_slot::to_u32(self.hidden);
        let at: usize = self.h_ctx_floats();
        q.push(Op::CondFc);
        if hazard {
            q.push(Op::Barrier);
        }
        q.push(Op::CondNorm { n });
        q.push(Op::CondStore { at, n });
        self.ctx_len = self.ctx_len + 1;
        assert(q@ =~= old(q)@ + project_ops(hazard, self.hidden as int, self.ctx_len - 1));
        Ok(())
    }
}

} // verus!
