//! Generation with a block draft: propose, verify in one pass, keep what the
//! target agrees with.

use crate::config::EosIds;
use crate::dflash;
use crate::dflash::{DFlashConfig, DraftCache};
use crate::draft;
use crate::draft::{DFlashGpuDraft, Proposal};
use crate::draft_plan;
use crate::draft_plan::DraftOp;
use crate::error;
use crate::error::{Error, ErrorV, Result};
use crate::generate;
use crate::generate::{PromptAction, PromptReading};
use crate::host_draft;
use crate::host_draft::HostDFlashDraft;
use crate::kv_slot;
use crate::model::GpuSynthModel;
use crate::ops::Op;
use crate::session;
use crate::session::{GpuDecodeSession, StepVerifyResult};
use crate::step_verify;
use crate::step_verify::BlockAccept;
use vstd::prelude::*;
use vstd::string::*;

verus! {

/// A draft generation under way.
#[derive(Clone, Debug)]
pub struct DFlashRun {
    pub prompt_len: usize,
    pub max_new: usize,
    /// Tokens of a block: the anchor and the drafted ones.
    pub bs: usize,
    pub out: Vec<u32>,
    /// The last emitted token; the next block begins with it.
    pub anchor: u32,
    pub accepts: Vec<BlockAccept>,
    pub stopped: bool,
}

/// The block size that a request comes to.
pub open spec fn block_size_for(requested: Option<usize>, configured: int) -> int {
    let want = match requested {
        Some(n) => n as int,
        None => kv_slot::max2(kv_slot::min2(configured, 5), 2),
    };
    kv_slot::min2(kv_slot::max2(want, 2), 8)
}

/// The block size that a request comes to: between two and eight.
pub fn block_size(requested: Option<usize>, configured: usize) -> (r: usize)
    ensures
        r == block_size_for(requested, configured as int),
        2 <= r <= 8,
{
    let want: usize = match requested {
        Some(n) => n,
        None => if configured > dflash::DFLASH_DEFAULT_BLOCK {
            dflash::DFLASH_DEFAULT_BLOCK
        } else {
            configured
        },
    };
    if want < 2 {
        2
    } else if want > 8 {
        8
    } else {
        want
    }
}

/// What a draft generation begins with.
#[derive(Clone, Copy, Debug, PartialEq, Eq, Structural)]
pub struct DFlashSetup {
    /// Tokens of a block.
    pub bs: usize,
    /// The draft is that of the synthetic graph.
    pub mini: bool,
    /// Whether automatic barriers stay off. The caller's setting holds again
    /// afterwards.
    pub hazard: bool,
}

/// The output and whether it ends, after tokens were emitted up to the limit or
/// an end token.
pub open spec fn emit_all(
    out: Seq<u32>,
    prompt_len: int,
    max_new: int,
    eos: Option<EosIds>,
    emit: Seq<u32>,
) -> (Seq<u32>, bool)
    decreases emit.len(),
{
    if emit.len() == 0 {
        (out, false)
    } else {
        let o = out.push(emit[0]);
        if o.len() - prompt_len >= max_new || generate::is_eos(eos, emit[0]) {
            (o, true)
        } else {
            emit_all(o, prompt_len, max_new, eos, emit.drop_first())
        }
    }
}

impl DFlashRun {
    /// Tokens generated so far.
    pub open spec fn new_tokens(self) -> int {
        self.out@.len() - self.prompt_len
    }

    /// The bookkeeping is consistent: unless the run has stopped, the anchor is
    /// the last token.
    pub open spec fn wf(self) -> bool {
        &&& 2 <= self.bs <= 8
        &&& 1 <= self.prompt_len < self.out@.len()
        &&& !self.stopped ==> self.anchor == self.out@.last()
    }

    /// Nothing more is to be generated.
    pub open spec fn finished(self, eos: Option<EosIds>) -> bool {
        self.stopped || self.new_tokens() >= self.max_new || generate::is_eos(eos, self.anchor)
    }

    /// Drafted tokens of the next block.
    pub open spec fn draft_len(self) -> int {
        kv_slot::min2(self.bs - 1, self.max_new - self.new_tokens())
    }

    /// Begins a run once the prompt was decoded and `first` came back.
    pub fn start(prompt: &[u32], max_new: usize, bs: usize, first: u32) -> (r: DFlashRun)
        requires
            prompt@.len() > 0,
            2 <= bs <= 8,
        ensures
            r.wf(),
            r.prompt_len == prompt@.len(),
            r.max_new == max_new,
            r.bs == bs,
            r.out@ == prompt@.push(first),
            r.anchor == first,
            r.accepts@.len() == 0,
            !r.stopped,
    {
        let mut out: Vec<u32> = Vec::new();
        let mut i: usize = 0;
        while i < prompt.len()
            invariant
                i <= prompt@.len(),
                out@ == prompt@.subrange(0, i as int),
            decreases prompt@.len() - i,
        {
            out.push(prompt[i]);
            i = i + 1;
            assert(out@ =~= prompt@.subrange(0, i as int));
        }
        assert(prompt@.subrange(0, i as int) =~= prompt@);
        out.push(first);
        DFlashRun {
            prompt_len: prompt.len(),
            max_new,
            bs,
            out,
            anchor: first,
            accepts: Vec::new(),
            stopped: false,
        }
    }

    /// How many tokens to draft next; nothing where the run is finished.
    pub fn round(&self, eos: &Option<EosIds>) -> (r: Option<usize>)
        requires
            self.wf(),
        ensures
            match r {
                None => self.finished(*eos),
                Some(k) => !self.finished(*eos) && k == self.draft_len() && 1 <= k <= 7,
            },
    {
        if self.stopped || self.out.len() - self.prompt_len >= self.max_new
            || generate::hits_eos(eos, self.anchor) {
            return None;
        }
        let remaining: usize = self.max_new - (self.out.len() - self.prompt_len);
        if self.bs - 1 <= remaining {
            Some(self.bs - 1)
        } else {
            Some(remaining)
        }
    }

    /// The block to propose for: the anchor and `k` masks.
    pub fn block(&self, k: usize, mask: u32) -> (r: Vec<u32>)
        ensures
            r@ == seq![self.anchor] + Seq::new(k as nat, |i: int| mask),
    {
        let mut out: Vec<u32> = Vec::new();
        out.push(self.anchor);
        let mut i: usize = 0;
        while i < k
            invariant
                i <= k,
                out@ =~= seq![self.anchor] + Seq::new(i as nat, |j: int| mask),
            decreases k - i,
        {
            out.push(mask);
            i = i + 1;
        }
        out
    }

    /// The tokens to verify: the anchor and the drafted ones.
    pub fn verify_input(&self, draft: &[u32]) -> (r: Vec<u32>)
        ensures
            r@ == seq![self.anchor] + draft@,
    {
        let mut out: Vec<u32> = Vec::new();
        out.push(self.anchor);
        let mut i: usize = 0;
        while i < draft.len()
            invariant
                i <= draft@.len(),
                out@ =~= seq![self.anchor] + draft@.subrange(0, i as int),
            decreases draft@.len() - i,
        {
            out.push(draft[i]);
            i = i + 1;
        }
        assert(draft@.subrange(0, i as int) =~= draft@);
        out
    }

    /// Rows by which a draft is ahead of the target.
    pub open spec fn ahead(self, offset: int) -> int {
        kv_slot::max2(offset - (self.out@.len() - 1), 0)
    }

    /// Takes back draft context that the target has not reached, and says how
    /// many of the conditioner's rows are new to the draft.
    pub fn align_draft(&self, sess: &GpuDecodeSession, draft: &mut DFlashGpuDraft) -> (ctx_t: usize)
        requires
            self.wf(),
            old(draft).wf(),
        ensures
            final(draft).wf(),
            final(draft).same_setup(*old(draft)),
            self.ahead(old(draft).offset0()) == 0 ==> *final(draft) == *old(draft),
            self.ahead(old(draft).offset0()) > 0 ==> final(draft).caches@
                == old(draft).caches@.map(
                |i: int, c: DraftCache| c.trimmed(self.ahead(old(draft).offset0())),
            ),
            ctx_t == kv_slot::max2(sess.ctx_rows() - final(draft).offset0(), 0),
    {
        let h_ctx_len: usize = sess.conditioner_h_ctx_len();
        let already: usize = draft.cache_offset();
        let expect: usize = self.out.len() - 1;
        if already > expect {
            draft.trim_cache(already - expect);
        }
        let now: usize = draft.cache_offset();
        h_ctx_len.saturating_sub(now)
    }

    /// The block that the next round proposes for.
    pub open spec fn next_block(self, k: int, mask: u32) -> Seq<u32> {
        seq![self.anchor] + Seq::new(k as nat, |i: int| mask)
    }

    /// Proposes `k` tokens after the anchor, with `ctx_t` rows that are new to the
    /// draft. Only a draft that is not steered needs the conditioner.
    pub fn propose(
        &self,
        sess: &GpuDecodeSession,
        draft: &mut DFlashGpuDraft,
        k: usize,
        ctx_t: usize,
        hazard: bool,
        q: &mut Vec<DraftOp>,
    ) -> (r: Result<Proposal>)
        requires
            sess.wf(),
            old(draft).wf(),
            1 <= k <= 7,
            draft::can_propose(*old(draft), k + 1, sess.ctx_rows(), ctx_t as int),
        ensures
            final(draft).wf(),
            final(draft).same_setup(*old(draft)),
            match (old(draft).mini_steer_prefer, sess.conditioner) {
                (None, None) => {
                    &&& error::fails_with(r, error::config_error("no GPU conditioner attached"@))
                    &&& *final(draft) == *old(draft)
                    &&& final(q)@ == old(q)@
                },
                (Some(t), _) => {
                    &&& r matches Ok(Proposal::Steered(ts)) && ts@ == Seq::new(
                        k as nat,
                        |i: int| t,
                    )
                    &&& final(q)@ == old(q)@
                    &&& ctx_t == 0 ==> *final(draft) == *old(draft)
                    &&& ctx_t > 0 ==> final(draft).caches@ == old(draft).caches@.map(
                        |i: int, c: DraftCache| old(draft).counted(c, ctx_t as int),
                    )
                },
                (None, Some(c)) => match draft::propose_fault(
                    *old(draft),
                    self.next_block(k as int, old(draft).cfg.mask_token_id),
                    c.max_ctx * c.hidden * 4,
                    c.ctx_len as int,
                    ctx_t as int,
                ) {
                    Some(e) => error::fails_with(r, e),
                    None => {
                        &&& r matches Ok(Proposal::Queued(n)) && n == k
                        &&& final(q)@ == old(q)@ + draft::propose_ops(
                            *old(draft),
                            hazard,
                            self.next_block(k as int, old(draft).cfg.mask_token_id),
                            c.ctx_len as int,
                            ctx_t as int,
                        )
                        &&& final(draft).caches@ == old(draft).caches@.map(
                            |i: int, c: DraftCache|
                                draft_plan::cache_after(
                                    old(draft).cfg.window_of(i),
                                    c,
                                    ctx_t as int,
                                ),
                        )
                    },
                },
            },
    {
        match draft.mini_steer_prefer {
            Some(t) => {
                draft.count_context(ctx_t);
                return Ok(Proposal::Steered(draft::repeat_token(t, k)));
            },
            None => {},
        }
        let bytes: usize = match sess.conditioner_h_ctx_buf() {
            Err(e) => {
                return Err(e);
            },
            Ok(n) => n,
        };
        let block = self.block(k, draft.cfg.mask_token_id);
        assert(block@ =~= self.next_block(k as int, draft.cfg.mask_token_id));
        draft.propose_block(
            q,
            hazard,
            block.as_slice(),
            bytes,
            sess.conditioner_h_ctx_len(),
            ctx_t,
        )
    }

    /// Takes back context of a host draft that the target has not reached.
    pub fn align_host_draft(&self, draft: &mut HostDFlashDraft)
        requires
            self.wf(),
            old(draft).wf(),
        ensures
            final(draft).wf(),
            *final(draft) == (HostDFlashDraft { caches: final(draft).caches, ..*old(draft) }),
            final(draft).caches@ == (if old(draft).caches@.len() > 0 && self.ahead(
                old(draft).caches@[0].offset as int,
            ) > 0 {
                old(draft).caches@.map_values(
                    |c: DraftCache| c.trimmed(self.ahead(old(draft).caches@[0].offset as int)),
                )
            } else {
                old(draft).caches@
            }),
    {
        let expect: usize = self.out.len() - 1;
        if draft.caches.len() > 0 {
            let at: usize = draft.caches[0].offset;
            if at > expect {
                draft.trim_cache(at - expect);
            }
        }
    }

    fn emit(&mut self, emit: &Vec<u32>, eos: &Option<EosIds>)
        requires
            old(self).wf(),
            !old(self).stopped,
        ensures
            *final(self) == (DFlashRun {
                out: final(self).out,
                stopped: final(self).stopped,
                ..*old(self)
            }),
            (final(self).out@, final(self).stopped) == emit_all(
                old(self).out@,
                old(self).prompt_len as int,
                old(self).max_new as int,
                *eos,
                emit@,
            ),
    {
        let mut i: usize = 0;
        assert(emit@.subrange(0, emit@.len() as int) =~= emit@);
        while i < emit.len()
            invariant
                i <= emit@.len(),
                self.prompt_len <= self.out@.len(),
                *self == (DFlashRun { out: self.out, stopped: false, ..*old(self) }),
                !old(self).stopped,
                emit_all(
                    self.out@,
                    self.prompt_len as int,
                    self.max_new as int,
                    *eos,
                    emit@.subrange(i as int, emit@.len() as int),
                ) == emit_all(
                    old(self).out@,
                    old(self).prompt_len as int,
                    old(self).max_new as int,
                    *eos,
                    emit@,
                ),
            decreases emit@.len() - i,
        {
            let tok: u32 = emit[i];
            let ghost rest = emit@.subrange(i as int, emit@.len() as int);
            assert(rest.drop_first() =~= emit@.subrange(i + 1, emit@.len() as int));
            self.out.push(tok);
            if self.out.len() - self.prompt_len >= self.max_new {
                self.stopped = true;
                return ;
            }
            if generate::hits_eos(eos, tok) {
                self.stopped = true;
                return ;
            }
            i = i + 1;
        }
    }

    /// The run after a round in which `emit` was emitted.
    pub open spec fn emitted(self, after: DFlashRun, eos: Option<EosIds>, emit: Seq<u32>) -> bool {
        &&& after.prompt_len == self.prompt_len
        &&& after.max_new == self.max_new
        &&& after.bs == self.bs
        &&& after.anchor == emit.last()
        &&& (after.out@, after.stopped) == emit_all(
            self.out@,
            self.prompt_len as int,
            self.max_new as int,
            eos,
            emit,
        )
    }

    /// Ends a round: accepts what the target agrees with, rolls the session back
    /// to what is kept, and emits.
    pub fn accept_round(
        &mut self,
        sess: &mut GpuDecodeSession,
        draft_toks: &[u32],
        ver: &StepVerifyResult,
        eos: &Option<EosIds>,
        q: &mut Vec<Op>,
    ) -> (r: Result<()>)
        requires
            old(self).wf(),
            !old(self).stopped,
            old(sess).wf(),
            1 <= draft_toks@.len() <= 7,
            ver.tokens@.len() == draft_toks@.len() + 1,
            ver.next_tokens@.len() == draft_toks@.len() + 1,
            ver.tokens@.len() <= old(sess).pos,
        ensures
            final(self).wf(),
            final(sess).wf(),
            r is Ok,
            final(self).accepts@.len() == old(self).accepts@.len() + 1,
            ({
                let a = final(self).accepts@.last();
                let n = a.verify.accepted as int;
                &&& final(self).accepts@.drop_last() == old(self).accepts@
                &&& step_verify::agreeing(draft_toks@, ver.next_tokens@, n)
                &&& a.verify.drafted == draft_toks@.len()
                &&& a.keep == n + 1
                &&& a.emit@ == ver.next_tokens@.subrange(0, n + 1)
                &&& old(self).emitted(*final(self), *eos, a.emit@)
                &&& old(sess).rolled_back(*final(sess), draft_toks@.len() - n)
                &&& final(q)@ == old(q)@ + old(sess).roll_back_ops(draft_toks@.len() - n)
            }),
    {
        let acc = match step_verify::accept_block(draft_toks, ver) {
            Err(e) => {
                return Err(e);
            },
            Ok(a) => a,
        };
        match sess.commit_verify(ver.tokens.len(), acc.keep, q) {
            Err(e) => {
                return Err(e);
            },
            Ok(()) => {},
        }
        let last: u32 = acc.emit[acc.emit.len() - 1];
        self.emit(&acc.emit, eos);
        self.anchor = last;
        proof {
            lemma_emit_last(
                old(self).out@,
                self.prompt_len as int,
                self.max_new as int,
                *eos,
                acc.emit@,
            );
        }
        let ghost before = self.accepts@;
        self.accepts.push(acc);
        assert(self.accepts@.drop_last() =~= before);
        Ok(())
    }

    /// Ends a round and takes back draft context that the conditioner no longer
    /// has.
    pub fn finish_round(
        &mut self,
        sess: &mut GpuDecodeSession,
        draft: &mut DFlashGpuDraft,
        draft_toks: &[u32],
        ver: &StepVerifyResult,
        eos: &Option<EosIds>,
        q: &mut Vec<Op>,
    ) -> (r: Result<()>)
        requires
            old(self).wf(),
            !old(self).stopped,
            old(sess).wf(),
            old(draft).wf(),
            1 <= draft_toks@.len() <= 7,
            ver.tokens@.len() == draft_toks@.len() + 1,
            ver.next_tokens@.len() == draft_toks@.len() + 1,
            ver.tokens@.len() <= old(sess).pos,
        ensures
            final(self).wf(),
            final(sess).wf(),
            final(draft).wf(),
            final(draft).same_setup(*old(draft)),
            r is Ok,
            final(self).accepts@.len() == old(self).accepts@.len() + 1,
            ({
                let a = final(self).accepts@.last();
                let n = a.verify.accepted as int;
                let over = old(draft).offset0() - final(sess).ctx_rows();
                &&& final(self).accepts@.drop_last() == old(self).accepts@
                &&& step_verify::agreeing(draft_toks@, ver.next_tokens@, n)
                &&& a.verify.drafted == draft_toks@.len()
                &&& a.keep == n + 1
                &&& a.emit@ == ver.next_tokens@.subrange(0, n + 1)
                &&& old(self).emitted(*final(self), *eos, a.emit@)
                &&& old(sess).rolled_back(*final(sess), draft_toks@.len() - n)
                &&& final(q)@ == old(q)@ + old(sess).roll_back_ops(draft_toks@.len() - n)
                &&& over <= 0 ==> *final(draft) == *old(draft)
                &&& over > 0 ==> final(draft).caches@ == old(draft).caches@.map(
                    |i: int, c: DraftCache| c.trimmed(over),
                )
            }),
    {
        match self.accept_round(sess, draft_toks, ver, eos, q) {
            Err(e) => {
                return Err(e);
            },
            Ok(()) => {},
        }
        let h_after: usize = sess.conditioner_h_ctx_len();
        let d_off: usize = draft.cache_offset();
        if d_off > h_after {
            draft.trim_cache(d_off - h_after);
        }
        Ok(())
    }
}

/// Without a stop, everything was emitted, and the output ends with the last
/// emitted token.
proof fn lemma_emit_last(
    out: Seq<u32>,
    prompt_len: int,
    max_new: int,
    eos: Option<EosIds>,
    emit: Seq<u32>,
)
    ensures
        ({
            let r = emit_all(out, prompt_len, max_new, eos, emit);
            &&& r.0.len() >= out.len()
            &&& emit.len() > 0 ==> r.0.len() > out.len()
            &&& !r.1 ==> r.0 == out + emit
            &&& !r.1 && emit.len() > 0 ==> r.0.last() == emit.last() && !generate::is_eos(
                eos,
                emit.last(),
            ) && r.0.len() - prompt_len < max_new
        }),
    decreases emit.len(),
{
    if emit.len() > 0 {
        let o = out.push(emit[0]);
        let rest = emit.drop_first();
        lemma_emit_last(o, prompt_len, max_new, eos, rest);
        assert(o + rest =~= out + emit);
        if rest.len() == 0 {
            assert(emit.last() == emit[0]);
            assert(o.last() == emit[0]);
        }
    } else {
        assert(out + emit =~= out);
    }
}

/// Why a draft generation cannot start, if it cannot.
pub open spec fn start_fault(
    sess: GpuDecodeSession,
    draft: DFlashGpuDraft,
    prompt: Seq<u32>,
) -> Option<ErrorV> {
    if prompt.len() == 0 {
        Some(error::config_error("empty prompt"@))
    } else if sess.conditioner is None {
        Some(error::config_error("generate_with_dflash: attach_gpu_conditioner first"@))
    } else {
        draft.bind_fault(sess.model)
    }
}

/// The draft is bound to the session's tables and has no context.
pub open spec fn freshly_bound(
    before: DFlashGpuDraft,
    after: DFlashGpuDraft,
    m: GpuSynthModel,
) -> bool {
    &&& after.cfg == (DFlashConfig {
        vocab_size: m.vocab,
        embed_scale_bits: m.embed_scale_bits,
        ..before.cfg
    })
    &&& after.embed_len == Some(
        if m.embed_len > 0 {
            m.embed_len
        } else {
            (m.vocab * m.hidden) as usize
        },
    )
    &&& after == (DFlashGpuDraft {
        cfg: after.cfg,
        caches: after.caches,
        embed_len: after.embed_len,
        lm_head_hot: true,
        lm_head_host: true,
        ..before
    })
    &&& after.caches@ == Seq::new(
        before.caches@.len(),
        |i: int| DraftCache { len: 0, offset: 0 },
    )
}

fn generate_with_dflash_inner(
    sess: &mut GpuDecodeSession,
    draft: &mut DFlashGpuDraft,
    prompt: &[u32],
    requested: Option<usize>,
    ambient: bool,
    force_always_on: bool,
    q: &mut Vec<Op>,
) -> (r: Result<DFlashSetup>)
    requires
        old(sess).wf(),
        old(draft).wf(),
        old(sess).model.vocab * old(sess).model.hidden <= usize::MAX,
    ensures
        final(sess).wf(),
        final(draft).wf(),
        match start_fault(*old(sess), *old(draft), prompt@) {
            Some(e) => error::fails_with(r, e) && *final(sess) == *old(sess) && *final(draft)
                == *old(draft) && final(q)@ == old(q)@,
            None => {
                &&& r == Ok::<DFlashSetup, Error>(
                    DFlashSetup {
                        bs: block_size_for(requested, old(draft).cfg.block_size as int) as usize,
                        mini: old(draft).mini(),
                        hazard: ambient && !(old(draft).mini() && force_always_on),
                    },
                )
                &&& freshly_bound(*old(draft), *final(draft), old(sess).model)
                &&& old(sess).forgotten(*final(sess))
                &&& final(q)@ == old(q)@ + seq![Op::Synchronize, Op::WritePos { pos: 0 }]
            },
        },
{
    if prompt.len() == 0 {
        return Err(Error::Config(String::from_str("empty prompt")));
    }
    if sess.conditioner.is_none() {
        return Err(
            Error::Config(
                String::from_str("generate_with_dflash: attach_gpu_conditioner first"),
            ),
        );
    }
    let bs: usize = block_size(requested, draft.cfg.block_size);
    let mini = draft.is_synthetic_mini();
    match draft.bind_from_session(&sess.model) {
        Err(e) => {
            return Err(e);
        },
        Ok(()) => {},
    }
    draft.reset_cache();
    sess.reset(q);
    Ok(DFlashSetup { bs, mini, hazard: ambient && !(mini && force_always_on) })
}

/// Prepares a draft generation whose output must be exact: on the synthetic graph
/// automatic barriers are on.
pub fn generate_with_dflash(
    sess: &mut GpuDecodeSession,
    draft: &mut DFlashGpuDraft,
    prompt: &[u32],
    requested: Option<usize>,
    ambient: bool,
    q: &mut Vec<Op>,
) -> (r: Result<DFlashSetup>)
    requires
        old(sess).wf(),
        old(draft).wf(),
        old(sess).model.vocab * old(sess).model.hidden <= usize::MAX,
    ensures
        final(sess).wf(),
        final(draft).wf(),
        match start_fault(*old(sess), *old(draft), prompt@) {
            Some(e) => error::fails_with(r, e) && *final(sess) == *old(sess) && *final(draft)
                == *old(draft) && final(q)@ == old(q)@,
            None => {
                &&& r == Ok::<DFlashSetup, Error>(
                    DFlashSetup {
                        bs: block_size_for(requested, old(draft).cfg.block_size as int) as usize,
                        mini: old(draft).mini(),
                        hazard: ambient && !old(draft).mini(),
                    },
                )
                &&& freshly_bound(*old(draft), *final(draft), old(sess).model)
                &&& old(sess).forgotten(*final(sess))
                &&& final(q)@ == old(q)@ + seq![Op::Synchronize, Op::WritePos { pos: 0 }]
            },
        },
{
    generate_with_dflash_inner(sess, draft, prompt, requested, ambient, true, q)
}

/// Prepares a draft generation whose speed matters: barriers are as the caller has
/// them.
pub fn generate_with_dflash_speed(
    sess: &mut GpuDecodeSession,
    draft: &mut DFlashGpuDraft,
    prompt: &[u32],
    requested: Option<usize>,
    ambient: bool,
    q: &mut Vec<Op>,
) -> (r: Result<DFlashSetup>)
    requires
        old(sess).wf(),
        old(draft).wf(),
        old(sess).model.vocab * old(sess).model.hidden <= usize::MAX,
    ensures
        final(sess).wf(),
        final(draft).wf(),
        match start_fault(*old(sess), *old(draft), prompt@) {
            Some(e) => error::fails_with(r, e) && *final(sess) == *old(sess) && *final(draft)
                == *old(draft) && final(q)@ == old(q)@,
            None => {
                &&& r == Ok::<DFlashSetup, Error>(
                    DFlashSetup {
                        bs: block_size_for(requested, old(draft).cfg.block_size as int) as usize,
                        mini: old(draft).mini(),
                        hazard: ambient,
                    },
                )
                &&& freshly_bound(*old(draft), *final(draft), old(sess).model)
                &&& old(sess).forgotten(*final(sess))
                &&& final(q)@ == old(q)@ + seq![Op::Synchronize, Op::WritePos { pos: 0 }]
            },
        },
{
    generate_with_dflash_inner(sess, draft, prompt, requested, ambient, false, q)
}

/// Why a host draft generation cannot start, if it cannot.
pub open spec fn host_start_fault(
    sess: GpuDecodeSession,
    draft: HostDFlashDraft,
    prompt: Seq<u32>,
    embed_q_len: int,
    lm_head_len: int,
) -> Option<ErrorV> {
    if prompt.len() == 0 {
        Some(error::config_error("empty prompt"@))
    } else {
        draft.target_fault(sess.model, embed_q_len, lm_head_len)
    }
}

/// Prepares a generation with a host draft: binds the target's tables, forgets what
/// was decoded, and captures what the draft is conditioned on. Gives the block size.
pub fn generate_with_dflash_host(
    sess: &mut GpuDecodeSession,
    draft: &mut HostDFlashDraft,
    prompt: &[u32],
    requested: Option<usize>,
    embed_q_len: usize,
    lm_head_len: usize,
    q: &mut Vec<Op>,
) -> (r: Result<usize>)
    requires
        old(sess).wf(),
        old(draft).wf(),
        old(sess).model.vocab * old(sess).model.hidden <= usize::MAX,
        old(draft).cfg.target_layer_ids@.len() * old(sess).model.hidden * 4 <= usize::MAX,
    ensures
        final(sess).wf(),
        final(draft).wf(),
        match host_start_fault(
            *old(sess),
            *old(draft),
            prompt@,
            embed_q_len as int,
            lm_head_len as int,
        ) {
            Some(e) => error::fails_with(r, e) && *final(sess) == *old(sess) && *final(draft)
                == *old(draft) && final(q)@ == old(q)@,
            None => {
                &&& final(q)@ == old(q)@ + seq![Op::Synchronize, Op::WritePos { pos: 0 }]
                &&& *final(draft) == (HostDFlashDraft {
                    cfg: final(draft).cfg,
                    caches: final(draft).caches,
                    embed: final(draft).embed,
                    lm_head: final(draft).lm_head,
                    ..*old(draft)
                })
                &&& final(draft).caches@ == old(draft).caches@.map_values(
                    |c: DraftCache| DraftCache { len: 0, offset: 0 },
                )
                &&& final(draft).cfg == (DFlashConfig {
                    vocab_size: old(sess).model.vocab,
                    embed_scale_bits: old(sess).model.embed_scale_bits,
                    ..old(draft).cfg
                })
                &&& final(draft).embed == Some(
                    host_draft::target_embed(old(sess).model, embed_q_len as int) as usize,
                )
                &&& final(draft).lm_head == Some(lm_head_len)
                &&& match old(sess).capture_refusal(old(draft).cfg.target_layer_ids@) {
                    Some(e) => error::fails_with(r, e) && old(sess).forgotten(*final(sess)),
                    None => {
                        &&& r == Ok::<usize, Error>(
                            block_size_for(requested, old(draft).cfg.block_size as int) as usize,
                        )
                        &&& *final(sess) == (GpuDecodeSession {
                            kv: final(sess).kv,
                            pos: 0,
                            capture: final(sess).capture,
                            conditioner: final(sess).conditioner,
                            ..*old(sess)
                        })
                        &&& final(sess).kv@ == old(sess).kv@.emptied()
                        &&& session::emptied(old(sess).conditioner, final(sess).conditioner)
                        &&& final(sess).capture matches Some(c) && session::empty_capture(
                            c,
                            old(draft).cfg.target_layer_ids@,
                            old(sess).model.hidden,
                        )
                    },
                }
            },
        },
{
    if prompt.len() == 0 {
        return Err(Error::Config(String::from_str("empty prompt")));
    }
    let bs: usize = block_size(requested, draft.cfg.block_size);
    match draft.bind_from_session(&sess.model, embed_q_len, lm_head_len) {
        Err(e) => {
            return Err(e);
        },
        Ok(()) => {},
    }
    draft.reset_cache();
    sess.reset(q);
    match sess.enable_hidden_capture(session::copy_ids(&draft.cfg.target_layer_ids)) {
        Err(e) => Err(e),
        Ok(()) => Ok(bs),
    }
}

/// Begins the rounds once the prompt was decoded and `first` came back. The draft of
/// the synthetic graph is steered to that token, which needs no context: nothing is
/// captured from then on. The steering names the embedding rows that it concerns.
pub fn begin_rounds(
    setup: DFlashSetup,
    sess: &mut GpuDecodeSession,
    draft: &mut DFlashGpuDraft,
    prompt: &[u32],
    max_new: usize,
    first: u32,
) -> (r: Result<(DFlashRun, Option<(usize, usize)>)>)
    requires
        old(sess).wf(),
        old(draft).wf(),
        prompt@.len() > 0,
        2 <= setup.bs <= 8,
        old(draft).cfg.vocab_size * old(draft).cfg.hidden_size <= usize::MAX,
    ensures
        final(sess).wf(),
        final(draft).wf(),
        setup.mini && old(draft).steer_fault(first) is Some ==> {
            &&& error::fails_with(r, old(draft).steer_fault(first)->Some_0)
            &&& *final(sess) == *old(sess)
            &&& *final(draft) == *old(draft)
        },
        !(setup.mini && old(draft).steer_fault(first) is Some) ==> (r matches Ok((run, rows)) && {
            &&& run.wf()
            &&& run.prompt_len == prompt@.len()
            &&& run.max_new == max_new
            &&& run.bs == setup.bs
            &&& run.out@ == prompt@.push(first)
            &&& run.anchor == first
            &&& run.accepts@.len() == 0
            &&& !run.stopped
            &&& if setup.mini {
                &&& *final(sess) == (GpuDecodeSession {
                    capture: None,
                    conditioner: None,
                    ..*old(sess)
                })
                &&& *final(draft) == (DFlashGpuDraft {
                    lm_head_hot: old(draft).lm_head_hot && !old(draft).lm_head_host,
                    mini_steer_prefer: Some(first),
                    ..*old(draft)
                })
                &&& rows matches Some((from, to)) && from == first * old(draft).cfg.hidden_size
                    && to == old(draft).cfg.mask_token_id * old(draft).cfg.hidden_size
            } else {
                &&& *final(sess) == *old(sess)
                &&& *final(draft) == *old(draft)
                &&& rows is None
            }
        }),
{
    let mut rows: Option<(usize, usize)> = None;
    if setup.mini {
        match draft.steer_mask_positions_to(first) {
            Err(e) => {
                return Err(e);
            },
            Ok(p) => {
                rows = Some(p);
            },
        }
        sess.disable_hidden_capture();
    }
    Ok((DFlashRun::start(prompt, max_new, setup.bs, first), rows))
}

/// What a drafted generation wants next.
#[derive(Clone, Copy, Debug, PartialEq, Eq, Structural)]
pub enum DraftAction {
    /// Run a token of the prompt through the layers only.
    Prefill(u32),
    /// Decode the last token of the prompt, and begin the rounds with what comes back.
    First(u32),
    /// Draft this many tokens, and verify them.
    Draft(usize),
    Done,
}

/// A whole drafted generation: its prompt is read, and then round follows round.
#[derive(Clone, Debug)]
pub struct DraftedGeneration {
    pub setup: DFlashSetup,
    pub reading: PromptReading,
    pub max_new: usize,
    /// The rounds, once the prompt was read.
    pub run: Option<DFlashRun>,
}

impl DraftedGeneration {
    /// The bookkeeping is consistent: the rounds begin when the prompt was read.
    pub open spec fn wf(self) -> bool {
        &&& self.reading.wf()
        &&& 2 <= self.setup.bs <= 8
        &&& (self.run is Some) == (self.reading.fed == self.reading.prompt@.len())
        &&& self.run matches Some(r) ==> r.wf()
    }

    /// Begins a drafted generation.
    pub fn start(setup: DFlashSetup, prompt: Vec<u32>, max_new: usize) -> (r: Result<
        DraftedGeneration,
    >)
        requires
            2 <= setup.bs <= 8,
        ensures
            prompt@.len() == 0 ==> error::fails_with(r, error::config_error("empty prompt"@)),
            prompt@.len() > 0 ==> (r matches Ok(g) && {
                &&& g.wf()
                &&& g.setup == setup
                &&& g.reading.prompt == prompt
                &&& g.reading.fed == 0
                &&& g.max_new == max_new
                &&& g.run is None
            }),
    {
        match PromptReading::start(prompt) {
            Err(e) => Err(e),
            Ok(reading) => Ok(DraftedGeneration { setup, reading, max_new, run: None }),
        }
    }

    /// What is wanted next.
    pub fn action(&self, eos: &Option<EosIds>) -> (r: DraftAction)
        requires
            self.wf(),
        ensures
            match self.run {
                None => r == (match self.reading.next() {
                    PromptAction::Prefill(t) => DraftAction::Prefill(t),
                    PromptAction::Last(t) => DraftAction::First(t),
                    PromptAction::Done => DraftAction::Done,
                }) && r != DraftAction::Done,
                Some(run) => if run.finished(*eos) {
                    r == DraftAction::Done
                } else {
                    r == DraftAction::Draft(run.draft_len() as usize) && 1 <= run.draft_len() <= 7
                },
            },
    {
        match &self.run {
            None => match self.reading.action() {
                PromptAction::Prefill(t) => DraftAction::Prefill(t),
                PromptAction::Last(t) => DraftAction::First(t),
                PromptAction::Done => DraftAction::Done,
            },
            Some(run) => match run.round(eos) {
                Some(k) => DraftAction::Draft(k),
                None => DraftAction::Done,
            },
        }
    }

    /// Notes that a token of the prompt was prefilled.
    pub fn prefilled(&mut self)
        requires
            old(self).wf(),
            old(self).reading.next() is Prefill,
        ensures
            final(self).wf(),
            *final(self) == (DraftedGeneration {
                reading: PromptReading {
                    fed: (old(self).reading.fed + 1) as usize,
                    ..old(self).reading
                },
                ..*old(self)
            }),
    {
        self.reading.ran();
    }

    /// Begins the rounds with the token that came back for the last one of the prompt. On
    /// the synthetic graph the draft is steered to it; the result names the embedding rows
    /// that this concerns.
    pub fn first(
        &mut self,
        sess: &mut GpuDecodeSession,
        draft: &mut DFlashGpuDraft,
        token: u32,
    ) -> (r: Result<Option<(usize, usize)>>)
        requires
            old(self).wf(),
            old(self).reading.next() is Last,
            old(sess).wf(),
            old(draft).wf(),
            old(draft).cfg.vocab_size * old(draft).cfg.hidden_size <= usize::MAX,
        ensures
            final(sess).wf(),
            final(draft).wf(),
            old(self).setup.mini && old(draft).steer_fault(token) is Some ==> {
                &&& error::fails_with(r, old(draft).steer_fault(token)->Some_0)
                &&& *final(self) == *old(self)
                &&& *final(sess) == *old(sess)
                &&& *final(draft) == *old(draft)
            },
            !(old(self).setup.mini && old(draft).steer_fault(token) is Some) ==> (r matches Ok(rows)
                && {
                &&& final(self).wf()
                &&& *final(self) == (DraftedGeneration {
                    reading: PromptReading {
                        fed: (old(self).reading.fed + 1) as usize,
                        ..old(self).reading
                    },
                    run: final(self).run,
                    ..*old(self)
                })
                &&& final(self).run matches Some(run) && {
                    &&& run.prompt_len == old(self).reading.prompt@.len()
                    &&& run.max_new == old(self).max_new
                    &&& run.bs == old(self).setup.bs
                    &&& run.out@ == old(self).reading.prompt@.push(token)
                    &&& run.anchor == token
                    &&& run.accepts@.len() == 0
                    &&& !run.stopped
                }
                &&& if old(self).setup.mini {
                    &&& *final(sess) == (GpuDecodeSession {
                        capture: None,
                        conditioner: None,
                        ..*old(sess)
                    })
                    &&& *final(draft) == (DFlashGpuDraft {
                        lm_head_hot: old(draft).lm_head_hot && !old(draft).lm_head_host,
                        mini_steer_prefer: Some(token),
                        ..*old(draft)
                    })
                    &&& rows matches Some((from, to)) && from == token
                        * old(draft).cfg.hidden_size && to == old(draft).cfg.mask_token_id
                        * old(draft).cfg.hidden_size
                } else {
                    &&& *final(sess) == *old(sess)
                    &&& *final(draft) == *old(draft)
                    &&& rows is None
                }
            }),
    {
        match begin_rounds(
            self.setup,
            sess,
            draft,
            self.reading.prompt.as_slice(),
            self.max_new,
            token,
        ) {
            Err(e) => Err(e),
            Ok(p) => {
                self.reading.ran();
                self.run = Some(p.0);
                Ok(p.1)
            },
        }
    }
}

/// Ends a generation: nothing is captured any more.
pub fn end_rounds(sess: &mut GpuDecodeSession)
    requires
        old(sess).wf(),
    ensures
        final(sess).wf(),
        *final(sess) == (GpuDecodeSession { capture: None, conditioner: None, ..*old(sess) }),
{
    sess.disable_hidden_capture();
}

/// The captured rows that the next host draft sees: where they begin, in floats,
/// and how many they are.
pub fn host_context(full_t: usize, keep: usize, row: usize) -> (r: (usize, usize))
    requires
        full_t * row <= usize::MAX,
    ensures
        r.0 == kv_slot::max2(full_t - keep, 0) * row,
        r.1 == keep,
{
    let start: usize = full_t.saturating_sub(keep);
    assert(start * row <= full_t * row) by (nonlinear_arith)
        requires
            start <= full_t,
    ;
    (start * row, keep)
}

/// The verified choices after the anchor are the target's own, as far as the
/// draft was right.
pub open spec fn verified_by(
    target: spec_fn(Seq<u32>) -> u32,
    out: Seq<u32>,
    draft: Seq<u32>,
    next: Seq<u32>,
) -> bool {
    forall|i: int|
        0 <= i < next.len() ==> #[trigger] next[i] == target(out + draft.subrange(0, i))
}

/// What a draft run has still to become.
pub open spec fn outcome(
    run: DFlashRun,
    target: spec_fn(Seq<u32>) -> u32,
    eos: Option<EosIds>,
) -> Seq<u32> {
    if run.finished(eos) {
        run.out@
    } else {
        generate::greedy(target, run.out@, eos, run.max_new - run.new_tokens())
    }
}

proof fn lemma_emit_greedy(
    target: spec_fn(Seq<u32>) -> u32,
    out: Seq<u32>,
    prompt_len: int,
    max_new: int,
    eos: Option<EosIds>,
    emit: Seq<u32>,
)
    requires
        0 <= out.len() - prompt_len < max_new,
        forall|j: int|
            0 <= j < emit.len() ==> #[trigger] emit[j] == target(out + emit.subrange(0, j)),
    ensures
        ({
            let r = emit_all(out, prompt_len, max_new, eos, emit);
            let left = max_new - (r.0.len() - prompt_len);
            generate::greedy(target, out, eos, max_new - (out.len() - prompt_len)) == (if r.1 {
                r.0
            } else {
                generate::greedy(target, r.0, eos, left)
            })
        }),
    decreases emit.len(),
{
    if emit.len() > 0 {
        let o = out.push(emit[0]);
        let rest = emit.drop_first();
        assert(out + emit.subrange(0, 0) =~= out);
        assert(emit[0] == target(out));
        reveal_with_fuel(generate::greedy, 2);
        if o.len() - prompt_len >= max_new || generate::is_eos(eos, emit[0]) {
        } else {
            assert forall|j: int| 0 <= j < rest.len() implies #[trigger] rest[j] == target(
                o + rest.subrange(0, j),
            ) by {
                assert(rest[j] == emit[j + 1]);
                assert(out + emit.subrange(0, j + 1) =~= o + rest.subrange(0, j));
            }
            lemma_emit_greedy(target, o, prompt_len, max_new, eos, rest);
        }
    }
}

/// A round whose verified choices are the target's own leaves the outcome of the
/// run unchanged, whatever the draft proposed. So the finished run holds exactly
/// what greedy generation gives, token for token.
pub proof fn draft_round_is_greedy(
    before: DFlashRun,
    after: DFlashRun,
    draft: Seq<u32>,
    next: Seq<u32>,
    n: int,
    target: spec_fn(Seq<u32>) -> u32,
    eos: Option<EosIds>,
)
    requires
        before.wf(),
        after.wf(),
        !before.finished(eos),
        next.len() == draft.len() + 1,
        verified_by(target, before.out@, draft, next),
        step_verify::agreeing(draft, next, n),
        before.emitted(after, eos, next.subrange(0, n + 1)),
    ensures
        outcome(after, target, eos) == outcome(before, target, eos),
{
    let emit = next.subrange(0, n + 1);
    assert forall|j: int| 0 <= j < emit.len() implies #[trigger] emit[j] == target(
        before.out@ + emit.subrange(0, j),
    ) by {
        assert(emit.subrange(0, j) =~= draft.subrange(0, j));
        assert(emit[j] == next[j]);
    }
    lemma_emit_greedy(
        target,
        before.out@,
        before.prompt_len as int,
        before.max_new as int,
        eos,
        emit,
    );
    lemma_emit_last(
        before.out@,
        before.prompt_len as int,
        before.max_new as int,
        eos,
        emit,
    );
}

/// A run that has just begun comes to what greedy generation from its prompt
/// gives, where at least one token is wanted.
pub proof fn draft_start_is_greedy(
    run: DFlashRun,
    prompt: Seq<u32>,
    target: spec_fn(Seq<u32>) -> u32,
    eos: Option<EosIds>,
)
    requires
        run.wf(),
        run.max_new >= 1,
        run.prompt_len == prompt.len(),
        run.out@ == prompt.push(target(prompt)),
        !run.stopped,
    ensures
        outcome(run, target, eos) == generate::greedy(target, prompt, eos, run.max_new as int),
{
    assert(run.anchor == target(prompt));
    reveal_with_fuel(generate::greedy, 2);
}

/// Every round emits at least one token, so a run takes at most as many rounds
/// as tokens are wanted.
pub proof fn draft_round_makes_progress(
    before: DFlashRun,
    after: DFlashRun,
    eos: Option<EosIds>,
    emit: Seq<u32>,
)
    requires
        before.wf(),
        !before.finished(eos),
        emit.len() > 0,
        before.emitted(after, eos, emit),
    ensures
        after.new_tokens() > before.new_tokens(),
{
    lemma_emit_last(
        before.out@,
        before.prompt_len as int,
        before.max_new as int,
        eos,
        emit,
    );
}

/// Between rounds the session stands one position before the end of the output:
/// at the anchor.
pub proof fn draft_round_keeps_position(
    before: DFlashRun,
    after: DFlashRun,
    eos: Option<EosIds>,
    next: Seq<u32>,
    drafted: int,
    n: int,
    pos_verified: int,
    pos_after: int,
)
    requires
        before.wf(),
        0 <= n <= drafted,
        next.len() == drafted + 1,
        pos_verified == before.out@.len() - 1 + drafted + 1,
        pos_after == pos_verified - (drafted - n),
        before.emitted(after, eos, next.subrange(0, n + 1)),
        !after.stopped,
    ensures
        pos_after == after.out@.len() - 1,
{
    lemma_emit_last(
        before.out@,
        before.prompt_len as int,
        before.max_new as int,
        eos,
        next.subrange(0, n + 1),
    );
}

/// A draft that ran ahead of the target is taken back to the anchor's position, and one
/// that did not stays where it is. The rows that stay are the oldest.
pub proof fn aligned_drafts_do_not_run_ahead(run: DFlashRun, c: DraftCache)
    requires
        run.wf(),
        c.wf(),
        run.out@.len() >= 1,
        c.offset - c.len <= run.out@.len() - 1,
    ensures
        ({
            let t = c.trimmed(run.ahead(c.offset as int));
            &&& c.offset < run.out@.len() ==> t == c
            &&& c.offset >= run.out@.len() ==> t.offset == run.out@.len() - 1
            &&& t.offset - t.len == c.offset - c.len
        }),
{
}

} // verus!
