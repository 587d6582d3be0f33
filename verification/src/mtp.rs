//! Drafting with an assistant: the smoke loop that verifies drafts token by token.

use crate::config::EosIds;
use crate::error;
use crate::error::{Error, Result};
use crate::generate;
use crate::kv_slot::GpuKvSlot;
use crate::ops::SlotRef;
use crate::session::GpuDecodeSession;
use crate::step_verify;
use vstd::prelude::*;
use vstd::string::*;

verus! {

/// A drafting loop under way.
#[derive(Clone, Debug)]
pub struct MtpRun {
    pub prompt_len: usize,
    pub max_new: usize,
    pub out: Vec<u32>,
    /// The token that the next round begins with.
    pub next: u32,
    pub done: bool,
}

/// A draft being verified.
#[derive(Clone, Debug)]
pub struct MtpRound {
    pub draft: Vec<u32>,
    /// What the target said so far.
    pub target: Vec<u32>,
    /// The token to feed next.
    pub tok: u32,
    pub rejected: bool,
    pub closed: bool,
}

impl MtpRound {
    /// Drafted tokens that were checked.
    pub open spec fn checks(self) -> int {
        if self.closed {
            self.target@.len() - 1
        } else {
            self.target@.len() as int
        }
    }

    /// The draft was right wherever it was checked, except at the last place of a
    /// rejected round. A bonus comes only after a draft that was right throughout.
    pub open spec fn wf(self) -> bool {
        &&& 0 <= self.checks() <= self.draft@.len()
        &&& self.closed ==> !self.rejected && self.checks() == self.draft@.len()
        &&& forall|i: int|
            0 <= i < self.checks() && (i < self.checks() - 1 || !self.rejected)
                ==> self.target@[i] == self.draft@[i]
        &&& self.rejected ==> self.checks() > 0 && self.target@[self.checks() - 1]
            != self.draft@[self.checks() - 1]
        &&& self.checks() > 0 ==> self.tok == self.target@[self.checks() - 1]
    }
}

/// What a round wants of the target.
#[derive(Clone, Copy, Debug, PartialEq, Eq, Structural)]
pub enum MtpAction {
    /// A step to check the next drafted token.
    Check(u32),
    /// A step beyond an accepted draft.
    Bonus(u32),
    /// Nothing more.
    Close,
}

impl MtpRun {
    /// Tokens generated so far.
    pub open spec fn new_tokens(self) -> int {
        self.out@.len() - self.prompt_len
    }

    /// The output holds the prompt and no more than is wanted.
    pub open spec fn wf(self) -> bool {
        0 < self.prompt_len <= self.out@.len() <= self.prompt_len + self.max_new
    }

    /// Begins once the prompt was decoded and `next` came back. An empty prompt
    /// is refused.
    pub fn start(prompt: Vec<u32>, max_new: usize, next: u32) -> (r: Result<MtpRun>)
        ensures
            prompt@.len() == 0 ==> error::fails_with(r, error::config_error("empty prompt"@)),
            prompt@.len() > 0 ==> (r matches Ok(m) && m.wf() && m.out == prompt && m.prompt_len
                == prompt@.len() && m.max_new == max_new && m.next == next && !m.done),
    {
        if prompt.len() == 0 {
            return Err(Error::Config(String::from_str("empty prompt")));
        }
        Ok(MtpRun { prompt_len: prompt.len(), max_new, out: prompt, next, done: false })
    }

    /// Another round follows.
    pub open spec fn goes_on(self) -> bool {
        !self.done && self.new_tokens() < self.max_new
    }

    /// Begins a round: emits the pending token. Says whether a draft is wanted;
    /// an end token ends the loop.
    pub fn begin_round(&mut self, eos: &Option<EosIds>) -> (r: bool)
        requires
            old(self).wf(),
        ensures
            final(self).wf(),
            !old(self).goes_on() ==> !r && *final(self) == *old(self),
            old(self).goes_on() ==> r == !generate::is_eos(*eos, old(self).next) && *final(self)
                == (MtpRun { out: final(self).out, done: final(self).done, ..*old(self) })
                && final(self).out@ == old(self).out@.push(old(self).next) && final(self).done
                == !r,
    {
        if self.done || self.out.len() - self.prompt_len >= self.max_new {
            return false;
        }
        let next: u32 = self.next;
        self.out.push(next);
        if generate::hits_eos(eos, next) {
            self.done = true;
            return false;
        }
        true
    }

    /// The round for a draft.
    pub fn verify(&self, draft: Vec<u32>) -> (r: MtpRound)
        ensures
            r.wf(),
            r.draft == draft,
            r.target@.len() == 0,
            r.tok == self.next,
            !r.rejected,
            !r.closed,
    {
        MtpRound { draft, target: Vec::new(), tok: self.next, rejected: false, closed: false }
    }

    /// What the round wants next.
    pub open spec fn wants(self, round: MtpRound) -> MtpAction {
        if round.closed || round.rejected || self.new_tokens() >= self.max_new {
            MtpAction::Close
        } else if round.target@.len() < round.draft@.len() {
            MtpAction::Check(round.tok)
        } else {
            MtpAction::Bonus(round.tok)
        }
    }

    /// What the round wants next.
    pub fn action(&self, round: &MtpRound) -> (r: MtpAction)
        requires
            self.wf(),
        ensures
            r == self.wants(*round),
    {
        if round.closed || round.rejected || self.out.len() - self.prompt_len >= self.max_new {
            MtpAction::Close
        } else if round.target.len() < round.draft.len() {
            MtpAction::Check(round.tok)
        } else {
            MtpAction::Bonus(round.tok)
        }
    }

    /// Takes the target's token for a drafted one: it is emitted, and a draft that
    /// said otherwise is rejected.
    pub fn checked(&mut self, round: &mut MtpRound, tok: u32)
        requires
            old(self).wf(),
            old(round).wf(),
            old(self).wants(*old(round)) is Check,
        ensures
            final(self).wf(),
            final(round).wf(),
            *final(self) == (MtpRun { out: final(self).out, ..*old(self) }),
            final(self).out@ == old(self).out@.push(tok),
            final(round).draft == old(round).draft,
            final(round).target@ == old(round).target@.push(tok),
            final(round).tok == tok,
            final(round).rejected == (tok != old(round).draft@[old(round).target@.len() as int]),
            final(round).closed == old(round).closed,
    {
        let i: usize = round.target.len();
        round.rejected = tok != round.draft[i];
        round.tok = tok;
        round.target.push(tok);
        self.out.push(tok);
    }

    /// Takes the target's token beyond an accepted draft: the next round emits it.
    pub fn bonus(&mut self, round: &mut MtpRound, tok: u32)
        requires
            old(self).wf(),
            old(round).wf(),
            old(self).wants(*old(round)) is Bonus,
        ensures
            final(self).wf(),
            final(round).wf(),
            *final(self) == (MtpRun { next: tok, ..*old(self) }),
            *final(round) == (MtpRound {
                target: final(round).target,
                closed: true,
                ..*old(round)
            }),
            final(round).target@ == old(round).target@.push(tok),
    {
        round.target.push(tok);
        round.closed = true;
        self.next = tok;
    }

    /// Closes a round. Without a bonus the next round begins with the last token
    /// that the target said, or with the one that was fed.
    pub fn close(&mut self, round: &MtpRound)
        requires
            old(self).wf(),
        ensures
            final(self).wf(),
            *final(self) == (MtpRun { next: final(self).next, ..*old(self) }),
            round.closed ==> final(self).next == old(self).next,
            !round.closed ==> final(self).next == (if round.target@.len() > 0 {
                round.target@.last()
            } else {
                round.tok
            }),
    {
        if !round.closed {
            let n: usize = round.target.len();
            self.next = if n > 0 {
                round.target[n - 1]
            } else {
                round.tok
            };
        }
    }
}

/// Every round emits its first token, so the loop ends.
pub proof fn mtp_round_makes_progress(before: MtpRun, after: MtpRun)
    requires
        before.wf(),
        before.goes_on(),
        after.out@ == before.out@.push(before.next),
        after.prompt_len == before.prompt_len,
        after.max_new == before.max_new,
    ensures
        after.new_tokens() == before.new_tokens() + 1,
        after.wf(),
{
}

/// A rejected round stopped at the first drafted token that the target would not
/// have chosen, and one with a bonus agreed with the whole draft.
pub proof fn rejection_is_the_first_disagreement(round: MtpRound)
    requires
        round.wf(),
    ensures
        round.rejected ==> step_verify::agreeing(
            round.draft@,
            round.target@,
            round.target@.len() - 1,
        ),
        round.closed ==> step_verify::agreeing(
            round.draft@,
            round.target@,
            round.draft@.len() as int,
        ),
{
}

/// Timesteps of a shared cache that the assistant's mirror takes, and their
/// floats.
fn mirror_rows(s: &GpuKvSlot) -> (r: (usize, usize))
    requires
        s.wf(),
        s.row() <= usize::MAX,
    ensures
        r.0 == s.filled(),
        r.1 == s.filled() * s.row(),
{
    let t: usize = if s.seq_len < s.capacity {
        s.seq_len
    } else {
        s.capacity
    };
    let n: usize = s.slot_elems();
    proof {
        let (c, w) = (s.capacity as int, s.row());
        assert(t * w <= c * w) by (nonlinear_arith)
            requires
                t <= c,
                w >= 0,
        ;
        assert(s.capacity * s.heads * s.dim == c * w) by (nonlinear_arith)
            requires
                c == s.capacity,
                w == s.heads * s.dim,
        ;
    }
    (t, t * n)
}

impl GpuDecodeSession {
    /// What the assistant's mirror takes of the shared caches: timesteps and floats
    /// of the sliding one, then of the global one.
    pub fn sync_mtp_cross_kv(&self) -> (r: ((usize, usize), (usize, usize)))
        requires
            self.wf(),
        ensures
            r.0.0 == self.kv@.shared_sliding.filled(),
            r.0.1 == self.kv@.shared_sliding.filled() * self.kv@.shared_sliding.row(),
            r.1.0 == self.kv@.shared_global.filled(),
            r.1.1 == self.kv@.shared_global.filled() * self.kv@.shared_global.row(),
    {
        assert(self.kv@.has(SlotRef::SharedSliding));
        assert(self.kv@.has(SlotRef::SharedGlobal));
        (mirror_rows(&self.kv.shared_sliding), mirror_rows(&self.kv.shared_global))
    }
}

} // verus!
