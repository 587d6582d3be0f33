//! Greedy generation as a state machine: it names the next device step, and is
//! handed each token that comes back.

use crate::config::EosIds;
use crate::error;
use crate::error::{Error, Result};
use vstd::prelude::*;
use vstd::string::*;

verus! {

/// What generation wants next.
#[derive(Clone, Copy, Debug, PartialEq, Eq, Structural)]
pub enum GenAction {
    /// Run a token through the layers only.
    Prefill(u32),
    /// Decode a token that the host writes.
    First(u32),
    /// Decode the token that the previous step chose.
    Chain,
    Done,
}

/// A generation under way.
#[derive(Clone, Debug)]
pub struct Generation {
    pub prompt_len: usize,
    pub max_new: usize,
    pub out: Vec<u32>,
    /// Prompt tokens run so far.
    pub fed: usize,
    pub done: bool,
}

/// Whether the token ends the sequence.
pub open spec fn is_eos(eos: Option<EosIds>, t: u32) -> bool {
    match eos {
        Some(e) => e.ids().contains(t),
        None => false,
    }
}

/// Whether the token ends the sequence.
pub fn hits_eos(eos: &Option<EosIds>, t: u32) -> (r: bool)
    ensures
        r == is_eos(*eos, t),
{
    match eos {
        None => false,
        Some(e) => {
            let ids = e.as_slice();
            let mut i: usize = 0;
            while i < ids.len()
                invariant
                    i <= ids@.len(),
                    ids@ == e.ids(),
                    *eos == Some(*e),
                    forall|j: int| 0 <= j < i ==> ids@[j] != t,
                decreases ids@.len() - i,
            {
                if ids[i] == t {
                    assert(e.ids()[i as int] == t);
                    return true;
                }
                i = i + 1;
            }
            false
        },
    }
}

impl Generation {
    /// Tokens generated so far.
    pub open spec fn new_tokens(self) -> int {
        self.out@.len() - self.prompt_len
    }

    /// The bookkeeping is consistent.
    pub open spec fn wf(self) -> bool {
        &&& 1 <= self.prompt_len <= self.out@.len()
        &&& self.fed <= self.prompt_len
        &&& self.new_tokens() <= self.max_new
        &&& self.fed < self.prompt_len ==> self.new_tokens() == 0 && !self.done
    }

    /// The state after a token came back.
    pub open spec fn after(self, next: u32, eos: Option<EosIds>, out: Seq<u32>, done: bool) -> bool {
        if self.new_tokens() >= self.max_new {
            out == self.out@ && done
        } else {
            out == self.out@.push(next) && done == is_eos(eos, next)
        }
    }

    /// Starts a generation.
    pub fn start(prompt: &[u32], max_new: usize) -> (r: Result<Generation>)
        ensures
            prompt@.len() == 0 ==> error::fails_with(r, error::config_error("empty prompt"@)),
            prompt@.len() > 0 ==> (r matches Ok(g) && {
                &&& g.wf()
                &&& g.out@ == prompt@
                &&& g.prompt_len == prompt@.len()
                &&& g.max_new == max_new
                &&& g.fed == 0
                &&& !g.done
            }),
    {
        if prompt.len() == 0 {
            return Err(Error::Config(String::from_str("empty prompt")));
        }
        let mut out: Vec<u32> = Vec::new();
        let mut i: usize = 0;
        while i < prompt.len()
            invariant
                i <= prompt@.len(),
                out@ == prompt@.subrange(0, i as int),
            decreases prompt@.len() - i,
        {
            out.push(prompt[i]);
            i = i + 1;
            assert(out@ =~= prompt@.subrange(0, i as int));
        }
        assert(prompt@.subrange(0, i as int) =~= prompt@);
        Ok(Generation { prompt_len: prompt.len(), max_new, out, fed: 0, done: false })
    }

    /// What is wanted next: the prompt but its last token is prefilled, the last
    /// one is decoded, and then each step decodes what the one before chose.
    pub fn action(&self) -> (r: GenAction)
        requires
            self.wf(),
        ensures
            r == (if self.done {
                GenAction::Done
            } else if self.fed + 1 < self.prompt_len {
                GenAction::Prefill(self.out@[self.fed as int])
            } else if self.fed + 1 == self.prompt_len {
                GenAction::First(self.out@[self.fed as int])
            } else {
                GenAction::Chain
            }),
    {
        if self.done {
            GenAction::Done
        } else if self.fed < self.prompt_len - 1 {
            GenAction::Prefill(self.out[self.fed])
        } else if self.fed == self.prompt_len - 1 {
            GenAction::First(self.out[self.fed])
        } else {
            GenAction::Chain
        }
    }

    /// Notes that a prompt token was prefilled.
    pub fn prefilled(&mut self)
        requires
            old(self).wf(),
            old(self).fed + 1 < old(self).prompt_len,
        ensures
            final(self).wf(),
            *final(self) == (Generation { fed: (old(self).fed + 1) as usize, ..*old(self) }),
    {
        self.fed = self.fed + 1;
    }

    /// Takes the token that a decode step chose. Where the limit was reached
    /// already it is dropped, and generation ends.
    pub fn token(&mut self, next: u32, eos: &Option<EosIds>)
        requires
            old(self).wf(),
            old(self).fed + 1 >= old(self).prompt_len,
            !old(self).done,
        ensures
            final(self).wf(),
            final(self).fed == final(self).prompt_len,
            final(self).prompt_len == old(self).prompt_len,
            final(self).max_new == old(self).max_new,
            old(self).after(next, *eos, final(self).out@, final(self).done),
    {
        self.fed = self.prompt_len;
        if self.out.len() - self.prompt_len >= self.max_new {
            self.done = true;
            return ;
        }
        self.out.push(next);
        if hits_eos(eos, next) {
            self.done = true;
        }
    }
}

/// What reading a prompt wants next.
#[derive(Clone, Copy, Debug, PartialEq, Eq, Structural)]
pub enum PromptAction {
    /// Run a token through the layers only.
    Prefill(u32),
    /// Decode the last token.
    Last(u32),
    /// The prompt was read.
    Done,
}

/// A prompt on its way through the device.
#[derive(Clone, Debug)]
pub struct PromptReading {
    pub prompt: Vec<u32>,
    /// Tokens run so far.
    pub fed: usize,
}

impl PromptReading {
    /// There is a prompt, and no more of it was run than there is.
    pub open spec fn wf(self) -> bool {
        &&& self.prompt@.len() > 0
        &&& self.fed <= self.prompt@.len()
    }

    /// Begins to read a prompt.
    pub fn start(prompt: Vec<u32>) -> (r: Result<PromptReading>)
        ensures
            prompt@.len() == 0 ==> error::fails_with(r, error::config_error("empty prompt"@)),
            prompt@.len() > 0 ==> (r matches Ok(p) && p.wf() && p.prompt == prompt && p.fed == 0),
    {
        if prompt.len() == 0 {
            return Err(Error::Config(String::from_str("empty prompt")));
        }
        Ok(PromptReading { prompt, fed: 0 })
    }

    /// What is wanted next: all tokens but the last are prefilled, and the last one is
    /// decoded.
    pub open spec fn next(self) -> PromptAction {
        if self.fed + 1 < self.prompt@.len() {
            PromptAction::Prefill(self.prompt@[self.fed as int])
        } else if self.fed + 1 == self.prompt@.len() {
            PromptAction::Last(self.prompt@[self.fed as int])
        } else {
            PromptAction::Done
        }
    }

    /// What is wanted next.
    pub fn action(&self) -> (r: PromptAction)
        requires
            self.wf(),
        ensures
            r == self.next(),
    {
        let n: usize = self.prompt.len();
        if self.fed < n - 1 {
            PromptAction::Prefill(self.prompt[self.fed])
        } else if self.fed == n - 1 {
            PromptAction::Last(self.prompt[self.fed])
        } else {
            PromptAction::Done
        }
    }

    /// Notes that the token was run.
    pub fn ran(&mut self)
        requires
            old(self).wf(),
            old(self).next() != PromptAction::Done,
        ensures
            final(self).wf(),
            *final(self) == (PromptReading { fed: (old(self).fed + 1) as usize, ..*old(self) }),
    {
        let n: usize = self.prompt.len();
        assert(self.fed < n);
        self.fed = self.fed + 1;
    }
}

/// Reading a prompt runs each of its tokens once, in order: after as many tokens as it
/// has, it is read, and only its last token is decoded.
pub proof fn prompts_are_read_in_order(p: PromptReading, i: int)
    requires
        p.wf(),
        0 <= i <= p.prompt@.len(),
        p.fed == i,
    ensures
        p.next() == PromptAction::Done <==> i == p.prompt@.len(),
        i == p.prompt@.len() - 1 ==> p.next() == PromptAction::Last(p.prompt@[i]),
        i < p.prompt@.len() - 1 ==> p.next() == PromptAction::Prefill(p.prompt@[i]),
{
}

/// Greedy continuation of `seq` by at most `n` tokens, where `target` gives the
/// next token after a sequence. An end token is the last one.
pub open spec fn greedy(
    target: spec_fn(Seq<u32>) -> u32,
    seq: Seq<u32>,
    eos: Option<EosIds>,
    n: int,
) -> Seq<u32>
    decreases n,
{
    if n <= 0 {
        seq
    } else {
        let t = target(seq);
        if is_eos(eos, t) {
            seq.push(t)
        } else {
            greedy(target, seq.push(t), eos, n - 1)
        }
    }
}

/// What the generation has still to become.
pub open spec fn outcome(
    g: Generation,
    target: spec_fn(Seq<u32>) -> u32,
    eos: Option<EosIds>,
) -> Seq<u32> {
    if g.done {
        g.out@
    } else {
        greedy(target, g.out@, eos, g.max_new - g.new_tokens())
    }
}

/// Each step of a generation that is handed the target's own choice leaves the
/// outcome unchanged. So a finished generation holds the greedy continuation of
/// its prompt.
pub proof fn generation_is_greedy(
    before: Generation,
    after: Generation,
    next: u32,
    target: spec_fn(Seq<u32>) -> u32,
    eos: Option<EosIds>,
)
    requires
        before.wf(),
        !before.done,
        after.prompt_len == before.prompt_len,
        after.max_new == before.max_new,
        before.after(next, eos, after.out@, after.done),
        next == target(before.out@),
    ensures
        outcome(after, target, eos) == outcome(before, target, eos),
        after.done ==> after.out@ == outcome(before, target, eos),
{
}

/// A generation ends: every token that comes back brings it nearer to its limit
/// or finishes it.
pub proof fn generation_ends(before: Generation, after: Generation, next: u32, eos: Option<EosIds>)
    requires
        before.wf(),
        !before.done,
        after.prompt_len == before.prompt_len,
        after.max_new == before.max_new,
        before.after(next, eos, after.out@, after.done),
    ensures
        after.done || after.new_tokens() == before.new_tokens() + 1 <= before.max_new,
{
}

/// Greedy continuation goes on from what is there already.
pub proof fn greedy_extends(
    target: spec_fn(Seq<u32>) -> u32,
    seq: Seq<u32>,
    eos: Option<EosIds>,
    n: int,
)
    ensures
        greedy(target, seq, eos, n).len() >= seq.len(),
        greedy(target, seq, eos, n).len() <= seq.len() + at_least_zero(n),
        greedy(target, seq, eos, n).subrange(0, seq.len() as int) == seq,
    decreases n,
{
    if n <= 0 {
        assert(seq.subrange(0, seq.len() as int) =~= seq);
    } else {
        let t = target(seq);
        if is_eos(eos, t) {
            assert(seq.push(t).subrange(0, seq.len() as int) =~= seq);
        } else {
            greedy_extends(target, seq.push(t), eos, n - 1);
            let g = greedy(target, seq.push(t), eos, n - 1);
            assert(g.subrange(0, (seq.len() + 1) as int).subrange(0, seq.len() as int) =~= g.subrange(
                0,
                seq.len() as int,
            ));
            assert(seq.push(t).subrange(0, seq.len() as int) =~= seq);
        }
    }
}

/// `n`, or zero where it is negative.
pub open spec fn at_least_zero(n: int) -> int {
    if n >= 0 {
        n
    } else {
        0
    }
}

} // verus!
