//! Whole runs: what greedy and drafted generations come to, from their first step to
//! their last. The next token after a history is what the target chooses; it is left
//! open how.

use crate::config::EosIds;
use crate::dflash_run;
use crate::dflash_run::DFlashRun;
use crate::generate;
use crate::generate::Generation;
use crate::kv_slot;
use crate::step_verify;
use vstd::prelude::*;

verus! {

/// One step of a generation: a prompt token is read, or the target's choice is taken.
pub open spec fn generation_step(
    before: Generation,
    after: Generation,
    target: spec_fn(Seq<u32>) -> u32,
    eos: Option<EosIds>,
) -> bool {
    &&& after.wf()
    &&& !before.done
    &&& after.prompt_len == before.prompt_len
    &&& after.max_new == before.max_new
    &&& (after.out@ == before.out@ && !after.done) || before.after(
        target(before.out@),
        eos,
        after.out@,
        after.done,
    )
}

/// A generation from its prompt, state by state.
pub open spec fn generation_run(
    states: Seq<Generation>,
    prompt: Seq<u32>,
    target: spec_fn(Seq<u32>) -> u32,
    eos: Option<EosIds>,
) -> bool {
    &&& states.len() > 0
    &&& states[0].wf()
    &&& states[0].out@ == prompt
    &&& states[0].prompt_len == prompt.len()
    &&& !states[0].done
    &&& forall|i: int|
        0 <= i < states.len() - 1 ==> generation_step(
            #[trigger] states[i],
            states[i + 1],
            target,
            eos,
        )
}

proof fn lemma_generation_run(
    states: Seq<Generation>,
    prompt: Seq<u32>,
    target: spec_fn(Seq<u32>) -> u32,
    eos: Option<EosIds>,
    i: int,
)
    requires
        generation_run(states, prompt, target, eos),
        0 <= i < states.len(),
    ensures
        states[i].wf(),
        states[i].max_new == states[0].max_new,
        generate::outcome(states[i], target, eos) == generate::greedy(
            target,
            prompt,
            eos,
            states[0].max_new as int,
        ),
    decreases i,
{
    if i > 0 {
        lemma_generation_run(states, prompt, target, eos, i - 1);
        let before = states[i - 1];
        let after = states[(i - 1) + 1];
        assert(generation_step(before, after, target, eos));
        if before.after(target(before.out@), eos, after.out@, after.done) {
            generate::generation_is_greedy(before, after, target(before.out@), target, eos);
        }
    }
}

/// A generation that has come to its end holds its prompt and the greedy continuation
/// of it, token for token.
pub proof fn generations_are_greedy(
    states: Seq<Generation>,
    prompt: Seq<u32>,
    target: spec_fn(Seq<u32>) -> u32,
    eos: Option<EosIds>,
)
    requires
        generation_run(states, prompt, target, eos),
        states.last().done,
    ensures
        states.last().out@ == generate::greedy(target, prompt, eos, states[0].max_new as int),
{
    lemma_generation_run(states, prompt, target, eos, states.len() - 1);
}

/// A round of a drafted run: what was drafted, what the target chose, and how many
/// drafted tokens it agreed with.
pub struct Round {
    pub draft: Seq<u32>,
    pub next: Seq<u32>,
    pub accepted: int,
}

/// A run that has just begun: its prompt and one token.
pub open spec fn begun(run: DFlashRun, prompt: Seq<u32>) -> bool {
    &&& run.wf()
    &&& run.prompt_len == prompt.len()
    &&& run.out@.len() == prompt.len() + 1
    &&& run.out@.drop_last() == prompt
    &&& run.accepts@.len() == 0
    &&& !run.stopped
}

/// A round takes a run from one state to another.
pub open spec fn round_taken(
    before: DFlashRun,
    after: DFlashRun,
    r: Round,
    eos: Option<EosIds>,
) -> bool {
    &&& after.wf()
    &&& !before.finished(eos)
    &&& r.draft.len() == before.draft_len()
    &&& r.next.len() == r.draft.len() + 1
    &&& step_verify::agreeing(r.draft, r.next, r.accepted)
    &&& before.emitted(after, eos, r.next.subrange(0, r.accepted + 1))
    &&& after.accepts@.len() == before.accepts@.len() + 1
    &&& after.accepts@.drop_last() == before.accepts@
    &&& after.accepts@.last().verify.drafted == r.draft.len()
    &&& after.accepts@.last().verify.accepted == r.accepted
}

/// A drafted run from its prompt, state by state.
pub open spec fn drafted_run(
    states: Seq<DFlashRun>,
    rounds: Seq<Round>,
    prompt: Seq<u32>,
    eos: Option<EosIds>,
) -> bool {
    &&& states.len() == rounds.len() + 1
    &&& begun(states[0], prompt)
    &&& forall|i: int|
        0 <= i < rounds.len() ==> round_taken(
            states[i],
            states[i + 1],
            #[trigger] rounds[i],
            eos,
        )
}

/// The target chose each token itself: the first one, and those of every round.
pub open spec fn chosen_by(
    target: spec_fn(Seq<u32>) -> u32,
    states: Seq<DFlashRun>,
    rounds: Seq<Round>,
    prompt: Seq<u32>,
) -> bool {
    &&& states[0].out@.last() == target(prompt)
    &&& forall|i: int|
        0 <= i < rounds.len() ==> dflash_run::verified_by(
            target,
            states[i].out@,
            (#[trigger] rounds[i]).draft,
            rounds[i].next,
        )
}

proof fn lemma_drafted_run(
    states: Seq<DFlashRun>,
    rounds: Seq<Round>,
    prompt: Seq<u32>,
    target: spec_fn(Seq<u32>) -> u32,
    eos: Option<EosIds>,
    i: int,
)
    requires
        drafted_run(states, rounds, prompt, eos),
        chosen_by(target, states, rounds, prompt),
        states[0].max_new >= 1,
        0 <= i < states.len(),
    ensures
        states[i].wf(),
        states[i].max_new == states[0].max_new,
        dflash_run::outcome(states[i], target, eos) == generate::greedy(
            target,
            prompt,
            eos,
            states[0].max_new as int,
        ),
    decreases i,
{
    if i == 0 {
        let run = states[0];
        assert(run.out@ =~= prompt.push(target(prompt)));
        dflash_run::draft_start_is_greedy(run, prompt, target, eos);
    } else {
        lemma_drafted_run(states, rounds, prompt, target, eos, i - 1);
        let r = rounds[i - 1];
        let before = states[i - 1];
        let after = states[(i - 1) + 1];
        assert(round_taken(before, after, r, eos));
        dflash_run::draft_round_is_greedy(
            before,
            after,
            r.draft,
            r.next,
            r.accepted,
            target,
            eos,
        );
    }
}

/// A whole drafted run holds its prompt and the greedy continuation of it, token for
/// token, whatever the draft proposed in any round and however large its blocks were.
/// At least one token must be wanted: a run that is asked for none emits one.
pub proof fn drafted_runs_are_greedy(
    states: Seq<DFlashRun>,
    rounds: Seq<Round>,
    prompt: Seq<u32>,
    target: spec_fn(Seq<u32>) -> u32,
    eos: Option<EosIds>,
)
    requires
        drafted_run(states, rounds, prompt, eos),
        chosen_by(target, states, rounds, prompt),
        states[0].max_new >= 1,
        states.last().finished(eos),
    ensures
        states.last().out@ == generate::greedy(target, prompt, eos, states[0].max_new as int),
{
    lemma_drafted_run(states, rounds, prompt, target, eos, states.len() - 1);
}

/// Drafting changes the speed of a generation and not its tokens: a drafted run and a
/// greedy generation from the same prompt end with the same output.
pub proof fn drafting_changes_no_token(
    drafted: Seq<DFlashRun>,
    rounds: Seq<Round>,
    plain: Seq<Generation>,
    prompt: Seq<u32>,
    target: spec_fn(Seq<u32>) -> u32,
    eos: Option<EosIds>,
)
    requires
        drafted_run(drafted, rounds, prompt, eos),
        chosen_by(target, drafted, rounds, prompt),
        drafted[0].max_new >= 1,
        drafted.last().finished(eos),
        generation_run(plain, prompt, target, eos),
        plain[0].max_new == drafted[0].max_new,
        plain.last().done,
    ensures
        drafted.last().out@ == plain.last().out@,
{
    drafted_runs_are_greedy(drafted, rounds, prompt, target, eos);
    generations_are_greedy(plain, prompt, target, eos);
}

proof fn lemma_emit_bounds(
    out: Seq<u32>,
    prompt_len: int,
    max_new: int,
    eos: Option<EosIds>,
    emit: Seq<u32>,
)
    requires
        out.len() - prompt_len < max_new,
    ensures
        ({
            let r = dflash_run::emit_all(out, prompt_len, max_new, eos, emit);
            &&& out.len() <= r.0.len() <= prompt_len + max_new
            &&& r.0.subrange(0, out.len() as int) == out
            &&& r.1 ==> r.0.len() > 0 && (r.0.len() == prompt_len + max_new || generate::is_eos(
                eos,
                r.0.last(),
            ))
        }),
    decreases emit.len(),
{
    if emit.len() == 0 {
        assert(out.subrange(0, out.len() as int) =~= out);
    } else {
        let o = out.push(emit[0]);
        if o.len() - prompt_len >= max_new || generate::is_eos(eos, emit[0]) {
            assert(o.subrange(0, out.len() as int) =~= out);
        } else {
            lemma_emit_bounds(o, prompt_len, max_new, eos, emit.drop_first());
            let r = dflash_run::emit_all(o, prompt_len, max_new, eos, emit.drop_first());
            assert(r.0.subrange(0, out.len() as int) =~= r.0.subrange(
                0,
                o.len() as int,
            ).subrange(0, out.len() as int));
            assert(o.subrange(0, out.len() as int) =~= out);
        }
    }
}

/// Every state of a drafted run begins with the prompt and has at least one token more,
/// never more than are wanted (or one, where none is); a run that ends before its limit
/// ends with an end token; and no round drafts more than a block holds besides its
/// first token.
pub proof fn drafted_runs_stay_within_their_limits(
    states: Seq<DFlashRun>,
    rounds: Seq<Round>,
    prompt: Seq<u32>,
    eos: Option<EosIds>,
    i: int,
)
    requires
        drafted_run(states, rounds, prompt, eos),
        0 <= i < states.len(),
    ensures
        ({
            let s = states[i];
            &&& s.out@.subrange(0, prompt.len() as int) == prompt
            &&& prompt.len() + 1 <= s.out@.len() <= prompt.len() + kv_slot::max2(
                s.max_new as int,
                1,
            )
            &&& s.finished(eos) && s.out@.len() < prompt.len() + s.max_new ==> generate::is_eos(
                eos,
                s.out@.last(),
            )
            &&& forall|k: int|
                0 <= k < s.accepts@.len() ==> (#[trigger] s.accepts@[k]).verify.drafted
                    <= states[0].bs - 1
            &&& s.max_new == states[0].max_new
            &&& s.bs == states[0].bs
            &&& s.prompt_len == prompt.len()
            &&& s.accepts@.len() == i
        }),
    decreases i,
{
    if i == 0 {
        let s = states[0];
        assert(s.out@.subrange(0, prompt.len() as int) =~= s.out@.drop_last());
    } else {
        drafted_runs_stay_within_their_limits(states, rounds, prompt, eos, i - 1);
        let r = rounds[i - 1];
        let before = states[i - 1];
        let s = states[(i - 1) + 1];
        assert(round_taken(before, s, r, eos));
        let emit = r.next.subrange(0, r.accepted + 1);
        lemma_emit_bounds(
            before.out@,
            before.prompt_len as int,
            before.max_new as int,
            eos,
            emit,
        );
        assert(s.out@.subrange(0, prompt.len() as int) =~= s.out@.subrange(
            0,
            before.out@.len() as int,
        ).subrange(0, prompt.len() as int));
        assert forall|k: int| 0 <= k < s.accepts@.len() implies (
        #[trigger] s.accepts@[k]).verify.drafted <= states[0].bs - 1 by {
            if k < before.accepts@.len() {
                assert(s.accepts@.drop_last()[k] == before.accepts@[k]);
            }
        }
    }
}

} // verus!
