//! Acceptance of drafted tokens against the target model's greedy choices.

use crate::error;
use crate::error::{Error, Result};
use crate::session::StepVerifyResult;
use crate::text;
use vstd::prelude::*;

verus! {

/// How many of the drafted tokens were accepted.
#[derive(Clone, Copy, Debug, PartialEq, Eq, Structural)]
pub struct VerifyResult {
    pub accepted: usize,
    pub drafted: usize,
}

/// The outcome of one draft and verify round.
#[derive(Clone, Debug)]
pub struct BlockAccept {
    pub verify: VerifyResult,
    /// Verified timesteps to keep: the anchor and the accepted drafts.
    pub keep: usize,
    /// Tokens to emit: the accepted drafts and the target's own next token.
    pub emit: Vec<u32>,
}

/// `n` drafted tokens agree with the target's choices, and no more do.
pub open spec fn agreeing(draft: Seq<u32>, next: Seq<u32>, n: int) -> bool {
    &&& 0 <= n <= draft.len()
    &&& forall|i: int| 0 <= i < n ==> draft[i] == next[i]
    &&& n < draft.len() ==> draft[n] != next[n]
}

/// Accepts the longest prefix of the draft that the target would have chosen
/// itself, and adds the target's choice after it.
pub fn accept_block(draft: &[u32], ver: &StepVerifyResult) -> (r: Result<BlockAccept>)
    requires
        draft@.len() < usize::MAX,
    ensures
        ver.next_tokens@.len() != draft@.len() + 1 ==> error::fails_with(
            r,
            error::config_error(
                "accept_block: "@ + text::dec(ver.next_tokens@.len())
                    + " verified positions for a draft of "@ + text::dec(draft@.len()),
            ),
        ),
        ver.next_tokens@.len() == draft@.len() + 1 ==> (r matches Ok(a) && {
            &&& agreeing(draft@, ver.next_tokens@, a.verify.accepted as int)
            &&& a.verify.drafted == draft@.len()
            &&& a.keep == a.verify.accepted + 1
            &&& a.emit@ == ver.next_tokens@.subrange(0, a.keep as int)
        }),
{
    let n: usize = draft.len();
    if ver.next_tokens.len() != n + 1 {
        return Err(
            Error::Config(
                text::text_num2(
                    "accept_block: ",
                    ver.next_tokens.len() as u64,
                    " verified positions for a draft of ",
                    n as u64,
                ),
            ),
        );
    }
    let mut emit: Vec<u32> = Vec::new();
    let mut k: usize = 0;
    while k < n && draft[k] == ver.next_tokens[k]
        invariant
            k <= n,
            n == draft@.len(),
            ver.next_tokens@.len() == n + 1,
            forall|i: int| 0 <= i < k ==> draft@[i] == ver.next_tokens@[i],
            emit@ == ver.next_tokens@.subrange(0, k as int),
        decreases n - k,
    {
        emit.push(draft[k]);
        k = k + 1;
        assert(emit@ =~= ver.next_tokens@.subrange(0, k as int));
    }
    emit.push(ver.next_tokens[k]);
    assert(emit@ =~= ver.next_tokens@.subrange(0, k + 1));
    Ok(BlockAccept { verify: VerifyResult { accepted: k, drafted: n }, keep: k + 1, emit })
}

/// The first place where two streams differ, as far as both go.
pub open spec fn mismatch_at(a: Seq<u32>, b: Seq<u32>, i: int) -> bool {
    &&& 0 <= i < a.len()
    &&& i < b.len()
    &&& a[i] != b[i]
    &&& forall|j: int| 0 <= j < i ==> a[j] == b[j]
}

/// The first place where two streams differ, as far as both go.
pub fn first_mismatch(a: &[u32], b: &[u32]) -> (r: Option<usize>)
    ensures
        match r {
            Some(i) => mismatch_at(a@, b@, i as int),
            None => forall|j: int| 0 <= j < a@.len() && j < b@.len() ==> a@[j] == b@[j],
        },
{
    let mut i: usize = 0;
    while i < a.len() && i < b.len()
        invariant
            i <= a@.len(),
            i <= b@.len(),
            forall|j: int| 0 <= j < i ==> a@[j] == b@[j],
        decreases a@.len() - i,
    {
        if a[i] != b[i] {
            return Some(i);
        }
        i = i + 1;
    }
    None
}

/// Accepted tokens in all, and how many rounds there were. Their quotient is the
/// mean acceptance.
pub open spec fn accepted_total(accepts: Seq<BlockAccept>) -> int
    decreases accepts.len(),
{
    if accepts.len() == 0 {
        0
    } else {
        accepted_total(accepts.drop_last()) + accepts.last().verify.accepted
    }
}

/// Accepted tokens in all. The sum stops at the largest representable number.
pub fn sum_accepted(accepts: &Vec<BlockAccept>) -> (r: u64)
    ensures
        r == (if accepted_total(accepts@) <= u64::MAX {
            accepted_total(accepts@)
        } else {
            u64::MAX as int
        }),
{
    let mut sum: u64 = 0;
    let mut i: usize = 0;
    while i < accepts.len()
        invariant
            i <= accepts@.len(),
            sum == (if accepted_total(accepts@.subrange(0, i as int)) <= u64::MAX {
                accepted_total(accepts@.subrange(0, i as int))
            } else {
                u64::MAX as int
            }),
        decreases accepts@.len() - i,
    {
        assert(accepts@.subrange(0, i + 1).drop_last() =~= accepts@.subrange(0, i as int));
        sum = sum.saturating_add(accepts[i].verify.accepted as u64);
        i = i + 1;
    }
    assert(accepts@.subrange(0, i as int) =~= accepts@);
    sum
}

} // verus!
