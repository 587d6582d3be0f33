//! What attention reads from a cache after a verified block was rolled back: the rows
//! that a session finds that never saw the tokens that were rejected.

use crate::capture::HiddenCapture;
use crate::device_laws;
use crate::kv_slot;
use crate::kv_slot::GpuKvSlot;
use crate::session::GpuDecodeSession;
use crate::verify;
use vstd::prelude::*;

verus! {

/// The positions from `a` up to `b`, in order.
pub open spec fn positions(a: int, b: int) -> Seq<int> {
    Seq::new((b - a) as nat, |k: int| a + k)
}

/// The position whose row stands at a place of the slot's buffer, after rows were written
/// for the positions of `log`, in that order.
pub open spec fn holder(s: GpuKvSlot, log: Seq<int>, at: int) -> Option<int>
    decreases log.len(),
{
    if log.len() == 0 {
        None
    } else if s.index_of(log.last()) == at {
        Some(log.last())
    } else {
        holder(s, log.drop_last(), at)
    }
}

/// What is written when a block of `rows` tokens is verified behind the first `p`
/// positions, all but `keep` of them are rolled back, and decoding goes on up to position
/// `q`.
pub open spec fn rolled_back_log(p: int, rows: int, keep: int, q: int) -> Seq<int> {
    positions(0, p + rows) + positions(p + keep, q + 1)
}

proof fn lemma_apart(c: int, a: int, b: int)
    requires
        0 < b - a < c,
    ensures
        a % c != b % c,
{
    if a % c == b % c {
        let x = a / c;
        let y = b / c;
        vstd::arithmetic::div_mod::lemma_fundamental_div_mod(a, c);
        vstd::arithmetic::div_mod::lemma_fundamental_div_mod(b, c);
        assert(b - a == c * (y - x)) by (nonlinear_arith)
            requires
                a == c * x + a % c,
                b == c * y + b % c,
                a % c == b % c,
        ;
        assert(false) by (nonlinear_arith)
            requires
                b - a == c * (y - x),
                0 < b - a < c,
        ;
    }
}

proof fn lemma_places_apart(s: GpuKvSlot, a: int, b: int)
    requires
        a < b,
        s.is_ring ==> b - a < s.capacity,
    ensures
        s.index_of(a) != s.index_of(b),
{
    if s.is_ring {
        lemma_apart(s.capacity as int, a, b);
    }
}

proof fn lemma_holder(s: GpuKvSlot, log: Seq<int>, k: int)
    requires
        0 <= k < log.len(),
        forall|i: int|
            k < i < log.len() ==> s.index_of(#[trigger] log[i]) != s.index_of(log[k]),
    ensures
        holder(s, log, s.index_of(log[k])) == Some(log[k]),
    decreases log.len(),
{
    if k < log.len() - 1 {
        let rest = log.drop_last();
        assert(s.index_of(log[log.len() - 1]) != s.index_of(log[k]));
        assert forall|i: int| k < i < rest.len() implies s.index_of(#[trigger] rest[i])
            != s.index_of(rest[k]) by {
            assert(log[i] == rest[i]);
        }
        lemma_holder(s, rest, k);
    }
}

/// After a verified block was rolled back, a step at a later position reads, at every
/// position that it attends to, the row that was written for that position, as it does in
/// a session that never saw the rejected tokens: as long as the block leaves alone what
/// its own rows read.
pub proof fn rolled_back_rows_read_alike(
    s: GpuKvSlot,
    rows: int,
    keep: int,
    q: int,
    window: Option<usize>,
    j: int,
)
    requires
        s.wf(),
        0 <= keep <= rows,
        s.seq_len + keep <= q,
        q + 1 <= u32::MAX,
        !s.is_ring ==> q + 1 <= s.capacity,
        device_laws::block_leaves_reads(s, rows, window),
        device_laws::attends(
            s.holding(q + 1).fa_view(kv_slot::low32(q + 1)),
            q,
            window,
            j,
        ),
    ensures
        ({
            let p = s.seq_len as int;
            &&& holder(s, rolled_back_log(p, rows, keep, q), s.index_of(j)) == Some(j)
            &&& holder(s, positions(0, q + 1), s.index_of(j)) == Some(j)
        }),
{
    let p = s.seq_len as int;
    let now = s.holding(q + 1);
    let plain = positions(0, q + 1);
    let log = rolled_back_log(p, rows, keep, q);
    assert(0 <= j <= q);
    assert(s.is_ring ==> q - j < s.capacity);
    assert forall|i: int| j < i < plain.len() implies s.index_of(#[trigger] plain[i])
        != s.index_of(plain[j]) by {
        lemma_places_apart(s, j, i);
    }
    lemma_holder(s, plain, j);
    let k = if j >= p + keep {
        p + rows + (j - p - keep)
    } else {
        j
    };
    assert(log[k] == j);
    assert forall|i: int| k < i < log.len() implies s.index_of(#[trigger] log[i]) != s.index_of(
        log[k],
    ) by {
        assert(log[i] > j);
        if s.is_ring {
            if log[i] <= q {
                assert(log[i] - j < s.capacity);
            } else {
                assert(log[i] < p + rows);
                assert(log[i] - j < s.capacity);
            }
        }
        lemma_places_apart(s, j, log[i]);
    }
    lemma_holder(s, log, k);
}

/// A capture after a block was taken over and the rejected part of it was taken back: it
/// holds its old rows and behind them those of the accepted tokens, in order.
pub open spec fn keeps_accepted(
    before: HiddenCapture,
    after: HiddenCapture,
    stage: Seq<u32>,
    keep: int,
    i: int,
) -> bool {
    let w = before.layer_ids@.len() * before.hidden;
    &&& after.t == before.t + keep
    &&& after.concat@.len() == (before.t + keep) * w
    &&& 0 <= i < before.t ==> after.row(i) == before.row(i)
    &&& 0 <= i < keep ==> after.row(before.t + i) == stage.subrange(i * w, (i + 1) * w)
}

proof fn lemma_keeps_accepted(
    x: HiddenCapture,
    y: HiddenCapture,
    z: HiddenCapture,
    stage: Seq<u32>,
    rows: int,
    keep: int,
    i: int,
)
    requires
        x.wf(),
        verify::stage_taken(Some(x), Some(y), stage, rows),
        rows * x.stride() <= stage.len(),
        0 <= keep <= rows,
        z.same_setup(y),
        z.t == y.t - (rows - keep),
        z.concat@ == y.concat@.subrange(0, z.t * y.stride()),
    ensures
        keeps_accepted(x, z, stage, keep, i),
{
    let w = x.stride();
    let t = x.t as int;
    assert(y.stride() == w && z.stride() == w);
    assert((t + keep) * w == t * w + keep * w && 0 <= t * w && 0 <= keep * w <= rows * w)
        by (nonlinear_arith)
        requires
            0 <= t,
            0 <= keep <= rows,
            0 <= w,
    ;
    if 0 <= i < t {
        assert(0 <= i * w && i * w <= (i + 1) * w && (i + 1) * w <= t * w) by (nonlinear_arith)
            requires
                0 <= i,
                i + 1 <= t,
                0 <= w,
        ;
        assert(z.row(i) =~= x.row(i));
    }
    if 0 <= i < keep {
        assert(0 <= i * w && i * w <= (i + 1) * w && (i + 1) * w <= keep * w && (t + i) * w == t * w
            + i * w && (t + i + 1) * w == t * w + (i + 1) * w) by (nonlinear_arith)
            requires
                0 <= i,
                i + 1 <= keep,
                0 <= w,
        ;
        assert(z.row(t + i) =~= stage.subrange(i * w, (i + 1) * w));
    }
}

/// A session that took a block over and rolled back what was rejected stands where it would
/// after the accepted tokens alone: position, captured rows and context rows have grown by
/// as many, and the captured rows are those of the accepted tokens.
pub proof fn rolled_back_sessions_keep_what_was_accepted(
    a: GpuDecodeSession,
    b: GpuDecodeSession,
    c: GpuDecodeSession,
    stage: Seq<u32>,
    rows: int,
    keep: int,
    i: int,
)
    requires
        a.wf(),
        0 <= keep <= rows,
        b.pos == a.pos + rows,
        verify::stage_taken(a.capture, b.capture, stage, rows),
        a.capture matches Some(x) ==> rows * x.stride() <= stage.len(),
        a.conditioner is Some == b.conditioner is Some,
        a.conditioner matches Some(x) ==> b.conditioner->0.ctx_len == x.ctx_len + rows,
        b.rolled_back(c, rows - keep),
    ensures
        c.pos == a.pos + keep,
        a.capture is Some == c.capture is Some,
        a.capture matches Some(x) ==> keeps_accepted(x, c.capture->0, stage, keep, i),
        a.conditioner is Some == c.conditioner is Some,
        a.conditioner matches Some(x) ==> c.conditioner->0.ctx_len == x.ctx_len + keep,
{
    if let Some(x) = a.capture {
        let y = b.capture->0;
        let z = c.capture->0;
        if rows == keep {
            let w = x.stride();
            let t = x.t as int;
            assert((t + rows) * w == t * w + rows * w) by (nonlinear_arith);
            assert(0 <= rows * w) by (nonlinear_arith)
                requires
                    0 <= rows,
                    0 <= w,
            ;
            assert(y.concat@ =~= y.concat@.subrange(0, y.t * y.stride()));
        }
        lemma_keeps_accepted(x, y, z, stage, rows, keep, i);
    }
}

} // verus!
