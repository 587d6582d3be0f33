//! What a benchmark run reports: names, dates, labels, the choice of a block size
//! and the verdicts.

use crate::floats;
use crate::load;
use crate::text;
use vstd::prelude::*;
use vstd::string::*;

verus! {

/// Whether a model is reported as the 31B one.
pub fn is_31b_shape(layers: usize, hidden: usize) -> (r: bool)
    ensures
        r == (layers >= 48 || hidden >= 4096),
{
    layers >= 48 || hidden >= 4096
}

/// A hexadecimal digit.
pub open spec fn is_hex(c: char) -> bool {
    let u = c as u32;
    48 <= u <= 57 || 65 <= u <= 70 || 97 <= u <= 102
}

/// A snapshot's name: at least thirty-two hexadecimal digits.
pub open spec fn is_snapshot_name(s: Seq<char>) -> bool {
    s.len() >= 32 && forall|i: int| 0 <= i < s.len() ==> is_hex(#[trigger] s[i])
}

fn snapshot_name(s: &str) -> (r: bool)
    ensures
        r == is_snapshot_name(s@),
{
    let cs = text::chars_of(s);
    if cs.len() < 32 {
        return false;
    }
    let mut i: usize = 0;
    while i < cs.len()
        invariant
            i <= cs@.len(),
            cs@ == s@,
            forall|j: int| 0 <= j < i ==> is_hex(#[trigger] s@[j]),
        decreases cs@.len() - i,
    {
        let u: u32 = cs[i] as u32;
        if !((48 <= u && u <= 57) || (65 <= u && u <= 70) || (97 <= u && u <= 102)) {
            assert(!is_hex(s@[i as int]));
            return false;
        }
        i = i + 1;
    }
    true
}

/// The snapshot of a directory, given its own name and those of the directories above
/// it: its own name where that is one; else the first of the next names that is one
/// and stands right below a directory called `snapshots`.
pub open spec fn snapshot_in(up: Seq<Option<Seq<char>>>) -> Option<Seq<char>> {
    if up.len() == 0 {
        None
    } else {
        match up[0] {
            None => None,
            Some(n) => if is_snapshot_name(n) {
                Some(n)
            } else {
                snapshot_above(up, 0)
            },
        }
    }
}

/// The search through the first four names, from number `k` on.
pub open spec fn snapshot_above(up: Seq<Option<Seq<char>>>, k: int) -> Option<Seq<char>>
    decreases 4 - k,
{
    if k >= 4 || k >= up.len() {
        None
    } else if up[k] == Some("snapshots"@) {
        snapshot_above(up, k + 1)
    } else if k + 1 < up.len() && up[k + 1] == Some("snapshots"@) {
        match up[k] {
            None => None,
            Some(n) => if is_snapshot_name(n) {
                Some(n)
            } else {
                snapshot_above(up, k + 1)
            },
        }
    } else {
        snapshot_above(up, k + 1)
    }
}

fn is_snapshots(n: &Option<String>) -> (r: bool)
    ensures
        r == (load::text_view(*n) == Some("snapshots"@)),
{
    match n {
        Some(s) => text::str_eq(s.as_str(), "snapshots"),
        None => false,
    }
}

/// The snapshot of a directory, from its name and the names above it.
pub fn snapshot_hash_from_dir(up: &Vec<Option<String>>) -> (r: Option<String>)
    ensures
        load::text_view(r) == snapshot_in(load::text_views(up@)),
{
    let ghost v = load::text_views(up@);
    if up.len() == 0 {
        return None;
    }
    assert(v[0] == load::text_view(up@[0]));
    match &up[0] {
        None => {
            return None;
        },
        Some(n) => {
            if snapshot_name(n.as_str()) {
                return Some(String::from_str(n.as_str()));
            }
        },
    }
    let mut k: usize = 0;
    while k < 4 && k < up.len()
        invariant
            k <= 4,
            v == load::text_views(up@),
            v.len() == up@.len(),
            snapshot_in(v) == snapshot_above(v, k as int),
        decreases 4 - k,
    {
        assert(v[k as int] == load::text_view(up@[k as int]));
        if !is_snapshots(&up[k]) && up.len() > 1 && k < up.len() - 1 {
            assert(v[k + 1] == load::text_view(up@[k + 1]));
            if is_snapshots(&up[k + 1]) {
                match &up[k] {
                    None => {
                        return None;
                    },
                    Some(n) => {
                        if snapshot_name(n.as_str()) {
                            return Some(String::from_str(n.as_str()));
                        }
                    },
                }
            }
        }
        k = k + 1;
    }
    None
}

/// The model that a directory's path names; the shape decides where it names none.
pub open spec fn model_id(path: Seq<char>, is_31b: bool) -> Seq<char> {
    if text::occurs(path, "gemma-4-31b"@) || text::occurs(path, "gemma-4-31B"@) {
        "mlx-community/gemma-4-31b-it-4bit"@
    } else if text::occurs(path, "gemma-4-e4b"@) || text::occurs(path, "gemma-4-E4B"@) {
        "mlx-community/gemma-4-e4b-it-4bit"@
    } else if is_31b {
        "mlx-community/gemma-4-31b-it-4bit"@
    } else {
        "mlx-community/gemma-4-e4b-it-4bit"@
    }
}

/// The model that a directory's path names.
pub fn model_id_from_dir(path: &str, is_31b: bool) -> (r: String)
    ensures
        r@ == model_id(path@, is_31b),
{
    if text::contains(path, "gemma-4-31b") || text::contains(path, "gemma-4-31B") {
        String::from_str("mlx-community/gemma-4-31b-it-4bit")
    } else if text::contains(path, "gemma-4-e4b") || text::contains(path, "gemma-4-E4B") {
        String::from_str("mlx-community/gemma-4-e4b-it-4bit")
    } else if is_31b {
        String::from_str("mlx-community/gemma-4-31b-it-4bit")
    } else {
        String::from_str("mlx-community/gemma-4-e4b-it-4bit")
    }
}

/// A moment as text: its seconds.
pub fn chrono_like_utc(secs: u64) -> (r: String)
    ensures
        r@ == text::dec(secs as nat),
{
    let mut out = String::from_str("");
    text::push_dec(&mut out, secs);
    proof {
        reveal_strlit("");
        assert(""@ + text::dec(secs as nat) =~= text::dec(secs as nat));
    }
    out
}

/// A year with a day more.
pub open spec fn is_leap(y: int) -> bool {
    y % 4 == 0 && (y % 100 != 0 || y % 400 == 0)
}

/// Days of a year.
pub open spec fn year_days(y: int) -> int {
    if is_leap(y) {
        366
    } else {
        365
    }
}

/// Days from the beginning of 1970 to the beginning of a later year.
pub open spec fn year_start(y: int) -> int {
    365 * (y - 1970) + ((y - 1) / 4 - 492) - ((y - 1) / 100 - 19) + ((y - 1) / 400 - 4)
}

/// Days of a month.
pub open spec fn month_days(y: int, m: int) -> int {
    if m == 2 {
        if is_leap(y) {
            29
        } else {
            28
        }
    } else if m == 4 || m == 6 || m == 9 || m == 11 {
        30
    } else {
        31
    }
}

/// Days of a year before a month.
pub open spec fn month_start(y: int, m: int) -> int
    decreases m,
{
    if m <= 1 {
        0
    } else {
        month_start(y, m - 1) + month_days(y, m - 1)
    }
}

/// The date that lies a number of days after the beginning of 1970.
pub open spec fn is_date(days: int, y: int, m: int, d: int) -> bool {
    &&& y >= 1970
    &&& 1 <= m <= 12
    &&& 1 <= d <= month_days(y, m)
    &&& days == year_start(y) + month_start(y, m) + d - 1
}

proof fn lemma_next_year(y: int)
    requires
        y >= 1970,
    ensures
        year_start(y + 1) == year_start(y) + year_days(y),
{
    assert(y / 4 == (y - 1) / 4 + (if y % 4 == 0 {
        1int
    } else {
        0
    }));
    assert(y / 100 == (y - 1) / 100 + (if y % 100 == 0 {
        1int
    } else {
        0
    }));
    assert(y / 400 == (y - 1) / 400 + (if y % 400 == 0 {
        1int
    } else {
        0
    }));
    assert(y % 400 == 0 ==> y % 100 == 0 && y % 4 == 0);
    assert(y % 100 == 0 ==> y % 4 == 0);
}

proof fn lemma_years_grow(a: int, b: int)
    requires
        1970 <= a <= b,
    ensures
        year_start(a) <= year_start(b),
    decreases b - a,
{
    if a < b {
        lemma_years_grow(a, b - 1);
        lemma_next_year(b - 1);
    }
}

proof fn lemma_months_fill_year(y: int)
    ensures
        month_start(y, 13) == year_days(y),
{
    reveal_with_fuel(month_start, 14);
}

proof fn lemma_months_grow(y: int, a: int, b: int)
    requires
        1 <= a <= b <= 13,
    ensures
        0 <= month_start(y, a) <= month_start(y, b),
    decreases b - a + a,
{
    if a < b {
        lemma_months_grow(y, a, b - 1);
    } else if a > 1 {
        lemma_months_grow(y, a - 1, a - 1);
    }
}

/// No two dates lie the same number of days after the beginning of 1970.
pub proof fn dates_are_unique(
    days: int,
    y1: int,
    m1: int,
    d1: int,
    y2: int,
    m2: int,
    d2: int,
)
    requires
        is_date(days, y1, m1, d1),
        is_date(days, y2, m2, d2),
    ensures
        y1 == y2,
        m1 == m2,
        d1 == d2,
{
    lemma_months_fill_year(y1);
    lemma_months_fill_year(y2);
    lemma_months_grow(y1, m1, 12);
    lemma_months_grow(y2, m2, 12);
    lemma_months_grow(y1, m1 + 1, 13);
    lemma_months_grow(y2, m2 + 1, 13);
    lemma_next_year(y1);
    lemma_next_year(y2);
    if y1 < y2 {
        lemma_years_grow(y1 + 1, y2);
    }
    if y2 < y1 {
        lemma_years_grow(y2 + 1, y1);
    }
    if m1 < m2 {
        lemma_months_grow(y1, m1 + 1, m2);
    }
    if m2 < m1 {
        lemma_months_grow(y1, m2 + 1, m1);
    }
}

fn leap(y: u64) -> (r: bool)
    ensures
        r == is_leap(y as int),
{
    y % 4 == 0 && (y % 100 != 0 || y % 400 == 0)
}

/// The date that lies a number of days after the beginning of 1970.
pub fn civil_date(days: u64) -> (r: (u64, u64, u64))
    requires
        days <= 0x1_0000_0000_0000,
    ensures
        is_date(days as int, r.0 as int, r.1 as int, r.2 as int),
{
    let cycles: u64 = days / 146_097;
    let mut rest: u64 = days % 146_097;
    let mut y: u64 = 1970 + 400 * cycles;
    let ghost top = y + 400;
    proof {
        let c = cycles as int;
        assert((1969 + 400 * c) / 4 == 492 + 100 * c);
        assert((1969 + 400 * c) / 100 == 19 + 4 * c);
        assert((1969 + 400 * c) / 400 == 4 + c);
        assert(year_start(y as int) == 146_097 * c);
        assert((1969 + 400 * c + 400) / 4 == 592 + 100 * c);
        assert((1969 + 400 * c + 400) / 100 == 23 + 4 * c);
        assert((1969 + 400 * c + 400) / 400 == 5 + c);
        assert(year_start(top as int) == 146_097 * c + 146_097);
    }
    loop
        invariant
            1970 <= y <= top,
            top <= 0x1_0000_0000_0000,
            days < year_start(top as int),
            year_start(y as int) + rest == days,
        ensures
            1970 <= y <= 0x1_0000_0000_0000,
            year_start(y as int) + rest == days,
            rest < year_days(y as int),
        decreases top - y,
    {
        let len: u64 = if leap(y) {
            366
        } else {
            365
        };
        if rest < len {
            break ;
        }
        proof {
            lemma_next_year(y as int);
            if y == top {
                assert(false);
            }
        }
        rest = rest - len;
        y = y + 1;
    }
    let ghost in_year = rest as int;
    proof {
        lemma_months_fill_year(y as int);
    }
    let mut m: u64 = 1;
    loop
        invariant
            1 <= m <= 12,
            month_start(y as int, m as int) + rest == in_year,
            in_year < month_start(y as int, 13),
        ensures
            1 <= m <= 12,
            month_start(y as int, m as int) + rest == in_year,
            rest < month_days(y as int, m as int),
        decreases 12 - m,
    {
        let len: u64 = if m == 2 {
            if leap(y) {
                29
            } else {
                28
            }
        } else if m == 4 || m == 6 || m == 9 || m == 11 {
            30
        } else {
            31
        };
        if rest < len {
            break ;
        }
        assert(m < 12) by {
            if m == 12 {
                assert(month_start(y as int, 13) == month_start(y as int, 12) + 31);
            }
        }
        rest = rest - len;
        m = m + 1;
    }
    (y, m, rest + 1)
}

fn push_two(out: &mut String, n: u64)
    requires
        n < 100,
    ensures
        final(out)@ == old(out)@ + two_digits(n as int),
{
    let ghost before = out@;
    out.append(text::digit_str(n / 10));
    out.append(text::digit_str(n % 10));
    assert(out@ =~= before + two_digits(n as int));
}

/// A number below a hundred with both its digits.
pub open spec fn two_digits(n: int) -> Seq<char> {
    seq![text::digit((n / 10) as nat), text::digit((n % 10) as nat)]
}

/// A date as text.
pub open spec fn date_text(y: int, m: int, d: int) -> Seq<char> {
    text::dec(y as nat) + "-"@ + two_digits(m) + "-"@ + two_digits(d)
}

/// The date of a moment, given in seconds after the beginning of 1970.
pub fn snapshot_mtime_iso(secs: u64) -> (r: String)
    ensures
        exists|y: int, m: int, d: int| #[trigger]
            is_date(secs as int / 86_400, y, m, d) && r@ == date_text(y, m, d),
{
    let date = civil_date(secs / 86_400);
    let mut out = String::from_str("");
    proof {
        reveal_strlit("");
    }
    text::push_dec(&mut out, date.0);
    assert(out@ =~= text::dec(date.0 as nat));
    out.append("-");
    push_two(&mut out, date.1);
    out.append("-");
    push_two(&mut out, date.2);
    assert(is_date(secs as int / 86_400, date.0 as int, date.1 as int, date.2 as int));
    out
}

/// The short name of a model in file names.
pub open spec fn tag(is_31b: bool) -> Seq<char> {
    if is_31b {
        "31b"@
    } else {
        "e4b"@
    }
}

/// The names of a result file and of the copy that always holds the latest.
pub fn result_names(is_31b: bool, secs: u64) -> (r: (String, String))
    ensures
        r.0@ == "run_"@ + tag(is_31b) + "_gemma_metal_"@ + text::dec(secs as nat) + ".json"@,
        r.1@ == "latest_"@ + tag(is_31b) + "_gemma_metal.json"@,
{
    let t = if is_31b {
        "31b"
    } else {
        "e4b"
    };
    let mut a = text::text_around("run_", t, "_gemma_metal_");
    text::push_dec(&mut a, secs);
    a.append(".json");
    (a, text::text_around("latest_", t, "_gemma_metal.json"))
}

/// The names of a verify sweep's file and of the copy that always holds the latest.
pub fn sweep_names(is_31b: bool, secs: u64) -> (r: (String, String))
    ensures
        r.0@ == "verify_m_sweep_"@ + tag(is_31b) + "_"@ + text::dec(secs as nat) + ".json"@,
        r.1@ == "verify_m_sweep_"@ + tag(is_31b) + "_latest.json"@,
{
    let t = if is_31b {
        "31b"
    } else {
        "e4b"
    };
    let mut a = text::text_around("verify_m_sweep_", t, "_");
    text::push_dec(&mut a, secs);
    a.append(".json");
    (a, text::text_around("verify_m_sweep_", t, "_latest.json"))
}

/// The name of a draft benchmark's file.
pub fn dflash_result_name(secs: u64) -> (r: String)
    ensures
        r@ == "run_dflash_parity_gates_"@ + text::dec(secs as nat) + ".json"@,
{
    text::text1("run_dflash_parity_gates_", secs, ".json")
}

/// The notes of a result.
pub fn result_notes(is_31b: bool, snapshot: &str, date: &str) -> (r: String)
    ensures
        r@ == "live dims from session; snapshot="@ + snapshot@ + " cached="@ + date@ + (
        if is_31b {
            "; Q4Mlx Hot decode; product ≥15 unmet unless fusion+accept"@
        } else {
            "; Q4Mlx Hot decode; vs mlx~75.7 / gate 48-60"@
        }),
{
    let mut out = text::text_around("live dims from session; snapshot=", snapshot, " cached=");
    out.append(date);
    if is_31b {
        out.append("; Q4Mlx Hot decode; product ≥15 unmet unless fusion+accept");
    } else {
        out.append("; Q4Mlx Hot decode; vs mlx~75.7 / gate 48-60");
    }
    out
}

/// Whether an earlier file of the small model seems to hold results of the large one.
pub fn looks_mislabeled(prev: &str) -> (r: bool)
    ensures
        r == (text::occurs(prev@, "gemma-4-31b"@) || text::occurs(prev@, "\"layers\": 60"@)),
{
    text::contains(prev, "gemma-4-31b") || text::contains(prev, "\"layers\": 60")
}

/// A block size and the speed that it gave, as the bits of a double.
#[derive(Clone, Copy, Debug, PartialEq, Eq, Structural)]
pub struct Speed {
    pub block: usize,
    pub tok_s_bits: u64,
}

/// The best of the first `n` speeds, as a search for something faster finds it; the
/// default, at no speed, where there is none.
pub open spec fn fastest(v: Seq<Speed>, default: usize, n: int) -> Speed
    decreases n,
{
    if n <= 0 {
        Speed { block: default, tok_s_bits: 0 }
    } else {
        let b = fastest(v, default, n - 1);
        if floats::below64(b.tok_s_bits, v[n - 1].tok_s_bits) {
            v[n - 1]
        } else {
            b
        }
    }
}

/// The block size with the best speed.
pub fn best_block(v: &Vec<Speed>, default: usize) -> (r: Speed)
    ensures
        r == fastest(v@, default, v@.len() as int),
{
    let mut best = Speed { block: default, tok_s_bits: 0 };
    let mut i: usize = 0;
    while i < v.len()
        invariant
            i <= v@.len(),
            best == fastest(v@, default, i as int),
        decreases v@.len() - i,
    {
        if floats::less64(best.tok_s_bits, v[i].tok_s_bits) {
            best = v[i];
        }
        i = i + 1;
    }
    best
}

/// Nothing measured is faster than the chosen block size.
pub proof fn best_block_is_fastest(v: Seq<Speed>, default: usize, n: int, j: int)
    requires
        0 <= j < n <= v.len(),
    ensures
        !floats::below64(fastest(v, default, n).tok_s_bits, v[j].tok_s_bits),
        !floats::is_nan64(fastest(v, default, n).tok_s_bits),
    decreases n,
{
    reveal_with_fuel(fastest, 2);
    if j < n - 1 {
        best_block_is_fastest(v, default, n - 1, j);
    } else if n > 1 {
        best_block_is_fastest(v, default, n - 1, 0);
    }
}

/// The outcome of an exactness check.
#[derive(Clone, Debug)]
pub struct Exactness {
    pub exact: bool,
    /// The drafted stream's new tokens, as far as both streams go.
    pub tail: Vec<u32>,
}

/// New tokens that both streams have.
pub open spec fn common_new(a: Seq<u32>, b: Seq<u32>, prompt_len: int) -> int {
    let n = if a.len() < b.len() {
        a.len() as int
    } else {
        b.len() as int
    };
    if n > prompt_len {
        n - prompt_len
    } else {
        0
    }
}

/// Compares a drafted stream with the greedy one, as far as both go; `stable` says
/// whether the greedy one came out the same twice.
pub fn exactness(greedy: &[u32], drafted: &[u32], prompt_len: usize, stable: bool) -> (r: Exactness)
    requires
        prompt_len <= greedy@.len(),
        prompt_len <= drafted@.len(),
    ensures
        ({
            let n = common_new(greedy@, drafted@, prompt_len as int);
            let d = drafted@.subrange(prompt_len as int, prompt_len + n);
            &&& r.tail@ == d
            &&& r.exact == (stable && d == greedy@.subrange(prompt_len as int, prompt_len + n))
        }),
{
    let end: usize = if greedy.len() < drafted.len() {
        greedy.len()
    } else {
        drafted.len()
    };
    let mut tail: Vec<u32> = Vec::new();
    let mut same: bool = true;
    let mut i: usize = prompt_len;
    while i < end
        invariant
            prompt_len <= i <= end,
            end <= greedy@.len(),
            end <= drafted@.len(),
            tail@ =~= drafted@.subrange(prompt_len as int, i as int),
            same == (drafted@.subrange(prompt_len as int, i as int) =~= greedy@.subrange(
                prompt_len as int,
                i as int,
            )),
        decreases end - i,
    {
        let ghost a = drafted@.subrange(prompt_len as int, i + 1);
        let ghost b = greedy@.subrange(prompt_len as int, i + 1);
        proof {
            assert(a.drop_last() =~= drafted@.subrange(prompt_len as int, i as int));
            assert(b.drop_last() =~= greedy@.subrange(prompt_len as int, i as int));
            assert(a.last() == drafted@[i as int]);
            assert(b.last() == greedy@[i as int]);
            if a.drop_last() == b.drop_last() && a.last() == b.last() {
                assert(a =~= b) by {
                    assert forall|k: int| 0 <= k < a.len() implies a[k] == b[k] by {
                        if k < a.len() - 1 {
                            assert(a[k] == a.drop_last()[k]);
                            assert(b[k] == b.drop_last()[k]);
                        }
                    }
                }
            }
        }
        tail.push(drafted[i]);
        same = same && drafted[i] == greedy[i];
        i = i + 1;
    }
    Exactness { exact: stable && same, tail }
}

/// The verdicts of a draft benchmark.
#[derive(Clone, Copy, Debug, PartialEq, Eq, Structural)]
pub struct GateVerdict {
    /// The drafted stream is the greedy one, on the small or on the large model.
    pub exact: bool,
    pub exact_task_done: bool,
    /// Exact on the small model, with accepted drafts, and no slower than greedy.
    pub accept_speed_done: bool,
}

/// The verdicts, from what was measured. The large model counts where it was run.
pub fn gate_verdict(exact: bool, exact_31b: Option<bool>, accepts: bool, beats_greedy: bool) -> (r:
    GateVerdict)
    ensures
        r.exact == (exact || exact_31b == Some(true)),
        r.exact_task_done == r.exact,
        r.accept_speed_done == (exact && accepts && beats_greedy),
{
    let large: bool = match exact_31b {
        Some(b) => b,
        None => false,
    };
    let any: bool = exact || large;
    GateVerdict {
        exact: any,
        exact_task_done: any,
        accept_speed_done: exact && accepts && beats_greedy,
    }
}

/// How a task stands, in words.
pub fn task_status(done: bool) -> (r: &'static str)
    ensures
        r@ == (if done {
            "completed"@
        } else {
            "pending"@
        }),
{
    if done {
        "completed"
    } else {
        "pending"
    }
}

/// How an exactness check stands, in words.
pub fn exact_status(exact: bool) -> (r: &'static str)
    ensures
        r@ == (if exact {
            "PASS"@
        } else {
            "FAIL_pending"@
        }),
{
    if exact {
        "PASS"
    } else {
        "FAIL_pending"
    }
}

} // verus!
