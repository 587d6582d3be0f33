//! Recorded token streams of the 31B model, and what a run is held against.

use crate::load;
use crate::step_verify;
use crate::text;
use vstd::prelude::*;
use vstd::string::*;

verus! {

/// A setting is exactly `1`.
pub open spec fn is_one(s: Option<Seq<char>>) -> bool {
    s == Some("1"@)
}

/// Whether a setting is exactly `1`.
pub fn switched_on(s: Option<&str>) -> (r: bool)
    ensures
        r == is_one(text::setting(s)),
{
    match s {
        Some(v) => text::str_eq(v, "1"),
        None => false,
    }
}

/// Which lanes a 31B run takes.
#[derive(Clone, Copy, Debug, PartialEq, Eq, Structural)]
pub struct Lanes31b {
    /// Automatic barriers are left out.
    pub hazard: bool,
    /// Streams are compared with all barriers.
    pub exact_always_on: bool,
}

/// The lanes that the settings ask for.
pub fn lanes_31b(hazard: Option<&str>, exact_always_on: Option<&str>) -> (r: Lanes31b)
    ensures
        r.hazard == is_one(text::setting(hazard)),
        r.exact_always_on == (!r.hazard || is_one(text::setting(exact_always_on))),
{
    let h: bool = switched_on(hazard);
    Lanes31b { hazard: h, exact_always_on: !h || switched_on(exact_always_on) }
}

/// The short prompt.
pub open spec fn short_prompt() -> Seq<u32> {
    seq![2u32, 105, 4368, 1246]
}

/// The short prompt.
pub fn default_prompt() -> (r: Vec<u32>)
    ensures
        r@ == short_prompt(),
{
    let mut v: Vec<u32> = Vec::new();
    v.push(2);
    v.push(105);
    v.push(4368);
    v.push(1246);
    assert(v@ =~= short_prompt());
    v
}

/// Where case number `i` of a recording is.
pub open spec fn case_pointer(i: int) -> Seq<char> {
    "/cases/"@ + text::dec(i as nat)
}

/// The first case with a name is number `i`.
pub open spec fn case_at(doc: Seq<char>, name: Seq<char>, i: int) -> bool {
    &&& load::json_len_at(doc, "/cases"@) matches Some(n) && 0 <= i < n
    &&& load::json_str_at(doc, case_pointer(i) + "/name"@) == Some(name)
    &&& forall|j: int|
        0 <= j < i ==> load::json_str_at(doc, #[trigger] case_pointer(j) + "/name"@) != Some(name)
}

/// No case has a name.
pub open spec fn no_case(doc: Seq<char>, name: Seq<char>) -> bool {
    match load::json_len_at(doc, "/cases"@) {
        Some(n) => forall|j: int|
            0 <= j < n ==> load::json_str_at(doc, #[trigger] case_pointer(j) + "/name"@) != Some(
                name,
            ),
        None => true,
    }
}

fn case_text(i: usize, rest: &str) -> (r: String)
    ensures
        r@ == case_pointer(i as int) + rest@,
{
    text::text1("/cases/", i as u64, rest)
}

fn find_case(doc: &str, name: &str) -> (r: Option<usize>)
    ensures
        match r {
            Some(i) => case_at(doc@, name@, i as int),
            None => no_case(doc@, name@),
        },
{
    let n: usize = match load::json_len(doc, "/cases") {
        None => {
            return None;
        },
        Some(n) => n,
    };
    let mut i: usize = 0;
    while i < n
        invariant
            i <= n,
            load::json_len_at(doc@, "/cases"@) == Some(n),
            forall|j: int|
                0 <= j < i ==> load::json_str_at(doc@, #[trigger] case_pointer(j) + "/name"@)
                    != Some(name@),
        decreases n - i,
    {
        match load::json_str(doc, case_text(i, "/name").as_str()) {
            Some(s) => {
                if text::str_eq(s.as_str(), name) {
                    return Some(i);
                }
            },
            None => {},
        }
        i = i + 1;
    }
    None
}

/// The tokens among the first `n` elements; what is no number is passed over.
pub open spec fn tokens_among(v: Seq<Option<u64>>, n: int) -> Seq<u32>
    decreases n,
{
    if n <= 0 {
        Seq::empty()
    } else {
        match v[n - 1] {
            Some(x) => tokens_among(v, n - 1).push(x as u32),
            None => tokens_among(v, n - 1),
        }
    }
}

/// The tokens among elements.
pub fn known_tokens(v: &Vec<Option<u64>>) -> (r: Vec<u32>)
    ensures
        r@ == tokens_among(v@, v@.len() as int),
{
    let mut out: Vec<u32> = Vec::new();
    let mut i: usize = 0;
    while i < v.len()
        invariant
            i <= v@.len(),
            out@ == tokens_among(v@, i as int),
        decreases v@.len() - i,
    {
        match v[i] {
            Some(x) => {
                out.push(x as u32);
            },
            None => {},
        }
        i = i + 1;
    }
    out
}

/// The prompt that a 31B run is measured on.
#[derive(Clone, Debug)]
pub struct MeasurePrompt {
    pub ids: Vec<u32>,
    /// It is the recorded greeting.
    pub greet: bool,
}

/// The prompt, from the recorded greeting: it must have at least four tokens, else
/// the short prompt is taken.
pub open spec fn prompt_is(p: MeasurePrompt, recorded: Option<Seq<Option<u64>>>) -> bool {
    match recorded {
        Some(v) => {
            let t = tokens_among(v, v.len() as int);
            if t.len() >= 4 {
                p.ids@ == t && p.greet
            } else {
                p.ids@ == short_prompt() && !p.greet
            }
        },
        None => p.ids@ == short_prompt() && !p.greet,
    }
}

/// The prompt, from the recorded greeting.
pub fn prompt_from(recorded: &Option<Vec<Option<u64>>>) -> (r: MeasurePrompt)
    ensures
        prompt_is(
            r,
            match *recorded {
                Some(v) => Some(v@),
                None => None,
            },
        ),
{
    match recorded {
        Some(v) => {
            let t = known_tokens(v);
            if t.len() >= 4 {
                MeasurePrompt { ids: t, greet: true }
            } else {
                MeasurePrompt { ids: default_prompt(), greet: false }
            }
        },
        None => MeasurePrompt { ids: default_prompt(), greet: false },
    }
}

/// The prompt that a 31B run is measured on: the greeting recorded in a document,
/// unless the short prompt is asked for or nothing is recorded.
pub fn measure_prompt(short: Option<&str>, doc: Option<&str>) -> (r: MeasurePrompt)
    ensures
        is_one(text::setting(short)) ==> prompt_is(r, None),
        !is_one(text::setting(short)) ==> match doc {
            None => prompt_is(r, None),
            Some(d) => if load::json_fault(d@) is Some || no_case(d@, "greet"@) {
                prompt_is(r, None)
            } else {
                exists|i: int| #[trigger]
                    case_at(d@, "greet"@, i) && prompt_is(
                        r,
                        load::numbers_at(d@, case_pointer(i) + "/prompt_ids"@),
                    )
            },
        },
{
    if switched_on(short) {
        return prompt_from(&None);
    }
    match doc {
        None => prompt_from(&None),
        Some(d) => {
            match load::parse_error(d) {
                Some(_e) => {
                    return prompt_from(&None);
                },
                None => {},
            }
            match find_case(d, "greet") {
                None => prompt_from(&None),
                Some(i) => {
                    let recorded = load::read_numbers(d, case_text(i, "/prompt_ids").as_str());
                    let p = prompt_from(&recorded);
                    proof {
                        assert(case_at(d@, "greet"@, i as int));
                        assert(load::json_str_at(d@, case_pointer(i as int) + "/name"@) == Some(
                            "greet"@,
                        ));
                        assert(!no_case(d@, "greet"@));
                    }
                    p
                },
            }
        },
    }
}

/// How many of the first `n` tokens are the first of their kind.
pub open spec fn unique_upto(v: Seq<u32>, n: int) -> int
    decreases n,
{
    if n <= 0 {
        0
    } else {
        unique_upto(v, n - 1) + (if v.subrange(0, n - 1).contains(v[n - 1]) {
            0int
        } else {
            1
        })
    }
}

/// How many different tokens there are.
pub fn unique_count(v: &[u32]) -> (r: usize)
    ensures
        r == unique_upto(v@, v@.len() as int),
        r <= v@.len(),
{
    let mut n: usize = 0;
    let mut i: usize = 0;
    while i < v.len()
        invariant
            n <= i <= v@.len(),
            n == unique_upto(v@, i as int),
        decreases v@.len() - i,
    {
        let mut seen: bool = false;
        let mut j: usize = 0;
        while j < i
            invariant
                j <= i < v@.len(),
                seen == v@.subrange(0, j as int).contains(v@[i as int]),
            decreases i - j,
        {
            proof {
                let a = v@.subrange(0, j as int);
                let b = v@.subrange(0, j + 1);
                assert(b =~= a.push(v@[j as int]));
                assert(b[j as int] == v@[j as int]);
                if a.contains(v@[i as int]) {
                    let k = choose|k: int| 0 <= k < a.len() && a[k] == v@[i as int];
                    assert(b[k] == v@[i as int]);
                }
                if b.contains(v@[i as int]) && v@[j as int] != v@[i as int] {
                    let k = choose|k: int| 0 <= k < b.len() && b[k] == v@[i as int];
                    assert(a[k] == v@[i as int]);
                }
            }
            if v[j] == v[i] {
                seen = true;
            }
            j = j + 1;
        }
        if !seen {
            n = n + 1;
        }
        i = i + 1;
    }
    n
}

/// A token that may be absent, as text.
pub open spec fn token_text(t: Option<u32>) -> Seq<char> {
    match t {
        Some(x) => "Some("@ + text::dec(x as nat) + ")"@,
        None => "None"@,
    }
}

/// The token that the target must begin with: it depends on the prompt.
pub open spec fn expected_first(prompt: Seq<u32>) -> u32 {
    if prompt == short_prompt() {
        531
    } else {
        100
    }
}

/// The first of new tokens.
pub open spec fn first_of(tail: Seq<u32>) -> Option<u32> {
    if tail.len() > 0 {
        Some(tail[0])
    } else {
        None
    }
}

/// What is wrong with the target's greedy stream: it begins otherwise than it must, or
/// repeats a single token.
pub open spec fn health_fault(prompt: Seq<u32>, tail: Seq<u32>) -> Option<Seq<char>> {
    if first_of(tail) != Some(expected_first(prompt)) {
        Some(
            "31B greedy first token "@ + token_text(first_of(tail)) + " ≠ "@ + text::dec(
                expected_first(prompt) as nat,
            ) + " — refuse D-Flash"@,
        )
    } else if unique_upto(tail, tail.len() as int) <= 1 {
        Some(
            "31B greedy collapsed (unique="@ + text::dec(
                unique_upto(tail, tail.len() as int) as nat,
            ) + ") — refuse D-Flash measure on unhealthy target"@,
        )
    } else {
        None
    }
}

fn is_short(prompt: &[u32]) -> (r: bool)
    ensures
        r == (prompt@ == short_prompt()),
{
    let r = prompt.len() == 4 && prompt[0] == 2 && prompt[1] == 105 && prompt[2] == 4368
        && prompt[3] == 1246;
    proof {
        let s = short_prompt();
        assert(s.len() == 4 && s[0] == 2 && s[1] == 105 && s[2] == 4368 && s[3] == 1246);
        if r {
            assert(prompt@ =~= s);
        }
    }
    r
}

/// The name of the prompt in a report.
pub fn prompt_label(prompt: &[u32]) -> (r: &'static str)
    ensures
        r@ == (if prompt@ == short_prompt() {
            "short"@
        } else {
            "greet"@
        }),
{
    if is_short(prompt) {
        "short"
    } else {
        "greet"
    }
}

/// Checks the target's greedy stream before drafts are measured on it.
pub fn target_health(prompt: &[u32], tail: &[u32]) -> (r: Option<String>)
    ensures
        load::text_view(r) == health_fault(prompt@, tail@),
{
    let want: u32 = if is_short(prompt) {
        531
    } else {
        100
    };
    if tail.len() == 0 || tail[0] != want {
        let mut m = String::from_str("31B greedy first token ");
        if tail.len() > 0 {
            m.append("Some(");
            text::push_dec(&mut m, tail[0] as u64);
            m.append(")");
            assert(m@ =~= "31B greedy first token "@ + token_text(first_of(tail@)));
        } else {
            m.append("None");
        }
        m.append(" ≠ ");
        text::push_dec(&mut m, want as u64);
        m.append(" — refuse D-Flash");
        return Some(m);
    }
    let u: usize = unique_count(tail);
    if u <= 1 {
        return Some(
            text::text1(
                "31B greedy collapsed (unique=",
                u as u64,
                ") — refuse D-Flash measure on unhealthy target",
            ),
        );
    }
    None
}

/// Checks the greedy stream that drafts are compared with.
pub fn baseline_health(tail: &[u32]) -> (r: Option<String>)
    ensures
        ({
            let u = unique_upto(tail@, tail@.len() as int);
            load::text_view(r) == (if u <= 1 {
                Some(
                    "31B capture+cond greedy collapsed (unique="@ + text::dec(u as nat)
                        + ") — skip exactness/D-Flash"@,
                )
            } else {
                None
            })
        }),
{
    let u: usize = unique_count(tail);
    if u <= 1 {
        return Some(
            text::text1(
                "31B capture+cond greedy collapsed (unique=",
                u as u64,
                ") — skip exactness/D-Flash",
            ),
        );
    }
    None
}

/// A recorded case.
#[derive(Clone, Debug)]
pub struct GoldenCase {
    pub prompt: Vec<u32>,
    pub gold: Vec<u32>,
}

/// Every element is a number.
pub open spec fn all_numbers(v: Seq<Option<u64>>) -> bool {
    forall|i: int| 0 <= i < v.len() ==> (#[trigger] v[i]) is Some
}

/// The tokens of elements that are all numbers.
pub open spec fn tokens_of(v: Seq<Option<u64>>) -> Seq<u32> {
    Seq::new(v.len(), |i: int| v[i]->0 as u32)
}

fn exact_tokens(v: &Vec<Option<u64>>) -> (r: Option<Vec<u32>>)
    ensures
        match r {
            Some(t) => all_numbers(v@) && t@ == tokens_of(v@),
            None => !all_numbers(v@),
        },
{
    let mut out: Vec<u32> = Vec::new();
    let mut i: usize = 0;
    while i < v.len()
        invariant
            i <= v@.len(),
            out@.len() == i,
            forall|j: int| 0 <= j < i ==> (#[trigger] v@[j]) is Some,
            forall|j: int| 0 <= j < i ==> #[trigger] out@[j] == v@[j]->0 as u32,
        decreases v@.len() - i,
    {
        match v[i] {
            None => {
                assert(!(v@[i as int] is Some));
                return None;
            },
            Some(x) => {
                out.push(x as u32);
            },
        }
        i = i + 1;
    }
    assert(out@ =~= tokens_of(v@));
    Some(out)
}

/// What the two lists of a case come to: nothing where an element is no number, else
/// the case, or the name of the list that is missing.
pub open spec fn case_is(
    prompt: Option<Seq<Option<u64>>>,
    gold: Option<Seq<Option<u64>>>,
    r: Option<std::result::Result<GoldenCase, String>>,
) -> bool {
    match prompt {
        None => r matches Some(Err(e)) && e@ == "prompt_ids"@,
        Some(p) => if !all_numbers(p) {
            r is None
        } else {
            match gold {
                None => r matches Some(Err(e)) && e@ == "greedy_ids"@,
                Some(g) => if !all_numbers(g) {
                    r is None
                } else {
                    r matches Some(Ok(c)) && c.prompt@ == tokens_of(p) && c.gold@ == tokens_of(g)
                },
            }
        },
    }
}

/// The view of a list that may be absent.
pub open spec fn list_view(o: Option<Vec<Option<u64>>>) -> Option<Seq<Option<u64>>> {
    match o {
        Some(v) => Some(v@),
        None => None,
    }
}

/// The case that two lists make.
pub fn case_from(prompt: &Option<Vec<Option<u64>>>, gold: &Option<Vec<Option<u64>>>) -> (r: Option<
    std::result::Result<GoldenCase, String>,
>)
    ensures
        case_is(list_view(*prompt), list_view(*gold), r),
{
    let p = match prompt {
        None => {
            return Some(Err(String::from_str("prompt_ids")));
        },
        Some(v) => match exact_tokens(v) {
            None => {
                return None;
            },
            Some(t) => t,
        },
    };
    let g = match gold {
        None => {
            return Some(Err(String::from_str("greedy_ids")));
        },
        Some(v) => match exact_tokens(v) {
            None => {
                return None;
            },
            Some(t) => t,
        },
    };
    Some(Ok(GoldenCase { prompt: p, gold: g }))
}

/// The recorded case with a name in a document.
pub fn golden_case(doc: &str, name: &str) -> (r: Option<std::result::Result<GoldenCase, String>>)
    ensures
        match load::json_fault(doc@) {
            Some(e) => r matches Some(Err(m)) && m@ == e,
            None => if load::json_len_at(doc@, "/cases"@) is None {
                r matches Some(Err(m)) && m@ == "golden: missing cases"@
            } else if no_case(doc@, name@) {
                r matches Some(Err(m)) && m@ == "case '"@ + name@ + "' not found"@
            } else {
                exists|i: int| #[trigger]
                    case_at(doc@, name@, i) && case_is(
                        load::numbers_at(doc@, case_pointer(i) + "/prompt_ids"@),
                        load::numbers_at(doc@, case_pointer(i) + "/greedy_ids"@),
                        r,
                    )
            },
        },
{
    match load::parse_error(doc) {
        Some(e) => {
            return Some(Err(e));
        },
        None => {},
    }
    if load::json_len(doc, "/cases").is_none() {
        return Some(Err(String::from_str("golden: missing cases")));
    }
    match find_case(doc, name) {
        None => Some(Err(text::text_around("case '", name, "' not found"))),
        Some(i) => {
            let prompt = load::read_numbers(doc, case_text(i, "/prompt_ids").as_str());
            let gold = load::read_numbers(doc, case_text(i, "/greedy_ids").as_str());
            let r = case_from(&prompt, &gold);
            proof {
                assert(load::json_str_at(doc@, case_pointer(i as int) + "/name"@) == Some(name@));
                assert(!no_case(doc@, name@));
                assert(case_at(doc@, name@, i as int));
            }
            r
        },
    }
}

/// Positions that a comparison needs.
pub fn compare_max_seq(prompt_len: usize, n: usize) -> (r: usize)
    requires
        prompt_len + n + 8 <= usize::MAX,
    ensures
        r == (if prompt_len + n + 8 < 128 {
            128
        } else {
            prompt_len + n + 8
        }),
{
    let s: usize = prompt_len + n + 8;
    if s < 128 {
        128
    } else {
        s
    }
}

/// How far a stream agrees with the recorded one.
#[derive(Clone, Copy, Debug, PartialEq, Eq, Structural)]
pub struct Agreement {
    pub first_mismatch: Option<usize>,
    pub matched: usize,
    pub passes: bool,
}

/// Compares the first `n` tokens of a stream with the recorded one.
pub fn agreement(got: &[u32], gold: &[u32], n: usize) -> (r: Agreement)
    ensures
        match r.first_mismatch {
            Some(i) => step_verify::mismatch_at(got@, gold@, i as int) && r.matched == i,
            None => (forall|j: int| 0 <= j < got@.len() && j < gold@.len() ==> got@[j] == gold@[j])
                && r.matched == (if got@.len() < n {
                got@.len() as int
            } else {
                n as int
            }),
        },
        r.passes == (r.matched >= n),
{
    let first = step_verify::first_mismatch(got, gold);
    let matched: usize = match first {
        Some(k) => k,
        None => if got.len() < n {
            got.len()
        } else {
            n
        },
    };
    Agreement { first_mismatch: first, matched, passes: matched >= n }
}

/// A block to propose for: its first token and masks up to its size.
pub open spec fn masked(first: u32, mask: u32, size: nat) -> Seq<u32> {
    Seq::new(
        size,
        |i: int|
            if i == 0 {
                first
            } else {
                mask
            },
    )
}

/// A block to propose for.
pub fn mask_block(first: u32, mask: u32, size: usize) -> (r: Vec<u32>)
    requires
        size >= 1,
    ensures
        r@ == masked(first, mask, size as nat),
{
    let mut out: Vec<u32> = Vec::new();
    out.push(first);
    while out.len() < size
        invariant
            1 <= out@.len() <= size,
            out@ =~= masked(first, mask, out@.len()),
        decreases size - out@.len(),
    {
        out.push(mask);
    }
    out
}

/// Where the row of captured layer `i` lies among the captured floats of the last of
/// `t` timesteps.
pub fn last_captured_row(t: usize, n_cap: usize, h: usize, i: usize) -> (r: (usize, usize))
    requires
        t >= 1,
        i < n_cap,
        t * n_cap <= usize::MAX,
        t * n_cap * h <= usize::MAX,
    ensures
        r.0 == ((t - 1) * n_cap + i) * h,
        r.1 == r.0 + h,
        r.1 <= t * n_cap * h,
{
    let ghost all = t * n_cap;
    assert((t - 1) * n_cap + i + 1 <= all) by (nonlinear_arith)
        requires
            t >= 1,
            i < n_cap,
            all == t * n_cap,
    ;
    assert((t - 1) * n_cap >= 0) by (nonlinear_arith)
        requires
            t >= 1,
    ;
    let k: usize = (t - 1) * n_cap + i;
    assert(k * h + h <= all * h) by (nonlinear_arith)
        requires
            k + 1 <= all,
    ;
    let start: usize = k * h;
    (start, start + h)
}

/// Whether a free run is continued from the host, to tell a chained step from a seeded
/// one.
pub fn continues_from_host(step_next: u32, n: usize) -> (r: bool)
    ensures
        r == (step_next == 531 && n >= 2),
{
    step_next == 531 && n >= 2
}

/// Whether the short prompt led to the recorded token.
pub fn short_prompt_passes(next: u32) -> (r: bool)
    ensures
        r == (next == 531),
{
    next == 531
}

} // verus!
