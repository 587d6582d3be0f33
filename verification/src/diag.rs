//! What the log says, and when. Reading the clock and writing the lines are the
//! caller's.

use crate::floats;
use crate::text;
use vstd::prelude::*;
use vstd::string::*;

verus! {

/// The lower-case form of an ASCII letter; other characters stay.
pub open spec fn lower(c: char) -> char {
    if 65 <= (c as u32) <= 90 {
        ((c as u32) + 32) as char
    } else {
        c
    }
}

/// The words that silence a log.
pub open spec fn is_off_word(s: Seq<char>) -> bool {
    s == "0"@ || s == "off"@ || s == "false"@ || s == "no"@ || s == "quiet"@
}

/// A setting silences its log: trimmed and in lower case it is an off word.
pub open spec fn silences(s: Seq<char>) -> bool {
    exists|t: Seq<char>| #[trigger]
        text::is_trimmed(s, t) && is_off_word(t.map_values(|c: char| lower(c)))
}

proof fn lemma_trim_unique(s: Seq<char>, t: Seq<char>, u: Seq<char>)
    requires
        text::is_trimmed(s, t),
        text::is_trimmed(s, u),
    ensures
        t == u,
{
    let (a, b) = choose|a: int, b: int|
        #[trigger] text::trimmed_between(s, a, b) && t == s.subrange(a, b);
    let (c, d) = choose|c: int, d: int|
        #[trigger] text::trimmed_between(s, c, d) && u == s.subrange(c, d);
    if a < b {
        assert(!text::is_white_space(s[a]));
        assert(!text::is_white_space(s[b - 1]));
    }
    if c < d {
        assert(!text::is_white_space(s[c]));
        assert(!text::is_white_space(s[d - 1]));
    }
    assert(t =~= u);
}

fn lower_char(c: char) -> (r: char)
    ensures
        r == lower(c),
{
    let u: u32 = c as u32;
    if 65 <= u && u <= 90 {
        ((u as u8) + 32u8) as char
    } else {
        c
    }
}

fn is_word(s: &Vec<char>, w: &str) -> (r: bool)
    ensures
        r == (s@ == w@),
{
    text::chars_eq(s.as_slice(), text::chars_of(w).as_slice())
}

/// Whether a setting leaves its log on.
pub fn parse_enabled(s: &str) -> (r: bool)
    ensures
        r == !silences(s@),
{
    let cs = text::chars_of(s);
    let trimmed = text::trim_chars(cs.as_slice());
    let mut low: Vec<char> = Vec::new();
    let mut i: usize = 0;
    while i < trimmed.len()
        invariant
            i <= trimmed@.len(),
            low@ =~= trimmed@.subrange(0, i as int).map_values(|c: char| lower(c)),
        decreases trimmed@.len() - i,
    {
        low.push(lower_char(trimmed[i]));
        i = i + 1;
    }
    proof {
        assert(trimmed@.subrange(0, i as int) =~= trimmed@);
        assert forall|t: Seq<char>| #[trigger] text::is_trimmed(s@, t) implies t == trimmed@ by {
            lemma_trim_unique(s@, t, trimmed@);
        }
    }
    !(is_word(&low, "0") || is_word(&low, "off") || is_word(&low, "false") || is_word(&low, "no")
        || is_word(&low, "quiet"))
}

/// Which logs are on.
#[derive(Clone, Copy, Debug, PartialEq, Eq, Structural)]
pub struct Logs {
    pub on: bool,
    /// The line-by-line log of decoding.
    pub infer: bool,
}

/// Whether the log is on. Unset, it is.
pub fn enabled(setting: Option<&str>) -> (r: bool)
    ensures
        r == (match setting {
            Some(s) => !silences(s@),
            None => true,
        }),
{
    match setting {
        Some(s) => parse_enabled(s),
        None => true,
    }
}

/// Whether the line-by-line log of decoding is on. Unset, it is, but not while
/// testing.
pub fn infer_enabled(setting: Option<&str>, testing: bool) -> (r: bool)
    ensures
        r == (match setting {
            Some(s) => !silences(s@),
            None => !testing,
        }),
{
    match setting {
        Some(s) => parse_enabled(s),
        None => !testing,
    }
}

/// Settles both logs.
pub fn init(setting: Option<&str>, infer_setting: Option<&str>, testing: bool) -> (r: Logs)
    ensures
        r.on == (match setting {
            Some(s) => !silences(s@),
            None => true,
        }),
        r.infer == (match infer_setting {
            Some(s) => !silences(s@),
            None => !testing,
        }),
{
    Logs { on: enabled(setting), infer: infer_enabled(infer_setting, testing) }
}

/// A line of the log of `component`, after `elapsed` seconds.
pub open spec fn line(component: Seq<char>, elapsed: Seq<char>, message: Seq<char>) -> Seq<char> {
    "[gemma-metal:"@ + component + "] Elapsed="@ + elapsed + "s "@ + message
}

fn render(component: &str, elapsed: &str, message: &str) -> (r: String)
    ensures
        r@ == line(component@, elapsed@, message@),
{
    let mut out = text::text_around("[gemma-metal:", component, "] Elapsed=");
    out.append(elapsed);
    out.append("s ");
    out.append(message);
    out
}

/// A line is what it should be, and is there exactly when its log is on.
pub open spec fn logs(r: Option<String>, on: bool, text: Seq<char>) -> bool {
    match r {
        Some(s) => on && s@ == text,
        None => !on,
    }
}

impl Logs {
    /// The line for a message of `component`.
    pub fn log(&self, component: &str, elapsed: &str, message: &str) -> (r: Option<String>)
        ensures
            logs(r, self.on, line(component@, elapsed@, message@)),
    {
        if !self.on {
            return None;
        }
        Some(render(component, elapsed, message))
    }

    /// The line for a message of the decoding log.
    pub fn infer_log(&self, elapsed: &str, message: &str) -> (r: Option<String>)
        ensures
            logs(r, self.infer, line("infer"@, elapsed@, message@)),
    {
        if !self.infer {
            return None;
        }
        Some(render("infer", elapsed, message))
    }

    /// The lines for an error: one in the log of `component`, and where the
    /// decoding log is on too, one there.
    pub fn err_msg(&self, component: &str, elapsed: &str, context: &str, e: &str) -> (r: (
        Option<String>,
        Option<String>,
    ))
        ensures
            logs(
                r.0,
                self.on,
                line(component@, elapsed@, "ERROR "@ + context@ + ": "@ + e@),
            ),
            logs(
                r.1,
                self.on && self.infer,
                line("infer"@, elapsed@, "ERROR "@ + context@ + ": "@ + e@),
            ),
    {
        let mut message = text::text_around("ERROR ", context, ": ");
        message.append(e);
        let first = self.log(component, elapsed, message.as_str());
        let second = if self.on {
            self.infer_log(elapsed, message.as_str())
        } else {
            None
        };
        (first, second)
    }
}

/// The line that marks a wait on the device.
pub fn infer_stall(logs: &Logs, elapsed: &str, context: &str) -> (r: Option<String>)
    ensures
        self::logs(
            r,
            logs.infer,
            line("infer"@, elapsed@, "⚠ STALL "@ + context@ + " (CPU wait on GPU)"@),
        ),
{
    let message = text::text_around("⚠ STALL ", context, " (CPU wait on GPU)");
    logs.infer_log(elapsed, message.as_str())
}

/// A timed stage. The times it is given are rendered milliseconds.
#[derive(Debug)]
pub struct Stage {
    pub component: String,
    pub name: String,
}

impl Stage {
    /// Begins a stage, with the line that says so.
    pub fn begin(logs: &Logs, component: &str, name: &str, elapsed: &str) -> (r: (
        Stage,
        Option<String>,
    ))
        ensures
            r.0.component@ == component@,
            r.0.name@ == name@,
            self::logs(r.1, logs.on, line(component@, elapsed@, "▶ "@ + name@)),
    {
        let mut message = String::from_str("▶ ");
        message.append(name);
        let l = logs.log(component, elapsed, message.as_str());
        (Stage { component: String::from_str(component), name: String::from_str(name) }, l)
    }

    /// The line for a stage that ended well.
    pub fn ok(self, logs: &Logs, elapsed: &str, ms: &str) -> (r: Option<String>)
        ensures
            self::logs(
                r,
                logs.on,
                line(
                    self.component@,
                    elapsed@,
                    "✔ "@ + self.name@ + " done in "@ + ms@ + " ms"@,
                ),
            ),
    {
        let mut message = text::text_around("✔ ", self.name.as_str(), " done in ");
        message.append(ms);
        message.append(" ms");
        logs.log(self.component.as_str(), elapsed, message.as_str())
    }

    /// The lines for a stage that failed.
    pub fn fail(self, logs: &Logs, elapsed: &str, ms: &str, e: &str) -> (r: (
        Option<String>,
        Option<String>,
    ))
        ensures
            ({
                let message = "ERROR "@ + (self.name@ + " FAILED after "@ + ms@ + " ms"@) + ": "@
                    + e@;
                &&& self::logs(r.0, logs.on, line(self.component@, elapsed@, message))
                &&& self::logs(
                    r.1,
                    logs.on && logs.infer,
                    line("infer"@, elapsed@, message),
                )
            }),
    {
        let mut context = String::from_str(self.name.as_str());
        context.append(" FAILED after ");
        context.append(ms);
        context.append(" ms");
        logs.err_msg(self.component.as_str(), elapsed, context.as_str(), e)
    }
}

/// A timed step of decoding. It is active, and holds its name, only where the
/// decoding log was on when it began.
#[derive(Debug)]
pub struct InferScope {
    pub op: String,
    pub active: bool,
}

impl InferScope {
    /// Begins a step, with the line that says so.
    pub fn begin(logs: &Logs, elapsed: &str, op: &str, detail: &str) -> (r: (
        InferScope,
        Option<String>,
    ))
        ensures
            r.0.active == logs.infer,
            r.0.op@ == (if logs.infer {
                op@
            } else {
                ""@
            }),
            self::logs(
                r.1,
                logs.infer,
                line("infer"@, elapsed@, "▶ "@ + op@ + " | "@ + detail@),
            ),
    {
        if !logs.infer {
            return (InferScope { op: String::from_str(""), active: false }, None);
        }
        let mut message = text::text_around("▶ ", op, " | ");
        message.append(detail);
        let l = logs.infer_log(elapsed, message.as_str());
        (InferScope { op: String::from_str(op), active: true }, l)
    }

    /// The line for a remark on a step.
    pub fn note(&self, logs: &Logs, elapsed: &str, detail: &str) -> (r: Option<String>)
        ensures
            self::logs(
                r,
                self.active && logs.infer,
                line("infer"@, elapsed@, "· "@ + self.op@ + " | "@ + detail@),
            ),
    {
        if !self.active {
            return None;
        }
        let mut message = text::text_around("· ", self.op.as_str(), " | ");
        message.append(detail);
        logs.infer_log(elapsed, message.as_str())
    }

    /// The line for the end of a step that took `us` microseconds.
    pub fn end(self, logs: &Logs, elapsed: &str, us: u64) -> (r: Option<String>)
        ensures
            self::logs(
                r,
                self.active && logs.infer,
                line(
                    "infer"@,
                    elapsed@,
                    "◀ "@ + self.op@ + " done "@ + text::dec(us as nat) + "µs"@,
                ),
            ),
    {
        if !self.active {
            return None;
        }
        let mut message = text::text_around("◀ ", self.op.as_str(), " done ");
        text::push_dec(&mut message, us);
        message.append("µs");
        logs.infer_log(elapsed, message.as_str())
    }
}

/// The nearest number to `n` with a significand of 53 bits.
pub open spec fn significand53(n: int) -> int {
    floats::rounded(n, 0x20_0000_0000_0000)
}

/// A number of tenths as text: no point where it is whole.
pub open spec fn tenths(v: int) -> Seq<char> {
    if v % 10 == 0 {
        text::dec((v / 10) as nat)
    } else {
        text::dec((v / 10) as nat) + "."@ + seq![text::digit((v % 10) as nat)]
    }
}

/// A number of tenths (`k` is one) or of hundredths (`k` is two) of a unit as text,
/// without zeros at the end: no point where the number is whole.
pub open spec fn fixed(v: int, k: int) -> Seq<char> {
    if k == 1 {
        tenths(v)
    } else if v % 10 == 0 {
        tenths(v / 10)
    } else {
        text::dec((v / 100) as nat) + "."@ + seq![
            text::digit((v / 10 % 10) as nat),
            text::digit((v % 10) as nat),
        ]
    }
}

/// A byte count for people, such as `1.5 GiB` or `256 MiB`: in the largest unit that
/// it reaches, to at most two digits after the point for GiB and one for MiB and KiB.
pub open spec fn bytes_text(n: int) -> Seq<char> {
    let x = significand53(n);
    if x >= 0x4000_0000 {
        fixed(floats::half_even(x * 100, 0x4000_0000), 2) + " GiB"@
    } else if x >= 0x10_0000 {
        fixed(floats::half_even(x * 10, 0x10_0000), 1) + " MiB"@
    } else if x >= 0x400 {
        fixed(floats::half_even(x * 10, 0x400), 1) + " KiB"@
    } else {
        text::dec(n as nat) + " B"@
    }
}

fn push_tenths(out: &mut String, v: u64)
    ensures
        final(out)@ == old(out)@ + tenths(v as int),
{
    let ghost before = out@;
    text::push_dec(out, v / 10);
    if v % 10 != 0 {
        out.append(".");
        out.append(text::digit_str(v % 10));
    }
    assert(out@ =~= before + tenths(v as int));
}

fn push_fixed(out: &mut String, v: u128, k: u64)
    requires
        v < 0x1_0000_0000_0000_0000,
        k == 1 || k == 2,
    ensures
        final(out)@ == old(out)@ + fixed(v as int, k as int),
{
    let w: u64 = v as u64;
    let ghost before = out@;
    if k == 1 {
        push_tenths(out, w);
    } else if w % 10 == 0 {
        push_tenths(out, w / 10);
    } else {
        text::push_dec(out, w / 100);
        out.append(".");
        out.append(text::digit_str(w / 10 % 10));
        out.append(text::digit_str(w % 10));
    }
    assert(out@ =~= before + fixed(v as int, k as int));
}

/// A byte count for people.
pub fn fmt_bytes(n: u64) -> (r: String)
    ensures
        r@ == bytes_text(n as int),
{
    let x: u128 = floats::round_to(n as u128, 0x20_0000_0000_0000);
    let mut out = String::from_str("");
    proof {
        reveal_strlit("");
        assert(out@.len() == 0);
    }
    let ghost empty = out@;
    if x >= 0x4000_0000 {
        let v: u128 = floats::round_half_even(x * 100, 0x4000_0000);
        push_fixed(&mut out, v, 2);
        out.append(" GiB");
        assert(empty + fixed(v as int, 2) =~= fixed(v as int, 2));
    } else if x >= 0x10_0000 {
        let v: u128 = floats::round_half_even(x * 10, 0x10_0000);
        push_fixed(&mut out, v, 1);
        out.append(" MiB");
        assert(empty + fixed(v as int, 1) =~= fixed(v as int, 1));
    } else if x >= 0x400 {
        let v: u128 = floats::round_half_even(x * 10, 0x400);
        push_fixed(&mut out, v, 1);
        out.append(" KiB");
        assert(empty + fixed(v as int, 1) =~= fixed(v as int, 1));
    } else {
        text::push_dec(&mut out, n);
        out.append(" B");
        assert(empty + text::dec(n as nat) =~= text::dec(n as nat));
    }
    out
}

/// Counts below the limit of a double's exact integers are rounded once only, in
/// their decimal form.
pub proof fn exact_counts_are_not_rounded(n: int)
    requires
        0 <= n < 0x20_0000_0000_0000,
    ensures
        significand53(n) == n,
{
    assert(floats::grain(n, 0x20_0000_0000_0000) == 1);
    assert(floats::half_even(n, 1) == n);
}

} // verus!
