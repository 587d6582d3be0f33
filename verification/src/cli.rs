//! Command lines: what the arguments of each program ask for.

use crate::text;
use vstd::prelude::*;
use vstd::string::*;

verus! {

/// How decoding is traced.
#[derive(Clone, Copy, Debug, PartialEq, Eq, Structural)]
pub enum TraceMode {
    Host,
    Json,
    Sync,
}

/// Which weights a benchmark uses.
#[derive(Clone, Copy, Debug, PartialEq, Eq, Structural)]
pub enum ModelChoice {
    Unset,
    /// The directory that an argument names.
    Dir(usize),
    Cache31b,
    CacheE4b,
}

/// What a benchmark's arguments ask for.
#[derive(Clone, Debug)]
pub struct BenchArgs {
    pub e4b: bool,
    pub b31: bool,
    pub dflash: bool,
    pub dflash_31b: bool,
    pub help: bool,
    pub model: ModelChoice,
    pub trace: Option<TraceMode>,
    /// The arguments that mean nothing.
    pub unknown: Vec<usize>,
}

/// The same as a mathematical value.
pub struct BenchArgsV {
    pub e4b: bool,
    pub b31: bool,
    pub dflash: bool,
    pub dflash_31b: bool,
    pub help: bool,
    pub model: ModelChoice,
    pub trace: Option<TraceMode>,
    pub unknown: Seq<usize>,
}

impl View for BenchArgs {
    type V = BenchArgsV;

    open spec fn view(&self) -> BenchArgsV {
        BenchArgsV {
            e4b: self.e4b,
            b31: self.b31,
            dflash: self.dflash,
            dflash_31b: self.dflash_31b,
            help: self.help,
            model: self.model,
            trace: self.trace,
            unknown: self.unknown@,
        }
    }
}

/// Nothing asked for.
pub open spec fn bench_nothing() -> BenchArgsV {
    BenchArgsV {
        e4b: false,
        b31: false,
        dflash: false,
        dflash_31b: false,
        help: false,
        model: ModelChoice::Unset,
        trace: None,
        unknown: Seq::empty(),
    }
}

/// What the value of a model argument asks for.
pub open spec fn with_model(s: BenchArgsV, v: Seq<char>, at: int) -> BenchArgsV {
    if v == "31b"@ || v == "31B"@ {
        BenchArgsV { b31: true, model: ModelChoice::Cache31b, ..s }
    } else if v == "e4b"@ || v == "E4B"@ {
        BenchArgsV { e4b: true, model: ModelChoice::CacheE4b, ..s }
    } else {
        BenchArgsV { model: ModelChoice::Dir(at as usize), ..s }
    }
}

/// What a single argument other than the model one asks for.
pub open spec fn with_flag(s: BenchArgsV, a: Seq<char>, at: int) -> BenchArgsV {
    if a == "--e4b"@ {
        BenchArgsV { e4b: true, ..s }
    } else if a == "--dflash"@ {
        BenchArgsV { dflash: true, ..s }
    } else if a == "--dflash-31b"@ {
        BenchArgsV { dflash: true, dflash_31b: true, ..s }
    } else if a == "--trace"@ {
        BenchArgsV { trace: Some(TraceMode::Host), ..s }
    } else if a == "--trace-json"@ {
        BenchArgsV { trace: Some(TraceMode::Json), ..s }
    } else if a == "--trace-sync"@ {
        BenchArgsV { trace: Some(TraceMode::Sync), ..s }
    } else if a == "-h"@ || a == "--help"@ {
        BenchArgsV { help: true, ..s }
    } else {
        BenchArgsV { unknown: s.unknown.push(at as usize), ..s }
    }
}

/// What the arguments from number `i` on ask for, after what came before. A request
/// for help ends the reading; the last model argument counts.
pub open spec fn bench_scan(args: Seq<Seq<char>>, i: int, s: BenchArgsV) -> BenchArgsV
    decreases args.len() - i,
{
    if i >= args.len() || s.help {
        s
    } else if args[i] == "--model"@ {
        if i + 1 < args.len() {
            bench_scan(args, i + 2, with_model(s, args[i + 1], i + 1))
        } else {
            BenchArgsV { model: ModelChoice::Unset, ..s }
        }
    } else {
        bench_scan(args, i + 1, with_flag(s, args[i], i))
    }
}

impl BenchArgs {
    fn take_model(&mut self, v: &str, at: usize)
        ensures
            final(self)@ == with_model(old(self)@, v@, at as int),
    {
        if text::str_eq(v, "31b") || text::str_eq(v, "31B") {
            self.b31 = true;
            self.model = ModelChoice::Cache31b;
        } else if text::str_eq(v, "e4b") || text::str_eq(v, "E4B") {
            self.e4b = true;
            self.model = ModelChoice::CacheE4b;
        } else {
            self.model = ModelChoice::Dir(at);
        }
    }

    fn take_flag(&mut self, a: &str, at: usize)
        ensures
            final(self)@ == with_flag(old(self)@, a@, at as int),
    {
        if text::str_eq(a, "--e4b") {
            self.e4b = true;
        } else if text::str_eq(a, "--dflash") {
            self.dflash = true;
        } else if text::str_eq(a, "--dflash-31b") {
            self.dflash = true;
            self.dflash_31b = true;
        } else if text::str_eq(a, "--trace") {
            self.trace = Some(TraceMode::Host);
        } else if text::str_eq(a, "--trace-json") {
            self.trace = Some(TraceMode::Json);
        } else if text::str_eq(a, "--trace-sync") {
            self.trace = Some(TraceMode::Sync);
        } else if text::str_eq(a, "-h") || text::str_eq(a, "--help") {
            self.help = true;
        } else {
            self.unknown.push(at);
        }
    }

    /// Reads a benchmark's arguments.
    pub fn parse(args: &Vec<String>) -> (r: BenchArgs)
        ensures
            r@ == bench_scan(text::views(args@), 0, bench_nothing()),
    {
        let mut s = BenchArgs {
            e4b: false,
            b31: false,
            dflash: false,
            dflash_31b: false,
            help: false,
            model: ModelChoice::Unset,
            trace: None,
            unknown: Vec::new(),
        };
        let n: usize = args.len();
        let ghost w = text::views(args@);
        assert(s@.unknown =~= Seq::<usize>::empty());
        let mut i: usize = 0;
        while i < n && !s.help
            invariant
                i <= n,
                n == args@.len(),
                w == text::views(args@),
                w.len() == n,
                bench_scan(w, 0, bench_nothing()) == bench_scan(w, i as int, s@),
            decreases n - i,
        {
            assert(w[i as int] == args@[i as int]@);
            if text::str_eq(args[i].as_str(), "--model") {
                if i + 1 < n {
                    assert(w[i + 1] == args@[i + 1]@);
                    s.take_model(args[i + 1].as_str(), i + 1);
                    i = i + 2;
                } else {
                    s.model = ModelChoice::Unset;
                    i = i + 1;
                }
            } else {
                s.take_flag(args[i].as_str(), i);
                i = i + 1;
            }
        }
        s
    }

    /// Whether a real model is measured, where `found` says whether a directory was
    /// found for the chosen one: a model of any kind asks for it.
    pub fn runs_real_model(&self, found: bool) -> (r: bool)
        ensures
            r == (self.e4b || self.b31 || found),
    {
        self.e4b || self.b31 || found
    }
}

/// A digit's value.
pub open spec fn digit_value(c: char) -> Option<int> {
    if 48 <= (c as u32) <= 57 {
        Some((c as u32) - 48)
    } else {
        None
    }
}

/// The number that the first `n` characters write, all of them digits.
pub open spec fn number_of(s: Seq<char>, n: int) -> Option<int>
    decreases n,
{
    if n <= 0 {
        Some(0)
    } else {
        match (number_of(s, n - 1), digit_value(s[n - 1])) {
            (Some(a), Some(d)) => Some(10 * a + d),
            _ => None,
        }
    }
}

/// The digits of a written number: a plus sign may stand before them.
pub open spec fn digits_of(s: Seq<char>) -> Seq<char> {
    if s.len() > 0 && s[0] == '+' {
        s.subrange(1, s.len() as int)
    } else {
        s
    }
}

/// The number that a text writes, up to a limit.
pub open spec fn parsed(s: Seq<char>, limit: int) -> Option<int> {
    let d = digits_of(s);
    if d.len() == 0 {
        None
    } else {
        match number_of(d, d.len() as int) {
            Some(n) => if n <= limit {
                Some(n)
            } else {
                None
            },
            None => None,
        }
    }
}

proof fn lemma_number_grows(s: Seq<char>, n: int, m: int)
    requires
        0 <= n <= m,
        number_of(s, n) is Some,
    ensures
        number_of(s, n)->0 >= 0,
        number_of(s, m) is Some ==> number_of(s, m)->0 >= number_of(s, n)->0,
    decreases m,
{
    if n < m {
        if number_of(s, m) is Some {
            lemma_number_grows(s, n, m - 1);
        } else {
            lemma_number_grows(s, n, n);
        }
    } else if n > 0 {
        lemma_number_grows(s, n - 1, n - 1);
    }
}

proof fn lemma_not_a_number(s: Seq<char>, n: int, m: int)
    requires
        0 <= n <= m,
        number_of(s, n) is None,
    ensures
        number_of(s, m) is None,
    decreases m,
{
    if n < m {
        lemma_not_a_number(s, n, m - 1);
    }
}

/// The number that a text writes, up to a limit.
pub fn parse_number(s: &str, limit: u64) -> (r: Option<u64>)
    ensures
        match r {
            Some(n) => parsed(s@, limit as int) == Some(n as int),
            None => parsed(s@, limit as int) is None,
        },
{
    let cs = text::chars_of(s);
    let n: usize = cs.len();
    let start: usize = if n > 0 && cs[0] == '+' {
        1
    } else {
        0
    };
    if start == n {
        return None;
    }
    let ghost d = digits_of(s@);
    assert(d =~= s@.subrange(start as int, n as int));
    let mut total: u64 = 0;
    let mut i: usize = start;
    while i < n
        invariant
            start <= i <= n,
            n == cs@.len(),
            cs@ == s@,
            d == s@.subrange(start as int, n as int),
            d == digits_of(s@),
            d.len() > 0,
            total <= limit,
            number_of(d, i - start) == Some(total as int),
        decreases n - i,
    {
        let c: char = cs[i];
        assert(d[i - start] == c);
        let u: u32 = c as u32;
        if u < 48 || u > 57 {
            proof {
                assert(number_of(d, i - start + 1) is None);
                lemma_not_a_number(d, i - start + 1, d.len() as int);
            }
            return None;
        }
        let v: u64 = (u - 48) as u64;
        assert(digit_value(c) == Some(v as int));
        assert(number_of(d, i - start + 1) == Some(10 * total + v));
        if total > limit / 10 || v > limit - 10 * total {
            proof {
                lemma_number_grows(d, i - start + 1, d.len() as int);
            }
            return None;
        }
        total = 10 * total + v;
        i = i + 1;
    }
    Some(total)
}

/// What a server's arguments ask for.
#[derive(Clone, Copy, Debug, PartialEq, Eq, Structural)]
pub struct ServeArgs {
    pub port: u16,
    /// The argument that names the preset, where one does.
    pub preset: Option<usize>,
    pub help: bool,
}

/// What a server's arguments from number `i` on ask for, after what came before.
/// What writes no port leaves the port as it was; a preset argument without a value
/// asks for the default one.
pub open spec fn serve_scan(args: Seq<Seq<char>>, i: int, s: ServeArgs) -> ServeArgs
    decreases args.len() - i,
{
    if i >= args.len() || s.help {
        s
    } else if args[i] == "--port"@ {
        if i + 1 < args.len() {
            serve_scan(
                args,
                i + 2,
                match parsed(args[i + 1], 65535) {
                    Some(p) => ServeArgs { port: p as u16, ..s },
                    None => s,
                },
            )
        } else {
            s
        }
    } else if args[i] == "--preset"@ {
        if i + 1 < args.len() {
            serve_scan(args, i + 2, ServeArgs { preset: Some((i + 1) as usize), ..s })
        } else {
            ServeArgs { preset: None, ..s }
        }
    } else if args[i] == "-h"@ || args[i] == "--help"@ {
        ServeArgs { help: true, ..s }
    } else {
        serve_scan(args, i + 1, s)
    }
}

impl ServeArgs {
    /// Reads a server's arguments.
    pub fn parse(args: &Vec<String>) -> (r: ServeArgs)
        ensures
            r == serve_scan(
                text::views(args@),
                0,
                ServeArgs { port: 8787, preset: None, help: false },
            ),
    {
        let mut s = ServeArgs { port: 8787, preset: None, help: false };
        let ghost first = s;
        let n: usize = args.len();
        let ghost w = text::views(args@);
        let mut i: usize = 0;
        while i < n && !s.help
            invariant
                i <= n,
                n == args@.len(),
                w == text::views(args@),
                w.len() == n,
                serve_scan(w, 0, first) == serve_scan(w, i as int, s),
            decreases n - i,
        {
            assert(w[i as int] == args@[i as int]@);
            let a = args[i].as_str();
            if text::str_eq(a, "--port") {
                if i + 1 < n {
                    assert(w[i + 1] == args@[i + 1]@);
                    match parse_number(args[i + 1].as_str(), 65535) {
                        Some(p) => {
                            proof {
                                let d = digits_of(w[i + 1]);
                                lemma_number_grows(d, 0, d.len() as int);
                            }
                            s.port = p as u16;
                        },
                        None => {},
                    }
                    i = i + 2;
                } else {
                    i = i + 1;
                }
            } else if text::str_eq(a, "--preset") {
                if i + 1 < n {
                    s.preset = Some(i + 1);
                    i = i + 2;
                } else {
                    s.preset = None;
                    i = i + 1;
                }
            } else if text::str_eq(a, "-h") || text::str_eq(a, "--help") {
                s.help = true;
                i = i + 1;
            } else {
                i = i + 1;
            }
        }
        s
    }
}

/// What a parity check is asked to do.
#[derive(Clone, Copy, Debug, PartialEq, Eq, Structural)]
pub enum GoldenMode {
    ShortDump,
    FreeGen,
    Compare,
}

/// A word stands among words.
pub open spec fn among(w: Seq<Seq<char>>, a: Seq<char>) -> bool {
    exists|i: int| 0 <= i < w.len() && #[trigger] w[i] == a
}

fn has_word(args: &Vec<String>, a: &str) -> (r: bool)
    ensures
        r == among(text::views(args@), a@),
{
    let ghost w = text::views(args@);
    let mut i: usize = 0;
    while i < args.len()
        invariant
            i <= args@.len(),
            w == text::views(args@),
            forall|j: int| 0 <= j < i ==> #[trigger] w[j] != a@,
        decreases args@.len() - i,
    {
        assert(w[i as int] == args@[i as int]@);
        if text::str_eq(args[i].as_str(), a) {
            return true;
        }
        i = i + 1;
    }
    false
}

/// What a parity check's arguments, its own name among them, ask for.
pub fn golden_mode(argv: &Vec<String>) -> (r: GoldenMode)
    ensures
        r == (if among(text::views(argv@), "--short-dump"@) {
            GoldenMode::ShortDump
        } else if among(text::views(argv@), "--free-gen"@) {
            GoldenMode::FreeGen
        } else {
            GoldenMode::Compare
        }),
{
    if has_word(argv, "--short-dump") {
        GoldenMode::ShortDump
    } else if has_word(argv, "--free-gen") {
        GoldenMode::FreeGen
    } else {
        GoldenMode::Compare
    }
}

/// The number that an argument writes, or a default.
pub fn count_argument(argv: &Vec<String>, at: usize, default: u64) -> (r: u64)
    ensures
        r == (if at < argv@.len() {
            match parsed(argv@[at as int]@, usize::MAX as int) {
                Some(n) => n,
                None => default as int,
            }
        } else {
            default as int
        }),
{
    if at < argv.len() {
        match parse_number(argv[at].as_str(), usize::MAX as u64) {
            Some(n) => n,
            None => default,
        }
    } else {
        default
    }
}

/// Whether a health check is asked for the 31B model: by the first of its arguments,
/// past its own name, that names a model.
pub open spec fn health_31b(w: Seq<Seq<char>>, i: int) -> bool
    decreases w.len() - i,
{
    if i >= w.len() {
        false
    } else if w[i] == "e4b"@ {
        false
    } else if w[i] == "31b"@ {
        true
    } else {
        health_31b(w, i + 1)
    }
}

/// Whether a health check is asked for the 31B model.
pub fn asks_health_31b(argv: &Vec<String>) -> (r: bool)
    ensures
        r == health_31b(text::views(argv@), 1),
{
    let ghost w = text::views(argv@);
    let mut i: usize = 1;
    while i < argv.len()
        invariant
            1 <= i,
            w == text::views(argv@),
            w.len() == argv@.len(),
            health_31b(w, 1) == health_31b(w, i as int),
        decreases argv@.len() - i,
    {
        assert(w[i as int] == argv@[i as int]@);
        if text::str_eq(argv[i].as_str(), "e4b") {
            return false;
        }
        if text::str_eq(argv[i].as_str(), "31b") {
            return true;
        }
        i = i + 1;
    }
    false
}

} // verus!
