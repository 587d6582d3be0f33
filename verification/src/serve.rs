//! The server's answers: what a request asks for and what is sent back.

use crate::config::Gemma4TextConfig;
use crate::load;
use crate::text;
use vstd::prelude::*;
use vstd::string::*;

verus! {

/// The model that is served.
#[derive(Clone, Copy, Debug, PartialEq, Eq, Structural)]
pub enum Preset {
    E4b,
    B31,
}

/// The preset that a name asks for.
pub open spec fn preset_named(name: Option<Seq<char>>) -> Preset {
    if name == Some("31b"@) || name == Some("b31"@) {
        Preset::B31
    } else {
        Preset::E4b
    }
}

impl Preset {
    /// The preset that a name asks for; the small model where it asks for nothing
    /// known.
    pub fn named(name: Option<&str>) -> (r: Preset)
        ensures
            r == preset_named(
                match name {
                    Some(n) => Some(n@),
                    None => None,
                },
            ),
    {
        match name {
            Some(n) => if text::str_eq(n, "31b") || text::str_eq(n, "b31") {
                Preset::B31
            } else {
                Preset::E4b
            },
            None => Preset::E4b,
        }
    }

    /// The preset's name.
    pub fn name(self) -> (r: &'static str)
        ensures
            r@ == (match self {
                Preset::E4b => "e4b"@,
                Preset::B31 => "31b"@,
            }),
    {
        match self {
            Preset::E4b => "e4b",
            Preset::B31 => "31b",
        }
    }

    /// The name under which the model is listed.
    pub fn model_id(self) -> (r: &'static str)
        ensures
            r@ == (match self {
                Preset::E4b => "gemma-metal-e4b"@,
                Preset::B31 => "gemma-metal-31b"@,
            }),
    {
        match self {
            Preset::E4b => "gemma-metal-e4b",
            Preset::B31 => "gemma-metal-31b",
        }
    }

    /// The model's text shapes.
    pub fn text_config(self) -> (r: Gemma4TextConfig)
        ensures
            match self {
                Preset::E4b => crate::config::is_e4b(r),
                Preset::B31 => crate::config::is_b31(r),
            },
            crate::config::config_fault(r) is None,
    {
        match self {
            Preset::E4b => Gemma4TextConfig::e4b_preset(),
            Preset::B31 => Gemma4TextConfig::b31_preset(),
        }
    }
}

/// What is said of the weights in use, where loading the large model may have failed.
pub fn backend_note(preset: Preset, load_error: Option<&str>) -> (r: String)
    ensures
        preset == Preset::E4b ==> r@
            == "E4B serve uses synthetic mini unless client loads via bench --e4b"@,
        preset == Preset::B31 && load_error is None ==> r@
            == "Hot Q4 loaded from mlx-community/gemma-4-31b-it-4bit"@,
        preset == Preset::B31 && load_error is Some ==> r@ == "31B Hot load unavailable ("@
            + load_error->0@
            + "); synthetic mini fallback — Ollama gemma4:31b-mlx ~12.3 tok/s Phase-0"@,
{
    match preset {
        Preset::E4b => String::from_str(
            "E4B serve uses synthetic mini unless client loads via bench --e4b",
        ),
        Preset::B31 => match load_error {
            None => String::from_str("Hot Q4 loaded from mlx-community/gemma-4-31b-it-4bit"),
            Some(e) => text::text_around(
                "31B Hot load unavailable (",
                e,
                "); synthetic mini fallback — Ollama gemma4:31b-mlx ~12.3 tok/s Phase-0",
            ),
        },
    }
}

/// What a request asks for.
#[derive(Clone, Copy, Debug, PartialEq, Eq, Structural)]
pub enum Route {
    Health,
    Models,
    Chat,
    NotFound,
}

/// What a request asks for: its first line begins with a method and a path.
pub open spec fn routed(request: Seq<char>) -> Route {
    if text::occurs_at(request, "GET /health"@, 0) {
        Route::Health
    } else if text::occurs_at(request, "GET /v1/models"@, 0) {
        Route::Models
    } else if text::occurs_at(request, "POST /v1/chat/completions"@, 0) {
        Route::Chat
    } else {
        Route::NotFound
    }
}

/// What a request asks for.
pub fn route(request: &str) -> (r: Route)
    ensures
        r == routed(request@),
{
    if text::starts_with(request, "GET /health") {
        Route::Health
    } else if text::starts_with(request, "GET /v1/models") {
        Route::Models
    } else if text::starts_with(request, "POST /v1/chat/completions") {
        Route::Chat
    } else {
        Route::NotFound
    }
}

/// A text with single quotes in place of double ones.
pub open spec fn single_quoted(s: Seq<char>) -> Seq<char> {
    s.map_values(
        |c: char|
            if c == '"' {
                '\''
            } else {
                c
            },
    )
}

fn push_single_quoted(out: &mut String, s: &str)
    ensures
        final(out)@ == old(out)@ + single_quoted(s@),
{
    let ghost before = out@;
    let n: usize = s.unicode_len();
    let mut i: usize = 0;
    proof {
        reveal_strlit("'");
        assert(before + single_quoted(s@.subrange(0, 0)) =~= before);
    }
    while i < n
        invariant
            i <= n,
            n == s@.len(),
            out@ == before + single_quoted(s@.subrange(0, i as int)),
            "'"@ == seq!['\''],
        decreases n - i,
    {
        if s.get_char(i) == '"' {
            out.append("'");
        } else {
            out.append(s.substring_char(i, i + 1));
        }
        i = i + 1;
        assert(out@ =~= before + single_quoted(s@.subrange(0, i as int)));
    }
    assert(s@.subrange(0, i as int) =~= s@);
}

/// The body of the answer to a health request.
pub fn health_body(version: &str, preset: Preset, note: &str) -> (r: String)
    ensures
        r@ == "{\"ok\":true,\"version\":\""@ + version@ + "\",\"preset\":\""@ + (match preset {
            Preset::E4b => "e4b"@,
            Preset::B31 => "31b"@,
        }) + "\",\"model\":\""@ + (match preset {
            Preset::E4b => "gemma-metal-e4b"@,
            Preset::B31 => "gemma-metal-31b"@,
        }) + "\",\"hot\":\""@ + single_quoted(note@) + "\"}"@,
{
    let mut out = text::text_around("{\"ok\":true,\"version\":\"", version, "\",\"preset\":\"");
    out.append(preset.name());
    out.append("\",\"model\":\"");
    out.append(preset.model_id());
    out.append("\",\"hot\":\"");
    push_single_quoted(&mut out, note);
    out.append("\"}");
    out
}

/// The body of the answer to a request for the models.
pub fn models_body(preset: Preset) -> (r: String)
    ensures
        r@ == "{\"object\":\"list\",\"data\":[{\"id\":\""@ + (match preset {
            Preset::E4b => "gemma-metal-e4b"@,
            Preset::B31 => "gemma-metal-31b"@,
        })
            + "\",\"object\":\"model\",\"owned_by\":\"gemma-metal\"},{\"id\":\"gemma-metal-31b\",\"object\":\"model\",\"owned_by\":\"gemma-metal\"}]}"@,
{
    text::text_around(
        "{\"object\":\"list\",\"data\":[{\"id\":\"",
        preset.model_id(),
        "\",\"object\":\"model\",\"owned_by\":\"gemma-metal\"},{\"id\":\"gemma-metal-31b\",\"object\":\"model\",\"owned_by\":\"gemma-metal\"}]}",
    )
}

/// The first `n` tokens of a list, with commas between.
pub open spec fn listed(v: Seq<u32>, n: int) -> Seq<char>
    decreases n,
{
    if n <= 0 {
        Seq::empty()
    } else if n == 1 {
        text::dec(v[0] as nat)
    } else {
        listed(v, n - 1) + ", "@ + text::dec(v[n - 1] as nat)
    }
}

/// The content of a completion: the tokens as a list.
pub fn token_content(v: &[u32]) -> (r: String)
    ensures
        r@ == "tokens=["@ + listed(v@, v@.len() as int) + "]"@,
{
    let mut out = String::from_str("tokens=[");
    let mut i: usize = 0;
    assert("tokens=["@ + listed(v@, 0) =~= "tokens=["@);
    while i < v.len()
        invariant
            i <= v@.len(),
            out@ == "tokens=["@ + listed(v@, i as int),
        decreases v@.len() - i,
    {
        if i > 0 {
            out.append(", ");
        }
        text::push_dec(&mut out, v[i] as u64);
        i = i + 1;
        assert(out@ =~= "tokens=["@ + listed(v@, i as int));
    }
    out.append("]");
    out
}

/// What `serde_json::to_string` gives for a text.
pub uninterp spec fn json_quoted(s: Seq<char>) -> Option<Seq<char>>;

/// Writes a text as a JSON string with `serde_json::to_string`; nothing where that
/// fails. The result is a function of the text alone.
#[verifier::external_body]
fn quote_json(s: &str) -> (r: Option<String>)
    ensures
        load::text_view(r) == json_quoted(s@),
{
    serde_json::to_string(s).ok()
}

/// The body of a completion, with its content written as JSON.
pub open spec fn completion(created: int, preset: Preset, quoted: Option<Seq<char>>) -> Seq<char> {
    "{\"id\":\"chatcmpl-gemma\",\"object\":\"chat.completion\",\"created\":"@ + text::dec(
        created as nat,
    ) + ",\"model\":\""@ + (match preset {
        Preset::E4b => "gemma-metal-e4b"@,
        Preset::B31 => "gemma-metal-31b"@,
    }) + "\",\"choices\":[{\"index\":0,\"message\":{\"role\":\"assistant\",\"content\":"@ + (
    match quoted {
        Some(q) => q,
        None => "\"ok\""@,
    }) + "},\"finish_reason\":\"stop\"}]}"@
}

/// The body of a completion, from its content written as JSON.
pub fn completion_body(created: u64, preset: Preset, quoted: Option<String>) -> (r: String)
    ensures
        r@ == completion(created as int, preset, load::text_view(quoted)),
{
    let mut out = text::text1(
        "{\"id\":\"chatcmpl-gemma\",\"object\":\"chat.completion\",\"created\":",
        created,
        ",\"model\":\"",
    );
    out.append(preset.model_id());
    out.append("\",\"choices\":[{\"index\":0,\"message\":{\"role\":\"assistant\",\"content\":");
    match quoted {
        Some(q) => {
            out.append(q.as_str());
        },
        None => {
            out.append("\"ok\"");
        },
    }
    out.append("},\"finish_reason\":\"stop\"}]}");
    out
}

/// The body of the answer to a chat request that came to tokens.
pub fn chat_body(created: u64, preset: Preset, tokens: &[u32]) -> (r: String)
    ensures
        r@ == completion(
            created as int,
            preset,
            json_quoted("tokens=["@ + listed(tokens@, tokens@.len() as int) + "]"@),
        ),
{
    let content = token_content(tokens);
    completion_body(created, preset, quote_json(content.as_str()))
}

/// The body of the answer to anything else.
pub fn not_found_body() -> (r: &'static str)
    ensures
        r@ == "{\"error\":\"not found\"}"@,
{
    "{\"error\":\"not found\"}"
}

/// Bytes of a character.
pub open spec fn char_bytes(c: char) -> int {
    let u = c as u32;
    if u < 0x80 {
        1
    } else if u < 0x800 {
        2
    } else if u < 0x1_0000 {
        3
    } else {
        4
    }
}

/// Bytes of the first `n` characters.
pub open spec fn bytes_of(s: Seq<char>, n: int) -> int
    decreases n,
{
    if n <= 0 {
        0
    } else {
        bytes_of(s, n - 1) + char_bytes(s[n - 1])
    }
}

fn byte_len(s: &str) -> (r: u64)
    requires
        s@.len() <= 0x1000_0000_0000_0000,
    ensures
        r == bytes_of(s@, s@.len() as int),
{
    let n: usize = s.unicode_len();
    let mut total: u64 = 0;
    let mut i: usize = 0;
    while i < n
        invariant
            i <= n,
            n == s@.len(),
            n <= 0x1000_0000_0000_0000,
            total <= 4 * i,
            total == bytes_of(s@, i as int),
        decreases n - i,
    {
        let u: u32 = s.get_char(i) as u32;
        let k: u64 = if u < 0x80 {
            1
        } else if u < 0x800 {
            2
        } else if u < 0x1_0000 {
            3
        } else {
            4
        };
        total = total + k;
        i = i + 1;
    }
    total
}

/// The status line's text for a code.
pub open spec fn status_text(code: u16) -> Seq<char> {
    if code == 200 {
        "200 OK"@
    } else if code == 404 {
        "404 Not Found"@
    } else {
        "500 Internal Server Error"@
    }
}

/// A whole answer: its head and its body.
pub fn write_json(code: u16, body: &str) -> (r: String)
    requires
        body@.len() <= 0x1000_0000_0000_0000,
    ensures
        r@ == "HTTP/1.1 "@ + status_text(code)
            + "\r\nContent-Type: application/json\r\nContent-Length: "@ + text::dec(
            bytes_of(body@, body@.len() as int) as nat,
        ) + "\r\nConnection: close\r\n\r\n"@ + body@,
{
    let status = if code == 200 {
        "200 OK"
    } else if code == 404 {
        "404 Not Found"
    } else {
        "500 Internal Server Error"
    };
    let mut out = text::text_around(
        "HTTP/1.1 ",
        status,
        "\r\nContent-Type: application/json\r\nContent-Length: ",
    );
    text::push_dec(&mut out, byte_len(body));
    out.append("\r\nConnection: close\r\n\r\n");
    out.append(body);
    out
}

/// Every request that is not one of the three known ones is answered as not found.
pub proof fn other_requests_are_not_found(request: Seq<char>)
    requires
        !text::occurs_at(request, "GET /health"@, 0),
        !text::occurs_at(request, "GET /v1/models"@, 0),
        !text::occurs_at(request, "POST /v1/chat/completions"@, 0),
    ensures
        routed(request) == Route::NotFound,
{
}

/// No request is taken for two things at once.
pub proof fn routes_are_disjoint(request: Seq<char>)
    ensures
        !(text::occurs_at(request, "GET /health"@, 0) && text::occurs_at(
            request,
            "GET /v1/models"@,
            0,
        )),
        !(text::occurs_at(request, "GET /health"@, 0) && text::occurs_at(
            request,
            "POST /v1/chat/completions"@,
            0,
        )),
        !(text::occurs_at(request, "GET /v1/models"@, 0) && text::occurs_at(
            request,
            "POST /v1/chat/completions"@,
            0,
        )),
{
    reveal_strlit("GET /health");
    reveal_strlit("GET /v1/models");
    reveal_strlit("POST /v1/chat/completions");
    let h = "GET /health"@;
    let m = "GET /v1/models"@;
    let c = "POST /v1/chat/completions"@;
    assert(h[5] == 'h' && m[5] == 'v' && c[0] == 'P' && h[0] == 'G' && m[0] == 'G');
    if text::occurs_at(request, h, 0) {
        assert(request[5] == request.subrange(0, h.len() as int)[5]);
        assert(request[0] == request.subrange(0, h.len() as int)[0]);
    }
    if text::occurs_at(request, m, 0) {
        assert(request[5] == request.subrange(0, m.len() as int)[5]);
        assert(request[0] == request.subrange(0, m.len() as int)[0]);
    }
    if text::occurs_at(request, c, 0) {
        assert(request[0] == request.subrange(0, c.len() as int)[0]);
    }
}

} // verus!
