//! The host reference forward: which rows it reads, which it keeps, and the
//! synthetic graph that it runs on. Weights are drawn integers; the caller scales
//! them to floats.

use crate::config::{EosIds, Gemma4TextConfig, LayerType, RopeParameters};
use crate::error;
use crate::error::{Error, ErrorV, Result};
use crate::floats;
use crate::generate;
use crate::kv;
use crate::kv::{KvLayout, KvRole};
use crate::kv_slot;
use crate::text;
use vstd::prelude::*;
use vstd::string::*;

verus! {

/// A recorded activation; its floats as bits.
#[derive(Clone, Debug)]
pub struct ActivationDump {
    pub name: String,
    pub shape: Vec<usize>,
    pub data: Vec<u32>,
}

/// The activations recorded during a forward, in order.
#[derive(Clone, Debug)]
pub struct ForwardDumps {
    pub dumps: Vec<ActivationDump>,
}

impl ForwardDumps {
    /// The first recording of a name.
    pub open spec fn found(self, name: Seq<char>, i: int) -> bool {
        &&& 0 <= i < self.dumps@.len()
        &&& self.dumps@[i].name@ == name
        &&& forall|j: int| 0 <= j < i ==> (#[trigger] self.dumps@[j]).name@ != name
    }

    /// The name was recorded.
    pub open spec fn has(self, name: Seq<char>) -> bool {
        exists|i: int| 0 <= i < self.dumps@.len() && (#[trigger] self.dumps@[i]).name@ == name
    }

    /// Nothing recorded.
    pub fn new() -> (r: ForwardDumps)
        ensures
            r.dumps@.len() == 0,
    {
        ForwardDumps { dumps: Vec::new() }
    }

    /// Records an activation.
    pub fn push(&mut self, name: String, shape: Vec<usize>, data: Vec<u32>)
        ensures
            final(self).dumps@ == old(self).dumps@.push(ActivationDump { name, shape, data }),
    {
        self.dumps.push(ActivationDump { name, shape, data });
    }

    fn position(&self, name: &str) -> (r: Option<usize>)
        ensures
            match r {
                Some(i) => self.found(name@, i as int),
                None => !self.has(name@),
            },
    {
        let mut i: usize = 0;
        while i < self.dumps.len()
            invariant
                i <= self.dumps@.len(),
                forall|j: int| 0 <= j < i ==> (#[trigger] self.dumps@[j]).name@ != name@,
            decreases self.dumps@.len() - i,
        {
            if text::str_eq(self.dumps[i].name.as_str(), name) {
                return Some(i);
            }
            i = i + 1;
        }
        None
    }

    /// The first recording of a name.
    pub fn get(&self, name: &str) -> (r: Option<&ActivationDump>)
        ensures
            match r {
                Some(d) => exists|i: int| #[trigger] self.found(name@, i) && *d == self.dumps@[i],
                None => !self.has(name@),
            },
    {
        match self.position(name) {
            Some(i) => Some(&self.dumps[i]),
            None => None,
        }
    }
}

/// The first recording of the reference that is missing, or that compares badly.
pub open spec fn first_bad(
    cand: ForwardDumps,
    reference: ForwardDumps,
    passes: Seq<bool>,
    i: int,
) -> bool {
    &&& 0 <= i < reference.dumps@.len()
    &&& !cand.has(reference.dumps@[i].name@) || !passes[i]
    &&& forall|j: int|
        0 <= j < i ==> cand.has((#[trigger] reference.dumps@[j]).name@) && passes[j]
}

/// Compares two recordings by name, where `passes` says of each recording of the
/// reference whether the candidate's is within tolerance. Gives the first that is
/// not; one that is missing is an error.
pub fn compare_forward_dumps(
    cand: &ForwardDumps,
    reference: &ForwardDumps,
    passes: &[bool],
) -> (r: Result<Option<usize>>)
    requires
        passes@.len() == reference.dumps@.len(),
    ensures
        match r {
            Ok(None) => forall|j: int|
                0 <= j < reference.dumps@.len() ==> cand.has(
                    (#[trigger] reference.dumps@[j]).name@,
                ) && passes@[j],
            Ok(Some(i)) => first_bad(*cand, *reference, passes@, i as int) && cand.has(
                reference.dumps@[i as int].name@,
            ),
            Err(e) => exists|i: int|
                #[trigger] first_bad(*cand, *reference, passes@, i) && !cand.has(
                    reference.dumps@[i].name@,
                ) && e@ == error::config_error(
                    "missing dump '"@ + reference.dumps@[i].name@ + "'"@,
                ),
        },
{
    let mut i: usize = 0;
    while i < reference.dumps.len()
        invariant
            i <= reference.dumps@.len(),
            passes@.len() == reference.dumps@.len(),
            forall|j: int|
                0 <= j < i ==> cand.has((#[trigger] reference.dumps@[j]).name@) && passes@[j],
        decreases reference.dumps@.len() - i,
    {
        let name = reference.dumps[i].name.as_str();
        match cand.position(name) {
            None => {
                assert(first_bad(*cand, *reference, passes@, i as int));
                return Err(Error::Config(text::text_around("missing dump '", name, "'")));
            },
            Some(k) => {
                assert(cand.dumps@[k as int].name@ == name@);
            },
        }
        if !passes[i] {
            return Ok(Some(i));
        }
        assert forall|j: int| 0 <= j < i + 1 implies cand.has(
            (#[trigger] reference.dumps@[j]).name@,
        ) && passes@[j] by {
            if j == i {
                assert(cand.has(reference.dumps@[i as int].name@));
            }
        }
        i = i + 1;
    }
    Ok(None)
}

/// A key is visible to a query: it is not later, and not before the window.
pub open spec fn attends(q_abs: int, k_abs: int, window: Option<usize>) -> bool {
    &&& k_abs <= q_abs
    &&& match window {
        None => true,
        Some(w) => k_abs + w > q_abs,
    }
}

/// The keys that a query sees, as a range of rows.
pub fn visible_keys(q_abs: usize, kv_off: usize, tkv: usize, window: Option<usize>) -> (r: (
    usize,
    usize,
))
    requires
        q_abs < usize::MAX,
        kv_off + tkv <= usize::MAX,
    ensures
        r.0 <= r.1 <= tkv,
        forall|j: int|
            0 <= j < tkv ==> (r.0 <= j < r.1 <==> #[trigger] attends(
                q_abs as int,
                kv_off + j,
                window,
            )),
{
    let hi: usize = if kv_off > q_abs {
        0
    } else if q_abs - kv_off < tkv {
        q_abs - kv_off + 1
    } else {
        tkv
    };
    let first: usize = match window {
        None => 0,
        Some(w) => if q_abs + 1 > w {
            q_abs + 1 - w
        } else {
            0
        },
    };
    let lo: usize = if first <= kv_off {
        0
    } else {
        first - kv_off
    };
    if lo >= hi {
        (0, 0)
    } else {
        (lo, hi)
    }
}

/// The key head that a query head reads.
pub fn kv_head(hi: usize, h: usize, hkv: usize) -> (r: usize)
    requires
        0 < hkv <= h,
    ensures
        r == hi as int / (h as int / hkv as int),
{
    assert(h as int / hkv as int >= 1) by (nonlinear_arith)
        requires
            0 < hkv <= h,
    ;
    hi / (h / hkv)
}

/// Where head `hi` of row `t` begins, among `h` heads of `d` floats each.
pub fn head_offset(t: usize, h: usize, hi: usize, d: usize) -> (r: usize)
    requires
        hi < h,
        (t + 1) * h * d <= usize::MAX,
        d > 0,
    ensures
        r == (t * h + hi) * d,
        r + d <= (t + 1) * h * d,
{
    assert(t * h + hi + 1 <= (t + 1) * h) by (nonlinear_arith)
        requires
            hi < h,
    ;
    let ghost k = (t + 1) * h;
    assert(t * h + hi <= usize::MAX) by (nonlinear_arith)
        requires
            t * h + hi + 1 <= k,
            k * d <= usize::MAX,
            d >= 1,
            k == (t + 1) * h,
    ;
    assert(t * h >= 0) by (nonlinear_arith);
    let row: usize = t * h + hi;
    assert((row + 1) * d <= k * d) by (nonlinear_arith)
        requires
            row + 1 <= k,
            d > 0,
    ;
    assert((row + 1) * d == row * d + d) by (nonlinear_arith);
    row * d
}

/// The rotated part of a head, where only a fraction of it is rotated: an even width.
pub fn proportional_rope_dim(full_dim: usize, partial_bits: u64) -> (r: usize)
    ensures
        ({
            let w = floats::times_f64(full_dim as int, partial_bits);
            r == w - w % 2
        }),
{
    let w: usize = floats::floor_times_f64(full_dim, partial_bits);
    w - w % 2
}

/// The row of a table for a token; nothing where the token is not in it, which
/// reads as zeros.
pub fn table_row(tid: u32, vocab: usize, dim: usize) -> (r: Option<usize>)
    requires
        vocab * dim <= usize::MAX,
    ensures
        tid >= vocab ==> r is None,
        tid < vocab ==> (r matches Some(at) && at == tid * dim && at + dim <= vocab * dim),
{
    let t: usize = tid as usize;
    if t >= vocab {
        return None;
    }
    assert(t * dim + dim <= vocab * dim) by (nonlinear_arith)
        requires
            t + 1 <= vocab,
    ;
    Some(t * dim)
}

/// What a query of the reference forward reads: `tkv` rows from position
/// `kv_off` on.
#[derive(Clone, Copy, Debug, PartialEq, Eq, Structural)]
pub struct HostRead {
    pub kv_off: usize,
    pub tkv: usize,
}

/// The rows that layer `li` reads for position `ti`: a sliding writer its ring, a
/// global writer and a reader of a shared cache everything up to the position.
pub open spec fn host_read(l: KvLayout, window: int, li: int, ti: int) -> HostRead {
    if li < l.first_kv_shared && l.layers@[li].layer_type == LayerType::SlidingAttention {
        let n = kv_slot::min2(ti + 1, window);
        HostRead { kv_off: (ti + 1 - n) as usize, tkv: n as usize }
    } else {
        HostRead { kv_off: 0, tkv: (ti + 1) as usize }
    }
}

/// Some writing layer has the kind, so its shared cache is filled.
pub open spec fn fed(l: KvLayout, kind: LayerType) -> bool {
    exists|i: int|
        0 <= i < l.first_kv_shared && (#[trigger] l.layers@[i]).layer_type == kind
}

/// Every layer that reads a shared cache finds it filled.
pub open spec fn readers_fed(l: KvLayout) -> bool {
    forall|li: int|
        l.first_kv_shared <= li < l.layers@.len() ==> fed(
            l,
            (#[trigger] l.layers@[li]).layer_type,
        )
}

fn has_feeder(l: &KvLayout, kind: LayerType) -> (r: bool)
    requires
        l.wf(),
    ensures
        r == fed(*l, kind),
{
    let mut i: usize = 0;
    while i < l.first_kv_shared
        invariant
            i <= l.first_kv_shared <= l.layers@.len(),
            forall|j: int| 0 <= j < i ==> (#[trigger] l.layers@[j]).layer_type != kind,
        decreases l.first_kv_shared - i,
    {
        if l.layers[i].layer_type == kind {
            return true;
        }
        i = i + 1;
    }
    false
}

/// The first thing that stops a reference forward.
pub open spec fn prefill_fault(l: KvLayout, t: int) -> Option<ErrorV> {
    if t == 0 {
        Some(error::config_error("empty tokens"@))
    } else if l.first_kv_shared > 0 && t > l.max_seq {
        Some(error::kv_error("host KV full"@))
    } else if !readers_fed(l) {
        Some(error::kv_error("consumer ti=0 but shared tkv=0"@))
    } else {
        None
    }
}

/// What each layer reads for each of `t` positions, layer by layer. The caches that
/// layers write hold as many positions as the layout says.
pub fn host_forward_prefill(l: &KvLayout, window: usize, t: usize) -> (r: Result<
    Vec<Vec<HostRead>>,
>)
    requires
        l.wf(),
        window > 0,
        t < usize::MAX,
    ensures
        match prefill_fault(*l, t as int) {
            Some(e) => error::fails_with(r, e),
            None => r matches Ok(v) && v@.len() == l.layers@.len() && forall|li: int|
                0 <= li < v@.len() ==> (#[trigger] v@[li])@ == Seq::new(
                    t as nat,
                    |ti: int| host_read(*l, window as int, li, ti),
                ),
        },
{
    if t == 0 {
        return Err(Error::Config(String::from_str("empty tokens")));
    }
    if l.first_kv_shared > 0 && t > l.max_seq {
        return Err(Error::Kv(String::from_str("host KV full")));
    }
    let mut out: Vec<Vec<HostRead>> = Vec::new();
    let mut li: usize = 0;
    while li < l.layers.len()
        invariant
            li <= l.layers@.len(),
            l.wf(),
            0 < t < usize::MAX,
            l.first_kv_shared == 0 || t <= l.max_seq,
            window > 0,
            out@.len() == li,
            forall|k: int|
                l.first_kv_shared <= k < li ==> fed(*l, (#[trigger] l.layers@[k]).layer_type),
            forall|k: int|
                0 <= k < li ==> (#[trigger] out@[k])@ == Seq::new(
                    t as nat,
                    |ti: int| host_read(*l, window as int, k, ti),
                ),
        decreases l.layers@.len() - li,
    {
        let kind = l.layers[li].layer_type;
        let writes = li < l.first_kv_shared;
        if !writes && !has_feeder(l, kind) {
            proof {
                reveal_strlit("consumer ti=0 but shared tkv=0");
                reveal_strlit("consumer ti=");
                reveal_strlit(" but shared tkv=");
                assert(!fed(*l, l.layers@[li as int].layer_type));
                assert("consumer ti="@ + text::dec(0) + " but shared tkv="@ + text::dec(0)
                    =~= "consumer ti=0 but shared tkv=0"@);
            }
            return Err(Error::Kv(text::text_num2("consumer ti=", 0, " but shared tkv=", 0)));
        }
        let sliding = writes && kind.is_sliding();
        let mut row: Vec<HostRead> = Vec::new();
        let mut ti: usize = 0;
        while ti < t
            invariant
                ti <= t,
                t < usize::MAX,
                window > 0,
                li < l.layers@.len(),
                sliding == (li < l.first_kv_shared && l.layers@[li as int].layer_type
                    == LayerType::SlidingAttention),
                row@ == Seq::new(
                    ti as nat,
                    |k: int| host_read(*l, window as int, li as int, k),
                ),
            decreases t - ti,
        {
            let tkv: usize = if sliding && window < ti + 1 {
                window
            } else {
                ti + 1
            };
            row.push(HostRead { kv_off: ti + 1 - tkv, tkv });
            ti = ti + 1;
            assert(row@ =~= Seq::new(
                ti as nat,
                |k: int| host_read(*l, window as int, li as int, k),
            ));
        }
        out.push(row);
        li = li + 1;
    }
    Ok(out)
}

/// Every read ends at the position itself, so a query sees itself and nothing
/// later; and a window as wide as the ring hides nothing that was read.
pub proof fn host_reads_end_at_the_query(l: KvLayout, window: int, li: int, ti: int)
    requires
        l.wf(),
        window > 0,
        0 <= li < l.layers@.len(),
        0 <= ti < usize::MAX,
        window <= usize::MAX,
    ensures
        ({
            let r = host_read(l, window, li, ti);
            &&& r.kv_off + r.tkv == ti + 1
            &&& forall|j: int| #![trigger attends(ti, r.kv_off + j, None)]
                0 <= j < r.tkv ==> attends(ti, r.kv_off + j, None)
        }),
{
}

/// A query reads exactly the positions that it may see: none later than its own, and in a
/// sliding layer that writes its cache none that the window has left behind.
pub proof fn host_reads_are_the_visible_positions(
    l: KvLayout,
    window: int,
    li: int,
    ti: int,
    k: int,
)
    requires
        l.wf(),
        0 < window <= usize::MAX,
        0 <= li < l.layers@.len(),
        0 <= ti < usize::MAX,
    ensures
        ({
            let r = host_read(l, window, li, ti);
            let reads = r.kv_off <= k < r.kv_off + r.tkv;
            let slides = l.layers@[li].role is Producer && l.layers@[li].layer_type
                == LayerType::SlidingAttention;
            reads == (0 <= k <= ti && (slides ==> ti - k < window))
        }),
{
    assert(l.layers@[li].layer == li);
}

/// The names that a reference forward records, in order.
pub open spec fn dump_names(ple: Seq<bool>) -> Seq<Seq<char>> {
    seq!["embed"@] + layer_dump_names(ple, ple.len() as int) + seq!["final_norm"@, "logits"@]
}

/// The names recorded for the first `n` layers.
pub open spec fn layer_dump_names(ple: Seq<bool>, n: int) -> Seq<Seq<char>>
    decreases n,
{
    if n <= 0 {
        Seq::empty()
    } else {
        let p = "layer"@ + text::dec((n - 1) as nat);
        layer_dump_names(ple, n - 1) + seq![p + ".attn_out"@, p + ".mlp_out"@] + (if ple[n - 1] {
            seq![p + ".ple"@]
        } else {
            Seq::empty()
        })
    }
}

proof fn lemma_texts_push(v: Seq<String>, s: String)
    ensures
        text::views(v.push(s)) == text::views(v).push(s@),
{
    assert(text::views(v.push(s)) =~= text::views(v).push(s@));
}

/// The names that a reference forward records.
pub fn forward_dump_names(ple: &[bool]) -> (r: Vec<String>)
    ensures
        text::views(r@) == dump_names(ple@),
{
    let mut out: Vec<String> = Vec::new();
    let ghost head = seq!["embed"@];
    out.push(String::from_str("embed"));
    assert(text::views(out@) =~= head + layer_dump_names(ple@, 0));
    let mut i: usize = 0;
    while i < ple.len()
        invariant
            i <= ple@.len(),
            head == seq!["embed"@],
            text::views(out@) == head + layer_dump_names(ple@, i as int),
        decreases ple@.len() - i,
    {
        let ghost before = out@;
        let a = text::text1("layer", i as u64, ".attn_out");
        let b = text::text1("layer", i as u64, ".mlp_out");
        let c = text::text1("layer", i as u64, ".ple");
        proof {
            lemma_texts_push(before, a);
            lemma_texts_push(before.push(a), b);
            lemma_texts_push(before.push(a).push(b), c);
        }
        out.push(a);
        out.push(b);
        if ple[i] {
            out.push(c);
        }
        i = i + 1;
        assert(text::views(out@) =~= head + layer_dump_names(ple@, i as int));
    }
    let ghost before = out@;
    let n = String::from_str("final_norm");
    let g = String::from_str("logits");
    proof {
        lemma_texts_push(before, n);
        lemma_texts_push(before.push(n), g);
    }
    out.push(n);
    out.push(g);
    assert(text::views(out@) =~= dump_names(ple@));
    out
}

/// Bytes of the query buffer and of the key and value buffers of an attention
/// check. Sliding heads have 256 floats, global ones 512.
pub fn fa_parity_bytes(sliding: bool, tq: usize, tkv: usize, h: usize, hkv: usize, d: usize) -> (r:
    Result<(usize, usize)>)
    requires
        tq * h * d * 4 <= usize::MAX,
        tkv * hkv * d * 4 <= usize::MAX,
        tq * h <= usize::MAX,
        tkv * hkv <= usize::MAX,
    ensures
        sliding && d != 256 ==> error::fails_with(
            r,
            error::metal_error("SWA FA requires d=256"@),
        ),
        !sliding && d != 512 ==> error::fails_with(
            r,
            error::metal_error("global FA requires d=512"@),
        ),
        (sliding && d == 256) || (!sliding && d == 512) ==> r == Ok::<(usize, usize), Error>(
            (
                (tq * h * d * 4) as usize,
                (kv_slot::max2(tkv * hkv * d, 1) * 4) as usize,
            ),
        ),
{
    if sliding {
        if d != 256 {
            return Err(Error::Metal(String::from_str("SWA FA requires d=256")));
        }
    } else {
        if d != 512 {
            return Err(Error::Metal(String::from_str("global FA requires d=512")));
        }
    }
    assert(tq * h >= 0 && tkv * hkv >= 0) by (nonlinear_arith);
    let ghost a = tq * h;
    let ghost b = tkv * hkv;
    assert(a * d >= 0 && b * d >= 0) by (nonlinear_arith)
        requires
            a >= 0,
            b >= 0,
    ;
    let nq: usize = tq * h * d;
    let nkv: usize = tkv * hkv * d;
    let kv: usize = if nkv == 0 {
        1
    } else {
        nkv
    };
    Ok((nq * 4, kv * 4))
}

/// A greedy decode over the reference forward.
#[derive(Clone, Debug)]
pub struct HostDecode {
    pub prompt_len: usize,
    pub max_new: usize,
    pub out: Vec<u32>,
    pub done: bool,
}

impl HostDecode {
    /// The output holds the prompt.
    pub open spec fn wf(self) -> bool {
        self.prompt_len <= self.out@.len() <= self.prompt_len + self.max_new
    }

    /// Another token is wanted.
    pub open spec fn wants(self) -> bool {
        !self.done && self.out@.len() - self.prompt_len < self.max_new
    }

    /// Begins with the prompt.
    pub fn start(prompt: Vec<u32>, max_new: usize) -> (r: HostDecode)
        ensures
            r.wf(),
            r.out == prompt,
            r.prompt_len == prompt@.len(),
            r.max_new == max_new,
            !r.done,
    {
        HostDecode { prompt_len: prompt.len(), max_new, out: prompt, done: false }
    }

    /// Whether another token is wanted.
    pub fn wants_token(&self) -> (r: bool)
        requires
            self.wf(),
        ensures
            r == self.wants(),
    {
        !self.done && self.out.len() - self.prompt_len < self.max_new
    }

    /// Takes the next token; an end token is kept and ends the decode.
    pub fn token(&mut self, next: u32, eos: &Option<EosIds>)
        requires
            old(self).wf(),
            old(self).wants(),
        ensures
            final(self).wf(),
            final(self).prompt_len == old(self).prompt_len,
            final(self).max_new == old(self).max_new,
            final(self).out@ == old(self).out@.push(next),
            final(self).done == generate::is_eos(*eos, next),
    {
        self.out.push(next);
        self.done = generate::hits_eos(eos, next);
    }
}

/// What a decode has still to become.
pub open spec fn decode_outcome(
    d: HostDecode,
    target: spec_fn(Seq<u32>) -> u32,
    eos: Option<EosIds>,
) -> Seq<u32> {
    if d.wants() {
        generate::greedy(target, d.out@, eos, d.max_new - (d.out@.len() - d.prompt_len))
    } else {
        d.out@
    }
}

/// A decode whose tokens are the target's own comes to what greedy generation
/// gives.
pub proof fn host_decode_is_greedy(
    before: HostDecode,
    after: HostDecode,
    target: spec_fn(Seq<u32>) -> u32,
    eos: Option<EosIds>,
)
    requires
        before.wf(),
        before.wants(),
        after.prompt_len == before.prompt_len,
        after.max_new == before.max_new,
        after.out@ == before.out@.push(target(before.out@)),
        after.done == generate::is_eos(eos, target(before.out@)),
    ensures
        decode_outcome(after, target, eos) == decode_outcome(before, target, eos),
{
    reveal_with_fuel(generate::greedy, 2);
}

/// State of the weight generator after `k` draws.
pub open spec fn lcg(k: nat) -> u64
    decreases k,
{
    if k == 0 {
        1
    } else {
        ((lcg((k - 1) as nat) * 6364136223846793005 + 1) % 0x1_0000_0000_0000_0000) as u64
    }
}

/// Draw number `k`: the upper bits of the state after it.
pub open spec fn draw(k: int) -> u32 {
    (lcg((k + 1) as nat) / 0x2_0000_0000) as u32
}

/// `n` draws from number `at` on.
pub open spec fn draws(at: int, n: int) -> Seq<u32> {
    Seq::new(n as nat, |i: int| draw(at + i))
}

fn draw_next(seed: u64, Ghost(k): Ghost<nat>) -> (r: u64)
    requires
        seed == lcg(k),
    ensures
        r == lcg(k + 1),
{
    let m: u64 = seed.wrapping_mul(6364136223846793005);
    proof {
        let p = seed * 6364136223846793005;
        assert((p % 0x1_0000_0000_0000_0000 + 1) % 0x1_0000_0000_0000_0000 == (p + 1)
            % 0x1_0000_0000_0000_0000) by {
            vstd::arithmetic::div_mod::lemma_add_mod_noop(p, 1, 0x1_0000_0000_0000_0000);
        }
    }
    m.wrapping_add(1)
}

fn fill(seed: &mut u64, n: usize, Ghost(at): Ghost<nat>) -> (r: Vec<u32>)
    requires
        *old(seed) == lcg(at),
    ensures
        r@ == draws(at as int, n as int),
        *final(seed) == lcg(at + n as nat),
{
    let mut out: Vec<u32> = Vec::new();
    let mut i: usize = 0;
    while i < n
        invariant
            i <= n,
            *seed == lcg(at + i as nat),
            out@ == draws(at as int, i as int),
        decreases n - i,
    {
        let next: u64 = draw_next(*seed, Ghost(at + i as nat));
        *seed = next;
        assert(next >> 33u64 == next / 0x2_0000_0000) by (bit_vector);
        assert(next / 0x2_0000_0000 < 0x1_0000_0000);
        out.push((next >> 33) as u32);
        i = i + 1;
        assert(out@ =~= draws(at as int, i as int));
    }
    out
}

/// A layer of the synthetic graph. Norm weights are all one.
#[derive(Clone, Debug)]
pub struct SynthLayer {
    pub layer_type: LayerType,
    pub role: KvRole,
    pub q_proj: Vec<u32>,
    pub k_proj: Vec<u32>,
    pub v_proj: Vec<u32>,
    pub o_proj: Vec<u32>,
    pub gate_proj: Vec<u32>,
    pub up_proj: Vec<u32>,
    pub down_proj: Vec<u32>,
    pub ple_table: Vec<u32>,
    pub hq: usize,
    pub hkv: usize,
    pub head_dim: usize,
    pub rotary_dim: usize,
    pub theta_bits: u32,
    pub window: Option<usize>,
}

/// A small graph for checks: three layers with real head widths.
#[derive(Clone, Debug)]
pub struct SyntheticE4bGraph {
    pub cfg: Gemma4TextConfig,
    pub kv: KvLayout,
    /// The token embedding; the output head is the same.
    pub embed: Vec<u32>,
    pub layers: Vec<SynthLayer>,
    pub softcap_bits: u32,
}

/// Bits of the rotary bases of sliding and of global layers.
pub const THETA_LOCAL_BITS: u32 = 0x461C4000;

pub const THETA_GLOBAL_BITS: u32 = 0x49742400;

/// The weights of a layer of width 256 with one head of `d` floats, drawn from
/// number `at` on in the order of their use.
pub open spec fn drawn_at(l: SynthLayer, at: int, d: int) -> bool {
    let p = d * 256;
    &&& l.ple_table@ == draws(at, 16384)
    &&& l.q_proj@ == draws(at + 16384, p)
    &&& l.k_proj@ == draws(at + 16384 + p, p)
    &&& l.v_proj@ == draws(at + 16384 + 2 * p, p)
    &&& l.o_proj@ == draws(at + 16384 + 3 * p, p)
    &&& l.gate_proj@ == draws(at + 16384 + 4 * p, 131072)
    &&& l.up_proj@ == draws(at + 147456 + 4 * p, 131072)
    &&& l.down_proj@ == draws(at + 278528 + 4 * p, 131072)
}

/// The geometry of a layer of the small graph.
pub open spec fn mini_geometry(l: SynthLayer) -> bool {
    &&& l.hq == 1
    &&& l.hkv == 1
    &&& match l.layer_type {
        LayerType::SlidingAttention => l.head_dim == 256 && l.rotary_dim == 256 && l.theta_bits
            == THETA_LOCAL_BITS && l.window == Some(4usize),
        LayerType::FullAttention => l.head_dim == 512 && l.rotary_dim == 128 && l.theta_bits
            == THETA_GLOBAL_BITS && l.window is None,
    }
}

fn mini_layer(kind: LayerType, role: KvRole, seed: &mut u64, Ghost(at): Ghost<nat>) -> (r: SynthLayer)
    requires
        *old(seed) == lcg(at),
    ensures
        r.layer_type == kind,
        r.role == role,
        mini_geometry(r),
        drawn_at(r, at as int, r.head_dim as int),
        *final(seed) == lcg((at + 409600 + 4 * (r.head_dim * 256)) as nat),
{
    let sliding = kind.is_sliding();
    let head_dim: usize = if sliding {
        256
    } else {
        512
    };
    let p: usize = head_dim * 256;
    let ghost pn = p as nat;
    let ple_table = fill(seed, 16384, Ghost(at));
    let q_proj = fill(seed, p, Ghost(at + 16384));
    let k_proj = fill(seed, p, Ghost(at + 16384 + pn));
    let v_proj = fill(seed, p, Ghost(at + 16384 + 2 * pn));
    let o_proj = fill(seed, p, Ghost(at + 16384 + 3 * pn));
    let gate_proj = fill(seed, 131072, Ghost(at + 16384 + 4 * pn));
    let up_proj = fill(seed, 131072, Ghost(at + 147456 + 4 * pn));
    let down_proj = fill(seed, 131072, Ghost(at + 278528 + 4 * pn));
    SynthLayer {
        layer_type: kind,
        role,
        q_proj,
        k_proj,
        v_proj,
        o_proj,
        gate_proj,
        up_proj,
        down_proj,
        ple_table,
        hq: 1,
        hkv: 1,
        head_dim,
        rotary_dim: if sliding {
            256
        } else {
            head_dim / 4
        },
        theta_bits: if sliding {
            THETA_LOCAL_BITS
        } else {
            THETA_GLOBAL_BITS
        },
        window: if sliding {
            Some(4)
        } else {
            None
        },
    }
}

/// The configuration of the small graph.
pub open spec fn mini_config(c: Gemma4TextConfig) -> bool {
    &&& c.vocab_size == 512
    &&& c.vocab_size_per_layer_input == 512
    &&& c.hidden_size == 256
    &&& c.intermediate_size == 512
    &&& c.num_hidden_layers == 3
    &&& c.num_attention_heads == 1
    &&& c.num_key_value_heads == 1
    &&& c.head_dim == 256
    &&& c.global_head_dim == 512
    &&& c.num_kv_shared_layers == 1
    &&& c.hidden_size_per_layer_input == 32
    &&& c.sliding_window == Some(4usize)
    &&& c.layer_types@ == seq![
        LayerType::SlidingAttention,
        LayerType::FullAttention,
        LayerType::SlidingAttention,
    ]
    &&& c.num_global_key_value_heads == Some(1usize)
    &&& c.final_logit_softcapping_bits == Some(crate::config::SOFTCAP_BITS)
    &&& c.rope_parameters matches Some(r) && crate::config::released_rope(r)
    &&& c.eos_token_id == Some(EosIds::One(1u32))
    &&& c.bos_token_id == Some(2u32)
    &&& c.pad_token_id == Some(0u32)
    &&& c.hidden_activation@ == "gelu_pytorch_tanh"@
    &&& c.rms_norm_eps_bits == crate::config::RMS_EPS_BITS
    &&& c.max_position_embeddings == 131072
    &&& c.tie_word_embeddings
    &&& !c.attention_k_eq_v
    &&& !c.attention_bias
}

/// The small graph.
pub open spec fn mini_graph(g: SyntheticE4bGraph) -> bool {
    &&& mini_config(g.cfg)
    &&& g.kv.wf()
    &&& g.kv.max_seq == 64
    &&& g.kv.first_kv_shared == 2
    &&& g.kv.kinds() == g.cfg.layer_types@
    &&& g.softcap_bits == crate::config::SOFTCAP_BITS
    &&& g.embed@ == draws(0, 131072)
    &&& g.layers@.len() == 3
    &&& forall|i: int|
        0 <= i < 3 ==> (#[trigger] g.layers@[i]).layer_type == g.cfg.layer_types@[i]
            && g.layers@[i].role == kv::role_of(g.cfg.layer_types@, 2, i) && mini_geometry(
            g.layers@[i],
        )
    &&& drawn_at(g.layers@[0], 131072, 256)
    &&& drawn_at(g.layers@[1], 802816, 512)
    &&& drawn_at(g.layers@[2], 1736704, 256)
}

/// Two rotary settings hold the same.
pub open spec fn same_rope(a: Option<RopeParameters>, b: Option<RopeParameters>) -> bool {
    match (a, b) {
        (Some(x), Some(y)) => {
            &&& x.sliding_attention.rope_theta_bits == y.sliding_attention.rope_theta_bits
            &&& x.sliding_attention.rope_type@ == y.sliding_attention.rope_type@
            &&& x.sliding_attention.partial_rotary_factor_bits
                == y.sliding_attention.partial_rotary_factor_bits
            &&& x.full_attention.rope_theta_bits == y.full_attention.rope_theta_bits
            &&& x.full_attention.rope_type@ == y.full_attention.rope_type@
            &&& x.full_attention.partial_rotary_factor_bits
                == y.full_attention.partial_rotary_factor_bits
        },
        (None, None) => true,
        _ => false,
    }
}

/// Two configurations hold the same.
pub open spec fn same_config(a: Gemma4TextConfig, b: Gemma4TextConfig) -> bool {
    &&& a == (Gemma4TextConfig {
        hidden_activation: a.hidden_activation,
        layer_types: a.layer_types,
        rope_parameters: a.rope_parameters,
        ..b
    })
    &&& a.hidden_activation@ == b.hidden_activation@
    &&& a.layer_types@ == b.layer_types@
    &&& same_rope(a.rope_parameters, b.rope_parameters)
}

/// Two layers hold the same.
pub open spec fn same_layer(a: SynthLayer, b: SynthLayer) -> bool {
    &&& a == (SynthLayer {
        q_proj: a.q_proj,
        k_proj: a.k_proj,
        v_proj: a.v_proj,
        o_proj: a.o_proj,
        gate_proj: a.gate_proj,
        up_proj: a.up_proj,
        down_proj: a.down_proj,
        ple_table: a.ple_table,
        ..b
    })
    &&& a.q_proj@ == b.q_proj@
    &&& a.k_proj@ == b.k_proj@
    &&& a.v_proj@ == b.v_proj@
    &&& a.o_proj@ == b.o_proj@
    &&& a.gate_proj@ == b.gate_proj@
    &&& a.up_proj@ == b.up_proj@
    &&& a.down_proj@ == b.down_proj@
    &&& a.ple_table@ == b.ple_table@
}

/// Every call that makes the small graph makes the same: the same configuration, the same
/// layout and the same weights.
pub proof fn mini_graphs_are_the_same(a: SyntheticE4bGraph, b: SyntheticE4bGraph, i: int)
    requires
        mini_graph(a),
        mini_graph(b),
        0 <= i < 3,
    ensures
        same_config(a.cfg, b.cfg),
        a.kv == (KvLayout { layers: a.kv.layers, ..b.kv }),
        a.kv.layers@ == b.kv.layers@,
        a.softcap_bits == b.softcap_bits,
        a.embed@ == b.embed@,
        a.layers@.len() == b.layers@.len() == 3,
        same_layer(a.layers@[i], b.layers@[i]),
{
    assert(a.kv.kinds() == b.kv.kinds());
    assert(a.kv.layers@.len() == a.kv.kinds().len());
    assert(b.kv.layers@.len() == b.kv.kinds().len());
    assert forall|j: int| 0 <= j < a.kv.layers@.len() implies a.kv.layers@[j]
        == b.kv.layers@[j] by {
        assert(a.kv.kinds()[j] == b.kv.kinds()[j]);
    }
    assert(a.kv.layers@ =~= b.kv.layers@);
    assert(a.layers@[i].layer_type == b.layers@[i].layer_type);
}

impl SyntheticE4bGraph {
    /// The small graph: a sliding writer, a global writer and a sliding reader.
    pub fn mini_parity() -> (r: Result<SyntheticE4bGraph>)
        ensures
            r matches Ok(g) && mini_graph(g),
    {
        let mut cfg = Gemma4TextConfig::e4b_preset();
        cfg.vocab_size = 512;
        cfg.vocab_size_per_layer_input = 512;
        cfg.hidden_size = 256;
        cfg.intermediate_size = 512;
        cfg.num_hidden_layers = 3;
        cfg.num_attention_heads = 1;
        cfg.num_key_value_heads = 1;
        cfg.head_dim = 256;
        cfg.global_head_dim = 512;
        cfg.num_kv_shared_layers = 1;
        cfg.hidden_size_per_layer_input = 32;
        cfg.sliding_window = Some(4);
        let mut types: Vec<LayerType> = Vec::new();
        types.push(LayerType::SlidingAttention);
        types.push(LayerType::FullAttention);
        types.push(LayerType::SlidingAttention);
        cfg.layer_types = types;
        assert(cfg.layer_types@ =~= seq![
            LayerType::SlidingAttention,
            LayerType::FullAttention,
            LayerType::SlidingAttention,
        ]);
        match cfg.validate() {
            Err(e) => {
                return Err(e);
            },
            Ok(()) => {},
        }
        let kv = match KvLayout::from_config(&cfg, 64) {
            Err(e) => {
                return Err(e);
            },
            Ok(kv) => kv,
        };
        let softcap_bits: u32 = match cfg.final_logit_softcapping_bits {
            Some(b) => b,
            None => crate::config::SOFTCAP_BITS,
        };
        let mut seed: u64 = 1;
        let embed = fill(&mut seed, 131072, Ghost(0));
        assert(kv.kinds() =~= cfg.layer_types@);
        let first = mini_layer(kv.layers[0].layer_type, kv.layers[0].role, &mut seed, Ghost(131072));
        assert(kv.kinds()[0] == first.layer_type);
        let second = mini_layer(
            kv.layers[1].layer_type,
            kv.layers[1].role,
            &mut seed,
            Ghost(802816),
        );
        assert(kv.kinds()[1] == second.layer_type);
        let third = mini_layer(
            kv.layers[2].layer_type,
            kv.layers[2].role,
            &mut seed,
            Ghost(1736704),
        );
        assert(kv.kinds()[2] == third.layer_type);
        let mut layers: Vec<SynthLayer> = Vec::new();
        layers.push(first);
        layers.push(second);
        layers.push(third);
        Ok(SyntheticE4bGraph { cfg, kv, embed, layers, softcap_bits })
    }
}

} // verus!
