//! The geometry of the layers that a checkpoint makes: rotary base, rotated width, head
//! width and window, by the kind of the layer.

use crate::config;
use crate::config::LayerType;
use crate::dflash::DFlashConfig;
use crate::draft;
use crate::floats;
use crate::forward;
use crate::forward::SyntheticE4bGraph;
use crate::kv;
use crate::kv_slot;
use crate::model::GpuSynthModel;
use crate::ops::{Bank, NormW};
use crate::session;
use crate::text;
use crate::weights;
use crate::weights::{HostWeightBanks, HotModel};
use vstd::prelude::*;

verus! {

/// A sliding layer rotates the whole of its heads with base 10000 and sees a window; a
/// global one rotates with the configuration's base and sees everything.
pub proof fn layers_have_the_geometry_of_their_kind(b: HostWeightBanks, m: GpuSynthModel, li: int)
    requires
        m.layers@ == Seq::new(
            b.config.num_hidden_layers as nat,
            |i: int| weights::layer_of(b, i),
        ),
        0 <= li < b.config.num_hidden_layers,
    ensures
        ({
            let l = m.layers@[li];
            &&& l.layer_type == b.kv_layout.layers@[li].layer_type
            &&& l.layer_type == LayerType::SlidingAttention ==> {
                &&& l.theta_bits == 0x461C_4000
                &&& l.head_dim == b.config.head_dim
                &&& l.rotary_dim == l.head_dim
                &&& l.hkv == b.config.num_key_value_heads
                &&& l.window == b.config.sliding_window
            }
            &&& l.layer_type == LayerType::FullAttention ==> {
                &&& b.config.rope_parameters matches Some(r) ==> l.theta_bits == floats::narrowed(
                    r.full_attention.rope_theta_bits,
                )
                &&& b.config.rope_parameters is None ==> l.theta_bits == 0x4974_2400
                &&& l.head_dim == b.config.global_head_dim
                &&& l.rotary_dim >= 1
                &&& l.window is None
            }
            &&& l.hq == b.config.num_attention_heads
        }),
{
    assert(floats::saturated(0) == 0);
    let c = b.config;
    assert(weights::global_rotary(c) <= usize::MAX);
}

/// A million, as a double, is the same million as a single.
proof fn lemma_million()
    ensures
        floats::narrowed(0x412E_8480_0000_0000) == 0x4974_2400,
{
    let m: int = 0x1E_8480_0000_0000;
    assert(0x412E_8480_0000_0000int / 0x10_0000_0000_0000 % 0x800 == 1042);
    assert(0x412E_8480_0000_0000int % 0x10_0000_0000_0000 == 0xE_8480_0000_0000);
    assert(m / 0x2000_0000 == 0xF4_2400 && m % 0x2000_0000 == 0);
    assert(floats::half_even(m, 0x2000_0000) == 0xF4_2400);
    assert(floats::narrowed_magnitude(1042, 0xE_8480_0000_0000) == 0x4974_2400);
    assert(0x412E_8480_0000_0000int / 0x8000_0000_0000_0000 == 0);
}

/// A quarter, as a double, is the same quarter as a single.
proof fn lemma_quarter()
    ensures
        floats::narrowed(0x3FD0_0000_0000_0000) == 0x3E80_0000,
{
    let m: int = 0x10_0000_0000_0000;
    assert(0x3FD0_0000_0000_0000int / 0x10_0000_0000_0000 % 0x800 == 1021);
    assert(0x3FD0_0000_0000_0000int % 0x10_0000_0000_0000 == 0);
    assert(m / 0x2000_0000 == 0x80_0000 && m % 0x2000_0000 == 0);
    assert(floats::half_even(m, 0x2000_0000) == 0x80_0000);
    assert(floats::narrowed_magnitude(1021, 0) == 0x3E80_0000);
    assert(0x3FD0_0000_0000_0000int / 0x8000_0000_0000_0000 == 0);
}

/// A quarter of 512 is 128.
proof fn lemma_quarter_of_512()
    ensures
        floats::times_f32(512, 0x3E80_0000) == 128,
{
    reveal_with_fuel(floats::grain, 12);
    vstd::arithmetic::power2::lemma2_to64();
    assert(0x3E80_0000int / 0x80_0000 % 0x100 == 125);
    assert(0x3E80_0000int % 0x80_0000 == 0);
    assert(floats::grain(512, 0x100_0000) == 1);
    assert(floats::rounded(512, 0x100_0000) == 512);
    assert(floats::grain(0x1_0000_0000, 0x100_0000) == 512);
    assert(0x1_0000_0000int / 512 == 0x80_0000 && 0x1_0000_0000int % 512 == 0);
    assert(512int * 0x80_0000 == 0x1_0000_0000);
    assert(floats::rounded(0x1_0000_0000, 0x100_0000) == 0x1_0000_0000);
    assert(vstd::arithmetic::power2::pow2(25) == 0x200_0000);
    assert(0x1_0000_0000int / 0x200_0000 == 128);
    assert((-(-25int)) as nat == 25nat);
    assert(floats::scaled(512, 0x80_0000, -25, 0x100_0000) == 128);
}

/// The layers of a released model have the released geometry: a sliding layer rotates all
/// 256 floats of a head with base 10000, a global one 128 of 512 with base 1000000.
pub proof fn released_layers_have_the_released_geometry(
    b: HostWeightBanks,
    m: GpuSynthModel,
    li: int,
)
    requires
        config::released_common(b.config),
        m.layers@ == Seq::new(
            b.config.num_hidden_layers as nat,
            |i: int| weights::layer_of(b, i),
        ),
        0 <= li < b.config.num_hidden_layers,
    ensures
        m.layers@[li].layer_type == LayerType::SlidingAttention ==> m.layers@[li].theta_bits
            == 0x461C_4000 && m.layers@[li].head_dim == 256 && m.layers@[li].rotary_dim == 256,
        m.layers@[li].layer_type == LayerType::FullAttention ==> m.layers@[li].theta_bits
            == 0x4974_2400 && m.layers@[li].head_dim == 512 && m.layers@[li].rotary_dim == 128,
{
    lemma_million();
    lemma_quarter();
    lemma_quarter_of_512();
}

/// A model made from a checkpoint and the reference graph, where both have the same
/// configuration: layers of the same kind have the same base, rotated width, head widths,
/// heads and window.
pub proof fn loaded_layers_match_the_reference(
    b: HostWeightBanks,
    m: GpuSynthModel,
    g: SyntheticE4bGraph,
    i: int,
    j: int,
)
    requires
        forward::mini_graph(g),
        forward::same_config(b.config, g.cfg),
        m.layers@ == Seq::new(
            b.config.num_hidden_layers as nat,
            |i: int| weights::layer_of(b, i),
        ),
        0 <= i < b.config.num_hidden_layers,
        0 <= j < g.layers@.len(),
        m.layers@[i].layer_type == g.layers@[j].layer_type,
    ensures
        m.layers@[i].theta_bits == g.layers@[j].theta_bits,
        m.layers@[i].rotary_dim == g.layers@[j].rotary_dim,
        m.layers@[i].head_dim == g.layers@[j].head_dim,
        m.layers@[i].hq == g.layers@[j].hq,
        m.layers@[i].hkv == g.layers@[j].hkv,
        m.layers@[i].window == g.layers@[j].window,
{
    lemma_million();
    lemma_quarter();
    lemma_quarter_of_512();
    assert(forward::mini_geometry(g.layers@[j]));
}

/// The full name of a layer's weight.
pub open spec fn weight_name(li: int, rest: Seq<char>) -> Seq<char> {
    "layers."@ + text::dec(li as nat) + rest
}

/// A model takes every matrix and every norm of a layer from the weights of that layer
/// that the matrix or the norm is called after. Values are projected as keys where the
/// checkpoint has no value projection. The norm before the feed-forward part stands in
/// for one that is missing behind attention. An output head that is not stored is the
/// embedding.
pub proof fn weights_are_taken_by_their_names(b: HostWeightBanks, m: HotModel, li: usize)
    requires
        m.tied == !b.has("lm_head.weight"@),
        m.sources@ == Seq::new(
            b.config.num_hidden_layers as nat,
            |i: int| weights::sources_of(b, i),
        ),
        m.model.layers@ == Seq::new(
            b.config.num_hidden_layers as nat,
            |i: int| weights::layer_of(b, i),
        ),
        li < b.config.num_hidden_layers,
    ensures
        ({
            let i = li as int;
            let writes = b.kv_layout.layers@[i].role is Producer;
            let k = weight_name(i, ".self_attn.k_proj.weight"@);
            let v = weight_name(i, ".self_attn.v_proj.weight"@);
            let behind = weight_name(i, ".post_attention_layernorm.weight"@);
            let before = weight_name(i, ".pre_feedforward_layernorm.weight"@);
            let after = weight_name(i, ".post_feedforward_layernorm.weight"@);
            &&& m.bank_source(Bank::Q(li)) == Some(weight_name(i, ".self_attn.q_proj.weight"@))
            &&& m.bank_source(Bank::O(li)) == Some(weight_name(i, ".self_attn.o_proj.weight"@))
            &&& m.bank_source(Bank::Gate(li)) == Some(weight_name(i, ".mlp.gate_proj.weight"@))
            &&& m.bank_source(Bank::Up(li)) == Some(weight_name(i, ".mlp.up_proj.weight"@))
            &&& m.bank_source(Bank::Down(li)) == Some(weight_name(i, ".mlp.down_proj.weight"@))
            &&& writes ==> m.bank_source(Bank::K(li)) == Some(k)
            &&& writes && b.has(v) ==> m.bank_source(Bank::V(li)) == Some(v)
            &&& writes && !b.has(v) ==> m.bank_source(Bank::V(li)) == Some(k)
            &&& !writes ==> m.bank_source(Bank::K(li)) is None && m.bank_source(
                Bank::V(li),
            ) is None
            &&& m.norm_source(NormW::Input(li)) == Some(
                weight_name(i, ".input_layernorm.weight"@),
            )
            &&& b.readable(behind) ==> m.norm_source(NormW::PostAttn(li)) == Some(behind)
            &&& !b.readable(behind) ==> m.norm_source(NormW::PostAttn(li)) == Some(before)
            &&& b.readable(behind) && b.readable(before) ==> m.norm_source(NormW::PreFf(li))
                == Some(before)
            &&& !b.readable(behind) || !b.readable(before) ==> m.norm_source(
                NormW::PreFf(li),
            ) is None
            &&& b.has(after) ==> m.norm_source(NormW::PostFf(li)) == Some(after)
            &&& !b.has(after) ==> m.norm_source(NormW::PostFf(li)) is None
            &&& m.norm_source(NormW::Final) == Some("norm.weight"@)
            &&& b.has("lm_head.weight"@) ==> m.bank_source(Bank::LmHead) == Some(
                "lm_head.weight"@,
            )
            &&& !b.has("lm_head.weight"@) ==> m.bank_source(Bank::LmHead) == Some(
                "embed_tokens.weight"@,
            )
        }),
{
    assert(m.sources@[li as int] == weights::sources_of(b, li as int));
    assert(m.model.layers@[li as int] == weights::layer_of(b, li as int));
}

/// The caches of a new session are empty and fit the layers that use them: a row has as
/// many heads of the same width as the layer's keys, a ring holds exactly the window, and
/// every other cache all positions of a session.
pub proof fn new_caches_fit_their_layers(b: HostWeightBanks, m: GpuSynthModel, li: int)
    requires
        m.wf(),
        m.kv == b.kv_layout,
        m.cfg == b.config,
        m.layers@ == Seq::new(
            b.config.num_hidden_layers as nat,
            |i: int| weights::layer_of(b, i),
        ),
        0 <= li < m.layers@.len(),
    ensures
        ({
            let p = m.layers@[li];
            let s = session::empty_bank(m).slot(p.reads());
            let t = session::empty_bank(m).slot(p.shares());
            &&& s.heads == p.hkv && s.dim == p.head_dim
            &&& t.heads == p.hkv && t.dim == p.head_dim
            &&& s.seq_len == 0 && s.head == 0 && t.seq_len == 0 && t.head == 0
            &&& s.is_ring == (p.produces() && p.layer_type == LayerType::SlidingAttention)
            &&& !t.is_ring
            &&& s.is_ring ==> (match p.window {
                Some(w) => s.capacity == w,
                None => s.capacity == 512,
            })
            &&& !s.is_ring ==> s.capacity >= m.kv.max_seq && s.capacity >= 16
            &&& t.capacity >= m.kv.max_seq && t.capacity >= 16
        }),
{
    assert(m.layers@[li].role == m.kv.layers@[li].role);
    assert(m.layers@[li].layer_type == m.kv.layers@[li].layer_type);
    assert(m.kv.layers@[li].layer == li);
    if m.layers@[li].produces() {
        kv::producers_have_distinct_slots(m.kv, li, li);
    }
}

proof fn lemma_products(a: int, b: int, c: int, d: int)
    requires
        0 <= a <= b,
        0 <= c <= d,
    ensures
        0 <= a * c <= b * d,
{
    assert(0 <= a * c <= b * d) by (nonlinear_arith)
        requires
            0 <= a <= b,
            0 <= c <= d,
    ;
}

/// The scratch of a session holds every activation of a pass over up to eight rows, in
/// every layer, and all timesteps of a session that attention gathers.
pub proof fn scratch_holds_every_pass(
    b: HostWeightBanks,
    m: GpuSynthModel,
    li: int,
    rows: int,
    t: int,
)
    requires
        m.cfg == b.config,
        m.layers@ == Seq::new(
            b.config.num_hidden_layers as nat,
            |i: int| weights::layer_of(b, i),
        ),
        0 <= li < m.layers@.len(),
        m.layers@[li].hkv <= m.layers@[li].hq,
        0 <= rows <= 8,
        0 <= t <= m.kv.max_seq,
    ensures
        ({
            let p = m.layers@[li];
            let (hidden, heads, inter, logits, dense, ple) = session::scratch_of(m);
            &&& rows * m.hidden <= hidden
            &&& rows * (p.hq * p.head_dim) <= heads
            &&& rows * (p.hkv * p.head_dim) <= heads
            &&& rows * m.intermediate <= inter
            &&& rows * m.vocab <= logits
            &&& t * (p.hkv * p.head_dim) <= dense
            &&& rows * m.cfg.hidden_size_per_layer_input <= ple
        }),
{
    let p = m.layers@[li];
    assert(p == weights::layer_of(b, li));
    let c = m.cfg;
    let d = kv_slot::max2(c.global_head_dim as int, c.head_dim as int);
    let kvh = kv_slot::max2(c.global_heads() as int, c.num_key_value_heads as int);
    let max_kv = kv_slot::max2(m.kv.max_seq as int, 16);
    lemma_products(rows, 8, m.hidden as int, m.hidden as int);
    lemma_products(rows, 8, m.intermediate as int, m.intermediate as int);
    lemma_products(rows, 8, m.vocab as int, m.vocab as int);
    let e = kv_slot::max2(c.hidden_size_per_layer_input as int, 1);
    lemma_products(rows, 8, c.hidden_size_per_layer_input as int, e);
    assert(8 * e == e * 8);
    lemma_products(p.hq as int, p.hq as int, p.head_dim as int, d);
    lemma_products(p.hkv as int, p.hq as int, p.head_dim as int, d);
    lemma_products(p.hkv as int, kvh, p.head_dim as int, d);
    lemma_products(rows, 8, p.hq * p.head_dim, p.hq * d);
    lemma_products(rows, 8, p.hkv * p.head_dim, p.hq * d);
    lemma_products(t, max_kv, p.hkv * p.head_dim, kvh * d);
    assert(max_kv * (kvh * d) == max_kv * kvh * d) by (nonlinear_arith);
}

/// The scratch of a draft holds every pass over a block and the context that fit it, and
/// the cache of a layer all of that context.
pub proof fn draft_scratch_holds_every_pass(
    c: DFlashConfig,
    max_ctx: int,
    max_block: int,
    t: int,
    l: int,
)
    requires
        0 <= t <= max_ctx,
        0 <= l <= max_block,
        max_ctx + max_block <= usize::MAX,
        (max_ctx + max_block) * (c.num_attention_heads * c.head_dim) <= usize::MAX,
        (max_ctx + max_block) * (c.num_key_value_heads * c.head_dim) <= usize::MAX,
        (max_ctx + max_block) * c.hidden_size <= usize::MAX,
        c.num_attention_heads * c.head_dim <= usize::MAX,
    ensures
        ({
            let s = draft::scratch_of(c, max_ctx, max_block);
            let q = c.num_attention_heads * c.head_dim;
            let kv = c.num_key_value_heads * c.head_dim;
            &&& l * c.hidden_size <= s.x
            &&& l * c.hidden_size <= s.x_normed
            &&& t * c.hidden_size <= s.x_normed
            &&& l * q <= s.q
            &&& l * kv <= s.kv
            &&& t * kv <= s.kv
            &&& t * kv <= s.cache
            &&& (t + l) * kv <= s.kv_full
            &&& c.intermediate_size <= s.mid
            &&& c.vocab_size <= s.logits
            &&& c.hidden_size <= s.row_x && c.intermediate_size <= s.row_x && q <= s.row_x
            &&& s.row_x <= s.row_y && c.vocab_size <= s.row_y
        }),
{
    let h = c.hidden_size as int;
    let q = c.num_attention_heads * c.head_dim;
    let kv = c.num_key_value_heads * c.head_dim;
    lemma_products(0, c.num_attention_heads as int, 0, c.head_dim as int);
    lemma_products(0, c.num_key_value_heads as int, 0, c.head_dim as int);
    let all = max_ctx + max_block;
    let most = kv_slot::max2(max_ctx, max_block);
    let wider = kv_slot::max2(max_block, max_ctx);
    lemma_products(l, max_block, h, h);
    lemma_products(l, wider, h, h);
    lemma_products(t, wider, h, h);
    lemma_products(max_block, all, h, h);
    lemma_products(wider, all, h, h);
    lemma_products(l, max_block, q, q);
    lemma_products(max_block, all, q, q);
    lemma_products(l, most, kv, kv);
    lemma_products(t, most, kv, kv);
    lemma_products(t, max_ctx, kv, kv);
    lemma_products(max_ctx, all, kv, kv);
    lemma_products(most, all, kv, kv);
    lemma_products(t + l, all, kv, kv);
}

} // verus!
