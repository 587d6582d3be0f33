//! Which weights a model needs, what stands in for the ones it may lack, and the
//! model that they make.

use crate::config::{Gemma4TextConfig, LayerType};
use crate::error;
use crate::error::{Error, ErrorKind, ErrorV, Result};
use crate::floats;
use crate::forward::{SynthLayer, SyntheticE4bGraph};
use crate::kv;
use crate::kv::{KvLayout, KvRole, LayerKv};
use crate::kv_slot;
use crate::model;
use crate::model::{GpuSynthLayer, GpuSynthModel};
use crate::ops::{Bank, NormW};
use crate::text;
use vstd::prelude::*;
use vstd::string::*;

verus! {

/// Rows and columns of a matrix.
#[derive(Clone, Copy, Debug, PartialEq, Eq, Structural)]
pub struct MatShape {
    pub rows: usize,
    pub cols: usize,
}

/// The shapes of a layer's quantized projections on the host.
#[derive(Clone, Copy, Debug, PartialEq, Eq, Structural)]
pub struct HostQLayer {
    pub q_proj: MatShape,
    pub k_proj: MatShape,
    pub v_proj: MatShape,
    pub o_proj: MatShape,
    pub gate_proj: MatShape,
    pub up_proj: MatShape,
    pub down_proj: MatShape,
}

/// A stored matrix: its shape, and what reading it as floats gives.
#[derive(Clone, Debug)]
pub struct BankEntry {
    pub name: String,
    pub shape: MatShape,
    /// Why it cannot be read, where it cannot.
    pub fault: Option<Error>,
    /// Bits of its first float, where it can be read and has one.
    pub first_bits: Option<u32>,
}

/// The weights of a checkpoint on the host.
#[derive(Clone, Debug)]
pub struct HostWeightBanks {
    pub config: Gemma4TextConfig,
    pub kv_layout: KvLayout,
    pub entries: Vec<BankEntry>,
    /// How many per-layer embedding banks there are, where there are any.
    pub ple: Option<usize>,
}

/// The first of two faults.
pub open spec fn earlier(a: Option<ErrorV>, b: Option<ErrorV>) -> Option<ErrorV> {
    if a is Some {
        a
    } else {
        b
    }
}

/// Why an entry cannot be read.
pub open spec fn read_fault(e: BankEntry) -> Option<ErrorV> {
    match e.fault {
        Some(f) => Some(f@),
        None => None,
    }
}

/// The name of a weight of layer `li`.
pub open spec fn layer_name(li: int, rest: Seq<char>) -> Seq<char> {
    "layers."@ + text::dec(li as nat) + rest
}

fn layer_text(li: usize, rest: &str) -> (r: String)
    ensures
        r@ == layer_name(li as int, rest@),
{
    text::text1("layers.", li as u64, rest)
}

/// The error for a weight that is not there.
pub open spec fn missing(name: Seq<char>) -> ErrorV {
    error::weights_error("missing weight '"@ + name + "'"@)
}

impl HostWeightBanks {
    /// The first entry with the name.
    pub open spec fn at(self, name: Seq<char>, i: int) -> bool {
        &&& 0 <= i < self.entries@.len()
        &&& self.entries@[i].name@ == name
        &&& forall|j: int| 0 <= j < i ==> (#[trigger] self.entries@[j]).name@ != name
    }

    /// The entry with the name.
    pub open spec fn entry(self, name: Seq<char>) -> Option<BankEntry> {
        if exists|i: int| self.at(name, i) {
            Some(self.entries@[choose|i: int| self.at(name, i)])
        } else {
            None
        }
    }

    /// The weight is there.
    pub open spec fn has(self, name: Seq<char>) -> bool {
        self.entry(name) is Some
    }

    proof fn lemma_entry(self, name: Seq<char>, i: int)
        requires
            self.at(name, i),
        ensures
            self.entry(name) == Some(self.entries@[i]),
    {
        let j = choose|j: int| self.at(name, j);
        assert(self.at(name, j));
        if j < i {
            assert(self.entries@[j].name@ != name);
        }
        if i < j {
            assert(self.entries@[i].name@ != name);
        }
    }

    fn find(&self, name: &str) -> (r: Option<usize>)
        ensures
            match r {
                Some(i) => i < self.entries@.len() && self.entry(name@) == Some(
                    self.entries@[i as int],
                ),
                None => self.entry(name@) is None,
            },
    {
        let mut i: usize = 0;
        while i < self.entries.len()
            invariant
                i <= self.entries@.len(),
                forall|j: int| 0 <= j < i ==> (#[trigger] self.entries@[j]).name@ != name@,
            decreases self.entries@.len() - i,
        {
            if text::str_eq(self.entries[i].name.as_str(), name) {
                proof {
                    self.lemma_entry(name@, i as int);
                }
                return Some(i);
            }
            i = i + 1;
        }
        None
    }

    /// What asking for a weight ends in, if not in the weight.
    pub open spec fn require_fault(self, name: Seq<char>) -> Option<ErrorV> {
        if self.has(name) {
            None
        } else {
            Some(missing(name))
        }
    }

    /// The weight with the name.
    pub fn require(&self, name: &str) -> (r: Result<&BankEntry>)
        ensures
            match self.entry(name@) {
                Some(e) => r matches Ok(x) && *x == e,
                None => error::fails_with(r, missing(name@)),
            },
    {
        match self.find(name) {
            Some(i) => Ok(&self.entries[i]),
            None => Err(Error::Weights(text::text_around("missing weight '", name, "'"))),
        }
    }

    /// What asking for a weight and reading it ends in, if not in its floats.
    pub open spec fn floats_fault(self, name: Seq<char>) -> Option<ErrorV> {
        match self.entry(name) {
            None => Some(missing(name)),
            Some(e) => read_fault(e),
        }
    }

    fn require_floats(&self, name: &str) -> (r: Result<()>)
        ensures
            match self.floats_fault(name@) {
                Some(e) => error::fails_with(r, e),
                None => r is Ok,
            },
    {
        match self.require(name) {
            Err(e) => Err(e),
            Ok(entry) => match &entry.fault {
                Some(f) => Err(f.copied()),
                None => Ok(()),
            },
        }
    }

    /// What reading a weight that may be absent ends in, if it is there and
    /// cannot be read.
    pub open spec fn optional_fault(self, name: Seq<char>) -> Option<ErrorV> {
        match self.entry(name) {
            None => None,
            Some(e) => read_fault(e),
        }
    }

    /// Whether a weight that may be absent is there; it must be readable then.
    fn optional_floats(&self, name: &str) -> (r: Result<bool>)
        ensures
            match self.optional_fault(name@) {
                Some(e) => error::fails_with(r, e),
                None => r == Ok::<bool, Error>(self.has(name@)),
            },
    {
        match self.find(name) {
            None => Ok(false),
            Some(i) => match &self.entries[i].fault {
                Some(f) => Err(f.copied()),
                None => Ok(true),
            },
        }
    }

    /// The weight is there and can be read.
    pub open spec fn readable(self, name: Seq<char>) -> bool {
        self.floats_fault(name) is None
    }

    fn is_readable(&self, name: &str) -> (r: bool)
        ensures
            r == self.readable(name@),
    {
        match self.find(name) {
            None => false,
            Some(i) => self.entries[i].fault.is_none(),
        }
    }

    /// The scale of a layer's output: one where none is stored or it cannot be
    /// read.
    pub open spec fn scalar_bits(self, li: int) -> u32 {
        match self.entry(layer_name(li, ".layer_scalar"@)) {
            Some(e) => match (e.fault, e.first_bits) {
                (None, Some(b)) => b,
                _ => model::ONE_BITS,
            },
            None => model::ONE_BITS,
        }
    }

    fn layer_scalar(&self, li: usize) -> (r: u32)
        ensures
            r == self.scalar_bits(li as int),
    {
        match self.find(layer_text(li, ".layer_scalar").as_str()) {
            Some(i) => if self.entries[i].fault.is_none() {
                match self.entries[i].first_bits {
                    Some(b) => b,
                    None => model::ONE_BITS,
                }
            } else {
                model::ONE_BITS
            },
            None => model::ONE_BITS,
        }
    }
}

/// Bits of the fraction of a global head that is rotated where nothing is configured:
/// a quarter.
pub const QUARTER_F32: u32 = 0x3E80_0000;

/// The rotated width of a global layer's heads: at least one.
pub open spec fn global_rotary(c: Gemma4TextConfig) -> int {
    let factor = match c.rope_parameters {
        Some(r) => match r.full_attention.partial_rotary_factor_bits {
            Some(b) => floats::narrowed(b),
            None => QUARTER_F32,
        },
        None => QUARTER_F32,
    };
    kv_slot::max2(floats::times_f32(c.global_head_dim as int, factor), 1)
}

/// The rotary base of global layers.
pub open spec fn global_theta(c: Gemma4TextConfig) -> u32 {
    match c.rope_parameters {
        Some(r) => floats::narrowed(r.full_attention.rope_theta_bits),
        None => crate::forward::THETA_GLOBAL_BITS,
    }
}

fn global_rope(c: &Gemma4TextConfig) -> (r: (usize, u32))
    ensures
        r.0 == global_rotary(*c),
        r.1 == global_theta(*c),
{
    let mut factor: u32 = QUARTER_F32;
    let mut theta: u32 = crate::forward::THETA_GLOBAL_BITS;
    match &c.rope_parameters {
        Some(p) => {
            theta = floats::narrow(p.full_attention.rope_theta_bits);
            match p.full_attention.partial_rotary_factor_bits {
                Some(b) => {
                    factor = floats::narrow(b);
                },
                None => {},
            }
        },
        None => {},
    }
    let w: usize = floats::floor_times_f32(c.global_head_dim, factor);
    if w < 1 {
        (1, theta)
    } else {
        (w, theta)
    }
}

/// Where a layer takes weights that it may lack.
#[derive(Clone, Copy, Debug, PartialEq, Eq, Structural)]
pub struct LayerSources {
    /// The value projection is the key projection.
    pub v_from_k: bool,
    /// The norm before the residual is the one before the feed-forward part.
    pub post_attn_from_pre_ff: bool,
    /// The key norm is all ones.
    pub k_norm_ones: bool,
}

/// The first fault in a layer: that the layout lacks it, or one in its weights.
pub open spec fn layer_fault(b: HostWeightBanks, li: int) -> Option<ErrorV> {
    if li < b.kv_layout.layers@.len() {
        weights_fault(b, li, b.kv_layout.layers@[li])
    } else {
        Some(kv::no_layer(li))
    }
}

/// The first fault in the weights of a layer.
pub open spec fn weights_fault(b: HostWeightBanks, li: int, map: LayerKv) -> Option<ErrorV> {
    let post_attn = layer_name(li, ".post_attention_layernorm.weight"@);
    let pre_ff = layer_name(li, ".pre_feedforward_layernorm.weight"@);
    earlier(
        matrices_fault(b, li),
        earlier(
            kv_fault(b, li, map),
            earlier(
                b.floats_fault(layer_name(li, ".input_layernorm.weight"@)),
                earlier(
                    if b.readable(post_attn) || b.readable(pre_ff) {
                        None
                    } else {
                        Some(
                            error::weights_error(
                                "missing both post_attention and pre_feedforward norms for layers."@
                                    + text::dec(li as nat),
                            ),
                        )
                    },
                    earlier(
                        b.floats_fault(layer_name(li, ".self_attn.q_norm.weight"@)),
                        earlier(
                            b.optional_fault(layer_name(li, ".self_attn.k_norm.weight"@)),
                            b.optional_fault(
                                layer_name(li, ".post_feedforward_layernorm.weight"@),
                            ),
                        ),
                    ),
                ),
            ),
        ),
    )
}

/// The first projection that a layer lacks, of those that every layer has.
pub open spec fn matrices_fault(b: HostWeightBanks, li: int) -> Option<ErrorV> {
    earlier(
        b.require_fault(layer_name(li, ".self_attn.q_proj.weight"@)),
        earlier(
            b.require_fault(layer_name(li, ".self_attn.o_proj.weight"@)),
            earlier(
                b.require_fault(layer_name(li, ".mlp.gate_proj.weight"@)),
                earlier(
                    b.require_fault(layer_name(li, ".mlp.up_proj.weight"@)),
                    b.require_fault(layer_name(li, ".mlp.down_proj.weight"@)),
                ),
            ),
        ),
    )
}

/// The value projection may be the key projection: on global layers, where the
/// configuration says so.
pub open spec fn v_may_be_k(c: Gemma4TextConfig, map: LayerKv) -> bool {
    c.attention_k_eq_v && map.layer_type == LayerType::FullAttention
}

/// The first key or value projection that a writing layer lacks.
pub open spec fn kv_fault(b: HostWeightBanks, li: int, map: LayerKv) -> Option<ErrorV> {
    let v = layer_name(li, ".self_attn.v_proj.weight"@);
    if map.role is Producer {
        earlier(
            b.require_fault(layer_name(li, ".self_attn.k_proj.weight"@)),
            if b.has(v) || v_may_be_k(b.config, map) {
                None
            } else {
                Some(missing(v))
            },
        )
    } else {
        None
    }
}

/// The layer that the weights make.
pub open spec fn layer_of(b: HostWeightBanks, li: int) -> GpuSynthLayer {
    let map = b.kv_layout.layers@[li];
    let sliding = map.layer_type == LayerType::SlidingAttention;
    GpuSynthLayer {
        layer_type: map.layer_type,
        role: map.role,
        hq: b.config.num_attention_heads,
        hkv: if sliding {
            b.config.num_key_value_heads
        } else {
            b.config.global_heads()
        },
        head_dim: if sliding {
            b.config.head_dim
        } else {
            b.config.global_head_dim
        },
        rotary_dim: if sliding {
            b.config.head_dim
        } else {
            global_rotary(b.config) as usize
        },
        theta_bits: if sliding {
            crate::forward::THETA_LOCAL_BITS
        } else {
            global_theta(b.config)
        },
        window: if sliding {
            b.config.sliding_window
        } else {
            None
        },
        has_k_proj: map.role is Producer,
        has_v_proj: map.role is Producer,
        has_pre_ff_norm: b.readable(layer_name(li, ".post_attention_layernorm.weight"@))
            && b.readable(layer_name(li, ".pre_feedforward_layernorm.weight"@)),
        has_post_ff_norm: b.has(layer_name(li, ".post_feedforward_layernorm.weight"@)),
        layer_scalar_bits: b.scalar_bits(li),
        has_ple_table: false,
    }
}

/// Where the layer takes weights that it may lack.
pub open spec fn sources_of(b: HostWeightBanks, li: int) -> LayerSources {
    LayerSources {
        v_from_k: b.kv_layout.layers@[li].role is Producer && !b.has(
            layer_name(li, ".self_attn.v_proj.weight"@),
        ),
        post_attn_from_pre_ff: !b.readable(layer_name(li, ".post_attention_layernorm.weight"@)),
        k_norm_ones: !b.has(layer_name(li, ".self_attn.k_norm.weight"@)),
    }
}

fn check_matrices(b: &HostWeightBanks, li: usize) -> (r: Result<()>)
    ensures
        match matrices_fault(*b, li as int) {
            Some(e) => error::fails_with(r, e),
            None => r is Ok,
        },
{
    match b.require(layer_text(li, ".self_attn.q_proj.weight").as_str()) {
        Err(e) => {
            return Err(e);
        },
        Ok(_m) => {},
    }
    match b.require(layer_text(li, ".self_attn.o_proj.weight").as_str()) {
        Err(e) => {
            return Err(e);
        },
        Ok(_m) => {},
    }
    match b.require(layer_text(li, ".mlp.gate_proj.weight").as_str()) {
        Err(e) => {
            return Err(e);
        },
        Ok(_m) => {},
    }
    match b.require(layer_text(li, ".mlp.up_proj.weight").as_str()) {
        Err(e) => {
            return Err(e);
        },
        Ok(_m) => {},
    }
    match b.require(layer_text(li, ".mlp.down_proj.weight").as_str()) {
        Err(e) => Err(e),
        Ok(_m) => Ok(()),
    }
}

fn check_kv(b: &HostWeightBanks, li: usize, map: LayerKv) -> (r: Result<bool>)
    ensures
        match kv_fault(*b, li as int, map) {
            Some(e) => error::fails_with(r, e),
            None => r == Ok::<bool, Error>(
                map.role is Producer && !b.has(
                    layer_name(li as int, ".self_attn.v_proj.weight"@),
                ),
            ),
        },
{
    match map.role {
        KvRole::Consumer { .. } => Ok(false),
        KvRole::Producer { .. } => {
            match b.require(layer_text(li, ".self_attn.k_proj.weight").as_str()) {
                Err(e) => {
                    return Err(e);
                },
                Ok(_m) => {},
            }
            let v = layer_text(li, ".self_attn.v_proj.weight");
            match b.require(v.as_str()) {
                Ok(_m) => Ok(false),
                Err(e) => if b.config.attention_k_eq_v && map.layer_type.is_global() {
                    Ok(true)
                } else {
                    Err(e)
                },
            }
        },
    }
}

fn plan_layer(b: &HostWeightBanks, li: usize) -> (r: Result<
    (GpuSynthLayer, LayerSources),
>)
    ensures
        match layer_fault(*b, li as int) {
            Some(e) => error::fails_with(r, e),
            None => r == Ok::<(GpuSynthLayer, LayerSources), Error>(
                (layer_of(*b, li as int), sources_of(*b, li as int)),
            ),
        },
{
    let map = match b.kv_layout.layer(li) {
        Err(e) => {
            return Err(e);
        },
        Ok(map) => map,
    };
    match check_matrices(b, li) {
        Err(e) => {
            return Err(e);
        },
        Ok(()) => {},
    }
    let v_from_k = match check_kv(b, li, map) {
        Err(e) => {
            return Err(e);
        },
        Ok(v) => v,
    };
    match b.require_floats(layer_text(li, ".input_layernorm.weight").as_str()) {
        Err(e) => {
            return Err(e);
        },
        Ok(()) => {},
    }
    let post_attn = b.is_readable(layer_text(li, ".post_attention_layernorm.weight").as_str());
    let pre_ff = b.is_readable(layer_text(li, ".pre_feedforward_layernorm.weight").as_str());
    if !post_attn && !pre_ff {
        return Err(
            Error::Weights(
                text::text_num(
                    "missing both post_attention and pre_feedforward norms for layers.",
                    li as u64,
                ),
            ),
        );
    }
    match b.require_floats(layer_text(li, ".self_attn.q_norm.weight").as_str()) {
        Err(e) => {
            return Err(e);
        },
        Ok(()) => {},
    }
    let k_norm = match b.optional_floats(layer_text(li, ".self_attn.k_norm.weight").as_str()) {
        Err(e) => {
            return Err(e);
        },
        Ok(h) => h,
    };
    let post_ff = match b.optional_floats(
        layer_text(li, ".post_feedforward_layernorm.weight").as_str(),
    ) {
        Err(e) => {
            return Err(e);
        },
        Ok(h) => h,
    };
    let sliding = map.layer_type.is_sliding();
    let producer = matches!(map.role, KvRole::Producer { .. });
    let rope = global_rope(&b.config);
    let layer = GpuSynthLayer {
        layer_type: map.layer_type,
        role: map.role,
        hq: b.config.num_attention_heads,
        hkv: if sliding {
            b.config.num_key_value_heads
        } else {
            b.config.global_kv_heads()
        },
        head_dim: if sliding {
            b.config.head_dim
        } else {
            b.config.global_head_dim
        },
        rotary_dim: if sliding {
            b.config.head_dim
        } else {
            rope.0
        },
        theta_bits: if sliding {
            crate::forward::THETA_LOCAL_BITS
        } else {
            rope.1
        },
        window: if sliding {
            b.config.sliding_window
        } else {
            None
        },
        has_k_proj: producer,
        has_v_proj: producer,
        has_pre_ff_norm: post_attn && pre_ff,
        has_post_ff_norm: post_ff,
        layer_scalar_bits: b.layer_scalar(li),
        has_ple_table: false,
    };
    Ok(
        (
            layer,
            LayerSources { v_from_k, post_attn_from_pre_ff: !post_attn, k_norm_ones: !k_norm },
        ),
    )
}

/// The first fault in the embedding, the output head and the final norm.
pub open spec fn head_fault(b: HostWeightBanks) -> Option<ErrorV> {
    match b.entry("embed_tokens.weight"@) {
        None => Some(missing("embed_tokens.weight"@)),
        Some(e) => if e.shape.rows != b.config.vocab_size || e.shape.cols != b.config.hidden_size {
            Some(
                error::weights_error(
                    "embed_tokens shape ["@ + text::dec(e.shape.rows as nat) + ","@ + text::dec(
                        e.shape.cols as nat,
                    ) + "] != vocab×hidden ["@ + text::dec(b.config.vocab_size as nat) + ","@
                        + text::dec(b.config.hidden_size as nat) + "]"@,
                ),
            )
        } else {
            b.floats_fault("norm.weight"@)
        },
    }
}

fn check_head(b: &HostWeightBanks) -> (r: Result<()>)
    ensures
        match head_fault(*b) {
            Some(e) => error::fails_with(r, e),
            None => r is Ok,
        },
{
    match b.require("embed_tokens.weight") {
        Err(e) => {
            return Err(e);
        },
        Ok(m) => {
            if m.shape.rows != b.config.vocab_size || m.shape.cols != b.config.hidden_size {
                let mut out = text::text2(
                    "embed_tokens shape [",
                    m.shape.rows as u64,
                    ",",
                    m.shape.cols as u64,
                    "] != vocab×hidden [",
                );
                text::push_dec(&mut out, b.config.vocab_size as u64);
                out.append(",");
                text::push_dec(&mut out, b.config.hidden_size as u64);
                out.append("]");
                return Err(Error::Weights(out));
            }
        },
    }
    b.require_floats("norm.weight")
}

/// The first fault in the layers from `li` on.
pub open spec fn layers_fault(b: HostWeightBanks, li: int) -> Option<ErrorV>
    decreases b.config.num_hidden_layers - li,
{
    if li >= b.config.num_hidden_layers {
        None
    } else {
        earlier(layer_fault(b, li), layers_fault(b, li + 1))
    }
}

/// The first fault in a checkpoint's weights.
pub open spec fn banks_fault(b: HostWeightBanks) -> Option<ErrorV> {
    earlier(
        head_fault(b),
        earlier(
            layers_fault(b, 0),
            if b.ple == Some(0usize) {
                Some(ErrorV { kind: ErrorKind::Ple, text: "empty PleBanks"@ })
            } else {
                None
            },
        ),
    )
}

/// A model and where its weights come from.
#[derive(Clone, Debug)]
pub struct HotModel {
    pub model: GpuSynthModel,
    pub sources: Vec<LayerSources>,
    /// The output head is the embedding.
    pub tied: bool,
}

impl GpuSynthModel {
    /// The model that a checkpoint's weights make.
    pub fn from_host_banks(banks: HostWeightBanks, embed_scale_bits: u32) -> (r: Result<HotModel>)
        ensures
            match banks_fault(banks) {
                Some(e) => error::fails_with(r, e),
                None => r matches Ok(m) && {
                    &&& m.wf()
                    &&& m.tied == !banks.has("lm_head.weight"@)
                    &&& m.sources@ == Seq::new(
                        banks.config.num_hidden_layers as nat,
                        |i: int| sources_of(banks, i),
                    )
                    &&& m.model.layers@ == Seq::new(
                        banks.config.num_hidden_layers as nat,
                        |i: int| layer_of(banks, i),
                    )
                    &&& m.model.softcap_bits == (match banks.config.final_logit_softcapping_bits {
                        Some(b) => b,
                        None => crate::config::SOFTCAP_BITS,
                    })
                    &&& m.model.hidden == banks.config.hidden_size
                    &&& m.model.vocab == banks.config.vocab_size
                    &&& m.model.intermediate == banks.config.intermediate_size
                    &&& m.model.embed_scale_bits == embed_scale_bits
                    &&& m.model.embed_len == 0
                    &&& m.model.has_embed_q
                    &&& m.model.has_embed_hot
                    &&& m.model.cfg == banks.config
                    &&& m.model.kv == banks.kv_layout
                    &&& !m.model.from_host
                    &&& m.model.has_ple_q4 == (banks.ple is Some)
                },
            },
    {
        match check_head(&banks) {
            Err(e) => {
                return Err(e);
            },
            Ok(()) => {},
        }
        let tied = banks.find("lm_head.weight").is_none();
        let n: usize = banks.config.num_hidden_layers;
        let mut layers: Vec<GpuSynthLayer> = Vec::new();
        let mut sources: Vec<LayerSources> = Vec::new();
        let mut li: usize = 0;
        while li < n
            invariant
                li <= n,
                n == banks.config.num_hidden_layers,
                layers_fault(banks, 0) == layers_fault(banks, li as int),
                layers@ == Seq::new(li as nat, |i: int| layer_of(banks, i)),
                sources@ == Seq::new(li as nat, |i: int| sources_of(banks, i)),
                head_fault(banks) is None,
            decreases n - li,
        {
            match plan_layer(&banks, li) {
                Err(e) => {
                    return Err(e);
                },
                Ok(p) => {
                    layers.push(p.0);
                    sources.push(p.1);
                },
            }
            li = li + 1;
            assert(layers@ =~= Seq::new(li as nat, |i: int| layer_of(banks, i)));
            assert(sources@ =~= Seq::new(li as nat, |i: int| sources_of(banks, i)));
        }
        if let Some(k) = banks.ple {
            if k == 0 {
                return Err(Error::Ple(String::from_str("empty PleBanks")));
            }
        }
        let softcap_bits: u32 = match banks.config.final_logit_softcapping_bits {
            Some(b) => b,
            None => crate::config::SOFTCAP_BITS,
        };
        let model = GpuSynthModel {
            softcap_bits,
            hidden: banks.config.hidden_size,
            vocab: banks.config.vocab_size,
            intermediate: banks.config.intermediate_size,
            embed_scale_bits,
            embed_len: 0,
            has_embed_q: true,
            has_embed_hot: true,
            layers,
            cfg: banks.config,
            kv: banks.kv_layout,
            from_host: false,
            has_ple_q4: banks.ple.is_some(),
        };
        Ok(HotModel { model, sources, tied })
    }
}

/// The layer that a bank belongs to, if it belongs to one.
pub open spec fn bank_layer(bank: Bank) -> Option<usize> {
    match bank {
        Bank::Q(li) => Some(li),
        Bank::K(li) => Some(li),
        Bank::V(li) => Some(li),
        Bank::O(li) => Some(li),
        Bank::Gate(li) => Some(li),
        Bank::Up(li) => Some(li),
        Bank::Down(li) => Some(li),
        Bank::LmHead => None,
    }
}

/// The layer that a norm belongs to, if it belongs to one.
pub open spec fn norm_layer(w: NormW) -> Option<usize> {
    match w {
        NormW::Input(li) => Some(li),
        NormW::PostAttn(li) => Some(li),
        NormW::PreFf(li) => Some(li),
        NormW::PostFf(li) => Some(li),
        NormW::Final => None,
    }
}

fn named(li: usize, rest: &str) -> (r: Option<String>)
    ensures
        r matches Some(s) && s@ == layer_name(li as int, rest@),
{
    Some(layer_text(li, rest))
}

impl HotModel {
    /// One note on weights for each layer.
    pub open spec fn wf(self) -> bool {
        self.sources@.len() == self.model.layers@.len()
    }

    /// The name in the checkpoint of the matrix that a bank holds, where it holds one.
    pub open spec fn bank_source(self, bank: Bank) -> Option<Seq<char>> {
        match bank {
            Bank::Q(li) => Some(layer_name(li as int, ".self_attn.q_proj.weight"@)),
            Bank::K(li) => if self.model.layers@[li as int].has_k_proj {
                Some(layer_name(li as int, ".self_attn.k_proj.weight"@))
            } else {
                None
            },
            Bank::V(li) => if !self.model.layers@[li as int].has_v_proj {
                None
            } else if self.sources@[li as int].v_from_k {
                Some(layer_name(li as int, ".self_attn.k_proj.weight"@))
            } else {
                Some(layer_name(li as int, ".self_attn.v_proj.weight"@))
            },
            Bank::O(li) => Some(layer_name(li as int, ".self_attn.o_proj.weight"@)),
            Bank::Gate(li) => Some(layer_name(li as int, ".mlp.gate_proj.weight"@)),
            Bank::Up(li) => Some(layer_name(li as int, ".mlp.up_proj.weight"@)),
            Bank::Down(li) => Some(layer_name(li as int, ".mlp.down_proj.weight"@)),
            Bank::LmHead => Some(
                if self.tied {
                    "embed_tokens.weight"@
                } else {
                    "lm_head.weight"@
                },
            ),
        }
    }

    /// The name in the checkpoint of the matrix that a bank holds, where it holds one.
    pub fn bank_name(&self, bank: Bank) -> (r: Option<String>)
        requires
            self.wf(),
            bank_layer(bank) matches Some(li) ==> li < self.model.layers@.len(),
        ensures
            match self.bank_source(bank) {
                Some(name) => r matches Some(s) && s@ == name,
                None => r is None,
            },
    {
        match bank {
            Bank::Q(li) => named(li, ".self_attn.q_proj.weight"),
            Bank::K(li) => if self.model.layers[li].has_k_proj {
                named(li, ".self_attn.k_proj.weight")
            } else {
                None
            },
            Bank::V(li) => if !self.model.layers[li].has_v_proj {
                None
            } else if self.sources[li].v_from_k {
                named(li, ".self_attn.k_proj.weight")
            } else {
                named(li, ".self_attn.v_proj.weight")
            },
            Bank::O(li) => named(li, ".self_attn.o_proj.weight"),
            Bank::Gate(li) => named(li, ".mlp.gate_proj.weight"),
            Bank::Up(li) => named(li, ".mlp.up_proj.weight"),
            Bank::Down(li) => named(li, ".mlp.down_proj.weight"),
            Bank::LmHead => Some(
                if self.tied {
                    String::from_str("embed_tokens.weight")
                } else {
                    String::from_str("lm_head.weight")
                },
            ),
        }
    }

    /// The name in the checkpoint of a norm's weights, where the model has that norm.
    pub open spec fn norm_source(self, w: NormW) -> Option<Seq<char>> {
        match w {
            NormW::Input(li) => Some(layer_name(li as int, ".input_layernorm.weight"@)),
            NormW::PostAttn(li) => Some(
                if self.sources@[li as int].post_attn_from_pre_ff {
                    layer_name(li as int, ".pre_feedforward_layernorm.weight"@)
                } else {
                    layer_name(li as int, ".post_attention_layernorm.weight"@)
                },
            ),
            NormW::PreFf(li) => if self.model.layers@[li as int].has_pre_ff_norm {
                Some(layer_name(li as int, ".pre_feedforward_layernorm.weight"@))
            } else {
                None
            },
            NormW::PostFf(li) => if self.model.layers@[li as int].has_post_ff_norm {
                Some(layer_name(li as int, ".post_feedforward_layernorm.weight"@))
            } else {
                None
            },
            NormW::Final => Some("norm.weight"@),
        }
    }

    /// The name in the checkpoint of a norm's weights, where the model has that norm.
    pub fn norm_name(&self, w: NormW) -> (r: Option<String>)
        requires
            self.wf(),
            norm_layer(w) matches Some(li) ==> li < self.model.layers@.len(),
        ensures
            match self.norm_source(w) {
                Some(name) => r matches Some(s) && s@ == name,
                None => r is None,
            },
    {
        match w {
            NormW::Input(li) => named(li, ".input_layernorm.weight"),
            NormW::PostAttn(li) => if self.sources[li].post_attn_from_pre_ff {
                named(li, ".pre_feedforward_layernorm.weight")
            } else {
                named(li, ".post_attention_layernorm.weight")
            },
            NormW::PreFf(li) => if self.model.layers[li].has_pre_ff_norm {
                named(li, ".pre_feedforward_layernorm.weight")
            } else {
                None
            },
            NormW::PostFf(li) => if self.model.layers[li].has_post_ff_norm {
                named(li, ".post_feedforward_layernorm.weight")
            } else {
                None
            },
            NormW::Final => Some(String::from_str("norm.weight")),
        }
    }

    /// The name in the checkpoint of the norm of a layer's query heads or key heads; a
    /// key norm that the checkpoint lacks is all ones.
    pub fn head_norm_name(&self, li: usize, keys: bool) -> (r: Option<String>)
        requires
            self.wf(),
            li < self.model.layers@.len(),
        ensures
            !keys ==> (r matches Some(s) && s@ == layer_name(
                li as int,
                ".self_attn.q_norm.weight"@,
            )),
            keys && self.sources@[li as int].k_norm_ones ==> r is None,
            keys && !self.sources@[li as int].k_norm_ones ==> (r matches Some(s) && s@
                == layer_name(li as int, ".self_attn.k_norm.weight"@)),
    {
        if !keys {
            named(li, ".self_attn.q_norm.weight")
        } else if self.sources[li].k_norm_ones {
            None
        } else {
            named(li, ".self_attn.k_norm.weight")
        }
    }
}

proof fn lemma_no_fault(b: HostWeightBanks, from: int, li: int)
    requires
        from <= li < b.config.num_hidden_layers,
        layers_fault(b, from) is None,
    ensures
        layer_fault(b, li) is None,
    decreases li - from,
{
    if from < li {
        lemma_no_fault(b, from + 1, li);
    }
}

/// A model that a checkpoint makes takes its matrices and norms from weights that the
/// checkpoint has.
pub proof fn named_weights_are_there(b: HostWeightBanks, m: HotModel, bank: Bank, w: NormW)
    requires
        banks_fault(b) is None,
        m.tied == !b.has("lm_head.weight"@),
        m.sources@ == Seq::new(b.config.num_hidden_layers as nat, |i: int| sources_of(b, i)),
        m.model.layers@ == Seq::new(b.config.num_hidden_layers as nat, |i: int| layer_of(b, i)),
        bank_layer(bank) matches Some(li) ==> li < m.model.layers@.len(),
        norm_layer(w) matches Some(li) ==> li < m.model.layers@.len(),
    ensures
        m.wf(),
        m.bank_source(bank) matches Some(name) ==> b.has(name),
        m.norm_source(w) matches Some(name) ==> b.has(name),
{
    if let Some(li) = bank_layer(bank) {
        lemma_no_fault(b, 0, li as int);
        assert(m.model.layers@[li as int] == layer_of(b, li as int));
        assert(m.sources@[li as int] == sources_of(b, li as int));
    }
    if let Some(li) = norm_layer(w) {
        lemma_no_fault(b, 0, li as int);
        assert(m.model.layers@[li as int] == layer_of(b, li as int));
        assert(m.sources@[li as int] == sources_of(b, li as int));
    }
}

/// The layer of the device model that a layer of the synthetic graph makes.
pub open spec fn synth_layer_of(l: SynthLayer) -> GpuSynthLayer {
    GpuSynthLayer {
        layer_type: l.layer_type,
        role: l.role,
        hq: l.hq,
        hkv: l.hkv,
        head_dim: l.head_dim,
        rotary_dim: l.rotary_dim,
        theta_bits: l.theta_bits,
        window: l.window,
        has_k_proj: true,
        has_v_proj: true,
        has_pre_ff_norm: false,
        has_post_ff_norm: false,
        layer_scalar_bits: model::ONE_BITS,
        has_ple_table: l.ple_table@.len() > 0,
    }
}

/// The shapes of a layer's projections.
pub open spec fn shapes_of(l: SynthLayer, hidden: usize, inter: usize) -> HostQLayer {
    let q = (l.hq * l.head_dim) as usize;
    let k = (l.hkv * l.head_dim) as usize;
    HostQLayer {
        q_proj: MatShape { rows: q, cols: hidden },
        k_proj: MatShape { rows: k, cols: hidden },
        v_proj: MatShape { rows: k, cols: hidden },
        o_proj: MatShape { rows: hidden, cols: q },
        gate_proj: MatShape { rows: inter, cols: hidden },
        up_proj: MatShape { rows: inter, cols: hidden },
        down_proj: MatShape { rows: hidden, cols: inter },
    }
}

fn shapes(l: &SynthLayer, hidden: usize, inter: usize) -> (r: HostQLayer)
    requires
        l.hq * l.head_dim <= usize::MAX,
        l.hkv * l.head_dim <= usize::MAX,
    ensures
        r == shapes_of(*l, hidden, inter),
{
    let q: usize = l.hq * l.head_dim;
    let k: usize = l.hkv * l.head_dim;
    HostQLayer {
        q_proj: MatShape { rows: q, cols: hidden },
        k_proj: MatShape { rows: k, cols: hidden },
        v_proj: MatShape { rows: k, cols: hidden },
        o_proj: MatShape { rows: hidden, cols: q },
        gate_proj: MatShape { rows: inter, cols: hidden },
        up_proj: MatShape { rows: inter, cols: hidden },
        down_proj: MatShape { rows: hidden, cols: inter },
    }
}

impl GpuSynthModel {
    /// The device model of a synthetic graph, and the shapes of its projections.
    pub fn from_synthetic(host: SyntheticE4bGraph, embed_scale_bits: u32) -> (r: (
        GpuSynthModel,
        Vec<HostQLayer>,
    ))
        requires
            forall|i: int|
                0 <= i < host.layers@.len() ==> (#[trigger] host.layers@[i]).hq
                    * host.layers@[i].head_dim <= usize::MAX && host.layers@[i].hkv
                    * host.layers@[i].head_dim <= usize::MAX,
        ensures
            r.0.layers@ == host.layers@.map_values(|l: SynthLayer| synth_layer_of(l)),
            r.1@ == host.layers@.map_values(
                |l: SynthLayer| shapes_of(l, host.cfg.hidden_size, host.cfg.intermediate_size),
            ),
            r.0.softcap_bits == host.softcap_bits,
            r.0.hidden == host.cfg.hidden_size,
            r.0.vocab == host.cfg.vocab_size,
            r.0.intermediate == host.cfg.intermediate_size,
            r.0.embed_scale_bits == embed_scale_bits,
            r.0.embed_len == host.embed@.len(),
            !r.0.has_embed_q,
            !r.0.has_embed_hot,
            r.0.cfg == host.cfg,
            r.0.kv == host.kv,
            r.0.from_host,
            !r.0.has_ple_q4,
    {
        let mut layers: Vec<GpuSynthLayer> = Vec::new();
        let mut host_q: Vec<HostQLayer> = Vec::new();
        let mut i: usize = 0;
        while i < host.layers.len()
            invariant
                i <= host.layers@.len(),
                forall|k: int|
                    0 <= k < host.layers@.len() ==> (#[trigger] host.layers@[k]).hq
                        * host.layers@[k].head_dim <= usize::MAX && host.layers@[k].hkv
                        * host.layers@[k].head_dim <= usize::MAX,
                layers@ =~= host.layers@.subrange(0, i as int).map_values(
                    |l: SynthLayer| synth_layer_of(l),
                ),
                host_q@ =~= host.layers@.subrange(0, i as int).map_values(
                    |l: SynthLayer|
                        shapes_of(l, host.cfg.hidden_size, host.cfg.intermediate_size),
                ),
            decreases host.layers@.len() - i,
        {
            let l = &host.layers[i];
            host_q.push(shapes(l, host.cfg.hidden_size, host.cfg.intermediate_size));
            layers.push(
                GpuSynthLayer {
                    layer_type: l.layer_type,
                    role: l.role,
                    hq: l.hq,
                    hkv: l.hkv,
                    head_dim: l.head_dim,
                    rotary_dim: l.rotary_dim,
                    theta_bits: l.theta_bits,
                    window: l.window,
                    has_k_proj: true,
                    has_v_proj: true,
                    has_pre_ff_norm: false,
                    has_post_ff_norm: false,
                    layer_scalar_bits: model::ONE_BITS,
                    has_ple_table: l.ple_table.len() > 0,
                },
            );
            i = i + 1;
        }
        assert(host.layers@.subrange(0, i as int) =~= host.layers@);
        let embed_len: usize = host.embed.len();
        (
            GpuSynthModel {
                softcap_bits: host.softcap_bits,
                hidden: host.cfg.hidden_size,
                vocab: host.cfg.vocab_size,
                intermediate: host.cfg.intermediate_size,
                embed_scale_bits,
                embed_len,
                has_embed_q: false,
                has_embed_hot: false,
                layers,
                cfg: host.cfg,
                kv: host.kv,
                from_host: true,
                has_ple_q4: false,
            },
            host_q,
        )
    }
}

/// A model made from a layout's own layers follows that layout.
pub proof fn hot_models_follow_their_layout(m: GpuSynthModel, b: HostWeightBanks)
    requires
        b.kv_layout.wf(),
        b.kv_layout.layers@.len() == b.config.num_hidden_layers,
        m.kv == b.kv_layout,
        m.cfg == b.config,
        m.hidden == b.config.hidden_size,
        m.vocab == b.config.vocab_size,
        m.intermediate == b.config.intermediate_size,
        m.layers@ == Seq::new(b.config.num_hidden_layers as nat, |i: int| layer_of(b, i)),
        b.config.hidden_size <= u32::MAX,
        b.config.vocab_size <= u32::MAX,
        b.config.intermediate_size <= u32::MAX,
        b.config.hidden_size_per_layer_input <= u32::MAX,
        b.config.num_attention_heads * b.config.head_dim <= u32::MAX,
        b.config.num_attention_heads * b.config.global_head_dim <= u32::MAX,
    ensures
        m.wf(),
{
}

} // verus!
