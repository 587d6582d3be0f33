//! Model configuration: text backbone, assistant and the top-level wrapper.
//!
//! Floating-point settings are held as their IEEE 754 bit patterns.

use crate::error;
use crate::error::{Error, ErrorV, Result};
use crate::text;
use vstd::prelude::*;
use vstd::string::*;

verus! {

/// Bit pattern of the double `10000`.
pub const THETA_LOCAL_BITS: u64 = 0x40C3_8800_0000_0000;

/// Bit pattern of the double `1000000`.
pub const THETA_GLOBAL_BITS: u64 = 0x412E_8480_0000_0000;

/// Bit pattern of the double `0.000001`.
pub const RMS_EPS_BITS: u64 = 0x3EB0_C6F7_A0B5_ED8D;

/// Bit pattern of the double `0.25`.
pub const QUARTER_BITS: u64 = 0x3FD0_0000_0000_0000;

/// Bit pattern of the single `30`.
pub const SOFTCAP_BITS: u32 = 0x41F0_0000;

/// Attention window where the configuration names none.
pub const WINDOW: usize = 512;

/// Sliding or global attention.
#[derive(Clone, Copy, Debug, PartialEq, Eq, Structural)]
pub enum LayerType {
    SlidingAttention,
    FullAttention,
}

impl LayerType {
    pub fn is_sliding(self) -> (r: bool)
        ensures
            r == (self == LayerType::SlidingAttention),
    {
        matches!(self, LayerType::SlidingAttention)
    }

    pub fn is_global(self) -> (r: bool)
        ensures
            r == (self == LayerType::FullAttention),
    {
        matches!(self, LayerType::FullAttention)
    }
}

/// Rotary embedding settings of one attention family.
#[derive(Clone, Debug)]
pub struct RopeFamily {
    pub rope_theta_bits: u64,
    pub rope_type: String,
    pub partial_rotary_factor_bits: Option<u64>,
}

/// Rotary embeddings of the sliding and of the global layers.
#[derive(Clone, Debug)]
pub struct RopeParameters {
    pub sliding_attention: RopeFamily,
    pub full_attention: RopeFamily,
}

/// End-of-sequence ids: one, or a list.
#[derive(Clone, Debug)]
pub enum EosIds {
    One(u32),
    Many(Vec<u32>),
}

impl EosIds {
    /// The ids in order.
    pub open spec fn ids(self) -> Seq<u32> {
        match self {
            EosIds::One(id) => seq![id],
            EosIds::Many(v) => v@,
        }
    }

    /// The ids in order.
    pub fn as_slice(&self) -> (r: Vec<u32>)
        ensures
            r@ == self.ids(),
    {
        match self {
            EosIds::One(id) => {
                let mut out: Vec<u32> = Vec::new();
                out.push(*id);
                out
            },
            EosIds::Many(v) => v.clone(),
        }
    }
}

/// The text backbone.
#[derive(Clone, Debug)]
pub struct Gemma4TextConfig {
    pub vocab_size: usize,
    pub hidden_size: usize,
    pub intermediate_size: usize,
    pub num_hidden_layers: usize,
    pub num_attention_heads: usize,
    pub num_key_value_heads: usize,
    pub head_dim: usize,
    pub global_head_dim: usize,
    /// Key/value heads of global layers, where they differ.
    pub num_global_key_value_heads: Option<usize>,
    pub attention_k_eq_v: bool,
    pub num_kv_shared_layers: usize,
    pub hidden_activation: String,
    pub rms_norm_eps_bits: u64,
    pub max_position_embeddings: usize,
    pub sliding_window: Option<usize>,
    pub layer_types: Vec<LayerType>,
    pub final_logit_softcapping_bits: Option<u32>,
    pub tie_word_embeddings: bool,
    /// Width of the per-layer embedding; zero where the model has none.
    pub hidden_size_per_layer_input: usize,
    pub vocab_size_per_layer_input: usize,
    pub rope_parameters: Option<RopeParameters>,
    pub bos_token_id: Option<u32>,
    pub eos_token_id: Option<EosIds>,
    pub pad_token_id: Option<u32>,
    pub attention_bias: bool,
}

/// Vocabulary size where the configuration names none.
pub fn default_vocab() -> (r: usize)
    ensures
        r == 262144,
{
    262_144
}

/// Head width of sliding layers where the configuration names none.
pub fn default_head_dim() -> (r: usize)
    ensures
        r == 256,
{
    256
}

/// Head width of global layers where the configuration names none.
pub fn default_global_head_dim() -> (r: usize)
    ensures
        r == 512,
{
    512
}

/// Activation where the configuration names none.
pub fn default_hidden_act() -> (r: String)
    ensures
        r@ == "gelu_pytorch_tanh"@,
{
    String::from_str("gelu_pytorch_tanh")
}

/// Rotary type where the configuration names none.
pub fn default_rope_type() -> (r: String)
    ensures
        r@ == "default"@,
{
    String::from_str("default")
}

/// Rotary base where the configuration names none.
pub fn default_rope_theta() -> (r: u64)
    ensures
        r == THETA_LOCAL_BITS,
{
    THETA_LOCAL_BITS
}

/// Norm epsilon where the configuration names none.
pub fn default_rms_eps() -> (r: u64)
    ensures
        r == RMS_EPS_BITS,
{
    RMS_EPS_BITS
}

/// Logit softcap where the configuration names none.
pub fn default_softcap() -> (r: Option<u32>)
    ensures
        r == Some(SOFTCAP_BITS),
{
    Some(SOFTCAP_BITS)
}

/// Context length where the configuration names none.
pub fn default_max_pos() -> (r: usize)
    ensures
        r == 131072,
{
    131_072
}

/// Assistant centroids where the configuration names none.
pub fn default_centroids() -> (r: usize)
    ensures
        r == 2048,
{
    2048
}

/// Assistant top-k where the configuration names none.
pub fn default_centroid_topk() -> (r: usize)
    ensures
        r == 32,
{
    32
}

/// The repeating pattern of the released models: five sliding layers, one
/// global.
pub open spec fn five_to_one(i: int) -> LayerType {
    if (i + 1) % 6 == 0 {
        LayerType::FullAttention
    } else {
        LayerType::SlidingAttention
    }
}

/// `n` layers of the repeating pattern.
pub fn layer_pattern(n: usize) -> (r: Vec<LayerType>)
    ensures
        r@ == Seq::new(n as nat, |i: int| five_to_one(i)),
{
    let mut out: Vec<LayerType> = Vec::with_capacity(n);
    let mut i: usize = 0;
    while i < n
        invariant
            i <= n,
            out@ == Seq::new(i as nat, |j: int| five_to_one(j)),
        decreases n - i,
    {
        if i % 6 == 5 {
            out.push(LayerType::FullAttention);
        } else {
            out.push(LayerType::SlidingAttention);
        }
        i = i + 1;
        assert(out@ =~= Seq::new(i as nat, |j: int| five_to_one(j)));
    }
    out
}

/// The rotary settings of the released models.
pub open spec fn released_rope(r: RopeParameters) -> bool {
    &&& r.sliding_attention.rope_theta_bits == THETA_LOCAL_BITS
    &&& r.sliding_attention.rope_type@ == "default"@
    &&& r.sliding_attention.partial_rotary_factor_bits is None
    &&& r.full_attention.rope_theta_bits == THETA_GLOBAL_BITS
    &&& r.full_attention.rope_type@ == "proportional"@
    &&& r.full_attention.partial_rotary_factor_bits == Some(QUARTER_BITS)
}

/// The rotary settings of the released models.
pub fn rope_released() -> (r: RopeParameters)
    ensures
        released_rope(r),
{
    RopeParameters {
        sliding_attention: RopeFamily {
            rope_theta_bits: THETA_LOCAL_BITS,
            rope_type: String::from_str("default"),
            partial_rotary_factor_bits: None,
        },
        full_attention: RopeFamily {
            rope_theta_bits: THETA_GLOBAL_BITS,
            rope_type: String::from_str("proportional"),
            partial_rotary_factor_bits: Some(QUARTER_BITS),
        },
    }
}

/// What the released models have in common.
pub open spec fn released_common(c: Gemma4TextConfig) -> bool {
    &&& c.vocab_size == 262144
    &&& c.head_dim == 256
    &&& c.global_head_dim == 512
    &&& c.hidden_activation@ == "gelu_pytorch_tanh"@
    &&& c.rms_norm_eps_bits == RMS_EPS_BITS
    &&& c.final_logit_softcapping_bits == Some(SOFTCAP_BITS)
    &&& c.tie_word_embeddings
    &&& c.vocab_size_per_layer_input == 262144
    &&& c.rope_parameters matches Some(r) && released_rope(r)
    &&& c.bos_token_id == Some(2u32)
    &&& c.eos_token_id == Some(EosIds::One(1u32))
    &&& c.pad_token_id == Some(0u32)
    &&& !c.attention_bias
    &&& c.layer_types@ == Seq::new(c.num_hidden_layers as nat, |i: int| five_to_one(i))
}

/// The E4B text shapes.
pub open spec fn is_e4b(c: Gemma4TextConfig) -> bool {
    &&& released_common(c)
    &&& c.hidden_size == 2560
    &&& c.intermediate_size == 10240
    &&& c.num_hidden_layers == 42
    &&& c.num_attention_heads == 8
    &&& c.num_key_value_heads == 2
    &&& c.num_global_key_value_heads is None
    &&& !c.attention_k_eq_v
    &&& c.num_kv_shared_layers == 18
    &&& c.max_position_embeddings == 131072
    &&& c.sliding_window == Some(512usize)
    &&& c.hidden_size_per_layer_input == 256
}

/// The 31B text shapes.
pub open spec fn is_b31(c: Gemma4TextConfig) -> bool {
    &&& released_common(c)
    &&& c.hidden_size == 5376
    &&& c.intermediate_size == 21504
    &&& c.num_hidden_layers == 60
    &&& c.num_attention_heads == 32
    &&& c.num_key_value_heads == 16
    &&& c.num_global_key_value_heads == Some(4usize)
    &&& c.attention_k_eq_v
    &&& c.num_kv_shared_layers == 0
    &&& c.max_position_embeddings == 262144
    &&& c.sliding_window == Some(1024usize)
    &&& c.hidden_size_per_layer_input == 0
}

/// `after` is `before` with the fields that have a default filled where they were
/// unset: the key/value heads of global layers, the window, the softcap and the
/// rotary settings. Special tokens have no default and stay as they are.
pub open spec fn filled(before: Gemma4TextConfig, after: Gemma4TextConfig) -> bool {
    &&& after == (Gemma4TextConfig {
        num_global_key_value_heads: Some(before.global_heads()),
        sliding_window: Some(
            match before.sliding_window {
                Some(w) => w,
                None => WINDOW,
            },
        ),
        final_logit_softcapping_bits: Some(
            match before.final_logit_softcapping_bits {
                Some(b) => b,
                None => SOFTCAP_BITS,
            },
        ),
        rope_parameters: after.rope_parameters,
        ..before
    })
    &&& match before.rope_parameters {
        Some(_) => after.rope_parameters == before.rope_parameters,
        None => after.rope_parameters matches Some(r) && released_rope(r),
    }
}

/// The first thing wrong with a configuration, if anything is.
pub open spec fn config_fault(c: Gemma4TextConfig) -> Option<ErrorV> {
    if c.layer_types@.len() == 0 {
        Some(error::config_error("layer_types empty — required for dual FA / KV layout"@))
    } else if c.layer_types@.len() != c.num_hidden_layers {
        Some(
            error::config_error(
                "layer_types len "@ + text::dec(c.layer_types@.len()) + " != num_hidden_layers "@
                    + text::dec(c.num_hidden_layers as nat),
            ),
        )
    } else if c.num_kv_shared_layers > c.num_hidden_layers {
        Some(
            error::config_error(
                "num_kv_shared_layers "@ + text::dec(c.num_kv_shared_layers as nat)
                    + " > num_hidden_layers "@ + text::dec(c.num_hidden_layers as nat),
            ),
        )
    } else if c.head_dim == 0 || c.global_head_dim == 0 {
        Some(error::config_error("head_dim / global_head_dim must be > 0"@))
    } else {
        None
    }
}

impl Gemma4TextConfig {
    /// The first layer that reads a shared cache instead of writing its own.
    pub open spec fn first_shared(self) -> int {
        if self.num_hidden_layers >= self.num_kv_shared_layers {
            self.num_hidden_layers - self.num_kv_shared_layers
        } else {
            0
        }
    }

    /// Key/value heads of a global layer.
    pub open spec fn global_heads(self) -> usize {
        match self.num_global_key_value_heads {
            Some(n) => n,
            None => self.num_key_value_heads,
        }
    }

    /// The first layer that reads a shared cache instead of writing its own.
    pub fn first_kv_shared(&self) -> (r: usize)
        ensures
            r == self.first_shared(),
    {
        self.num_hidden_layers.saturating_sub(self.num_kv_shared_layers)
    }

    /// Whether the model has per-layer embeddings.
    pub fn has_ple(&self) -> (r: bool)
        ensures
            r == (self.hidden_size_per_layer_input > 0),
    {
        self.hidden_size_per_layer_input > 0
    }

    /// The attention window, or `fallback` where none is set.
    pub fn sliding_window_or(&self, fallback: usize) -> (r: usize)
        ensures
            r == (match self.sliding_window {
                Some(w) => w,
                None => fallback,
            }),
    {
        match self.sliding_window {
            Some(w) => w,
            None => fallback,
        }
    }

    /// Key/value heads of a global layer.
    pub fn global_kv_heads(&self) -> (r: usize)
        ensures
            r == self.global_heads(),
    {
        match self.num_global_key_value_heads {
            Some(n) => n,
            None => self.num_key_value_heads,
        }
    }

    /// The attention kind of a layer.
    pub fn layer_type(&self, layer: usize) -> (r: Result<LayerType>)
        ensures
            layer < self.layer_types@.len() ==> r == Ok::<LayerType, Error>(
                self.layer_types@[layer as int],
            ),
            layer >= self.layer_types@.len() ==> error::fails_with(
                r,
                error::config_error("layer_types missing index "@ + text::dec(layer as nat)),
            ),
    {
        if layer < self.layer_types.len() {
            Ok(self.layer_types[layer])
        } else {
            Err(Error::Config(text::text_num("layer_types missing index ", layer as u64)))
        }
    }

    /// Checks the shapes, and fills what is unset where they are sound.
    pub fn validate(&mut self) -> (r: Result<()>)
        ensures
            match config_fault(*old(self)) {
                Some(e) => error::fails_with(r, e) && *final(self) == *old(self),
                None => r is Ok && filled(*old(self), *final(self)),
            },
    {
        if self.layer_types.len() == 0 {
            return Err(
                Error::Config(
                    String::from_str("layer_types empty — required for dual FA / KV layout"),
                ),
            );
        }
        if self.layer_types.len() != self.num_hidden_layers {
            return Err(
                Error::Config(
                    text::text_num2(
                        "layer_types len ",
                        self.layer_types.len() as u64,
                        " != num_hidden_layers ",
                        self.num_hidden_layers as u64,
                    ),
                ),
            );
        }
        if self.num_kv_shared_layers > self.num_hidden_layers {
            return Err(
                Error::Config(
                    text::text_num2(
                        "num_kv_shared_layers ",
                        self.num_kv_shared_layers as u64,
                        " > num_hidden_layers ",
                        self.num_hidden_layers as u64,
                    ),
                ),
            );
        }
        if self.head_dim == 0 || self.global_head_dim == 0 {
            return Err(Error::Config(String::from_str("head_dim / global_head_dim must be > 0")));
        }
        self.num_global_key_value_heads = Some(self.global_kv_heads());
        self.sliding_window = Some(self.sliding_window_or(WINDOW));
        if self.final_logit_softcapping_bits.is_none() {
            self.final_logit_softcapping_bits = default_softcap();
        }
        if self.rope_parameters.is_none() {
            self.rope_parameters = Some(rope_released());
        }
        Ok(())
    }

    /// The E4B text shapes.
    pub fn e4b_preset() -> (r: Self)
        ensures
            is_e4b(r),
            config_fault(r) is None,
    {
        Self {
            vocab_size: 262_144,
            hidden_size: 2560,
            intermediate_size: 10_240,
            num_hidden_layers: 42,
            num_attention_heads: 8,
            num_key_value_heads: 2,
            head_dim: 256,
            global_head_dim: 512,
            num_global_key_value_heads: None,
            attention_k_eq_v: false,
            num_kv_shared_layers: 18,
            hidden_activation: default_hidden_act(),
            rms_norm_eps_bits: RMS_EPS_BITS,
            max_position_embeddings: 131_072,
            sliding_window: Some(512),
            layer_types: layer_pattern(42),
            final_logit_softcapping_bits: Some(SOFTCAP_BITS),
            tie_word_embeddings: true,
            hidden_size_per_layer_input: 256,
            vocab_size_per_layer_input: 262_144,
            rope_parameters: Some(rope_released()),
            bos_token_id: Some(2),
            eos_token_id: Some(EosIds::One(1)),
            pad_token_id: Some(0),
            attention_bias: false,
        }
    }

    /// The 31B text shapes.
    pub fn b31_preset() -> (r: Self)
        ensures
            is_b31(r),
            config_fault(r) is None,
    {
        Self {
            vocab_size: 262_144,
            hidden_size: 5376,
            intermediate_size: 21_504,
            num_hidden_layers: 60,
            num_attention_heads: 32,
            num_key_value_heads: 16,
            head_dim: 256,
            global_head_dim: 512,
            num_global_key_value_heads: Some(4),
            attention_k_eq_v: true,
            num_kv_shared_layers: 0,
            hidden_activation: default_hidden_act(),
            rms_norm_eps_bits: RMS_EPS_BITS,
            max_position_embeddings: 262_144,
            sliding_window: Some(1024),
            layer_types: layer_pattern(60),
            final_logit_softcapping_bits: Some(SOFTCAP_BITS),
            tie_word_embeddings: true,
            hidden_size_per_layer_input: 0,
            vocab_size_per_layer_input: 262_144,
            rope_parameters: Some(rope_released()),
            bos_token_id: Some(2),
            eos_token_id: Some(EosIds::One(1)),
            pad_token_id: Some(0),
            attention_bias: false,
        }
    }
}

/// The assistant (draft) model.
#[derive(Clone, Debug)]
pub struct Gemma4AssistantConfig {
    pub backbone_hidden_size: usize,
    pub num_centroids: usize,
    pub centroid_intermediate_top_k: usize,
    pub use_ordered_embeddings: bool,
    pub tie_word_embeddings: bool,
    pub text_config: Gemma4TextConfig,
}

/// A whole configuration file: wrapper, bare text backbone or assistant.
#[derive(Clone, Debug)]
pub enum Gemma4Config {
    Multimodal { text: Gemma4TextConfig },
    Text(Gemma4TextConfig),
    Assistant(Gemma4AssistantConfig),
}

impl Gemma4Config {
    /// The text backbone.
    pub open spec fn backbone(self) -> Gemma4TextConfig {
        match self {
            Gemma4Config::Multimodal { text } => text,
            Gemma4Config::Text(t) => t,
            Gemma4Config::Assistant(a) => a.text_config,
        }
    }

    /// The same configuration with another text backbone.
    pub open spec fn with_backbone(self, t: Gemma4TextConfig) -> Gemma4Config {
        match self {
            Gemma4Config::Multimodal { .. } => Gemma4Config::Multimodal { text: t },
            Gemma4Config::Text(_) => Gemma4Config::Text(t),
            Gemma4Config::Assistant(a) => Gemma4Config::Assistant(
                Gemma4AssistantConfig { text_config: t, ..a },
            ),
        }
    }

    /// The text backbone.
    pub fn text(&self) -> (r: &Gemma4TextConfig)
        ensures
            *r == self.backbone(),
    {
        match self {
            Gemma4Config::Multimodal { text } => text,
            Gemma4Config::Text(t) => t,
            Gemma4Config::Assistant(a) => &a.text_config,
        }
    }

    /// The text backbone, to be changed in place.
    pub fn text_mut(&mut self) -> (r: &mut Gemma4TextConfig)
        ensures
            *r == old(self).backbone(),
            *final(self) == old(self).with_backbone(*final(r)),
    {
        match self {
            Gemma4Config::Multimodal { text } => text,
            Gemma4Config::Text(t) => t,
            Gemma4Config::Assistant(a) => &mut a.text_config,
        }
    }

    /// The assistant, if this is one.
    pub fn assistant(&self) -> (r: Option<&Gemma4AssistantConfig>)
        ensures
            match *self {
                Gemma4Config::Assistant(a) => r == Some(&a),
                _ => r is None,
            },
    {
        match self {
            Gemma4Config::Assistant(a) => Some(a),
            _ => None,
        }
    }

    /// Accepts a configuration whose text backbone is sound, and fills what is unset
    /// in that.
    pub fn checked(self) -> (r: Result<Gemma4Config>)
        ensures
            match config_fault(self.backbone()) {
                Some(e) => error::fails_with(r, e),
                None => r matches Ok(c) && c == self.with_backbone(c.backbone()) && filled(
                    self.backbone(),
                    c.backbone(),
                ),
            },
    {
        let mut cfg = self;
        match cfg.text_mut().validate() {
            Err(e) => Err(e),
            Ok(()) => Ok(cfg),
        }
    }
}

/// Of every six layers of the repeating pattern the first five slide and the last is
/// global.
pub proof fn every_sixth_layer_is_global(k: int, i: int)
    requires
        0 <= k,
        0 <= i < 6,
    ensures
        five_to_one(6 * k + i) == (if i == 5 {
            LayerType::FullAttention
        } else {
            LayerType::SlidingAttention
        }),
{
}

} // verus!
