//! The block draft model: its configuration, its cache bookkeeping and the
//! commands of one draft pass.

use crate::config;
use crate::config::LayerType;
use crate::error;
use crate::error::{Error, ErrorV, Result};
use crate::kv_slot;
use crate::text;
use vstd::prelude::*;
use vstd::string::*;

verus! {

/// Captured layers of the 31B draft.
pub const DFLASH_31B_TARGET_LAYER_IDS: [usize; 6] = [1, 12, 23, 35, 46, 57];

/// Mask token of the 31B draft.
pub const DFLASH_31B_MASK_TOKEN_ID: u32 = 4;

/// Block size where nothing else is said.
pub const DFLASH_DEFAULT_BLOCK: usize = 5;

/// Bit pattern of the single `0.000001`.
pub const EPS_BITS: u32 = 0x3586_37BD;

/// Bit pattern of the single `1000000`.
pub const THETA_GLOBAL_F32: u32 = 0x4974_2400;

/// Bit pattern of the single `10000`.
pub const THETA_LOCAL_F32: u32 = 0x461C_4000;

/// Bit pattern of the single `1`.
pub const UNIT_F32: u32 = 0x3F80_0000;

/// Draft model configuration.
#[derive(Clone, Debug)]
pub struct DFlashConfig {
    pub hidden_size: usize,
    pub num_hidden_layers: usize,
    pub num_attention_heads: usize,
    pub num_key_value_heads: usize,
    pub head_dim: usize,
    pub intermediate_size: usize,
    pub vocab_size: usize,
    pub rms_norm_eps_bits: u32,
    pub rope_theta_bits: u32,
    pub max_position_embeddings: usize,
    pub block_size: usize,
    pub target_layer_ids: Vec<usize>,
    pub mask_token_id: u32,
    pub layer_types: Vec<LayerType>,
    pub sliding_window: Option<usize>,
    pub final_logit_softcapping_bits: Option<u32>,
    pub embed_scale_bits: u32,
}

/// The captured layers of the 31B draft, in order.
pub open spec fn target_ids_31b() -> Seq<usize> {
    seq![1usize, 12, 23, 35, 46, 57]
}

/// The layer kinds of the 31B draft: four sliding, one global.
pub open spec fn layer_types_31b() -> Seq<LayerType> {
    seq![
        LayerType::SlidingAttention,
        LayerType::SlidingAttention,
        LayerType::SlidingAttention,
        LayerType::SlidingAttention,
        LayerType::FullAttention,
    ]
}

/// The captured layers of the 31B draft.
pub fn default_target_layer_ids() -> (r: Vec<usize>)
    ensures
        r@ == target_ids_31b(),
{
    let mut out: Vec<usize> = Vec::new();
    let mut i: usize = 0;
    let ghost all = DFLASH_31B_TARGET_LAYER_IDS@;
    assert(all =~= target_ids_31b());
    while i < 6
        invariant
            i <= 6,
            all == DFLASH_31B_TARGET_LAYER_IDS@,
            all.len() == 6,
            out@ == all.subrange(0, i as int),
        decreases 6 - i,
    {
        out.push(DFLASH_31B_TARGET_LAYER_IDS[i]);
        i = i + 1;
        assert(out@ =~= all.subrange(0, i as int));
    }
    assert(all.subrange(0, 6) =~= all);
    out
}

/// The layer kinds of the 31B draft.
pub fn default_layer_types() -> (r: Vec<LayerType>)
    ensures
        r@ == layer_types_31b(),
{
    let mut out: Vec<LayerType> = Vec::new();
    out.push(LayerType::SlidingAttention);
    out.push(LayerType::SlidingAttention);
    out.push(LayerType::SlidingAttention);
    out.push(LayerType::SlidingAttention);
    out.push(LayerType::FullAttention);
    assert(out@ =~= layer_types_31b());
    out
}

/// What is wrong with a draft configuration, if anything is.
pub open spec fn draft_fault(c: DFlashConfig) -> Option<ErrorV> {
    if c.num_hidden_layers == 0 || c.layer_types@.len() != c.num_hidden_layers {
        Some(error::config_error("dflash: layer_types len must match num_hidden_layers"@))
    } else if c.target_layer_ids@.len() == 0 {
        Some(error::config_error("dflash: empty target_layer_ids"@))
    } else if c.head_dim == 0 || c.num_attention_heads as int % c.num_key_value_heads as int != 0 {
        Some(error::config_error("dflash: invalid head geometry"@))
    } else {
        None
    }
}

impl DFlashConfig {
    /// The 31B draft.
    pub fn gemma4_31b() -> (r: Self)
        ensures
            draft_fault(r) is None,
            r.hidden_size == 5376,
            r.num_hidden_layers == 5,
            r.num_attention_heads == 64,
            r.num_key_value_heads == 8,
            r.head_dim == 128,
            r.intermediate_size == 10752,
            r.vocab_size == 262144,
            r.rms_norm_eps_bits == EPS_BITS,
            r.rope_theta_bits == THETA_GLOBAL_F32,
            r.max_position_embeddings == 262144,
            r.block_size == 16,
            r.target_layer_ids@ == target_ids_31b(),
            r.mask_token_id == 4,
            r.layer_types@ == layer_types_31b(),
            r.sliding_window == Some(2048usize),
            r.final_logit_softcapping_bits == Some(config::SOFTCAP_BITS),
            r.embed_scale_bits == UNIT_F32,
    {
        Self {
            hidden_size: 5376,
            num_hidden_layers: 5,
            num_attention_heads: 64,
            num_key_value_heads: 8,
            head_dim: 128,
            intermediate_size: 10752,
            vocab_size: 262_144,
            rms_norm_eps_bits: EPS_BITS,
            rope_theta_bits: THETA_GLOBAL_F32,
            max_position_embeddings: 262_144,
            block_size: 16,
            target_layer_ids: default_target_layer_ids(),
            mask_token_id: DFLASH_31B_MASK_TOKEN_ID,
            layer_types: default_layer_types(),
            sliding_window: Some(2048),
            final_logit_softcapping_bits: Some(config::SOFTCAP_BITS),
            embed_scale_bits: UNIT_F32,
        }
    }

    /// The configuration of the draft that goes with the synthetic graph.
    pub open spec fn is_mini(self) -> bool {
        &&& self.hidden_size == 256
        &&& self.num_hidden_layers == 2
        &&& self.num_attention_heads == 4
        &&& self.num_key_value_heads == 1
        &&& self.head_dim == 128
        &&& self.intermediate_size == 512
        &&& self.vocab_size == 512
        &&& self.rms_norm_eps_bits == EPS_BITS
        &&& self.rope_theta_bits == THETA_LOCAL_F32
        &&& self.max_position_embeddings == 2048
        &&& self.block_size == 4
        &&& self.target_layer_ids@ == seq![0usize, 1, 2]
        &&& self.mask_token_id == 4
        &&& self.layer_types@ == seq![LayerType::SlidingAttention, LayerType::FullAttention]
        &&& self.sliding_window == Some(32usize)
        &&& self.final_logit_softcapping_bits == Some(config::SOFTCAP_BITS)
        &&& self.embed_scale_bits == UNIT_F32
    }

    /// The configuration of the draft that goes with the synthetic graph.
    pub fn synthetic_mini() -> (r: Self)
        ensures
            draft_fault(r) is None,
            r.is_mini(),
    {
        let mut ids: Vec<usize> = Vec::new();
        ids.push(0);
        ids.push(1);
        ids.push(2);
        let mut kinds: Vec<LayerType> = Vec::new();
        kinds.push(LayerType::SlidingAttention);
        kinds.push(LayerType::FullAttention);
        assert(ids@ =~= seq![0usize, 1, 2]);
        assert(kinds@ =~= seq![LayerType::SlidingAttention, LayerType::FullAttention]);
        Self {
            hidden_size: 256,
            num_hidden_layers: 2,
            num_attention_heads: 4,
            num_key_value_heads: 1,
            head_dim: 128,
            intermediate_size: 512,
            vocab_size: 512,
            rms_norm_eps_bits: EPS_BITS,
            rope_theta_bits: THETA_LOCAL_F32,
            max_position_embeddings: 2048,
            block_size: 4,
            target_layer_ids: ids,
            mask_token_id: 4,
            layer_types: kinds,
            sliding_window: Some(32),
            final_logit_softcapping_bits: Some(config::SOFTCAP_BITS),
            embed_scale_bits: UNIT_F32,
        }
    }

    /// The same configuration, whatever holds its lists.
    pub open spec fn same(self, other: DFlashConfig) -> bool {
        &&& self.target_layer_ids@ == other.target_layer_ids@
        &&& self.layer_types@ == other.layer_types@
        &&& self == (DFlashConfig {
            target_layer_ids: self.target_layer_ids,
            layer_types: self.layer_types,
            ..other
        })
    }

    /// A copy.
    pub fn copied(&self) -> (r: DFlashConfig)
        ensures
            r.same(*self),
    {
        let ids: Vec<usize> = self.target_layer_ids.clone();
        let kinds: Vec<LayerType> = self.layer_types.clone();
        assert(ids@ =~= self.target_layer_ids@);
        assert(kinds@ =~= self.layer_types@);
        DFlashConfig {
            hidden_size: self.hidden_size,
            num_hidden_layers: self.num_hidden_layers,
            num_attention_heads: self.num_attention_heads,
            num_key_value_heads: self.num_key_value_heads,
            head_dim: self.head_dim,
            intermediate_size: self.intermediate_size,
            vocab_size: self.vocab_size,
            rms_norm_eps_bits: self.rms_norm_eps_bits,
            rope_theta_bits: self.rope_theta_bits,
            max_position_embeddings: self.max_position_embeddings,
            block_size: self.block_size,
            target_layer_ids: ids,
            mask_token_id: self.mask_token_id,
            layer_types: kinds,
            sliding_window: self.sliding_window,
            final_logit_softcapping_bits: self.final_logit_softcapping_bits,
            embed_scale_bits: self.embed_scale_bits,
        }
    }

    /// Captured layers.
    pub fn num_target_capture(&self) -> (r: usize)
        ensures
            r == self.target_layer_ids@.len(),
    {
        self.target_layer_ids.len()
    }

    /// Width of a captured row.
    pub open spec fn concat_width(self) -> int {
        self.target_layer_ids@.len() * self.hidden_size
    }

    /// Width of a captured row.
    pub fn concat_dim(&self) -> (r: usize)
        requires
            self.concat_width() <= usize::MAX,
        ensures
            r == self.concat_width(),
    {
        self.num_target_capture() * self.hidden_size
    }

    /// Checks the shapes.
    pub fn validate(&self) -> (r: Result<()>)
        requires
            self.num_key_value_heads > 0 || self.head_dim == 0 || self.target_layer_ids@.len() == 0
                || self.num_hidden_layers == 0 || self.layer_types@.len()
                != self.num_hidden_layers,
        ensures
            match draft_fault(*self) {
                Some(e) => error::fails_with(r, e),
                None => r is Ok,
            },
    {
        if self.num_hidden_layers == 0 || self.layer_types.len() != self.num_hidden_layers {
            return Err(
                Error::Config(
                    String::from_str("dflash: layer_types len must match num_hidden_layers"),
                ),
            );
        }
        if self.target_layer_ids.len() == 0 {
            return Err(Error::Config(String::from_str("dflash: empty target_layer_ids")));
        }
        if self.head_dim == 0 || self.num_attention_heads % self.num_key_value_heads != 0 {
            return Err(Error::Config(String::from_str("dflash: invalid head geometry")));
        }
        Ok(())
    }

    /// The attention window of a draft layer: the configured one for sliding
    /// layers, none for global ones.
    pub fn layer_window(&self, li: usize) -> (r: Option<usize>)
        requires
            li < self.layer_types@.len(),
        ensures
            r == self.window_of(li as int),
    {
        if self.layer_types[li].is_sliding() {
            self.sliding_window
        } else {
            None
        }
    }

    /// The attention window of a draft layer.
    pub open spec fn window_of(self, li: int) -> Option<usize> {
        if self.layer_types@[li] == LayerType::SlidingAttention {
            self.sliding_window
        } else {
            None
        }
    }
}

/// Why a context cannot be projected, if it cannot.
pub open spec fn projection_fault(
    concat_len: int,
    t: int,
    concat_dim: int,
    fc_len: int,
    hidden: int,
) -> Option<ErrorV> {
    if t == 0 {
        None
    } else if concat_len != t * concat_dim {
        Some(
            error::config_error(
                "project_context: concat len "@ + text::dec(concat_len as nat) + " != T="@
                    + text::dec(t as nat) + "×concat_dim="@ + text::dec(concat_dim as nat),
            ),
        )
    } else if fc_len != hidden * concat_dim {
        Some(
            error::config_error(
                "project_context: fc_w len "@ + text::dec(fc_len as nat) + " != H×C = "@
                    + text::dec((hidden * concat_dim) as nat),
            ),
        )
    } else {
        None
    }
}

/// Checks the shapes of a context projection and gives the floats of its result.
pub fn project_context(
    concat_len: usize,
    t: usize,
    concat_dim: usize,
    fc_len: usize,
    hidden: usize,
) -> (r: Result<usize>)
    requires
        t * concat_dim <= usize::MAX,
        hidden * concat_dim <= usize::MAX,
        t * hidden <= usize::MAX,
    ensures
        match projection_fault(
            concat_len as int,
            t as int,
            concat_dim as int,
            fc_len as int,
            hidden as int,
        ) {
            Some(e) => error::fails_with(r, e),
            None => r == Ok::<usize, Error>((t * hidden) as usize),
        },
{
    if t == 0 {
        return Ok(0);
    }
    if concat_len != t * concat_dim {
        let mut m = text::text_num2(
            "project_context: concat len ",
            concat_len as u64,
            " != T=",
            t as u64,
        );
        m.append("×concat_dim=");
        text::push_dec(&mut m, concat_dim as u64);
        return Err(Error::Config(m));
    }
    if fc_len != hidden * concat_dim {
        return Err(
            Error::Config(
                text::text_num2(
                    "project_context: fc_w len ",
                    fc_len as u64,
                    " != H×C = ",
                    (hidden * concat_dim) as u64,
                ),
            ),
        );
    }
    Ok(t * hidden)
}

/// Cache bookkeeping of one draft layer: rows held, and the absolute position of
/// the next one.
#[derive(Clone, Copy, Debug, PartialEq, Eq, Structural)]
pub struct DraftCache {
    pub len: usize,
    pub offset: usize,
}

impl DraftCache {
    /// A cache never holds more rows than positions have passed.
    pub open spec fn wf(self) -> bool {
        self.len <= self.offset
    }

    /// The cache without its last `n` rows, as far as it has them.
    pub open spec fn trimmed(self, n: int) -> DraftCache {
        let d = kv_slot::min2(n, self.len as int);
        DraftCache {
            len: (self.len - d) as usize,
            offset: if self.offset >= d {
                (self.offset - d) as usize
            } else {
                0
            },
        }
    }

    /// Forgets the last `n` rows, as far as there are so many.
    pub fn trim_recent(&mut self, n: usize)
        ensures
            *final(self) == old(self).trimmed(n as int),
            old(self).wf() ==> final(self).wf(),
    {
        if n == 0 || self.len == 0 {
            return ;
        }
        let drop: usize = if n <= self.len {
            n
        } else {
            self.len
        };
        self.len = self.len - drop;
        self.offset = self.offset.saturating_sub(drop);
    }

    /// Forgets everything.
    pub fn clear(&mut self)
        ensures
            *final(self) == (DraftCache { len: 0, offset: 0 }),
    {
        self.len = 0;
        self.offset = 0;
    }
}

/// Trimming draft caches keeps the absolute position of the first held row.
pub proof fn trim_keeps_first_position(c: DraftCache, n: int)
    requires
        c.wf(),
        0 <= n,
    ensures
        c.trimmed(n).wf(),
        c.trimmed(n).offset - c.trimmed(n).len == c.offset - c.len,
{
}

} // verus!
