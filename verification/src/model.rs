//! What the planner knows of a model: its shapes, which weights it has, and
//! which layer writes which cache.

use crate::config::{Gemma4TextConfig, LayerType};
use crate::kv::{KvLayout, KvRole, KvSlotId};
use crate::ops::SlotRef;
use vstd::prelude::*;

verus! {

/// Bit pattern of the single `1`.
pub const ONE_BITS: u32 = 0x3F80_0000;

/// The pattern stands for a number that scaling by would change something:
/// neither one nor a not-a-number.
pub open spec fn scales(bits: u32) -> bool {
    bits != ONE_BITS && (bits & 0x7FFF_FFFFu32) <= 0x7F80_0000u32
}

/// Whether the number with these bits differs from one. A not-a-number does not
/// compare as different.
pub fn differs_from_one(bits: u32) -> (r: bool)
    ensures
        r == scales(bits),
{
    bits != ONE_BITS && (bits & 0x7FFF_FFFFu32) <= 0x7F80_0000u32
}

/// One layer's shapes and weights.
#[derive(Clone, Copy, Debug, PartialEq, Eq, Structural)]
pub struct GpuSynthLayer {
    pub layer_type: LayerType,
    pub role: KvRole,
    pub hq: usize,
    pub hkv: usize,
    pub head_dim: usize,
    pub rotary_dim: usize,
    pub theta_bits: u32,
    pub window: Option<usize>,
    pub has_k_proj: bool,
    pub has_v_proj: bool,
    pub has_pre_ff_norm: bool,
    pub has_post_ff_norm: bool,
    pub layer_scalar_bits: u32,
    pub has_ple_table: bool,
}

/// A whole model.
#[derive(Clone, Debug)]
pub struct GpuSynthModel {
    pub softcap_bits: u32,
    pub hidden: usize,
    pub vocab: usize,
    pub intermediate: usize,
    pub embed_scale_bits: u32,
    /// Floats of the dense embedding table; zero where there is none.
    pub embed_len: usize,
    pub has_embed_q: bool,
    pub has_embed_hot: bool,
    pub layers: Vec<GpuSynthLayer>,
    pub cfg: Gemma4TextConfig,
    pub kv: KvLayout,
    /// Built from the synthetic graph.
    pub from_host: bool,
    pub has_ple_q4: bool,
}

impl GpuSynthLayer {
    /// The layer writes a cache of its own.
    pub open spec fn produces(self) -> bool {
        self.role is Producer
    }

    /// The slot whose rows the layer's attention reads.
    pub open spec fn reads(self) -> SlotRef {
        match self.role {
            KvRole::Producer { slot: KvSlotId::SlidingRing { producer_index } } => SlotRef::Ring(
                producer_index,
            ),
            KvRole::Producer { slot: KvSlotId::GlobalFull { producer_index } } => SlotRef::Global(
                producer_index,
            ),
            KvRole::Consumer { .. } => self.shares(),
        }
    }

    /// The shared cache of the layer's kind.
    pub open spec fn shares(self) -> SlotRef {
        match self.layer_type {
            LayerType::SlidingAttention => SlotRef::SharedSliding,
            LayerType::FullAttention => SlotRef::SharedGlobal,
        }
    }

    /// Whether the layer writes a cache of its own.
    pub fn is_producer(&self) -> (r: bool)
        ensures
            r == self.produces(),
    {
        matches!(self.role, KvRole::Producer { .. })
    }

    /// The slot whose rows the layer's attention reads.
    pub fn read_slot(&self) -> (r: SlotRef)
        ensures
            r == self.reads(),
    {
        match self.role {
            KvRole::Producer { slot } => match slot {
                KvSlotId::SlidingRing { producer_index } => SlotRef::Ring(producer_index),
                KvSlotId::GlobalFull { producer_index } => SlotRef::Global(producer_index),
            },
            KvRole::Consumer { .. } => self.shared_slot(),
        }
    }

    /// The shared cache of the layer's kind.
    pub fn shared_slot(&self) -> (r: SlotRef)
        ensures
            r == self.shares(),
    {
        match self.layer_type {
            LayerType::SlidingAttention => SlotRef::SharedSliding,
            LayerType::FullAttention => SlotRef::SharedGlobal,
        }
    }
}

impl GpuSynthModel {
    /// The layers follow the cache layout, and shapes fit the device's 32-bit
    /// counts.
    pub open spec fn wf(self) -> bool {
        &&& self.kv.wf()
        &&& self.layers@.len() == self.kv.layers@.len()
        &&& forall|i: int|
            0 <= i < self.layers@.len() ==> {
                &&& (#[trigger] self.layers@[i]).layer_type == self.kv.layers@[i].layer_type
                &&& self.layers@[i].role == self.kv.layers@[i].role
                &&& self.layers@[i].hq * self.layers@[i].head_dim <= u32::MAX
            }
        &&& self.hidden <= u32::MAX
        &&& self.intermediate <= u32::MAX
        &&& self.vocab <= u32::MAX
        &&& self.cfg.hidden_size_per_layer_input <= u32::MAX
    }

    /// A layer adds per-layer embeddings.
    pub open spec fn ple_at(self, li: int) -> bool {
        self.layers@[li].has_ple_table || self.has_ple_q4
    }

    /// The shapes of the synthetic graph.
    pub open spec fn mini_shape(self) -> bool {
        &&& self.from_host
        &&& self.hidden == 256
        &&& self.intermediate == 512
        &&& self.vocab <= 512
        &&& self.layers@.len() == 3
        &&& self.cfg.num_hidden_layers == 3
        &&& self.cfg.num_attention_heads == 1
        &&& self.cfg.head_dim == 256
    }

    /// The shapes of E4B.
    pub open spec fn e4b_shape(self) -> bool {
        &&& self.hidden == 2560
        &&& self.cfg.hidden_size == 2560
        &&& self.cfg.num_hidden_layers == 42
        &&& self.layers@.len() == 42
        &&& self.intermediate == 10240
    }

    /// Whether this is the synthetic graph.
    pub fn is_synthetic_mini(&self) -> (r: bool)
        ensures
            r == self.mini_shape(),
    {
        self.from_host && self.hidden == 256 && self.intermediate == 512 && self.vocab <= 512
            && self.layers.len() == 3 && self.cfg.num_hidden_layers == 3
            && self.cfg.num_attention_heads == 1 && self.cfg.head_dim == 256
    }

    /// Whether the model has the shapes of E4B.
    pub fn is_hot_e4b(&self) -> (r: bool)
        ensures
            r == self.e4b_shape(),
    {
        self.hidden == 2560 && self.cfg.hidden_size == 2560 && self.cfg.num_hidden_layers == 42
            && self.layers.len() == 42 && self.intermediate == 10_240
    }

    /// Whether a recorded layer graph may be used for this model.
    pub fn decode_icb_graph_eligible(&self) -> (r: bool)
        ensures
            r == (self.mini_shape() || self.e4b_shape()),
    {
        self.is_synthetic_mini() || self.is_hot_e4b()
    }
}

/// No model is both the synthetic graph and E4B.
pub proof fn mini_is_not_e4b(m: GpuSynthModel)
    ensures
        !(m.mini_shape() && m.e4b_shape()),
{
}

} // verus!
