//! Which layer writes which cache slot, and which layers read a shared one.

use crate::config::{Gemma4TextConfig, LayerType};
use crate::error;
use crate::error::{Error, ErrorV, Result};
use crate::text;
use vstd::prelude::*;

verus! {

/// A cache slot that a layer writes.
#[derive(Clone, Copy, Debug, PartialEq, Eq, Structural)]
pub enum KvSlotId {
    SlidingRing { producer_index: usize },
    GlobalFull { producer_index: usize },
}

/// A cache that later layers share.
#[derive(Clone, Copy, Debug, PartialEq, Eq, Structural)]
pub enum SharedKvId {
    SlidingFull,
    GlobalFull,
}

/// Whether a layer writes its own cache or reads a shared one.
#[derive(Clone, Copy, Debug, PartialEq, Eq, Structural)]
pub enum KvRole {
    Producer { slot: KvSlotId },
    Consumer { shared: SharedKvId },
}

/// One layer's place in the layout.
#[derive(Clone, Copy, Debug, PartialEq, Eq, Structural)]
pub struct LayerKv {
    pub layer: usize,
    pub layer_type: LayerType,
    pub role: KvRole,
}

/// The whole layout.
#[derive(Clone, Debug)]
pub struct KvLayout {
    pub layers: Vec<LayerKv>,
    pub first_kv_shared: usize,
    pub sliding_ring_slots: usize,
    pub global_full_slots: usize,
    pub max_seq: usize,
}

/// How many of the first `n` layers have the given kind.
pub open spec fn count_kind(types: Seq<LayerType>, kind: LayerType, n: int) -> nat
    decreases n,
{
    if n <= 0 {
        0
    } else {
        count_kind(types, kind, n - 1) + (if types[n - 1] == kind {
            1nat
        } else {
            0
        })
    }
}

/// The role of layer `i` where the first `first_shared` layers write.
pub open spec fn role_of(types: Seq<LayerType>, first_shared: int, i: int) -> KvRole {
    if i < first_shared {
        KvRole::Producer {
            slot: match types[i] {
                LayerType::SlidingAttention => KvSlotId::SlidingRing {
                    producer_index: count_kind(types, types[i], i) as usize,
                },
                LayerType::FullAttention => KvSlotId::GlobalFull {
                    producer_index: count_kind(types, types[i], i) as usize,
                },
            },
        }
    } else {
        KvRole::Consumer {
            shared: match types[i] {
                LayerType::SlidingAttention => SharedKvId::SlidingFull,
                LayerType::FullAttention => SharedKvId::GlobalFull,
            },
        }
    }
}

/// Counting is monotone and never exceeds the number of layers counted.
pub proof fn lemma_count_kind(types: Seq<LayerType>, kind: LayerType, a: int, b: int)
    requires
        0 <= a <= b,
    ensures
        count_kind(types, kind, a) <= count_kind(types, kind, b),
        count_kind(types, kind, b) <= count_kind(types, kind, a) + (b - a),
    decreases b,
{
    if a < b {
        lemma_count_kind(types, kind, a, b - 1);
    }
}

/// The error for a layer that a layout does not have.
pub open spec fn no_layer(li: int) -> ErrorV {
    error::kv_error("no layer "@ + text::dec(li as nat) + " in the KV layout"@)
}

impl KvLayout {
    /// The kinds of the layers, in order.
    pub open spec fn kinds(self) -> Seq<LayerType> {
        Seq::new(self.layers@.len(), |i: int| self.layers@[i].layer_type)
    }

    /// The layout follows from the layer kinds and the first sharing layer.
    pub open spec fn wf(self) -> bool {
        &&& self.first_kv_shared <= self.layers@.len()
        &&& self.layers@.len() <= usize::MAX
        &&& forall|i: int|
            0 <= i < self.layers@.len() ==> (#[trigger] self.layers@[i]).layer == i
                && self.layers@[i].role == role_of(self.kinds(), self.first_kv_shared as int, i)
        &&& self.sliding_ring_slots == count_kind(
            self.kinds(),
            LayerType::SlidingAttention,
            self.first_kv_shared as int,
        )
        &&& self.global_full_slots == count_kind(
            self.kinds(),
            LayerType::FullAttention,
            self.first_kv_shared as int,
        )
    }

    /// Layer `li` writes, and no later writing layer has its kind: its keys and
    /// values are the ones that the sharing layers read.
    pub open spec fn feeds_shared(self, li: int) -> bool {
        &&& 0 <= li < self.first_kv_shared
        &&& forall|j: int|
            li < j < self.first_kv_shared ==> (#[trigger] self.layers@[j]).layer_type
                != self.layers@[li].layer_type
    }

    /// Builds the layout of a configuration for at most `max_seq` positions.
    pub fn from_config(cfg: &Gemma4TextConfig, max_seq: usize) -> (r: Result<KvLayout>)
        ensures
            cfg.layer_types@.len() >= cfg.num_hidden_layers ==> r is Ok,
            cfg.layer_types@.len() < cfg.num_hidden_layers ==> error::fails_with(
                r,
                error::config_error(
                    "layer_types missing index "@ + text::dec(cfg.layer_types@.len()),
                ),
            ),
            r matches Ok(l) ==> {
                &&& l.wf()
                &&& l.kinds() == cfg.layer_types@.subrange(0, cfg.num_hidden_layers as int)
                &&& l.first_kv_shared == cfg.first_shared()
                &&& l.max_seq == max_seq
            },
    {
        let n: usize = cfg.num_hidden_layers;
        let first: usize = cfg.first_kv_shared();
        let ghost types = cfg.layer_types@;
        let mut layers: Vec<LayerKv> = Vec::new();
        let mut rings: usize = 0;
        let mut globals: usize = 0;
        let mut i: usize = 0;
        while i < n
            invariant
                i <= n,
                n == cfg.num_hidden_layers,
                first == cfg.first_shared(),
                first <= n,
                types == cfg.layer_types@,
                layers@.len() == i,
                i <= types.len() || i == 0,
                rings <= i,
                globals <= i,
                rings == count_kind(
                    types,
                    LayerType::SlidingAttention,
                    if i <= first {
                        i as int
                    } else {
                        first as int
                    },
                ),
                globals == count_kind(
                    types,
                    LayerType::FullAttention,
                    if i <= first {
                        i as int
                    } else {
                        first as int
                    },
                ),
                forall|j: int|
                    0 <= j < i ==> (#[trigger] layers@[j]).layer == j && layers@[j].layer_type
                        == types[j] && layers@[j].role == role_of(types, first as int, j),
            decreases n - i,
        {
            let kind = match cfg.layer_type(i) {
                Ok(k) => k,
                Err(e) => {
                    return Err(e);
                },
            };
            let role = if i < first {
                match kind {
                    LayerType::SlidingAttention => {
                        let slot = KvSlotId::SlidingRing { producer_index: rings };
                        rings = rings + 1;
                        KvRole::Producer { slot }
                    },
                    LayerType::FullAttention => {
                        let slot = KvSlotId::GlobalFull { producer_index: globals };
                        globals = globals + 1;
                        KvRole::Producer { slot }
                    },
                }
            } else {
                match kind {
                    LayerType::SlidingAttention => KvRole::Consumer {
                        shared: SharedKvId::SlidingFull,
                    },
                    LayerType::FullAttention => KvRole::Consumer { shared: SharedKvId::GlobalFull },
                }
            };
            layers.push(LayerKv { layer: i, layer_type: kind, role });
            i = i + 1;
        }
        let out = KvLayout {
            layers,
            first_kv_shared: first,
            sliding_ring_slots: rings,
            global_full_slots: globals,
            max_seq,
        };
        proof {
            let kinds = out.kinds();
            assert(kinds =~= types.subrange(0, n as int));
            lemma_count_agrees(types, kinds, first as int);
            assert forall|j: int| 0 <= j < out.layers@.len() implies out.layers@[j].role == role_of(
                out.kinds(),
                first as int,
                j,
            ) by {
                lemma_count_agrees(types, kinds, j);
            }
        }
        Ok(out)
    }

    /// The place of one layer.
    pub fn layer(&self, li: usize) -> (r: Result<LayerKv>)
        ensures
            li < self.layers@.len() ==> r == Ok::<LayerKv, Error>(self.layers@[li as int]),
            li >= self.layers@.len() ==> error::fails_with(
                r,
                no_layer(li as int),
            ),
    {
        if li < self.layers.len() {
            Ok(self.layers[li])
        } else {
            Err(Error::Kv(text::text1("no layer ", li as u64, " in the KV layout")))
        }
    }

    /// Whether the keys and values of layer `li` are the shared ones.
    pub fn updates_shared(&self, li: usize) -> (r: bool)
        requires
            self.wf(),
            li < self.layers@.len(),
        ensures
            r == self.feeds_shared(li as int),
    {
        if li >= self.first_kv_shared {
            return false;
        }
        let kind = self.layers[li].layer_type;
        let mut j: usize = li + 1;
        while j < self.first_kv_shared
            invariant
                li < j <= self.first_kv_shared <= self.layers@.len(),
                kind == self.layers@[li as int].layer_type,
                forall|m: int| li < m < j ==> (#[trigger] self.layers@[m]).layer_type != kind,
            decreases self.first_kv_shared - j,
        {
            if self.layers[j].layer_type == kind {
                return false;
            }
            j = j + 1;
        }
        true
    }
}

/// Counting looks only at the layers that it counts.
pub proof fn lemma_count_agrees(a: Seq<LayerType>, b: Seq<LayerType>, n: int)
    requires
        0 <= n <= a.len(),
        n <= b.len(),
        forall|i: int| 0 <= i < n ==> a[i] == b[i],
    ensures
        forall|kind: LayerType| #[trigger] count_kind(a, kind, n) == count_kind(b, kind, n),
    decreases n,
{
    if n > 0 {
        lemma_count_agrees(a, b, n - 1);
        assert forall|kind: LayerType| #[trigger] count_kind(a, kind, n) == count_kind(b, kind, n) by {
            assert(count_kind(a, kind, n - 1) == count_kind(b, kind, n - 1));
        }
    }
}

/// Every writing layer has a slot of its kind, and no two share one.
pub proof fn producers_have_distinct_slots(l: KvLayout, i: int, j: int)
    requires
        l.wf(),
        0 <= i < l.first_kv_shared,
        0 <= j < l.first_kv_shared,
    ensures
        match l.layers@[i].role {
            KvRole::Producer { slot: KvSlotId::SlidingRing { producer_index } } => l.layers@[i].layer_type
                == LayerType::SlidingAttention && producer_index < l.sliding_ring_slots,
            KvRole::Producer { slot: KvSlotId::GlobalFull { producer_index } } => l.layers@[i].layer_type
                == LayerType::FullAttention && producer_index < l.global_full_slots,
            KvRole::Consumer { .. } => false,
        },
        i != j ==> l.layers@[i].role != l.layers@[j].role,
{
    let k = l.kinds();
    let f = l.first_kv_shared as int;
    lemma_count_kind(k, k[i], i + 1, f);
    lemma_count_kind(k, k[i], 0, i);
    lemma_count_kind(k, k[j], 0, j);
    if i < j {
        lemma_count_kind(k, k[i], i + 1, j);
        lemma_count_kind(k, k[j], j + 1, f);
    } else if j < i {
        lemma_count_kind(k, k[j], j + 1, i);
        lemma_count_kind(k, k[j], j + 1, f);
    }
}

/// Of each kind at most one layer feeds the shared cache.
pub proof fn one_layer_feeds_shared(l: KvLayout, i: int, j: int)
    requires
        l.wf(),
        l.feeds_shared(i),
        l.feeds_shared(j),
        l.layers@[i].layer_type == l.layers@[j].layer_type,
    ensures
        i == j,
{
    if i < j {
        assert(l.layers@[j].layer_type != l.layers@[i].layer_type);
    } else if j < i {
        assert(l.layers@[i].layer_type != l.layers@[j].layer_type);
    }
}

} // verus!
