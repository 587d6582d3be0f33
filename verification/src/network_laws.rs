//! What follows from which rows each layer reads, whatever the layers compute: the value
//! of a position after a layer is made from its own value below and from those of the
//! positions that it reads.

use crate::config::LayerType;
use crate::device_laws;
use crate::forward;
use crate::kv::KvLayout;
use crate::kv_bank::KvBankV;
use crate::kv_slot;
use crate::model::{GpuSynthLayer, GpuSynthModel};
use vstd::prelude::*;

verus! {

/// A network of layers. The values that it computes are left open.
#[verifier::reject_recursive_types(V)]
pub struct Network<V> {
    /// What a position holds before the first layer.
    pub first: spec_fn(int) -> V,
    /// What a layer makes at a position of the position's own value and of what it reads.
    pub layer: spec_fn(int, int, V, spec_fn(int) -> Option<V>) -> V,
    /// Whether a layer reads a position for another: layer, position, position read.
    pub reads: spec_fn(int, int, int) -> bool,
    /// The layer whose keys and values a layer reads: itself, or an earlier one.
    pub source: spec_fn(int) -> int,
}

impl<V> Network<V> {
    /// The value of a position after the first `n` layers.
    pub open spec fn value(self, n: int, pos: int) -> V
        decreases n, 1int,
    {
        if n <= 0 {
            (self.first)(pos)
        } else {
            (self.layer)(n - 1, pos, self.value(n - 1, pos), self.seen(n, pos))
        }
    }

    /// What the last of the first `n` layers reads for a position.
    pub open spec fn seen(self, n: int, pos: int) -> spec_fn(int) -> Option<V>
        decreases n, 0int,
    {
        let from = (self.source)(n - 1);
        |j: int|
            if n <= 0 || !(self.reads)(n - 1, pos, j) {
                None
            } else if 0 <= from < n - 1 {
                Some(self.value(from, j))
            } else {
                Some(self.value(n - 1, j))
            }
    }
}

/// The network of a reference forward over tokens: which rows it reads is what the plan
/// of the forward says, and the embedding and the layers are left open.
pub open spec fn host_network<V>(
    l: KvLayout,
    window: int,
    tokens: Seq<u32>,
    embed: spec_fn(u32) -> V,
    layer: spec_fn(int, int, V, spec_fn(int) -> Option<V>) -> V,
    source: spec_fn(int) -> int,
) -> Network<V> {
    Network {
        first: |pos: int| embed(tokens[pos]),
        layer,
        reads: |li: int, pos: int, j: int|
            {
                let r = forward::host_read(l, window, li, pos);
                0 <= pos && r.kv_off <= j < r.kv_off + r.tkv
            },
        source,
    }
}

/// A later token never changes an earlier position: after every layer, those that read a
/// shared cache included, the values of the first positions are the same whether or not
/// more tokens follow.
pub proof fn host_forward_is_causal<V>(
    l: KvLayout,
    window: int,
    tokens: Seq<u32>,
    more: Seq<u32>,
    embed: spec_fn(u32) -> V,
    layer: spec_fn(int, int, V, spec_fn(int) -> Option<V>) -> V,
    source: spec_fn(int) -> int,
    n: int,
    pos: int,
)
    requires
        l.wf(),
        0 < window <= usize::MAX,
        0 <= n <= l.layers@.len(),
        0 <= pos < tokens.len() < usize::MAX,
    ensures
        host_network(l, window, tokens, embed, layer, source).value(n, pos) == host_network(
            l,
            window,
            tokens + more,
            embed,
            layer,
            source,
        ).value(n, pos),
{
    lemma_causal(l, window, tokens, more, embed, layer, source, n, pos);
}

proof fn lemma_causal<V>(
    l: KvLayout,
    window: int,
    tokens: Seq<u32>,
    more: Seq<u32>,
    embed: spec_fn(u32) -> V,
    layer: spec_fn(int, int, V, spec_fn(int) -> Option<V>) -> V,
    source: spec_fn(int) -> int,
    n: int,
    pos: int,
)
    requires
        0 < window <= usize::MAX,
        0 <= pos < tokens.len() < usize::MAX,
    ensures
        host_network(l, window, tokens, embed, layer, source).value(n, pos) == host_network(
            l,
            window,
            tokens + more,
            embed,
            layer,
            source,
        ).value(n, pos),
    decreases n,
{
    let a = host_network(l, window, tokens, embed, layer, source);
    let b = host_network(l, window, tokens + more, embed, layer, source);
    if n > 0 {
        let from = source(n - 1);
        let fa = a.seen(n, pos);
        let fb = b.seen(n, pos);
        lemma_causal(l, window, tokens, more, embed, layer, source, n - 1, pos);
        assert forall|j: int| #[trigger] fa(j) == fb(j) by {
            if (a.reads)(n - 1, pos, j) {
                if 0 <= from < n - 1 {
                    lemma_causal(l, window, tokens, more, embed, layer, source, from, j);
                } else {
                    lemma_causal(l, window, tokens, more, embed, layer, source, n - 1, j);
                }
            }
        }
        assert(fa =~= fb);
    } else {
        assert(tokens[pos] == (tokens + more)[pos]);
    }
}

/// How far back a layer attends.
pub open spec fn reach_of(p: GpuSynthLayer) -> Option<usize> {
    match p.layer_type {
        LayerType::SlidingAttention => Some(
            match p.window {
                Some(w) => kv_slot::low32(w as int) as usize,
                None => 512,
            },
        ),
        LayerType::FullAttention => None,
    }
}

/// Layer `l` at a position attends to position `j`, where the layer's cache holds `n`
/// timesteps in all.
pub open spec fn cache_read(
    m: GpuSynthModel,
    b: KvBankV,
    l: int,
    n: int,
    pos: int,
    j: int,
) -> bool {
    let p = m.layers@[l];
    let v = b.slot(p.reads()).holding(n).fa_view(kv_slot::low32(n));
    device_laws::attends(v, pos, reach_of(p), j)
}

/// The network of decoding from position `p0` on, with caches as they are there. Behind
/// the timestep at hand a cache holds nothing where tokens are stepped one by one, and
/// the rest of the block where `rows` are verified at once.
pub open spec fn decode_network<V>(
    m: GpuSynthModel,
    b: KvBankV,
    p0: int,
    rows: Option<int>,
    first: spec_fn(int) -> V,
    layer: spec_fn(int, int, V, spec_fn(int) -> Option<V>) -> V,
    source: spec_fn(int) -> int,
    earlier: spec_fn(int, int, int) -> bool,
) -> Network<V> {
    Network {
        first,
        layer,
        reads: |l: int, pos: int, j: int|
            if pos < p0 {
                earlier(l, pos, j)
            } else {
                match rows {
                    Some(k) => cache_read(m, b, l, p0 + k, pos, j),
                    None => cache_read(m, b, l, pos + 1, pos, j),
                }
            },
        source,
    }
}

proof fn lemma_block<V>(
    m: GpuSynthModel,
    b: KvBankV,
    p0: int,
    rows: int,
    first: spec_fn(int) -> V,
    layer: spec_fn(int, int, V, spec_fn(int) -> Option<V>) -> V,
    source: spec_fn(int) -> int,
    earlier: spec_fn(int, int, int) -> bool,
    n: int,
    pos: int,
)
    requires
        0 <= n <= m.layers@.len(),
        0 <= p0,
        p0 + rows <= u32::MAX,
        forall|l: int|
            0 <= l < m.layers@.len() ==> {
                let s = b.slot((#[trigger] m.layers@[l]).reads());
                &&& s.wf()
                &&& s.seq_len == p0
                &&& device_laws::block_leaves_reads(s, rows, reach_of(m.layers@[l]))
            },
        forall|l: int, q: int, j: int| q < p0 && #[trigger] earlier(l, q, j) ==> j <= q,
        pos < p0 + rows,
    ensures
        decode_network(m, b, p0, Some(rows), first, layer, source, earlier).value(n, pos)
            == decode_network(m, b, p0, None, first, layer, source, earlier).value(n, pos),
    decreases n,
{
    let x = decode_network(m, b, p0, Some(rows), first, layer, source, earlier);
    let y = decode_network(m, b, p0, None, first, layer, source, earlier);
    if n > 0 {
        let from = source(n - 1);
        let fx = x.seen(n, pos);
        let fy = y.seen(n, pos);
        lemma_block(m, b, p0, rows, first, layer, source, earlier, n - 1, pos);
        let p = m.layers@[n - 1];
        let s = b.slot(p.reads());
        assert forall|j: int| #[trigger] fx(j) == fy(j) by {
            if pos >= p0 {
                device_laws::block_rows_attend_as_steps(s, rows, pos - p0, reach_of(p), j);
                assert(p0 + (pos - p0) + 1 == pos + 1);
                assert(s.seq_len + rows == p0 + rows);
            }
            assert((x.reads)(n - 1, pos, j) == (y.reads)(n - 1, pos, j));
            if (x.reads)(n - 1, pos, j) {
                assert(j <= pos);
                if 0 <= from < n - 1 {
                    lemma_block(m, b, p0, rows, first, layer, source, earlier, from, j);
                } else {
                    lemma_block(m, b, p0, rows, first, layer, source, earlier, n - 1, j);
                }
            }
        }
        assert(fx =~= fy);
    }
}

/// A verified block chooses what single steps choose: where it does not overwrite what its
/// own rows attend to, the value of each of its rows after every layer, and with it
/// whatever is chosen from the last one, is that of a single step at the row's position
/// with the same tokens before it. What the layers compute is left open, as long as a row's value is
/// made from what it reads.
pub proof fn verified_blocks_choose_as_steps<V>(
    m: GpuSynthModel,
    b: KvBankV,
    p0: int,
    rows: int,
    first: spec_fn(int) -> V,
    layer: spec_fn(int, int, V, spec_fn(int) -> Option<V>) -> V,
    source: spec_fn(int) -> int,
    earlier: spec_fn(int, int, int) -> bool,
    choice: spec_fn(V) -> u32,
    i: int,
)
    requires
        0 <= p0,
        0 <= i < rows,
        p0 + rows <= u32::MAX,
        forall|l: int|
            0 <= l < m.layers@.len() ==> {
                let s = b.slot((#[trigger] m.layers@[l]).reads());
                &&& s.wf()
                &&& s.seq_len == p0
                &&& device_laws::block_leaves_reads(s, rows, reach_of(m.layers@[l]))
            },
        forall|l: int, q: int, j: int| q < p0 && #[trigger] earlier(l, q, j) ==> j <= q,
    ensures
        ({
            let n = m.layers@.len() as int;
            let block = decode_network(m, b, p0, Some(rows), first, layer, source, earlier);
            let steps = decode_network(m, b, p0, None, first, layer, source, earlier);
            choice(block.value(n, p0 + i)) == choice(steps.value(n, p0 + i))
        }),
{
    lemma_block(
        m,
        b,
        p0,
        rows,
        first,
        layer,
        source,
        earlier,
        m.layers@.len() as int,
        p0 + i,
    );
}

} // verus!
