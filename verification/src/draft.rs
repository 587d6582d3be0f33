//! The draft model on the device: binding, steering and proposing blocks.

use crate::dflash;
use crate::dflash::{DFlashConfig, DraftCache};
use crate::draft_plan;
use crate::draft_plan::{DraftBank, DraftBuf, DraftNorm, DraftOp, DraftShape};
use crate::error;
use crate::error::{Error, ErrorV, Result};
use crate::host_draft::HostDFlashDraft;
use crate::kv_slot;
use crate::model::GpuSynthModel;
use crate::session::VERIFY_MAX_M;
use crate::text;
use vstd::prelude::*;
use vstd::string::*;

verus! {

/// Floats of each linear weight of a draft layer.
#[derive(Clone, Copy, Debug, PartialEq, Eq, Structural)]
pub struct DraftLinears {
    pub q: usize,
    pub k: usize,
    pub v: usize,
    pub o: usize,
    pub gate: usize,
    pub up: usize,
    pub down: usize,
}

/// The draft model's bookkeeping.
#[derive(Clone, Debug)]
pub struct DFlashGpuDraft {
    pub cfg: DFlashConfig,
    pub caches: Vec<DraftCache>,
    pub max_ctx: usize,
    /// Tokens that a block may have.
    pub max_block: usize,
    /// Floats of the bound embedding table.
    pub embed_len: Option<usize>,
    pub lm_head_hot: bool,
    pub lm_head_host: bool,
    /// The token that every proposal consists of, once steered.
    pub mini_steer_prefer: Option<u32>,
}

/// What a proposal comes to.
#[derive(Clone, Debug)]
pub enum Proposal {
    /// The tokens, without a draft pass.
    Steered(Vec<u32>),
    /// A draft pass was queued; this many tokens will be read back.
    Queued(usize),
}

/// The error for a linear weight of the wrong size.
pub open spec fn linear_error(len: int, rows: int, cols: int) -> ErrorV {
    error::config_error(
        "draft linear len "@ + text::dec(len as nat) + " != "@ + text::dec(rows as nat) + "×"@
            + text::dec(cols as nat),
    )
}

/// The first wrong linear weight of a layer, if there is one.
pub open spec fn linears_fault(c: DFlashConfig, w: DraftLinears) -> Option<ErrorV> {
    let h = c.hidden_size as int;
    let qd = c.num_attention_heads * c.head_dim;
    let kd = c.num_key_value_heads * c.head_dim;
    let i = c.intermediate_size as int;
    if w.q != qd * h {
        Some(linear_error(w.q as int, qd, h))
    } else if w.k != kd * h {
        Some(linear_error(w.k as int, kd, h))
    } else if w.v != kd * h {
        Some(linear_error(w.v as int, kd, h))
    } else if w.o != h * qd {
        Some(linear_error(w.o as int, h, qd))
    } else if w.gate != i * h {
        Some(linear_error(w.gate as int, i, h))
    } else if w.up != i * h {
        Some(linear_error(w.up as int, i, h))
    } else if w.down != h * i {
        Some(linear_error(w.down as int, h, i))
    } else {
        None
    }
}

/// The first wrong linear weight of the first `n` layers, if there is one.
pub open spec fn layers_fault(c: DFlashConfig, ws: Seq<DraftLinears>, n: int) -> Option<ErrorV>
    decreases n,
{
    if n <= 0 {
        None
    } else {
        match layers_fault(c, ws, n - 1) {
            Some(e) => Some(e),
            None => linears_fault(c, ws[n - 1]),
        }
    }
}

/// Whether the weight sizes can be computed.
pub open spec fn sizes_fit(c: DFlashConfig) -> bool {
    let h = c.hidden_size as int;
    let qd = c.num_attention_heads * c.head_dim;
    let kd = c.num_key_value_heads * c.head_dim;
    &&& qd <= usize::MAX
    &&& kd <= usize::MAX
    &&& qd * h <= usize::MAX
    &&& kd * h <= usize::MAX
    &&& c.intermediate_size * h <= usize::MAX
}

fn check_linear(len: usize, rows: usize, cols: usize) -> (r: Result<()>)
    requires
        rows * cols <= usize::MAX,
    ensures
        len == rows * cols ==> r is Ok,
        len != rows * cols ==> error::fails_with(
            r,
            linear_error(len as int, rows as int, cols as int),
        ),
{
    if len != rows * cols {
        let mut m = text::text_num2("draft linear len ", len as u64, " != ", rows as u64);
        m.append("×");
        text::push_dec(&mut m, cols as u64);
        return Err(Error::Config(m));
    }
    Ok(())
}

fn check_linears(c: &DFlashConfig, w: DraftLinears) -> (r: Result<()>)
    requires
        sizes_fit(*c),
    ensures
        match linears_fault(*c, w) {
            Some(e) => error::fails_with(r, e),
            None => r is Ok,
        },
{
    let h: usize = c.hidden_size;
    let qd: usize = c.num_attention_heads * c.head_dim;
    let kd: usize = c.num_key_value_heads * c.head_dim;
    let i: usize = c.intermediate_size;
    assert(h * qd == qd * h && h * i == i * h) by (nonlinear_arith);
    match check_linear(w.q, qd, h) {
        Err(e) => {
            return Err(e);
        },
        Ok(()) => {},
    }
    match check_linear(w.k, kd, h) {
        Err(e) => {
            return Err(e);
        },
        Ok(()) => {},
    }
    match check_linear(w.v, kd, h) {
        Err(e) => {
            return Err(e);
        },
        Ok(()) => {},
    }
    match check_linear(w.o, h, qd) {
        Err(e) => {
            return Err(e);
        },
        Ok(()) => {},
    }
    match check_linear(w.gate, i, h) {
        Err(e) => {
            return Err(e);
        },
        Ok(()) => {},
    }
    match check_linear(w.up, i, h) {
        Err(e) => {
            return Err(e);
        },
        Ok(()) => {},
    }
    check_linear(w.down, h, i)
}

proof fn lemma_layers_prefix(c: DFlashConfig, ws: Seq<DraftLinears>, k: int, n: int)
    requires
        0 <= k <= n,
    ensures
        layers_fault(c, ws, k) is Some ==> layers_fault(c, ws, n) == layers_fault(c, ws, k),
    decreases n,
{
    if k < n {
        lemma_layers_prefix(c, ws, k, n - 1);
    }
}

proof fn lemma_same_layers(a: DFlashConfig, b: DFlashConfig, ws: Seq<DraftLinears>, n: int)
    requires
        a.same(b),
    ensures
        layers_fault(a, ws, n) == layers_fault(b, ws, n),
    decreases n,
{
    if n > 0 {
        lemma_same_layers(a, b, ws, n - 1);
    }
}

fn empty_caches(n: usize) -> (r: Vec<DraftCache>)
    ensures
        r@ == Seq::new(n as nat, |i: int| DraftCache { len: 0, offset: 0 }),
{
    let mut out: Vec<DraftCache> = Vec::new();
    let mut i: usize = 0;
    while i < n
        invariant
            i <= n,
            out@ == Seq::new(i as nat, |j: int| DraftCache { len: 0, offset: 0 }),
        decreases n - i,
    {
        out.push(DraftCache { len: 0, offset: 0 });
        i = i + 1;
        assert(out@ =~= Seq::new(i as nat, |j: int| DraftCache { len: 0, offset: 0 }));
    }
    out
}

/// Why a draft cannot be set up on the device, if it cannot.
pub open spec fn setup_fault(c: DFlashConfig, ws: Seq<DraftLinears>) -> Option<ErrorV> {
    if dflash::draft_fault(c) is Some {
        dflash::draft_fault(c)
    } else if c.head_dim != 128 {
        Some(
            error::config_error(
                "DFlashGpuDraft: head_dim "@ + text::dec(c.head_dim as nat)
                    + " != 128 (need flash_attn_swa_h128)"@,
            ),
        )
    } else {
        layers_fault(c, ws, ws.len() as int)
    }
}

/// Embedding row of a token, if the table holds one.
pub open spec fn row_in(len: int, h: int, tid: u32) -> bool {
    tid * h + h <= len
}

/// The error for a token that the draft cannot embed.
pub open spec fn draft_oov(tid: u32) -> ErrorV {
    error::config_error("draft embed OOV "@ + text::dec(tid as nat))
}

/// The first token of a block without an embedding row.
pub open spec fn first_oov(block: Seq<u32>, len: int, h: int, i: int) -> bool {
    &&& 0 <= i < block.len()
    &&& !row_in(len, h, block[i])
    &&& forall|j: int| 0 <= j < i ==> row_in(len, h, #[trigger] block[j])
}

/// Embedding of a block.
pub open spec fn embed_ops(block: Seq<u32>, h: int) -> Seq<DraftOp> {
    Seq::new(
        block.len(),
        |i: int| DraftOp::EmbedRow { start: (block[i] * h) as usize, at: (i * h) as usize },
    )
}

/// Greedy choice for block row `t`.
pub open spec fn sample_row(s: DraftShape, hot: bool, t: int) -> Seq<DraftOp> {
    let h = kv_slot::low32(s.h as int);
    seq![
        DraftOp::Copy {
            src: DraftBuf::X,
            from: (t * s.h) as usize,
            dst: DraftBuf::RowX,
            to: 0,
            n: h,
        },
        DraftOp::Rms {
            src: DraftBuf::RowX,
            weight: DraftNorm::Final,
            dst: DraftBuf::XNormed,
            rows: 1,
            n: h,
        },
    ] + draft_plan::wall(s.hazard) + (if hot {
        seq![
            DraftOp::Gemv {
                bank: DraftBank::LmHead,
                src: DraftBuf::XNormed,
                dst: DraftBuf::Logits,
            },
        ]
    } else {
        seq![DraftOp::Synchronize, DraftOp::HostHead]
    }) + seq![DraftOp::Argmax { index: (t - 1) as usize }]
}

/// Greedy choice for every block row but the first.
pub open spec fn sample_ops(s: DraftShape, hot: bool, l: int) -> Seq<DraftOp> {
    draft_plan::repeat(|i: int| sample_row(s, hot, i + 1), l - 1)
}

fn push_sample_row(q: &mut Vec<DraftOp>, s: DraftShape, hot: bool, t: usize)
    requires
        t >= 1,
        t * s.h <= usize::MAX,
    ensures
        final(q)@ == old(q)@ + sample_row(s, hot, t as int),
{
    let h: u32 = kv_slot::to_u32(s.h);
    q.push(
        DraftOp::Copy { src: DraftBuf::X, from: t * s.h, dst: DraftBuf::RowX, to: 0, n: h },
    );
    q.push(
        DraftOp::Rms {
            src: DraftBuf::RowX,
            weight: DraftNorm::Final,
            dst: DraftBuf::XNormed,
            rows: 1,
            n: h,
        },
    );
    draft_plan::push_wall(q, s.hazard);
    if hot {
        q.push(
            DraftOp::Gemv {
                bank: DraftBank::LmHead,
                src: DraftBuf::XNormed,
                dst: DraftBuf::Logits,
            },
        );
    } else {
        q.push(DraftOp::Synchronize);
        q.push(DraftOp::HostHead);
    }
    q.push(DraftOp::Argmax { index: t - 1 });
    assert(q@ =~= old(q)@ + sample_row(s, hot, t as int));
}

fn push_sample(q: &mut Vec<DraftOp>, s: DraftShape, hot: bool, l: usize)
    requires
        l >= 1,
        l * s.h <= usize::MAX,
    ensures
        final(q)@ == old(q)@ + sample_ops(s, hot, l as int),
{
    let ghost f = |i: int| sample_row(s, hot, i + 1);
    proof {
        draft_plan::lemma_repeat(q@, f, 0);
    }
    let mut t: usize = 1;
    while t < l
        invariant
            1 <= t <= l,
            l * s.h <= usize::MAX,
            f == (|i: int| sample_row(s, hot, i + 1)),
            q@ == old(q)@ + draft_plan::repeat(f, t - 1),
        decreases l - t,
    {
        proof {
            draft_plan::lemma_row_bound(t as int, l as int, s.h as int);
            draft_plan::lemma_repeat(old(q)@, f, t - 1);
        }
        push_sample_row(q, s, hot, t);
        t = t + 1;
    }
}

/// Commands of the first `n` draft layers.
pub open spec fn draft_layers(
    d: DFlashGpuDraft,
    s: DraftShape,
    l: int,
    h_ctx_len: int,
    ctx_t: int,
    n: int,
) -> Seq<DraftOp> {
    draft_plan::repeat(
        |i: int|
            draft_plan::layer_ops(
                s,
                i as usize,
                l,
                h_ctx_len,
                ctx_t,
                d.cfg.window_of(i),
                d.caches@[i],
            ),
        n,
    )
}

impl DFlashGpuDraft {
    /// One cache per layer, each sound and within the context.
    pub open spec fn wf(self) -> bool {
        &&& dflash::draft_fault(self.cfg) is None
        &&& self.caches@.len() == self.cfg.num_hidden_layers
        &&& self.max_ctx >= 1
        &&& 2 <= self.max_block <= 8
        &&& forall|i: int| 0 <= i < self.caches@.len() ==> (#[trigger] self.caches@[i]).wf()
    }

    /// The shapes of a pass.
    pub open spec fn shape(self, hazard: bool) -> DraftShape {
        DraftShape {
            h: self.cfg.hidden_size,
            hq: self.cfg.num_attention_heads,
            hkv: self.cfg.num_key_value_heads,
            d: self.cfg.head_dim,
            inter: self.cfg.intermediate_size,
            hazard,
        }
    }

    /// Everything but the caches is the same.
    pub open spec fn same_setup(self, other: DFlashGpuDraft) -> bool {
        self == (DFlashGpuDraft { caches: self.caches, ..other })
    }

    /// Sets a draft up for weights of the given sizes.
    pub fn from_host(
        cfg: DFlashConfig,
        linears: &Vec<DraftLinears>,
        max_ctx: usize,
        max_block: usize,
        embed_len: Option<usize>,
        lm_head_host: bool,
    ) -> (r: Result<DFlashGpuDraft>)
        requires
            sizes_fit(cfg),
            cfg.num_key_value_heads > 0 || dflash::draft_fault(cfg) is Some && (
            cfg.num_hidden_layers == 0 || cfg.layer_types@.len() != cfg.num_hidden_layers
                || cfg.target_layer_ids@.len() == 0 || cfg.head_dim == 0),
        ensures
            match setup_fault(cfg, linears@) {
                Some(e) => error::fails_with(r, e),
                None => r matches Ok(d) && {
                    &&& d.wf()
                    &&& d.cfg == cfg
                    &&& d.caches@ == Seq::new(
                        cfg.num_hidden_layers as nat,
                        |i: int| DraftCache { len: 0, offset: 0 },
                    )
                    &&& d.max_ctx == kv_slot::max2(max_ctx as int, 1)
                    &&& d.max_block == kv_slot::min2(kv_slot::max2(max_block as int, 2), 8)
                    &&& d.embed_len == embed_len
                    &&& !d.lm_head_hot
                    &&& d.lm_head_host == lm_head_host
                    &&& d.mini_steer_prefer is None
                },
            },
    {
        match cfg.validate() {
            Err(e) => {
                return Err(e);
            },
            Ok(()) => {},
        }
        if cfg.head_dim != 128 {
            return Err(
                Error::Config(
                    text::text1(
                        "DFlashGpuDraft: head_dim ",
                        cfg.head_dim as u64,
                        " != 128 (need flash_attn_swa_h128)",
                    ),
                ),
            );
        }
        let mut i: usize = 0;
        while i < linears.len()
            invariant
                i <= linears@.len(),
                sizes_fit(cfg),
                cfg.head_dim == 128,
                dflash::draft_fault(cfg) is None,
                layers_fault(cfg, linears@, i as int) is None,
            decreases linears@.len() - i,
        {
            proof {
                lemma_layers_prefix(cfg, linears@, i + 1, linears@.len() as int);
            }
            match check_linears(&cfg, linears[i]) {
                Err(e) => {
                    return Err(e);
                },
                Ok(()) => {},
            }
            i = i + 1;
        }
        let n: usize = cfg.num_hidden_layers;
        let max_ctx: usize = if max_ctx >= 1 {
            max_ctx
        } else {
            1
        };
        let max_block: usize = if max_block < 2 {
            2
        } else if max_block > 8 {
            8
        } else {
            max_block
        };
        Ok(
            DFlashGpuDraft {
                cfg,
                caches: empty_caches(n),
                max_ctx,
                max_block,
                embed_len,
                lm_head_hot: false,
                lm_head_host,
                mini_steer_prefer: None,
            },
        )
    }

    /// Sets up the draft of a host draft whose matrices have the given sizes, for
    /// blocks as long as can be verified.
    pub fn from_draft(host: &HostDFlashDraft, linears: &Vec<DraftLinears>, max_ctx: usize) -> (r:
        Result<DFlashGpuDraft>)
        requires
            sizes_fit(host.cfg),
            host.cfg.num_key_value_heads > 0 || dflash::draft_fault(host.cfg) is Some && (
            host.cfg.num_hidden_layers == 0 || host.cfg.layer_types@.len()
                != host.cfg.num_hidden_layers || host.cfg.target_layer_ids@.len() == 0
                || host.cfg.head_dim == 0),
        ensures
            match setup_fault(host.cfg, linears@) {
                Some(e) => error::fails_with(r, e),
                None => r matches Ok(d) && {
                    &&& d.wf()
                    &&& d.cfg.same(host.cfg)
                    &&& d.caches@ == Seq::new(
                        host.cfg.num_hidden_layers as nat,
                        |i: int| DraftCache { len: 0, offset: 0 },
                    )
                    &&& d.max_ctx == kv_slot::max2(max_ctx as int, 1)
                    &&& d.max_block == VERIFY_MAX_M
                    &&& d.embed_len == host.embed
                    &&& !d.lm_head_hot
                    &&& d.lm_head_host == (host.lm_head is Some)
                    &&& d.mini_steer_prefer is None
                },
            },
    {
        let cfg = host.cfg.copied();
        proof {
            lemma_same_layers(cfg, host.cfg, linears@, linears@.len() as int);
        }
        DFlashGpuDraft::from_host(
            cfg,
            linears,
            max_ctx,
            VERIFY_MAX_M,
            host.embed,
            host.lm_head.is_some(),
        )
    }

    /// Forgets the context.
    pub fn reset_cache(&mut self)
        requires
            old(self).wf(),
        ensures
            final(self).wf(),
            final(self).same_setup(*old(self)),
            final(self).caches@ == Seq::new(
                old(self).caches@.len(),
                |i: int| DraftCache { len: 0, offset: 0 },
            ),
    {
        let n: usize = self.caches.len();
        self.caches = empty_caches(n);
    }

    /// Forgets the last `n` context rows of every layer, as far as it has them.
    pub fn trim_cache(&mut self, n: usize)
        requires
            old(self).wf(),
        ensures
            final(self).wf(),
            final(self).same_setup(*old(self)),
            final(self).caches@ == old(self).caches@.map(
                |i: int, c: DraftCache| c.trimmed(n as int),
            ),
    {
        let ghost first = self.caches@;
        let mut i: usize = 0;
        while i < self.caches.len()
            invariant
                i <= self.caches@.len(),
                self.caches@.len() == first.len(),
                first == old(self).caches@,
                *self == (DFlashGpuDraft { caches: self.caches, ..*old(self) }),
                old(self).wf(),
                forall|j: int|
                    0 <= j < i ==> #[trigger] self.caches@[j] == first[j].trimmed(n as int)
                        && self.caches@[j].wf(),
                forall|j: int| i <= j < first.len() ==> #[trigger] self.caches@[j] == first[j],
            decreases self.caches@.len() - i,
        {
            let mut c = self.caches[i];
            assert(c == first[i as int]);
            c.trim_recent(n);
            self.caches.set(i, c);
            i = i + 1;
        }
        assert(self.caches@ =~= first.map(|i: int, c: DraftCache| c.trimmed(n as int)));
    }

    /// The absolute position of the first layer's next context row.
    pub open spec fn offset0(self) -> int {
        if self.caches@.len() > 0 {
            self.caches@[0].offset as int
        } else {
            0
        }
    }

    /// The absolute position of the first layer's next context row.
    pub fn cache_offset(&self) -> (r: usize)
        ensures
            r == self.offset0(),
    {
        if self.caches.len() > 0 {
            self.caches[0].offset
        } else {
            0
        }
    }

    /// Binds embedding and vocabulary tables of the given sizes.
    pub fn bind_embed_lm_head_host(
        &mut self,
        embed_len: usize,
        lm_head_len: usize,
        vocab: usize,
        hidden: usize,
        embed_scale_bits: u32,
    ) -> (r: Result<()>)
        requires
            old(self).wf(),
            vocab * hidden <= usize::MAX,
        ensures
            final(self).wf(),
            embed_len != vocab * hidden || lm_head_len != vocab * hidden ==> *final(self)
                == *old(self) && error::fails_with(
                r,
                error::config_error("DFlashGpuDraft bind: embed/lm_head shape"@),
            ),
            embed_len == vocab * hidden && lm_head_len == vocab * hidden && hidden
                != old(self).cfg.hidden_size ==> *final(self) == *old(self) && error::fails_with(
                r,
                error::config_error("DFlashGpuDraft bind: hidden mismatch"@),
            ),
            embed_len == vocab * hidden && lm_head_len == vocab * hidden && hidden
                == old(self).cfg.hidden_size ==> r is Ok && *final(self) == (DFlashGpuDraft {
                cfg: DFlashConfig { vocab_size: vocab, embed_scale_bits, ..old(self).cfg },
                embed_len: Some(embed_len),
                lm_head_host: true,
                lm_head_hot: false,
                ..*old(self)
            }),
    {
        if embed_len != vocab * hidden || lm_head_len != vocab * hidden {
            return Err(
                Error::Config(String::from_str("DFlashGpuDraft bind: embed/lm_head shape")),
            );
        }
        if hidden != self.cfg.hidden_size {
            return Err(
                Error::Config(String::from_str("DFlashGpuDraft bind: hidden mismatch")),
            );
        }
        self.cfg.vocab_size = vocab;
        self.cfg.embed_scale_bits = embed_scale_bits;
        self.embed_len = Some(embed_len);
        self.lm_head_host = true;
        self.lm_head_hot = false;
        Ok(())
    }

    /// Why a target's tables cannot be bound, if they cannot.
    pub open spec fn bind_fault(self, m: GpuSynthModel) -> Option<ErrorV> {
        if m.hidden != self.cfg.hidden_size {
            Some(
                error::config_error(
                    "target hidden "@ + text::dec(m.hidden as nat) + " != draft "@ + text::dec(
                        self.cfg.hidden_size as nat,
                    ),
                ),
            )
        } else if m.embed_len == 0 && !m.has_embed_q {
            Some(error::config_error("DFlashGpuDraft bind: no target embed"@))
        } else {
            None
        }
    }

    /// Binds the target model's embedding and vocabulary tables.
    pub fn bind_from_session(&mut self, m: &GpuSynthModel) -> (r: Result<()>)
        requires
            old(self).wf(),
            m.vocab * m.hidden <= usize::MAX,
        ensures
            final(self).wf(),
            match old(self).bind_fault(*m) {
                Some(e) => error::fails_with(r, e) && *final(self) == *old(self),
                None => r is Ok && *final(self) == (DFlashGpuDraft {
                    cfg: DFlashConfig {
                        vocab_size: m.vocab,
                        embed_scale_bits: m.embed_scale_bits,
                        ..old(self).cfg
                    },
                    embed_len: Some(
                        if m.embed_len > 0 {
                            m.embed_len
                        } else {
                            (m.vocab * m.hidden) as usize
                        },
                    ),
                    lm_head_hot: true,
                    lm_head_host: true,
                    ..*old(self)
                }),
            },
    {
        if m.hidden != self.cfg.hidden_size {
            return Err(
                Error::Config(
                    text::text_num2(
                        "target hidden ",
                        m.hidden as u64,
                        " != draft ",
                        self.cfg.hidden_size as u64,
                    ),
                ),
            );
        }
        let len: usize = if m.embed_len > 0 {
            m.embed_len
        } else if m.has_embed_q {
            m.vocab * m.hidden
        } else {
            return Err(Error::Config(String::from_str("DFlashGpuDraft bind: no target embed")));
        };
        self.cfg.vocab_size = m.vocab;
        self.cfg.embed_scale_bits = m.embed_scale_bits;
        self.embed_len = Some(len);
        self.lm_head_hot = true;
        self.lm_head_host = true;
        Ok(())
    }

    /// Why the mask cannot be steered, if it cannot.
    pub open spec fn steer_fault(self, prefer: u32) -> Option<ErrorV> {
        if prefer >= self.cfg.vocab_size || self.cfg.mask_token_id >= self.cfg.vocab_size {
            Some(
                error::config_error(
                    "steer_mask_positions_to: prefer="@ + text::dec(prefer as nat) + " mask="@
                        + text::dec(self.cfg.mask_token_id as nat) + " vocab="@ + text::dec(
                        self.cfg.vocab_size as nat,
                    ),
                ),
            )
        } else if self.embed_len is None {
            Some(error::config_error("steer_mask: embed unbound"@))
        } else {
            None
        }
    }

    /// Makes every proposal consist of `prefer`. The result names the embedding
    /// row to copy and the mask's row to overwrite (and to clear in the host's
    /// vocabulary table), as float offsets.
    pub fn steer_mask_positions_to(&mut self, prefer: u32) -> (r: Result<(usize, usize)>)
        requires
            old(self).wf(),
            old(self).cfg.vocab_size * old(self).cfg.hidden_size <= usize::MAX,
        ensures
            final(self).wf(),
            match old(self).steer_fault(prefer) {
                Some(e) => error::fails_with(r, e) && *final(self) == *old(self),
                None => r matches Ok((from, to)) && {
                    &&& from == prefer * old(self).cfg.hidden_size
                    &&& to == old(self).cfg.mask_token_id * old(self).cfg.hidden_size
                    &&& *final(self) == (DFlashGpuDraft {
                        lm_head_hot: old(self).lm_head_hot && !old(self).lm_head_host,
                        mini_steer_prefer: Some(prefer),
                        ..*old(self)
                    })
                },
            },
    {
        let h: usize = self.cfg.hidden_size;
        let mask: u32 = self.cfg.mask_token_id;
        let vocab: usize = self.cfg.vocab_size;
        if prefer as u64 >= vocab as u64 || mask as u64 >= vocab as u64 {
            let mut m = text::text_num2(
                "steer_mask_positions_to: prefer=",
                prefer as u64,
                " mask=",
                mask as u64,
            );
            m.append(" vocab=");
            text::push_dec(&mut m, vocab as u64);
            return Err(Error::Config(m));
        }
        if self.embed_len.is_none() {
            return Err(Error::Config(String::from_str("steer_mask: embed unbound")));
        }
        proof {
            draft_plan::lemma_row_bound(prefer as int, vocab as int, h as int);
            draft_plan::lemma_row_bound(mask as int, vocab as int, h as int);
        }
        let from: usize = prefer as usize * h;
        let to: usize = mask as usize * h;
        if self.lm_head_host {
            self.lm_head_hot = false;
        }
        self.mini_steer_prefer = Some(prefer);
        Ok((from, to))
    }

    /// The draft of the synthetic graph.
    pub open spec fn mini(self) -> bool {
        &&& self.cfg.vocab_size <= 512
        &&& self.cfg.hidden_size == 256
        &&& self.cfg.target_layer_ids@ == seq![0usize, 1, 2]
    }

    /// Whether this is the draft of the synthetic graph.
    pub fn is_synthetic_mini(&self) -> (r: bool)
        ensures
            r == self.mini(),
    {
        let ids = &self.cfg.target_layer_ids;
        let same = ids.len() == 3 && ids[0] == 0 && ids[1] == 1 && ids[2] == 2;
        assert(same ==> ids@ =~= seq![0usize, 1, 2]);
        self.cfg.vocab_size <= 512 && self.cfg.hidden_size == 256 && same
    }

    /// The caches after `ctx_t` rows were counted without a pass.
    pub open spec fn counted(self, c: DraftCache, ctx_t: int) -> DraftCache {
        DraftCache {
            len: kv_slot::min2(c.len + ctx_t, self.max_ctx as int) as usize,
            offset: kv_slot::min2(c.offset + ctx_t, usize::MAX as int) as usize,
        }
    }

    /// Counts `ctx_t` context rows without a pass.
    pub fn count_context(&mut self, ctx_t: usize)
        requires
            old(self).wf(),
            forall|i: int|
                0 <= i < old(self).caches@.len() ==> (#[trigger] old(self).caches@[i]).len + ctx_t
                    <= usize::MAX,
        ensures
            final(self).wf(),
            final(self).same_setup(*old(self)),
            ctx_t == 0 ==> *final(self) == *old(self),
            ctx_t > 0 ==> final(self).caches@ == old(self).caches@.map(
                |i: int, c: DraftCache| old(self).counted(c, ctx_t as int),
            ),
    {
        if ctx_t == 0 {
            return ;
        }
        let ghost first = self.caches@;
        let mut i: usize = 0;
        while i < self.caches.len()
            invariant
                i <= self.caches@.len(),
                self.caches@.len() == first.len(),
                first == old(self).caches@,
                *self == (DFlashGpuDraft { caches: self.caches, ..*old(self) }),
                old(self).wf(),
                forall|j: int|
                    0 <= j < first.len() ==> (#[trigger] first[j]).len + ctx_t <= usize::MAX,
                forall|j: int|
                    0 <= j < i ==> #[trigger] self.caches@[j] == old(self).counted(
                        first[j],
                        ctx_t as int,
                    ) && self.caches@[j].wf(),
                forall|j: int| i <= j < first.len() ==> #[trigger] self.caches@[j] == first[j],
            decreases self.caches@.len() - i,
        {
            let c = self.caches[i];
            assert(c == first[i as int]);
            let sum: usize = c.len + ctx_t;
            let len: usize = if sum <= self.max_ctx {
                sum
            } else {
                self.max_ctx
            };
            self.caches.set(i, DraftCache { len, offset: c.offset.saturating_add(ctx_t) });
            i = i + 1;
        }
        assert(self.caches@ =~= first.map(
            |i: int, c: DraftCache| old(self).counted(c, ctx_t as int),
        ));
    }
}

/// `k` times the same token.
pub fn repeat_token(t: u32, k: usize) -> (r: Vec<u32>)
    ensures
        r@ == Seq::new(k as nat, |i: int| t),
{
    let mut out: Vec<u32> = Vec::new();
    let mut i: usize = 0;
    while i < k
        invariant
            i <= k,
            out@ == Seq::new(i as nat, |j: int| t),
        decreases k - i,
    {
        out.push(t);
        i = i + 1;
        assert(out@ =~= Seq::new(i as nat, |j: int| t));
    }
    out
}

/// Why a block cannot be embedded, if it cannot.
pub open spec fn embed_fault(d: DFlashGpuDraft, block: Seq<u32>) -> Option<ErrorV> {
    match d.embed_len {
        None => Some(error::config_error("DFlashGpuDraft: embed not bound"@)),
        Some(len) => if exists|i: int| first_oov(block, len as int, d.cfg.hidden_size as int, i) {
            let i = choose|i: int| first_oov(block, len as int, d.cfg.hidden_size as int, i);
            Some(draft_oov(block[i]))
        } else if block.len() * d.cfg.hidden_size > kv_slot::max2(
            d.max_block * d.cfg.hidden_size,
            1,
        ) {
            Some(error::config_error("draft x scratch too small"@))
        } else {
            None
        },
    }
}

/// Why a block cannot be proposed, if it cannot.
pub open spec fn propose_fault(
    d: DFlashGpuDraft,
    block: Seq<u32>,
    h_ctx_bytes: int,
    h_ctx_len: int,
    ctx_t: int,
) -> Option<ErrorV> {
    if block.len() < 2 {
        Some(error::config_error("propose_block: need ≥2 tokens"@))
    } else if d.mini_steer_prefer is Some {
        None
    } else if ctx_t > h_ctx_len {
        Some(
            error::config_error(
                "propose_block: ctx_t="@ + text::dec(ctx_t as nat) + " > h_ctx_len="@ + text::dec(
                    h_ctx_len as nat,
                ),
            ),
        )
    } else if h_ctx_len > d.max_ctx {
        Some(
            error::config_error(
                "propose_block: h_ctx_len="@ + text::dec(h_ctx_len as nat) + " > max_ctx="@
                    + text::dec(d.max_ctx as nat),
            ),
        )
    } else if h_ctx_bytes < h_ctx_len * d.cfg.hidden_size * 4 {
        Some(error::config_error("propose_block: h_ctx buffer too small"@))
    } else if embed_fault(d, block) is Some {
        embed_fault(d, block)
    } else if !d.lm_head_hot && !d.lm_head_host {
        Some(error::config_error("DFlashGpuDraft: lm_head not bound"@))
    } else {
        None
    }
}

/// Commands of a draft pass.
pub open spec fn propose_ops(
    d: DFlashGpuDraft,
    hazard: bool,
    block: Seq<u32>,
    h_ctx_len: int,
    ctx_t: int,
) -> Seq<DraftOp> {
    let s = d.shape(hazard);
    let l = block.len() as int;
    embed_ops(block, d.cfg.hidden_size as int) + draft_layers(
        d,
        s,
        l,
        h_ctx_len,
        ctx_t,
        d.caches@.len() as int,
    ) + sample_ops(s, d.lm_head_hot, l) + seq![DraftOp::Synchronize]
}

/// The buffers of a pass over `l` tokens can be addressed.
pub open spec fn pass_addressable(d: DFlashGpuDraft, l: int) -> bool {
    &&& d.max_ctx + l <= usize::MAX
    &&& d.shape(true).addressable(d.max_ctx + l)
    &&& d.max_ctx * d.cfg.hidden_size * 4 <= usize::MAX
    &&& d.max_block * d.cfg.hidden_size <= usize::MAX
    &&& d.cfg.hidden_size <= u32::MAX
}

/// Every layer has room for what it keeps of its rows and takes of `ctx_t` more.
pub open spec fn pass_room(d: DFlashGpuDraft, ctx_t: int) -> bool {
    forall|i: int|
        0 <= i < d.caches@.len() ==> draft_plan::layer_room(
            d.cfg.window_of(i),
            #[trigger] d.caches@[i],
            ctx_t,
            d.max_ctx as int,
        )
}

/// What a proposal needs: a steered one only that rows can be counted; a pass
/// over valid context that its buffers can be addressed and its caches have room.
pub open spec fn can_propose(d: DFlashGpuDraft, l: int, h_ctx_len: int, ctx_t: int) -> bool {
    if d.mini_steer_prefer is Some {
        forall|i: int|
            0 <= i < d.caches@.len() ==> (#[trigger] d.caches@[i]).len + ctx_t <= usize::MAX
    } else {
        &&& pass_addressable(d, l)
        &&& ctx_t <= h_ctx_len <= d.max_ctx ==> pass_room(d, ctx_t)
    }
}

fn product_fits(a: usize, b: usize, limit: usize) -> (r: bool)
    ensures
        r == (a * b <= limit),
{
    match a.checked_mul(b) {
        Some(n) => n <= limit,
        None => false,
    }
}

impl DFlashGpuDraft {
    fn layer_has_room(&self, i: usize, ctx_t: usize) -> (r: bool)
        requires
            self.wf(),
            i < self.caches@.len(),
        ensures
            r == draft_plan::layer_room(
                self.cfg.window_of(i as int),
                self.caches@[i as int],
                ctx_t as int,
                self.max_ctx as int,
            ),
    {
        let mut c = self.caches[i];
        let mut take: usize = ctx_t;
        assert(self.caches@[i as int].wf());
        match self.cfg.layer_window(i) {
            Some(w) => {
                let keep: usize = w.saturating_sub(1);
                if take > keep {
                    take = keep;
                }
                if c.len > keep {
                    c.trim_recent(c.len - keep);
                }
            },
            None => {},
        }
        c.len <= self.max_ctx && take <= self.max_ctx - c.len && take <= usize::MAX - c.offset
    }

    fn addressable(&self, l: usize) -> (r: bool)
        ensures
            r == pass_addressable(*self, l as int),
    {
        let c = &self.cfg;
        let rows: usize = match self.max_ctx.checked_add(l) {
            Some(n) => n,
            None => {
                return false;
            },
        };
        let qd: usize = match c.num_attention_heads.checked_mul(c.head_dim) {
            Some(n) => n,
            None => {
                return false;
            },
        };
        let kd: usize = match c.num_key_value_heads.checked_mul(c.head_dim) {
            Some(n) => n,
            None => {
                return false;
            },
        };
        let ctx: usize = match self.max_ctx.checked_mul(c.hidden_size) {
            Some(n) => n,
            None => {
                assert(self.max_ctx * c.hidden_size * 4 > usize::MAX);
                return false;
            },
        };
        product_fits(rows, c.hidden_size, usize::MAX) && product_fits(rows, qd, usize::MAX)
            && product_fits(rows, kd, usize::MAX) && product_fits(ctx, 4, usize::MAX)
            && product_fits(self.max_block, c.hidden_size, usize::MAX) && c.hidden_size as u64
            <= u32::MAX as u64
    }

    /// Whether a block of `l` tokens can be proposed.
    pub fn has_room(&self, l: usize, h_ctx_len: usize, ctx_t: usize) -> (r: bool)
        requires
            self.wf(),
        ensures
            r == can_propose(*self, l as int, h_ctx_len as int, ctx_t as int),
    {
        let steered = self.mini_steer_prefer.is_some();
        if !steered {
            if !self.addressable(l) {
                return false;
            }
            if ctx_t > h_ctx_len || h_ctx_len > self.max_ctx {
                return true;
            }
        }
        let mut i: usize = 0;
        while i < self.caches.len()
            invariant
                i <= self.caches@.len(),
                self.wf(),
                steered == self.mini_steer_prefer is Some,
                steered ==> forall|j: int|
                    0 <= j < i ==> (#[trigger] self.caches@[j]).len + ctx_t <= usize::MAX,
                !steered ==> pass_addressable(*self, l as int) && ctx_t <= h_ctx_len
                    <= self.max_ctx,
                !steered ==> forall|j: int|
                    0 <= j < i ==> draft_plan::layer_room(
                        self.cfg.window_of(j),
                        #[trigger] self.caches@[j],
                        ctx_t as int,
                        self.max_ctx as int,
                    ),
            decreases self.caches@.len() - i,
        {
            if steered {
                if self.caches[i].len > usize::MAX - ctx_t {
                    return false;
                }
            } else if !self.layer_has_room(i, ctx_t) {
                return false;
            }
            i = i + 1;
        }
        true
    }

    fn embed_block(&self, q: &mut Vec<DraftOp>, block: &[u32]) -> (r: Result<()>)
        requires
            self.wf(),
            self.cfg.hidden_size <= u32::MAX,
            block@.len() * self.cfg.hidden_size <= usize::MAX,
            self.max_block * self.cfg.hidden_size <= usize::MAX,
        ensures
            match embed_fault(*self, block@) {
                Some(e) => error::fails_with(r, e),
                None => r is Ok && final(q)@ == old(q)@ + embed_ops(
                    block@,
                    self.cfg.hidden_size as int,
                ),
            },
    {
        let len: usize = match self.embed_len {
            None => {
                return Err(
                    Error::Config(String::from_str("DFlashGpuDraft: embed not bound")),
                );
            },
            Some(len) => len,
        };
        let h: usize = self.cfg.hidden_size;
        let ghost all = embed_ops(block@, h as int);
        let mut i: usize = 0;
        assert(q@ =~= old(q)@ + all.subrange(0, 0));
        while i < block.len()
            invariant
                i <= block@.len(),
                h == self.cfg.hidden_size,
                h <= u32::MAX,
                self.embed_len == Some(len),
                block@.len() * h <= usize::MAX,
                all == embed_ops(block@, h as int),
                forall|j: int|
                    0 <= j < i ==> row_in(len as int, h as int, #[trigger] block@[j]),
                q@ == old(q)@ + all.subrange(0, i as int),
            decreases block@.len() - i,
        {
            let tid: u32 = block[i];
            assert(tid * h <= 0xFFFF_FFFF * 0xFFFF_FFFF) by (nonlinear_arith)
                requires
                    tid <= 0xFFFF_FFFF,
                    h <= 0xFFFF_FFFF,
            ;
            let row: u64 = tid as u64 * h as u64;
            if row + h as u64 > len as u64 {
                proof {
                    assert(first_oov(block@, len as int, h as int, i as int));
                    let w = choose|w: int| first_oov(block@, len as int, h as int, w);
                    assert(w == i) by {
                        if w < i {
                            assert(row_in(len as int, h as int, block@[w]));
                        } else if i < w {
                            assert(row_in(len as int, h as int, block@[i as int]));
                        }
                    }
                }
                return Err(Error::Config(text::text_num("draft embed OOV ", tid as u64)));
            }
            proof {
                draft_plan::lemma_row_bound(i as int, block@.len() as int, h as int);
            }
            q.push(DraftOp::EmbedRow { start: row as usize, at: i * h });
            i = i + 1;
            assert(q@ =~= old(q)@ + all.subrange(0, i as int));
        }
        assert(all.subrange(0, i as int) =~= all);
        assert(!exists|w: int| first_oov(block@, len as int, h as int, w));
        let cap: usize = if self.max_block * h >= 1 {
            self.max_block * h
        } else {
            1
        };
        if block.len() * h > cap {
            return Err(Error::Config(String::from_str("draft x scratch too small")));
        }
        Ok(())
    }

    fn run_layers(
        &mut self,
        q: &mut Vec<DraftOp>,
        hazard: bool,
        l: usize,
        h_ctx_len: usize,
        ctx_t: usize,
    )
        requires
            old(self).wf(),
            ctx_t <= h_ctx_len <= old(self).max_ctx,
            pass_addressable(*old(self), l as int),
            pass_room(*old(self), ctx_t as int),
        ensures
            final(self).wf(),
            final(self).same_setup(*old(self)),
            final(self).caches@ == old(self).caches@.map(
                |i: int, c: DraftCache|
                    draft_plan::cache_after(old(self).cfg.window_of(i), c, ctx_t as int),
            ),
            final(q)@ == old(q)@ + draft_layers(
                *old(self),
                old(self).shape(hazard),
                l as int,
                h_ctx_len as int,
                ctx_t as int,
                old(self).caches@.len() as int,
            ),
    {
        let s = DraftShape {
            h: self.cfg.hidden_size,
            hq: self.cfg.num_attention_heads,
            hkv: self.cfg.num_key_value_heads,
            d: self.cfg.head_dim,
            inter: self.cfg.intermediate_size,
            hazard,
        };
        let ghost first = self.caches@;
        let ghost me = *self;
        let ghost f = |i: int|
            draft_plan::layer_ops(
                s,
                i as usize,
                l as int,
                h_ctx_len as int,
                ctx_t as int,
                me.cfg.window_of(i),
                me.caches@[i],
            );
        proof {
            draft_plan::lemma_repeat(q@, f, 0);
        }
        let mut li: usize = 0;
        while li < self.caches.len()
            invariant
                li <= self.caches@.len(),
                me == *old(self),
                first == me.caches@,
                me.wf(),
                self.caches@.len() == first.len(),
                *self == (DFlashGpuDraft { caches: self.caches, ..me }),
                ctx_t <= h_ctx_len <= me.max_ctx,
                pass_addressable(me, l as int),
                pass_room(me, ctx_t as int),
                s == me.shape(hazard),
                f == (|i: int|
                    draft_plan::layer_ops(
                        s,
                        i as usize,
                        l as int,
                        h_ctx_len as int,
                        ctx_t as int,
                        me.cfg.window_of(i),
                        me.caches@[i],
                    )),
                forall|j: int|
                    0 <= j < li ==> #[trigger] self.caches@[j] == draft_plan::cache_after(
                        me.cfg.window_of(j),
                        first[j],
                        ctx_t as int,
                    ) && self.caches@[j].wf(),
                forall|j: int| li <= j < first.len() ==> #[trigger] self.caches@[j] == first[j],
                q@ == old(q)@ + draft_plan::repeat(f, li as int),
            decreases self.caches@.len() - li,
        {
            proof {
                draft_plan::lemma_repeat(old(q)@, f, li as int);
                assert(me.caches@[li as int].wf());
                assert(s.addressable(me.max_ctx + l));
            }
            let window = self.cfg.layer_window(li);
            let mut c = self.caches[li];
            draft_plan::forward_layer(
                q,
                s,
                li,
                l,
                h_ctx_len,
                ctx_t,
                window,
                &mut c,
                self.max_ctx,
            );
            self.caches.set(li, c);
            li = li + 1;
        }
        assert(self.caches@ =~= first.map(
            |i: int, c: DraftCache|
                draft_plan::cache_after(old(self).cfg.window_of(i), c, ctx_t as int),
        ));
    }

    /// Proposes the tokens after the first of a block. The last `ctx_t` of
    /// `h_ctx_len` context rows are new to the draft.
    #[verifier::spinoff_prover]
    pub fn propose_block(
        &mut self,
        q: &mut Vec<DraftOp>,
        hazard: bool,
        block: &[u32],
        h_ctx_bytes: usize,
        h_ctx_len: usize,
        ctx_t: usize,
    ) -> (r: Result<Proposal>)
        requires
            old(self).wf(),
            can_propose(*old(self), block@.len() as int, h_ctx_len as int, ctx_t as int),
        ensures
            final(self).wf(),
            final(self).same_setup(*old(self)),
            match propose_fault(
                *old(self),
                block@,
                h_ctx_bytes as int,
                h_ctx_len as int,
                ctx_t as int,
            ) {
                Some(e) => error::fails_with(r, e),
                None => match old(self).mini_steer_prefer {
                    Some(t) => {
                        &&& r matches Ok(Proposal::Steered(ts)) && ts@ == Seq::new(
                            (block@.len() - 1) as nat,
                            |i: int| t,
                        )
                        &&& final(q)@ == old(q)@
                        &&& ctx_t == 0 ==> *final(self) == *old(self)
                        &&& ctx_t > 0 ==> final(self).caches@ == old(self).caches@.map(
                            |i: int, c: DraftCache| old(self).counted(c, ctx_t as int),
                        )
                    },
                    None => {
                        &&& r matches Ok(Proposal::Queued(n)) && n == block@.len() - 1
                        &&& final(q)@ == old(q)@ + propose_ops(
                            *old(self),
                            hazard,
                            block@,
                            h_ctx_len as int,
                            ctx_t as int,
                        )
                        &&& final(self).caches@ == old(self).caches@.map(
                            |i: int, c: DraftCache|
                                draft_plan::cache_after(
                                    old(self).cfg.window_of(i),
                                    c,
                                    ctx_t as int,
                                ),
                        )
                    },
                },
            },
    {
        let l: usize = block.len();
        if l < 2 {
            return Err(Error::Config(String::from_str("propose_block: need ≥2 tokens")));
        }
        match self.mini_steer_prefer {
            Some(t) => {
                self.count_context(ctx_t);
                return Ok(Proposal::Steered(repeat_token(t, l - 1)));
            },
            None => {},
        }
        if ctx_t > h_ctx_len {
            return Err(
                Error::Config(
                    text::text_num2(
                        "propose_block: ctx_t=",
                        ctx_t as u64,
                        " > h_ctx_len=",
                        h_ctx_len as u64,
                    ),
                ),
            );
        }
        if h_ctx_len > self.max_ctx {
            return Err(
                Error::Config(
                    text::text_num2(
                        "propose_block: h_ctx_len=",
                        h_ctx_len as u64,
                        " > max_ctx=",
                        self.max_ctx as u64,
                    ),
                ),
            );
        }
        let h: usize = self.cfg.hidden_size;
        proof {
            assert(h_ctx_len * h <= self.max_ctx * h) by (nonlinear_arith)
                requires
                    h_ctx_len <= self.max_ctx,
            ;
            draft_plan::lemma_row_bound(l as int, self.max_ctx + l, h as int);
        }
        if h_ctx_bytes < h_ctx_len * h * 4 {
            return Err(
                Error::Config(String::from_str("propose_block: h_ctx buffer too small")),
            );
        }
        match self.embed_block(q, block) {
            Err(e) => {
                return Err(e);
            },
            Ok(()) => {},
        }
        self.run_layers(q, hazard, l, h_ctx_len, ctx_t);
        if !self.lm_head_hot && !self.lm_head_host {
            return Err(
                Error::Config(String::from_str("DFlashGpuDraft: lm_head not bound")),
            );
        }
        let s = DraftShape {
            h: self.cfg.hidden_size,
            hq: self.cfg.num_attention_heads,
            hkv: self.cfg.num_key_value_heads,
            d: self.cfg.head_dim,
            inter: self.cfg.intermediate_size,
            hazard,
        };
        push_sample(q, s, self.lm_head_hot, l);
        q.push(DraftOp::Synchronize);
        proof {
            let a = embed_ops(block@, h as int);
            let b = draft_layers(
                *old(self),
                s,
                l as int,
                h_ctx_len as int,
                ctx_t as int,
                old(self).caches@.len() as int,
            );
            let c = sample_ops(s, self.lm_head_hot, l as int);
            let d = seq![DraftOp::Synchronize];
            draft_plan::lemma_assoc(old(q)@, a, b);
            draft_plan::lemma_assoc(old(q)@, a + b, c);
            draft_plan::lemma_assoc(old(q)@, a + b + c, d);
            assert(q@ =~= old(q)@ + (a + b + c) + d);
        }
        Ok(Proposal::Queued(l - 1))
    }
}

/// Floats of a draft's scratch and of each layer's cache.
#[derive(Clone, Copy, Debug, PartialEq, Eq, Structural)]
pub struct DraftScratch {
    pub cache: usize,
    pub x: usize,
    pub x_normed: usize,
    pub q: usize,
    pub kv: usize,
    pub kv_full: usize,
    pub mid: usize,
    pub logits: usize,
    pub row_x: usize,
    pub row_y: usize,
}

/// The scratch of a draft, for at most `max_ctx` context rows and `max_block` tokens.
pub open spec fn scratch_of(c: DFlashConfig, max_ctx: int, max_block: int) -> DraftScratch {
    let h = c.hidden_size as int;
    let qd = c.num_attention_heads * c.head_dim;
    let kd = c.num_key_value_heads * c.head_dim;
    let wide = kv_slot::max2(kv_slot::max2(h, c.intermediate_size as int), qd);
    DraftScratch {
        cache: (max_ctx * kd) as usize,
        x: (max_block * h) as usize,
        x_normed: (kv_slot::max2(max_block, max_ctx) * h) as usize,
        q: (max_block * qd) as usize,
        kv: (kv_slot::max2(max_ctx, max_block) * kd) as usize,
        kv_full: ((max_ctx + max_block) * kd) as usize,
        mid: c.intermediate_size,
        logits: c.vocab_size,
        row_x: wide as usize,
        row_y: kv_slot::max2(wide, c.vocab_size as int) as usize,
    }
}

fn larger(a: usize, b: usize) -> (r: usize)
    ensures
        r == kv_slot::max2(a as int, b as int),
{
    if a >= b {
        a
    } else {
        b
    }
}

/// The scratch of a draft.
pub fn draft_scratch(c: &DFlashConfig, max_ctx: usize, max_block: usize) -> (r: DraftScratch)
    requires
        max_ctx + max_block <= usize::MAX,
        c.num_attention_heads * c.head_dim <= usize::MAX,
        c.num_key_value_heads * c.head_dim <= usize::MAX,
        (max_ctx + max_block) * (c.num_attention_heads * c.head_dim) <= usize::MAX,
        (max_ctx + max_block) * (c.num_key_value_heads * c.head_dim) <= usize::MAX,
        (max_ctx + max_block) * c.hidden_size <= usize::MAX,
    ensures
        r == scratch_of(*c, max_ctx as int, max_block as int),
{
    let h: usize = c.hidden_size;
    let qd: usize = c.num_attention_heads * c.head_dim;
    let kd: usize = c.num_key_value_heads * c.head_dim;
    let all: usize = max_ctx + max_block;
    let most: usize = larger(max_ctx, max_block);
    proof {
        assert(max_ctx * kd <= all * kd && most * kd <= all * kd) by (nonlinear_arith)
            requires
                max_ctx <= all,
                most <= all,
        ;
        assert(max_block * h <= all * h && most * h <= all * h) by (nonlinear_arith)
            requires
                max_block <= all,
                most <= all,
        ;
        assert(max_block * qd <= all * qd) by (nonlinear_arith)
            requires
                max_block <= all,
        ;
    }
    let wide: usize = larger(larger(h, c.intermediate_size), qd);
    DraftScratch {
        cache: max_ctx * kd,
        x: max_block * h,
        x_normed: most * h,
        q: max_block * qd,
        kv: most * kd,
        kv_full: all * kd,
        mid: c.intermediate_size,
        logits: c.vocab_size,
        row_x: wide,
        row_y: larger(wide, c.vocab_size),
    }
}

} // verus!
