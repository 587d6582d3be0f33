//! The draft on the host: what it is bound to, which rows a pass reads and keeps,
//! and its deterministic weights.

use crate::dflash;
use crate::dflash::{DFlashConfig, DraftCache};
use crate::draft_plan;
use crate::error;
use crate::error::{Error, ErrorV, Result};
use crate::floats;
use crate::kv_slot;
use crate::model::GpuSynthModel;
use crate::text;
use vstd::prelude::*;
use vstd::string::*;

verus! {

/// The host draft. Of its weights and the bound tables it knows how many floats
/// they have.
#[derive(Clone, Debug)]
pub struct HostDFlashDraft {
    pub cfg: DFlashConfig,
    /// The context projection.
    pub fc_len: usize,
    /// The norm behind it.
    pub norm_len: usize,
    pub caches: Vec<DraftCache>,
    pub embed: Option<usize>,
    pub lm_head: Option<usize>,
}

/// What a layer's pass reads: context rows taken and passed over, positions of the
/// first context key and of the first query, rows that attention sees and the
/// position of the first.
#[derive(Clone, Copy, Debug, PartialEq, Eq, Structural)]
pub struct HostLayerPass {
    pub ctx_t: usize,
    pub ctx_skip: usize,
    pub ctx_pos: usize,
    pub q_pos: usize,
    pub tkv: usize,
    pub kv_pos: usize,
}

/// The cache of a layer before new context comes in: where more context comes than a
/// sliding layer can see, as many old rows go.
pub open spec fn host_kept(window: Option<usize>, c: DraftCache, ctx_t: int) -> DraftCache {
    c.trimmed(ctx_t - draft_plan::ctx_taken(window, ctx_t))
}

/// The cache of a layer after a pass.
pub open spec fn host_cache_after(window: Option<usize>, c: DraftCache, ctx_t: int) -> DraftCache {
    let k = host_kept(window, c, ctx_t);
    let t = draft_plan::ctx_taken(window, ctx_t);
    DraftCache { len: (k.len + t) as usize, offset: (k.offset + t) as usize }
}

/// What a layer's pass over a block of `l` tokens reads.
pub open spec fn host_pass(
    window: Option<usize>,
    c: DraftCache,
    ctx_t: int,
    l: int,
) -> HostLayerPass {
    let k = host_kept(window, c, ctx_t);
    let t = draft_plan::ctx_taken(window, ctx_t);
    let a = host_cache_after(window, c, ctx_t);
    HostLayerPass {
        ctx_t: t as usize,
        ctx_skip: (ctx_t - t) as usize,
        ctx_pos: k.offset,
        q_pos: (k.offset + t) as usize,
        tkv: (a.len + l) as usize,
        kv_pos: (a.offset - a.len) as usize,
    }
}

/// Plans a layer's pass and keeps its context.
pub fn forward_layer(cache: &mut DraftCache, window: Option<usize>, ctx_t: usize, l: usize) -> (r:
    HostLayerPass)
    requires
        old(cache).wf(),
        old(cache).offset + ctx_t + l <= usize::MAX,
    ensures
        final(cache).wf(),
        *final(cache) == host_cache_after(window, *old(cache), ctx_t as int),
        r == host_pass(window, *old(cache), ctx_t as int, l as int),
        final(cache).offset <= old(cache).offset + ctx_t,
{
    let mut t: usize = ctx_t;
    match window {
        Some(w) => {
            let keep: usize = w.saturating_sub(1);
            if ctx_t > keep {
                cache.trim_recent(ctx_t - keep);
                t = keep;
            }
        },
        None => {},
    }
    let ctx_pos: usize = cache.offset;
    cache.len = cache.len + t;
    cache.offset = cache.offset + t;
    HostLayerPass {
        ctx_t: t,
        ctx_skip: ctx_t - t,
        ctx_pos,
        q_pos: ctx_pos + t,
        tkv: cache.len + l,
        kv_pos: cache.offset - cache.len,
    }
}

/// The rows that attention sees are consecutive and end with the block itself.
pub proof fn host_keys_end_with_the_block(window: Option<usize>, c: DraftCache, ctx_t: int, l: int)
    requires
        c.wf(),
        0 <= ctx_t,
        0 <= l,
        c.offset + ctx_t + l <= usize::MAX,
    ensures
        ({
            let p = host_pass(window, c, ctx_t, l);
            &&& p.kv_pos + p.tkv == p.q_pos + l
            &&& p.ctx_pos + p.ctx_t == p.q_pos
            &&& p.ctx_t + p.ctx_skip == ctx_t
        }),
{
}

/// What a pass does: where each token's row begins in the table, what each layer
/// reads, and from which token on logits are wanted.
#[derive(Clone, Debug)]
pub struct HostPass {
    pub rows: Vec<usize>,
    pub layers: Vec<HostLayerPass>,
    pub logits_from: usize,
}

impl HostDFlashDraft {
    /// One cache per layer, each consistent.
    pub open spec fn wf(self) -> bool {
        &&& self.caches@.len() == self.cfg.num_hidden_layers
        &&& self.cfg.layer_types@.len() == self.cfg.num_hidden_layers
        &&& forall|i: int| 0 <= i < self.caches@.len() ==> (#[trigger] self.caches@[i]).wf()
    }

    /// A draft with nothing bound and nothing cached.
    pub fn new(cfg: DFlashConfig, fc_len: usize, norm_len: usize) -> (r: HostDFlashDraft)
        requires
            cfg.layer_types@.len() == cfg.num_hidden_layers,
        ensures
            r.wf(),
            r.cfg == cfg,
            r.fc_len == fc_len,
            r.norm_len == norm_len,
            r.embed is None,
            r.lm_head is None,
            r.caches@ == Seq::new(
                cfg.num_hidden_layers as nat,
                |i: int| DraftCache { len: 0, offset: 0 },
            ),
    {
        let mut caches: Vec<DraftCache> = Vec::new();
        let mut i: usize = 0;
        while i < cfg.num_hidden_layers
            invariant
                i <= cfg.num_hidden_layers,
                caches@ =~= Seq::new(i as nat, |k: int| DraftCache { len: 0, offset: 0 }),
            decreases cfg.num_hidden_layers - i,
        {
            caches.push(DraftCache { len: 0, offset: 0 });
            i = i + 1;
        }
        HostDFlashDraft { cfg, fc_len, norm_len, caches, embed: None, lm_head: None }
    }

    /// Why tables cannot be bound, if they cannot.
    pub open spec fn bind_fault(
        self,
        embed_len: int,
        lm_head_len: int,
        vocab: int,
        hidden: int,
    ) -> Option<ErrorV> {
        if embed_len != vocab * hidden {
            Some(
                error::config_error(
                    "bind embed len "@ + text::dec(embed_len as nat) + " != vocab×H="@ + text::dec(
                        (vocab * hidden) as nat,
                    ),
                ),
            )
        } else if lm_head_len != vocab * hidden {
            Some(
                error::config_error(
                    "bind lm_head len "@ + text::dec(lm_head_len as nat) + " != vocab×H="@
                        + text::dec((vocab * hidden) as nat),
                ),
            )
        } else if hidden != self.cfg.hidden_size {
            Some(
                error::config_error(
                    "bind hidden "@ + text::dec(hidden as nat) + " != draft "@ + text::dec(
                        self.cfg.hidden_size as nat,
                    ),
                ),
            )
        } else {
            None
        }
    }

    /// Binds the embedding and the output head of the target.
    pub fn bind_embed_lm_head(
        &mut self,
        embed_len: usize,
        lm_head_len: usize,
        vocab: usize,
        hidden: usize,
        embed_scale_bits: u32,
    ) -> (r: Result<()>)
        requires
            vocab * hidden <= usize::MAX,
        ensures
            old(self).wf() ==> final(self).wf(),
            match old(self).bind_fault(
                embed_len as int,
                lm_head_len as int,
                vocab as int,
                hidden as int,
            ) {
                Some(e) => error::fails_with(r, e) && *final(self) == *old(self),
                None => {
                    &&& r is Ok
                    &&& final(self).cfg == (DFlashConfig {
                        vocab_size: vocab,
                        embed_scale_bits,
                        ..old(self).cfg
                    })
                    &&& *final(self) == (HostDFlashDraft {
                        cfg: final(self).cfg,
                        embed: Some(embed_len),
                        lm_head: Some(lm_head_len),
                        ..*old(self)
                    })
                },
            },
    {
        if embed_len != vocab * hidden {
            return Err(
                Error::Config(
                    text::text_num2(
                        "bind embed len ",
                        embed_len as u64,
                        " != vocab×H=",
                        (vocab * hidden) as u64,
                    ),
                ),
            );
        }
        if lm_head_len != vocab * hidden {
            return Err(
                Error::Config(
                    text::text_num2(
                        "bind lm_head len ",
                        lm_head_len as u64,
                        " != vocab×H=",
                        (vocab * hidden) as u64,
                    ),
                ),
            );
        }
        if hidden != self.cfg.hidden_size {
            return Err(
                Error::Config(
                    text::text_num2(
                        "bind hidden ",
                        hidden as u64,
                        " != draft ",
                        self.cfg.hidden_size as u64,
                    ),
                ),
            );
        }
        self.cfg.vocab_size = vocab;
        self.cfg.embed_scale_bits = embed_scale_bits;
        self.embed = Some(embed_len);
        self.lm_head = Some(lm_head_len);
        Ok(())
    }

    /// Why a target's tables cannot be bound, if they cannot.
    pub open spec fn target_fault(
        self,
        m: GpuSynthModel,
        embed_q_len: int,
        lm_head_len: int,
    ) -> Option<ErrorV> {
        if m.hidden != self.cfg.hidden_size {
            Some(
                error::config_error(
                    "target hidden "@ + text::dec(m.hidden as nat) + " != draft "@ + text::dec(
                        self.cfg.hidden_size as nat,
                    ),
                ),
            )
        } else if m.embed_len == 0 && !m.has_embed_q {
            Some(
                error::config_error("dflash bind: target has neither dense nor quantized embed"@),
            )
        } else {
            self.bind_fault(
                target_embed(m, embed_q_len),
                lm_head_len,
                m.vocab as int,
                m.hidden as int,
            )
        }
    }

    /// Binds the tables of a target: its dense embedding, or else the quantised one,
    /// whose floats are `embed_q_len`; and its output head of `lm_head_len` floats.
    pub fn bind_from_session(&mut self, m: &GpuSynthModel, embed_q_len: usize, lm_head_len: usize) -> (r:
        Result<()>)
        requires
            m.vocab * m.hidden <= usize::MAX,
        ensures
            old(self).wf() ==> final(self).wf(),
            match old(self).target_fault(*m, embed_q_len as int, lm_head_len as int) {
                Some(e) => error::fails_with(r, e) && *final(self) == *old(self),
                None => {
                    &&& r is Ok
                    &&& final(self).cfg == (DFlashConfig {
                        vocab_size: m.vocab,
                        embed_scale_bits: m.embed_scale_bits,
                        ..old(self).cfg
                    })
                    &&& *final(self) == (HostDFlashDraft {
                        cfg: final(self).cfg,
                        embed: Some(target_embed(*m, embed_q_len as int) as usize),
                        lm_head: Some(lm_head_len),
                        ..*old(self)
                    })
                },
            },
    {
        if m.hidden != self.cfg.hidden_size {
            return Err(
                Error::Config(
                    text::text_num2(
                        "target hidden ",
                        m.hidden as u64,
                        " != draft ",
                        self.cfg.hidden_size as u64,
                    ),
                ),
            );
        }
        let embed_len: usize = if m.embed_len > 0 {
            m.embed_len
        } else if m.has_embed_q {
            embed_q_len
        } else {
            return Err(
                Error::Config(
                    String::from_str("dflash bind: target has neither dense nor quantized embed"),
                ),
            );
        };
        self.bind_embed_lm_head(embed_len, lm_head_len, m.vocab, m.hidden, m.embed_scale_bits)
    }

    /// Checks that `t` captured rows of `concat_len` floats in all can be projected,
    /// and gives the floats of the result.
    pub fn h_ctx_from_capture(&self, concat_len: usize, t: usize) -> (r: Result<usize>)
        requires
            self.cfg.concat_width() <= usize::MAX,
            t * self.cfg.concat_width() <= usize::MAX,
            self.cfg.hidden_size * self.cfg.concat_width() <= usize::MAX,
            t * self.cfg.hidden_size <= usize::MAX,
        ensures
            match dflash::projection_fault(
                concat_len as int,
                t as int,
                self.cfg.concat_width(),
                self.fc_len as int,
                self.cfg.hidden_size as int,
            ) {
                Some(e) => error::fails_with(r, e),
                None => r == Ok::<usize, Error>((t * self.cfg.hidden_size) as usize),
            },
    {
        dflash::project_context(
            concat_len,
            t,
            self.cfg.concat_dim(),
            self.fc_len,
            self.cfg.hidden_size,
        )
    }

    /// Forgets all context.
    pub fn reset_cache(&mut self)
        requires
            old(self).wf(),
        ensures
            final(self).wf(),
            *final(self) == (HostDFlashDraft { caches: final(self).caches, ..*old(self) }),
            final(self).caches@ == old(self).caches@.map_values(
                |c: DraftCache| DraftCache { len: 0, offset: 0 },
            ),
    {
        let ghost first = self.caches@;
        let mut i: usize = 0;
        while i < self.caches.len()
            invariant
                i <= self.caches@.len(),
                self.caches@.len() == first.len(),
                *self == (HostDFlashDraft { caches: self.caches, ..*old(self) }),
                forall|j: int|
                    0 <= j < i ==> #[trigger] self.caches@[j] == (DraftCache { len: 0, offset: 0 }),
            decreases self.caches@.len() - i,
        {
            self.caches.set(i, DraftCache { len: 0, offset: 0 });
            i = i + 1;
        }
        assert(self.caches@ =~= first.map_values(
            |c: DraftCache| DraftCache { len: 0, offset: 0 },
        ));
    }

    /// Forgets the last `n` context rows of every layer, as far as there are so many.
    pub fn trim_cache(&mut self, n: usize)
        requires
            old(self).wf(),
        ensures
            final(self).wf(),
            *final(self) == (HostDFlashDraft { caches: final(self).caches, ..*old(self) }),
            final(self).caches@ == old(self).caches@.map_values(
                |c: DraftCache| c.trimmed(n as int),
            ),
    {
        let ghost first = self.caches@;
        let mut i: usize = 0;
        while i < self.caches.len()
            invariant
                i <= self.caches@.len(),
                self.caches@.len() == first.len(),
                first == old(self).caches@,
                old(self).wf(),
                *self == (HostDFlashDraft { caches: self.caches, ..*old(self) }),
                forall|j: int|
                    0 <= j < i ==> #[trigger] self.caches@[j] == first[j].trimmed(n as int)
                        && self.caches@[j].wf(),
                forall|j: int| i <= j < first.len() ==> #[trigger] self.caches@[j] == first[j],
            decreases self.caches@.len() - i,
        {
            let mut c = self.caches[i];
            assert(first[i as int].wf());
            c.trim_recent(n);
            self.caches.set(i, c);
            i = i + 1;
        }
        assert(self.caches@ =~= first.map_values(|c: DraftCache| c.trimmed(n as int)));
    }

    /// The first thing that stops a pass before its layers.
    pub open spec fn inputs_fault(
        self,
        inputs: Seq<u32>,
        h_ctx_len: int,
        ctx_t: int,
    ) -> Option<ErrorV> {
        match self.embed {
            None => Some(error::config_error("dflash: embed not bound"@)),
            Some(n) => if h_ctx_len != ctx_t * self.cfg.hidden_size {
                Some(
                    error::config_error(
                        "dflash forward: h_ctx len "@ + text::dec(h_ctx_len as nat)
                            + " != ctx_t×H="@ + text::dec(
                            (ctx_t * self.cfg.hidden_size) as nat,
                        ),
                    ),
                )
            } else {
                oov_fault(inputs, self.cfg.hidden_size as int, n as int, 0)
            },
        }
    }

    /// The caches after a pass.
    pub open spec fn caches_after(self, ctx_t: int) -> Seq<DraftCache> {
        Seq::new(
            self.caches@.len(),
            |i: int| host_cache_after(self.cfg.window_of(i), self.caches@[i], ctx_t),
        )
    }

    /// `p` is the pass over `inputs` with `ctx_t` new context rows.
    pub open spec fn planned(
        self,
        p: HostPass,
        inputs: Seq<u32>,
        ctx_t: int,
        logits_start: int,
    ) -> bool {
        &&& p.rows@ == Seq::new(
            inputs.len(),
            |i: int| (inputs[i] * self.cfg.hidden_size) as usize,
        )
        &&& p.layers@ == Seq::new(
            self.caches@.len(),
            |i: int|
                host_pass(self.cfg.window_of(i), self.caches@[i], ctx_t, inputs.len() as int),
        )
        &&& p.logits_from == kv_slot::min2(logits_start, inputs.len() as int)
    }

    /// Plans a pass over `inputs` with `ctx_t` new context rows. The context is kept
    /// even where the output head turns out not to be bound.
    pub fn forward(&mut self, inputs: &[u32], h_ctx_len: usize, ctx_t: usize, logits_start: usize) -> (r:
        Result<HostPass>)
        requires
            old(self).wf(),
            ctx_t * old(self).cfg.hidden_size <= usize::MAX,
            forall|i: int|
                0 <= i < old(self).caches@.len() ==> (#[trigger] old(self).caches@[i]).offset
                    + ctx_t + inputs@.len() <= usize::MAX,
        ensures
            final(self).wf(),
            *final(self) == (HostDFlashDraft { caches: final(self).caches, ..*old(self) }),
            match old(self).inputs_fault(inputs@, h_ctx_len as int, ctx_t as int) {
                Some(e) => error::fails_with(r, e) && final(self).caches@ == old(self).caches@,
                None => {
                    &&& final(self).caches@ == old(self).caches_after(ctx_t as int)
                    &&& if old(self).lm_head is None {
                        error::fails_with(r, error::config_error("dflash: lm_head not bound"@))
                    } else {
                        r matches Ok(p) && old(self).planned(
                            p,
                            inputs@,
                            ctx_t as int,
                            logits_start as int,
                        )
                    }
                },
            },
    {
        let l: usize = inputs.len();
        let rows = match self.check_inputs(inputs, h_ctx_len, ctx_t) {
            Err(e) => {
                return Err(e);
            },
            Ok(rows) => rows,
        };
        let ghost first = self.caches@;
        let mut layers: Vec<HostLayerPass> = Vec::new();
        let mut i: usize = 0;
        while i < self.caches.len()
            invariant
                i <= self.caches@.len(),
                self.caches@.len() == first.len(),
                first == old(self).caches@,
                old(self).wf(),
                l == inputs@.len(),
                *self == (HostDFlashDraft { caches: self.caches, ..*old(self) }),
                forall|j: int|
                    0 <= j < first.len() ==> (#[trigger] first[j]).offset + ctx_t + l
                        <= usize::MAX,
                forall|j: int|
                    0 <= j < i ==> #[trigger] self.caches@[j] == host_cache_after(
                        old(self).cfg.window_of(j),
                        first[j],
                        ctx_t as int,
                    ) && self.caches@[j].wf(),
                forall|j: int| i <= j < first.len() ==> #[trigger] self.caches@[j] == first[j],
                layers@.len() == i,
                forall|j: int|
                    0 <= j < i ==> #[trigger] layers@[j] == host_pass(
                        old(self).cfg.window_of(j),
                        first[j],
                        ctx_t as int,
                        l as int,
                    ),
            decreases self.caches@.len() - i,
        {
            let window = self.cfg.layer_window(i);
            let mut c = self.caches[i];
            assert(first[i as int].wf());
            let p = forward_layer(&mut c, window, ctx_t, l);
            self.caches.set(i, c);
            layers.push(p);
            i = i + 1;
        }
        assert(self.caches@ =~= old(self).caches_after(ctx_t as int));
        if self.lm_head.is_none() {
            return Err(Error::Config(String::from_str("dflash: lm_head not bound")));
        }
        assert(layers@ =~= Seq::new(
            old(self).caches@.len(),
            |i: int|
                host_pass(
                    old(self).cfg.window_of(i),
                    old(self).caches@[i],
                    ctx_t as int,
                    inputs@.len() as int,
                ),
        ));
        Ok(
            HostPass {
                rows,
                layers,
                logits_from: if logits_start < l {
                    logits_start
                } else {
                    l
                },
            },
        )
    }

    /// Plans the pass that proposes the tokens after the first of a block.
    pub fn propose_block(&mut self, block: &[u32], h_ctx_len: usize, ctx_t: usize) -> (r: Result<
        HostPass,
    >)
        requires
            old(self).wf(),
            ctx_t * old(self).cfg.hidden_size <= usize::MAX,
            forall|i: int|
                0 <= i < old(self).caches@.len() ==> (#[trigger] old(self).caches@[i]).offset
                    + ctx_t + block@.len() <= usize::MAX,
        ensures
            final(self).wf(),
            *final(self) == (HostDFlashDraft { caches: final(self).caches, ..*old(self) }),
            match old(self).inputs_fault(block@, h_ctx_len as int, ctx_t as int) {
                Some(e) => error::fails_with(r, e) && final(self).caches@ == old(self).caches@,
                None => {
                    &&& final(self).caches@ == old(self).caches_after(ctx_t as int)
                    &&& if old(self).lm_head is None {
                        error::fails_with(r, error::config_error("dflash: lm_head not bound"@))
                    } else {
                        r matches Ok(p) && old(self).planned(p, block@, ctx_t as int, 1)
                    }
                },
            },
    {
        self.forward(block, h_ctx_len, ctx_t, 1)
    }

    fn check_inputs(&self, inputs: &[u32], h_ctx_len: usize, ctx_t: usize) -> (r: Result<Vec<usize>>)
        requires
            ctx_t * self.cfg.hidden_size <= usize::MAX,
        ensures
            match self.inputs_fault(inputs@, h_ctx_len as int, ctx_t as int) {
                Some(e) => error::fails_with(r, e),
                None => r matches Ok(v) && v@ == Seq::new(
                    inputs@.len(),
                    |i: int| (inputs@[i] * self.cfg.hidden_size) as usize,
                ),
            },
    {
        let h: usize = self.cfg.hidden_size;
        let n: usize = match self.embed {
            None => {
                return Err(Error::Config(String::from_str("dflash: embed not bound")));
            },
            Some(n) => n,
        };
        if h_ctx_len != ctx_t * h {
            return Err(
                Error::Config(
                    text::text_num2(
                        "dflash forward: h_ctx len ",
                        h_ctx_len as u64,
                        " != ctx_t×H=",
                        (ctx_t * h) as u64,
                    ),
                ),
            );
        }
        let mut rows: Vec<usize> = Vec::new();
        let mut i: usize = 0;
        while i < inputs.len()
            invariant
                i <= inputs@.len(),
                h == self.cfg.hidden_size,
                oov_fault(inputs@, h as int, n as int, 0) == oov_fault(
                    inputs@,
                    h as int,
                    n as int,
                    i as int,
                ),
                self.inputs_fault(inputs@, h_ctx_len as int, ctx_t as int) == oov_fault(
                    inputs@,
                    h as int,
                    n as int,
                    0,
                ),
                rows@ =~= Seq::new(i as nat, |k: int| (inputs@[k] * h) as usize),
            decreases inputs@.len() - i,
        {
            let tid: u32 = inputs[i];
            assert(0 <= tid * h <= 0xFFFF_FFFF * 0xFFFF_FFFF_FFFF_FFFF) by (nonlinear_arith)
                requires
                    tid <= 0xFFFF_FFFF,
                    h <= 0xFFFF_FFFF_FFFF_FFFF,
            ;
            let start: u128 = tid as u128 * h as u128;
            if start + h as u128 > n as u128 {
                return Err(Error::Config(text::text_num("dflash embed OOV ", tid as u64)));
            }
            let row: usize = start as usize;
            rows.push(row);
            i = i + 1;
        }
        Ok(rows)
    }
}

/// The first token from number `i` on that is not in a table of `n` floats.
pub open spec fn oov_fault(inputs: Seq<u32>, h: int, n: int, i: int) -> Option<ErrorV>
    decreases inputs.len() - i,
{
    if i >= inputs.len() {
        None
    } else if inputs[i] * h + h > n {
        Some(error::config_error("dflash embed OOV "@ + text::dec(inputs[i] as nat)))
    } else {
        oov_fault(inputs, h, n, i + 1)
    }
}

/// Floats of the embedding that a draft takes from a target: the dense table is
/// preferred.
pub open spec fn target_embed(m: GpuSynthModel, embed_q_len: int) -> int {
    if m.embed_len > 0 {
        m.embed_len as int
    } else {
        embed_q_len
    }
}

/// The token that each of `n` rows of logits prefers: the first of the greatest.
pub fn greedy_rows(logits: &[u32], vocab: usize, n: usize) -> (r: Vec<u32>)
    requires
        n * vocab <= logits@.len(),
        vocab <= u32::MAX,
    ensures
        r@ == Seq::new(
            n as nat,
            |i: int|
                floats::best(
                    logits@.subrange(i * vocab, (i + 1) * vocab),
                    vocab as int,
                ).0 as u32,
        ),
{
    let total: usize = logits.len();
    let mut out: Vec<u32> = Vec::new();
    let mut i: usize = 0;
    while i < n
        invariant
            i <= n,
            n * vocab <= total,
            total == logits@.len(),
            vocab <= u32::MAX,
            out@ =~= Seq::new(
                i as nat,
                |k: int|
                    floats::best(
                        logits@.subrange(k * vocab, (k + 1) * vocab),
                        vocab as int,
                    ).0 as u32,
            ),
        decreases n - i,
    {
        proof {
            assert(i * vocab + vocab == (i + 1) * vocab) by (nonlinear_arith);
            assert((i + 1) * vocab <= n * vocab) by (nonlinear_arith)
                requires
                    i + 1 <= n,
            ;
            assert(0 <= i * vocab) by (nonlinear_arith);
        }
        let at: usize = i * vocab;
        let row = vstd::slice::slice_subrange(logits, at, at + vocab);
        out.push(floats::argmax(row) as u32);
        i = i + 1;
    }
    out
}

/// State of the draft's weight generator after `k` draws.
pub open spec fn lcg32(seed: u32, k: nat) -> u32
    decreases k,
{
    if k == 0 {
        seed
    } else {
        ((lcg32(seed, (k - 1) as nat) * 1664525 + 1013904223) % 0x1_0000_0000) as u32
    }
}

/// `n` draws from number `at` on: the upper twenty-four bits of the state after each.
pub open spec fn draws32(seed: u32, at: int, n: int) -> Seq<u32> {
    Seq::new(n as nat, |i: int| (lcg32(seed, (at + i + 1) as nat) / 0x100) as u32)
}

fn next_state(s: u32) -> (r: u32)
    ensures
        r == (s * 1664525 + 1013904223) % 0x1_0000_0000,
{
    let m: u32 = s.wrapping_mul(1664525);
    proof {
        let p = s * 1664525;
        vstd::arithmetic::div_mod::lemma_add_mod_noop(p, 1013904223, 0x1_0000_0000);
    }
    m.wrapping_add(1013904223)
}

fn fill(s: &mut u32, n: usize, Ghost(seed): Ghost<u32>, Ghost(at): Ghost<nat>) -> (r: Vec<u32>)
    requires
        *old(s) == lcg32(seed, at),
    ensures
        r@ == draws32(seed, at as int, n as int),
        *final(s) == lcg32(seed, at + n as nat),
{
    let mut out: Vec<u32> = Vec::new();
    let mut i: usize = 0;
    while i < n
        invariant
            i <= n,
            *s == lcg32(seed, at + i as nat),
            out@ == draws32(seed, at as int, i as int),
        decreases n - i,
    {
        let next: u32 = next_state(*s);
        *s = next;
        out.push(next / 0x100);
        i = i + 1;
        assert(out@ =~= draws32(seed, at as int, i as int));
    }
    out
}

/// The sizes of a draft's random weights, in the order of drawing: the query, key,
/// value, output, gate, up and down projections of each layer, then the context
/// projection.
pub open spec fn weight_sizes(c: DFlashConfig, n: int) -> Seq<int>
    decreases n,
{
    let h = c.hidden_size;
    let q = c.num_attention_heads * c.head_dim;
    let k = c.num_key_value_heads * c.head_dim;
    let i = c.intermediate_size;
    if n <= 0 {
        Seq::empty()
    } else {
        weight_sizes(c, n - 1) + seq![q * h, k * h, k * h, q * h, i * h, i * h, i * h]
    }
}

/// All sizes of a draft's random weights.
pub open spec fn all_sizes(c: DFlashConfig) -> Seq<int> {
    weight_sizes(c, c.num_hidden_layers as int).push(c.hidden_size * c.concat_width())
}

/// The sum of the first `n` sizes.
pub open spec fn total(sizes: Seq<int>, n: int) -> int
    decreases n,
{
    if n <= 0 {
        0
    } else {
        total(sizes, n - 1) + sizes[n - 1]
    }
}

/// Every size can be counted.
pub open spec fn sizes_count(c: DFlashConfig) -> bool {
    let h = c.hidden_size;
    &&& c.num_attention_heads * c.head_dim <= usize::MAX
    &&& c.num_key_value_heads * c.head_dim <= usize::MAX
    &&& c.num_attention_heads * c.head_dim * h <= usize::MAX
    &&& c.num_key_value_heads * c.head_dim * h <= usize::MAX
    &&& c.intermediate_size * h <= usize::MAX
    &&& c.concat_width() <= usize::MAX
    &&& h * c.concat_width() <= usize::MAX
}

/// Draws have the sizes, each beginning where the last ended.
pub open spec fn drawn(v: Seq<Vec<u32>>, sizes: Seq<int>, seed: u32) -> bool {
    &&& v.len() == sizes.len()
    &&& forall|i: int|
        0 <= i < v.len() ==> (#[trigger] v[i])@ == draws32(seed, total(sizes, i), sizes[i])
}

proof fn lemma_total_prefix(a: Seq<int>, b: Seq<int>, n: int)
    requires
        0 <= n <= a.len(),
        n <= b.len(),
        forall|i: int| 0 <= i < n ==> a[i] == b[i],
    ensures
        total(a, n) == total(b, n),
    decreases n,
{
    if n > 0 {
        lemma_total_prefix(a, b, n - 1);
    }
}

fn push_draws(
    out: &mut Vec<Vec<u32>>,
    s: &mut u32,
    n: usize,
    Ghost(seed): Ghost<u32>,
    Ghost(sizes): Ghost<Seq<int>>,
)
    requires
        drawn(old(out)@, sizes, seed),
        total(sizes, sizes.len() as int) >= 0,
        *old(s) == lcg32(seed, total(sizes, sizes.len() as int) as nat),
    ensures
        drawn(final(out)@, sizes.push(n as int), seed),
        total(sizes.push(n as int), sizes.len() as int + 1) >= 0,
        *final(s) == lcg32(seed, total(sizes.push(n as int), sizes.len() as int + 1) as nat),
{
    let ghost before = out@;
    let ghost at = total(sizes, sizes.len() as int) as nat;
    let ghost longer = sizes.push(n as int);
    let v = fill(s, n, Ghost(seed), Ghost(at));
    out.push(v);
    proof {
        lemma_total_prefix(sizes, longer, sizes.len() as int);
        assert(longer[sizes.len() as int] == n);
        assert(total(longer, sizes.len() as int + 1) == at + n);
        assert forall|i: int| 0 <= i < out@.len() implies (#[trigger] out@[i])@ == draws32(
            seed,
            total(longer, i),
            longer[i],
        ) by {
            lemma_total_prefix(sizes, longer, i);
            if i < before.len() {
                assert(out@[i] == before[i]);
            }
        }
    }
}

/// A draft's random weights, in the order of drawing, as integers below 2^24. The
/// caller scales them; norm weights are all one.
fn random_weights(cfg: &DFlashConfig, seed: u32) -> (r: Result<Vec<Vec<u32>>>)
    requires
        cfg.num_key_value_heads > 0 || cfg.head_dim == 0 || cfg.target_layer_ids@.len() == 0
            || cfg.num_hidden_layers == 0 || cfg.layer_types@.len() != cfg.num_hidden_layers,
        sizes_count(*cfg),
    ensures
        match dflash::draft_fault(*cfg) {
            Some(e) => error::fails_with(r, e),
            None => r matches Ok(v) && drawn(v@, all_sizes(*cfg), seed),
        },
{
    match cfg.validate() {
        Err(e) => {
            return Err(e);
        },
        Ok(()) => {},
    }
    let h: usize = cfg.hidden_size;
    let qd: usize = cfg.num_attention_heads * cfg.head_dim;
    let kd: usize = cfg.num_key_value_heads * cfg.head_dim;
    let q: usize = qd * h;
    let k: usize = kd * h;
    let m: usize = cfg.intermediate_size * h;
    let mut s: u32 = seed;
    let mut out: Vec<Vec<u32>> = Vec::new();
    let mut li: usize = 0;
    while li < cfg.num_hidden_layers
        invariant
            li <= cfg.num_hidden_layers,
            q == cfg.num_attention_heads * cfg.head_dim * h,
            k == cfg.num_key_value_heads * cfg.head_dim * h,
            m == cfg.intermediate_size * h,
            h == cfg.hidden_size,
            ({
                let sizes = weight_sizes(*cfg, li as int);
                &&& drawn(out@, sizes, seed)
                &&& total(sizes, sizes.len() as int) >= 0
                &&& s == lcg32(seed, total(sizes, sizes.len() as int) as nat)
            }),
        decreases cfg.num_hidden_layers - li,
    {
        let ghost s0 = weight_sizes(*cfg, li as int);
        push_draws(&mut out, &mut s, q, Ghost(seed), Ghost(s0));
        let ghost s1 = s0.push(q as int);
        push_draws(&mut out, &mut s, k, Ghost(seed), Ghost(s1));
        let ghost s2 = s1.push(k as int);
        push_draws(&mut out, &mut s, k, Ghost(seed), Ghost(s2));
        let ghost s3 = s2.push(k as int);
        push_draws(&mut out, &mut s, q, Ghost(seed), Ghost(s3));
        let ghost s4 = s3.push(q as int);
        push_draws(&mut out, &mut s, m, Ghost(seed), Ghost(s4));
        let ghost s5 = s4.push(m as int);
        push_draws(&mut out, &mut s, m, Ghost(seed), Ghost(s5));
        let ghost s6 = s5.push(m as int);
        push_draws(&mut out, &mut s, m, Ghost(seed), Ghost(s6));
        let ghost s7 = s6.push(m as int);
        proof {
            assert(s7 =~= weight_sizes(*cfg, li + 1));
        }
        li = li + 1;
    }
    let c: usize = cfg.concat_dim();
    push_draws(
        &mut out,
        &mut s,
        h * c,
        Ghost(seed),
        Ghost(weight_sizes(*cfg, cfg.num_hidden_layers as int)),
    );
    Ok(out)
}

/// A draft with random weights: the draft, and the weights in the order of drawing
/// as integers below 2^24.
#[derive(Clone, Debug)]
pub struct RandomDraft {
    pub draft: HostDFlashDraft,
    pub weights: Vec<Vec<u32>>,
}

impl RandomDraft {
    /// Drawn from `seed` for `cfg`, with nothing bound and nothing cached.
    pub open spec fn drawn_from(self, cfg: DFlashConfig, seed: u32) -> bool {
        &&& drawn(self.weights@, all_sizes(cfg), seed)
        &&& self.draft.wf()
        &&& self.draft.cfg == cfg
        &&& self.draft.fc_len == cfg.hidden_size * cfg.concat_width()
        &&& self.draft.norm_len == cfg.hidden_size
        &&& self.draft.embed is None
        &&& self.draft.lm_head is None
        &&& self.draft.caches@ == Seq::new(
            cfg.num_hidden_layers as nat,
            |i: int| DraftCache { len: 0, offset: 0 },
        )
    }
}

impl HostDFlashDraft {
    /// A draft with random weights, which the caller scales.
    pub fn from_randomish(cfg: DFlashConfig, seed: u32) -> (r: Result<RandomDraft>)
        requires
            cfg.num_key_value_heads > 0 || cfg.head_dim == 0 || cfg.target_layer_ids@.len() == 0
                || cfg.num_hidden_layers == 0 || cfg.layer_types@.len() != cfg.num_hidden_layers,
            sizes_count(cfg),
        ensures
            match dflash::draft_fault(cfg) {
                Some(e) => error::fails_with(r, e),
                None => r matches Ok(d) && d.drawn_from(cfg, seed),
            },
    {
        match random_weights(&cfg, seed) {
            Err(e) => Err(e),
            Ok(weights) => {
                let h: usize = cfg.hidden_size;
                let fc: usize = h * cfg.concat_dim();
                Ok(RandomDraft { draft: HostDFlashDraft::new(cfg, fc, h), weights })
            },
        }
    }

    fn mini_draft(seed: u32) -> (r: Result<RandomDraft>)
        ensures
            r matches Ok(d) && d.drawn_from(d.draft.cfg, seed) && d.draft.cfg.is_mini(),
    {
        let cfg = DFlashConfig::synthetic_mini();
        assert(sizes_count(cfg)) by {
            assert(cfg.num_attention_heads * cfg.head_dim == 512) by (nonlinear_arith)
                requires
                    cfg.num_attention_heads == 4,
                    cfg.head_dim == 128,
            ;
            assert(cfg.num_key_value_heads * cfg.head_dim == 128) by (nonlinear_arith)
                requires
                    cfg.num_key_value_heads == 1,
                    cfg.head_dim == 128,
            ;
            assert(cfg.intermediate_size * cfg.hidden_size == 131072) by (nonlinear_arith)
                requires
                    cfg.intermediate_size == 512,
                    cfg.hidden_size == 256,
            ;
            assert(cfg.concat_width() == 768) by (nonlinear_arith)
                requires
                    cfg.concat_width() == cfg.target_layer_ids@.len() * cfg.hidden_size,
                    cfg.target_layer_ids@.len() == 3,
                    cfg.hidden_size == 256,
            ;
            assert(cfg.hidden_size * cfg.concat_width() == 196608) by (nonlinear_arith)
                requires
                    cfg.concat_width() == 768,
                    cfg.hidden_size == 256,
            ;
        }
        HostDFlashDraft::from_randomish(cfg, seed)
    }

    /// The draft that goes with the synthetic graph. Its weights are meant to be
    /// small.
    pub fn synthetic_mini() -> (r: Result<RandomDraft>)
        ensures
            r matches Ok(d) && d.drawn_from(d.draft.cfg, 7) && d.draft.cfg.is_mini(),
    {
        HostDFlashDraft::mini_draft(7)
    }

    /// Another draft of the same shape. Its weights are meant to be larger.
    pub fn synthetic_mini_accepting() -> (r: Result<RandomDraft>)
        ensures
            r matches Ok(d) && d.drawn_from(d.draft.cfg, 11) && d.draft.cfg.is_mini(),
    {
        HostDFlashDraft::mini_draft(11)
    }
}

/// A draft's random matrices have the sizes of the layers that they are for: queries and
/// output go between the model's width and the query heads, keys and values to the key
/// heads, and the feed-forward part to its inner width and back.
pub proof fn drawn_matrices_have_their_sizes(c: DFlashConfig, n: int, i: int)
    requires
        0 <= i < n,
    ensures
        weight_sizes(c, n).len() == 7 * n,
        ({
            let at = weight_sizes(c, n);
            let h = c.hidden_size;
            &&& at[7 * i] == c.num_attention_heads * c.head_dim * h
            &&& at[7 * i + 1] == c.num_key_value_heads * c.head_dim * h
            &&& at[7 * i + 2] == at[7 * i + 1]
            &&& at[7 * i + 3] == at[7 * i]
            &&& at[7 * i + 4] == c.intermediate_size * h
            &&& at[7 * i + 5] == at[7 * i + 4]
            &&& at[7 * i + 6] == at[7 * i + 4]
        }),
    decreases n,
{
    if n > 1 {
        let j = if i < n - 1 {
            i
        } else {
            0
        };
        drawn_matrices_have_their_sizes(c, n - 1, j);
    } else {
        assert(weight_sizes(c, 0).len() == 0);
    }
}

} // verus!
