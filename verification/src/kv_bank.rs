//! All cache slots of a session, addressed by reference.

use crate::error;
use crate::error::{ErrorV, Result};
use crate::kv_slot;
use crate::kv_slot::{FaView, GpuKvSlot, KvStore};
use crate::ops::{Op, SlotRef};
use vstd::prelude::*;

verus! {

/// The rings of the sliding writers, the linear slots of the global writers and
/// the two caches that later layers share.
#[derive(Clone, Debug)]
pub struct KvBank {
    pub sliding_rings: Vec<GpuKvSlot>,
    pub global_slots: Vec<GpuKvSlot>,
    pub shared_sliding: GpuKvSlot,
    pub shared_global: GpuKvSlot,
}

/// The slots as mathematical sequences.
#[verifier::ext_equal]
pub struct KvBankV {
    pub rings: Seq<GpuKvSlot>,
    pub globals: Seq<GpuKvSlot>,
    pub shared_sliding: GpuKvSlot,
    pub shared_global: GpuKvSlot,
}

impl View for KvBank {
    type V = KvBankV;

    open spec fn view(&self) -> KvBankV {
        KvBankV {
            rings: self.sliding_rings@,
            globals: self.global_slots@,
            shared_sliding: self.shared_sliding,
            shared_global: self.shared_global,
        }
    }
}

impl KvBankV {
    /// The reference names a slot.
    pub open spec fn has(self, r: SlotRef) -> bool {
        match r {
            SlotRef::Ring(i) => i < self.rings.len(),
            SlotRef::Global(i) => i < self.globals.len(),
            SlotRef::SharedSliding => true,
            SlotRef::SharedGlobal => true,
        }
    }

    /// The slot that a reference names.
    pub open spec fn slot(self, r: SlotRef) -> GpuKvSlot {
        match r {
            SlotRef::Ring(i) => self.rings[i as int],
            SlotRef::Global(i) => self.globals[i as int],
            SlotRef::SharedSliding => self.shared_sliding,
            SlotRef::SharedGlobal => self.shared_global,
        }
    }

    /// The bank with one slot replaced.
    pub open spec fn with(self, r: SlotRef, s: GpuKvSlot) -> KvBankV {
        match r {
            SlotRef::Ring(i) => KvBankV { rings: self.rings.update(i as int, s), ..self },
            SlotRef::Global(i) => KvBankV { globals: self.globals.update(i as int, s), ..self },
            SlotRef::SharedSliding => KvBankV { shared_sliding: s, ..self },
            SlotRef::SharedGlobal => KvBankV { shared_global: s, ..self },
        }
    }

    /// Every slot is well formed, can be addressed and can still count.
    pub open spec fn wf(self) -> bool {
        forall|r: SlotRef| #[trigger] self.has(r) ==> self.slot(r).wf() && self.slot(r).row()
            <= usize::MAX
    }

    /// Slots have the same shapes, in the same places.
    pub open spec fn same_shapes(self, other: KvBankV) -> bool {
        &&& self.rings.len() == other.rings.len()
        &&& self.globals.len() == other.globals.len()
        &&& forall|r: SlotRef| #[trigger]
            self.has(r) ==> self.slot(r).same_shape(other.slot(r))
    }

    /// No slot holds more than `n` timesteps.
    pub open spec fn lens_at_most(self, n: int) -> bool {
        forall|r: SlotRef| #[trigger] self.has(r) ==> self.slot(r).seq_len <= n
    }

    /// The bank after one timestep was written to slot `r`, and the command
    /// that writes it.
    pub open spec fn append(self, r: SlotRef) -> std::result::Result<(KvBankV, Op), ErrorV> {
        let s = self.slot(r);
        match s.write_refusal() {
            Some(e) => Err(e),
            None => Ok(
                (
                    self.with(r, s.holding(s.seq_len + 1)),
                    Op::Store {
                        slot: r,
                        store: KvStore {
                            src_off: 0,
                            len: kv_slot::low32(s.row()),
                            dst_off: s.write_offset(),
                        },
                    },
                ),
            ),
        }
    }

    /// The bank after `m` packed timesteps were written to slot `r`, and the
    /// commands that write them.
    pub open spec fn append_m(self, r: SlotRef, m: int) -> std::result::Result<
        (KvBankV, Seq<Op>),
        ErrorV,
    > {
        let s = self.slot(r);
        if s.room(m) < m {
            Err(
                error::kv_error(
                    if s.capacity == 0 {
                        "GPU KV capacity 0"@
                    } else {
                        "GPU KV full"@
                    },
                ),
            )
        } else {
            Ok(
                (
                    self.with(r, s.holding(s.seq_len + m)),
                    s.packed_stores(m).map(|i: int, st: KvStore| Op::Store { slot: r, store: st }),
                ),
            )
        }
    }

    /// The bank after as many of `m` timesteps as find room were written to slot `r`.
    pub open spec fn filled_up(self, r: SlotRef, m: int) -> KvBankV {
        let s = self.slot(r);
        self.with(r, s.holding(s.seq_len + s.room(m)))
    }

    /// Every slot holds `n` timesteps fewer (or none, where it held fewer).
    pub open spec fn trimmed(self, n: int) -> KvBankV {
        KvBankV {
            rings: self.rings.map(|i: int, s: GpuKvSlot| trimmed_slot(s, n)),
            globals: self.globals.map(|i: int, s: GpuKvSlot| trimmed_slot(s, n)),
            shared_sliding: trimmed_slot(self.shared_sliding, n),
            shared_global: trimmed_slot(self.shared_global, n),
        }
    }

    /// Every slot is empty.
    pub open spec fn emptied(self) -> KvBankV {
        KvBankV {
            rings: self.rings.map(|i: int, s: GpuKvSlot| s.holding(0)),
            globals: self.globals.map(|i: int, s: GpuKvSlot| s.holding(0)),
            shared_sliding: self.shared_sliding.holding(0),
            shared_global: self.shared_global.holding(0),
        }
    }
}

/// The slot with its last `n` timesteps forgotten, as far as it has them.
pub open spec fn trimmed_slot(s: GpuKvSlot, n: int) -> GpuKvSlot {
    s.holding(s.seq_len - kv_slot::min2(n, s.seq_len as int))
}

/// Replacing one slot by another of the same shape keeps the bank sound.
pub proof fn lemma_with(b: KvBankV, r: SlotRef, s: GpuKvSlot)
    requires
        b.wf(),
        b.has(r),
        s.wf(),
        s.same_shape(b.slot(r)),
    ensures
        b.with(r, s).wf(),
        b.with(r, s).same_shapes(b),
        b.with(r, s).slot(r) == s,
        forall|q: SlotRef| q != r && #[trigger] b.has(q) ==> b.with(r, s).slot(q) == b.slot(q),
{
    let c = b.with(r, s);
    assert forall|q: SlotRef| #[trigger] c.has(q) implies c.slot(q).wf() && c.slot(q).row()
        <= usize::MAX && c.slot(q).same_shape(b.slot(q)) by {
        assert(b.has(q));
        if q == r {
        } else {
            assert(c.slot(q) == b.slot(q));
        }
    }
}

fn trim_all(slots: &mut Vec<GpuKvSlot>, n: usize)
    requires
        forall|i: int| 0 <= i < old(slots)@.len() ==> (#[trigger] old(slots)@[i]).wf(),
    ensures
        final(slots)@ == old(slots)@.map(|i: int, s: GpuKvSlot| trimmed_slot(s, n as int)),
{
    let ghost first = slots@;
    let mut i: usize = 0;
    while i < slots.len()
        invariant
            i <= slots@.len(),
            slots@.len() == first.len(),
            forall|j: int| 0 <= j < first.len() ==> (#[trigger] first[j]).wf(),
            forall|j: int|
                0 <= j < i ==> #[trigger] slots@[j] == trimmed_slot(first[j], n as int),
            forall|j: int| i <= j < first.len() ==> #[trigger] slots@[j] == first[j],
        decreases slots@.len() - i,
    {
        let mut s = slots[i];
        assert(s == first[i as int]);
        trim_clamped(&mut s, n);
        slots.set(i, s);
        i = i + 1;
    }
    assert(slots@ =~= first.map(|i: int, s: GpuKvSlot| trimmed_slot(s, n as int)));
}

fn trim_clamped(s: &mut GpuKvSlot, n: usize)
    requires
        old(s).wf(),
    ensures
        final(s).wf(),
        *final(s) == trimmed_slot(*old(s), n as int),
{
    let t: usize = if n <= s.seq_len {
        n
    } else {
        s.seq_len
    };
    let _ = s.trim(t);
}

fn reset_all(slots: &mut Vec<GpuKvSlot>)
    requires
        forall|i: int| 0 <= i < old(slots)@.len() ==> (#[trigger] old(slots)@[i]).wf(),
    ensures
        final(slots)@ == old(slots)@.map(|i: int, s: GpuKvSlot| s.holding(0)),
{
    let ghost first = slots@;
    let mut i: usize = 0;
    while i < slots.len()
        invariant
            i <= slots@.len(),
            slots@.len() == first.len(),
            forall|j: int| 0 <= j < first.len() ==> (#[trigger] first[j]).wf(),
            forall|j: int| 0 <= j < i ==> #[trigger] slots@[j] == first[j].holding(0),
            forall|j: int| i <= j < first.len() ==> #[trigger] slots@[j] == first[j],
        decreases slots@.len() - i,
    {
        let mut s = slots[i];
        assert(s == first[i as int]);
        s.reset();
        slots.set(i, s);
        i = i + 1;
    }
    assert(slots@ =~= first.map(|i: int, s: GpuKvSlot| s.holding(0)));
}

/// A bank of trimmed slots is sound.
pub proof fn lemma_trimmed_wf(b: KvBankV, n: int)
    requires
        b.wf(),
        0 <= n,
    ensures
        b.trimmed(n).wf(),
        b.trimmed(n).same_shapes(b),
{
    let c = b.trimmed(n);
    assert forall|q: SlotRef| #[trigger] c.has(q) implies c.slot(q).wf() && c.slot(q).row()
        <= usize::MAX && c.slot(q).same_shape(b.slot(q)) by {
        assert(b.has(q));
        let s = b.slot(q);
        assert(c.slot(q) == trimmed_slot(s, n));
        kv_slot::holding_is_wf(s, s.seq_len - kv_slot::min2(n, s.seq_len as int));
    }
}

/// A bank of empty slots is sound.
pub proof fn lemma_emptied_wf(b: KvBankV)
    requires
        b.wf(),
    ensures
        b.emptied().wf(),
        b.emptied().same_shapes(b),
        b.emptied().lens_at_most(0),
{
    let c = b.emptied();
    assert forall|q: SlotRef| #[trigger] c.has(q) implies c.slot(q).wf() && c.slot(q).row()
        <= usize::MAX && c.slot(q).same_shape(b.slot(q)) && c.slot(q).seq_len <= 0 by {
        assert(b.has(q));
        assert(c.slot(q) == b.slot(q).holding(0));
        kv_slot::holding_is_wf(b.slot(q), 0);
    }
}

impl KvBank {
    /// The slot that a reference names.
    pub fn slot(&self, r: SlotRef) -> (s: GpuKvSlot)
        requires
            self@.has(r),
        ensures
            s == self@.slot(r),
    {
        match r {
            SlotRef::Ring(i) => self.sliding_rings[i],
            SlotRef::Global(i) => self.global_slots[i],
            SlotRef::SharedSliding => self.shared_sliding,
            SlotRef::SharedGlobal => self.shared_global,
        }
    }

    /// Replaces one slot.
    pub fn set(&mut self, r: SlotRef, s: GpuKvSlot)
        requires
            old(self)@.has(r),
        ensures
            final(self)@ == old(self)@.with(r, s),
    {
        match r {
            SlotRef::Ring(i) => {
                self.sliding_rings.set(i, s);
            },
            SlotRef::Global(i) => {
                self.global_slots.set(i, s);
            },
            SlotRef::SharedSliding => {
                self.shared_sliding = s;
            },
            SlotRef::SharedGlobal => {
                self.shared_global = s;
            },
        }
    }

    /// Counts one timestep of slot `r` as written.
    pub fn commit(&mut self, r: SlotRef) -> (res: Result<()>)
        requires
            old(self)@.wf(),
            old(self)@.has(r),
            old(self)@.slot(r).seq_len < usize::MAX,
        ensures
            final(self)@.wf(),
            final(self)@.same_shapes(old(self)@),
            match old(self)@.append(r) {
                Ok((b, _)) => res is Ok && final(self)@ == b,
                Err(e) => error::fails_with(res, e) && final(self)@ == old(self)@,
            },
    {
        let mut s = self.slot(r);
        let res = s.commit_append();
        proof {
            if old(self)@.slot(r).write_refusal() is None {
                kv_slot::holding_is_wf(old(self)@.slot(r), old(self)@.slot(r).seq_len + 1);
            }
            lemma_with(self@, r, s);
        }
        let ghost before = self@;
        self.set(r, s);
        assert(old(self)@.append(r) is Err ==> self@ =~= before);
        res
    }

    /// Queues the write of one timestep to slot `r`.
    pub fn append(&mut self, r: SlotRef, queue: &mut Vec<Op>) -> (res: Result<()>)
        requires
            old(self)@.wf(),
            old(self)@.has(r),
            old(self)@.slot(r).seq_len < usize::MAX,
        ensures
            final(self)@.wf(),
            final(self)@.same_shapes(old(self)@),
            match old(self)@.append(r) {
                Ok((b, op)) => res is Ok && final(self)@ == b && final(queue)@ == old(queue)@.push(
                    op,
                ),
                Err(e) => error::fails_with(res, e) && final(self)@ == old(self)@ && final(queue)@
                    == old(queue)@,
            },
    {
        let mut s = self.slot(r);
        let mut stores: Vec<KvStore> = Vec::new();
        match s.append(&mut stores) {
            Err(e) => Err(e),
            Ok(()) => {
                proof {
                    kv_slot::holding_is_wf(self@.slot(r), self@.slot(r).seq_len + 1);
                    lemma_with(self@, r, s);
                }
                queue.push(Op::Store { slot: r, store: stores[0] });
                self.set(r, s);
                Ok(())
            },
        }
    }

    /// Queues the writes of `m` packed timesteps to slot `r`.
    pub fn append_m(&mut self, r: SlotRef, m: usize, queue: &mut Vec<Op>) -> (res: Result<()>)
        requires
            old(self)@.wf(),
            old(self)@.has(r),
            old(self)@.slot(r).seq_len + m <= usize::MAX,
            m * old(self)@.slot(r).row() <= usize::MAX,
        ensures
            final(self)@.wf(),
            final(self)@.same_shapes(old(self)@),
            match old(self)@.append_m(r, m as int) {
                Ok((b, ops)) => res is Ok && final(self)@ == b && final(queue)@ == old(queue)@
                    + ops,
                Err(e) => error::fails_with(res, e) && final(self)@ == old(self)@.filled_up(
                    r,
                    m as int,
                ),
            },
    {
        let mut s = self.slot(r);
        let ghost first = s;
        let mut stores: Vec<KvStore> = Vec::new();
        let res = s.append_m(m, &mut stores);
        proof {
            let k = first.room(m as int);
            kv_slot::holding_is_wf(first, first.seq_len + k);
            lemma_with(self@, r, s);
        }
        let ghost q0 = queue@;
        let ghost as_op = |i: int, st: KvStore| Op::Store { slot: r, store: st };
        let mut i: usize = 0;
        assert(queue@ =~= q0 + stores@.subrange(0, 0).map(as_op));
        while i < stores.len()
            invariant
                i <= stores@.len(),
                as_op == (|i: int, st: KvStore| Op::Store { slot: r, store: st }),
                queue@ == q0 + stores@.subrange(0, i as int).map(as_op),
            decreases stores@.len() - i,
        {
            queue.push(Op::Store { slot: r, store: stores[i] });
            i = i + 1;
            assert(queue@ =~= q0 + stores@.subrange(0, i as int).map(as_op));
        }
        assert(stores@.subrange(0, i as int) =~= stores@);
        assert(stores@ =~= first.packed_stores(first.room(m as int)));
        self.set(r, s);
        res
    }

    /// Forgets the last `n` timesteps of every slot, as far as it has them.
    pub fn trim(&mut self, n: usize)
        requires
            old(self)@.wf(),
        ensures
            final(self)@.wf(),
            final(self)@ == old(self)@.trimmed(n as int),
    {
        let rings: usize = self.sliding_rings.len();
        let globals: usize = self.global_slots.len();
        proof {
            assert(self.sliding_rings@.len() == rings && self.global_slots@.len() == globals);
            lemma_trimmed_wf(self@, n as int);
            assert forall|i: int| 0 <= i < self.sliding_rings@.len() implies (
            #[trigger] self.sliding_rings@[i]).wf() by {
                assert(self@.has(SlotRef::Ring(i as usize)));
            }
            assert forall|i: int| 0 <= i < self.global_slots@.len() implies (
            #[trigger] self.global_slots@[i]).wf() by {
                assert(self@.has(SlotRef::Global(i as usize)));
            }
            assert(self@.has(SlotRef::SharedSliding));
            assert(self@.has(SlotRef::SharedGlobal));
        }
        trim_all(&mut self.sliding_rings, n);
        trim_all(&mut self.global_slots, n);
        trim_clamped(&mut self.shared_sliding, n);
        trim_clamped(&mut self.shared_global, n);
    }

    /// Forgets every timestep of every slot.
    pub fn reset(&mut self)
        requires
            old(self)@.wf(),
        ensures
            final(self)@.wf(),
            final(self)@ == old(self)@.emptied(),
    {
        let rings: usize = self.sliding_rings.len();
        let globals: usize = self.global_slots.len();
        proof {
            assert(self.sliding_rings@.len() == rings && self.global_slots@.len() == globals);
            lemma_emptied_wf(self@);
            assert forall|i: int| 0 <= i < self.sliding_rings@.len() implies (
            #[trigger] self.sliding_rings@[i]).wf() by {
                assert(self@.has(SlotRef::Ring(i as usize)));
            }
            assert forall|i: int| 0 <= i < self.global_slots@.len() implies (
            #[trigger] self.global_slots@[i]).wf() by {
                assert(self@.has(SlotRef::Global(i as usize)));
            }
            assert(self@.has(SlotRef::SharedSliding));
            assert(self@.has(SlotRef::SharedGlobal));
        }
        reset_all(&mut self.sliding_rings);
        reset_all(&mut self.global_slots);
        self.shared_sliding.reset();
        self.shared_global.reset();
    }

    /// What attention reads from slot `r`.
    pub fn fa(&self, r: SlotRef, limit: u32) -> (v: FaView)
        requires
            self@.wf(),
            self@.has(r),
        ensures
            v == self@.slot(r).fa_view(limit),
    {
        self.slot(r).fa_buffers(limit)
    }
}

} // verus!
