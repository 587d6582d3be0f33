//! One key/value cache slot on the device: a ring of the last timesteps or a
//! full-length linear buffer. The slot holds the bookkeeping; what it asks the
//! device to do is pushed on a command queue.

use crate::error;
use crate::error::{Error, ErrorV, Result};
use crate::text;
use vstd::arithmetic::div_mod::*;
use vstd::prelude::*;
use vstd::string::*;

verus! {

/// Bookkeeping of one cache slot.
#[derive(Clone, Copy, Debug, PartialEq, Eq, Structural)]
pub struct GpuKvSlot {
    pub capacity: usize,
    pub heads: usize,
    pub dim: usize,
    pub seq_len: usize,
    /// Next write index of a ring; not used by linear buffers.
    pub head: usize,
    pub is_ring: bool,
}

/// Store one timestep: `len` floats from `src_off` of the staging rows to
/// `dst_off` of the slot, for keys and values alike.
#[derive(Clone, Copy, Debug, PartialEq, Eq, Structural)]
pub struct KvStore {
    pub src_off: u32,
    pub len: u32,
    pub dst_off: u32,
}

/// What attention reads: `rows` timesteps that begin at absolute position
/// `kv_pos_offset`. With `densify` the rows are first gathered from the ring,
/// starting at ring index `start`.
#[derive(Clone, Copy, Debug, PartialEq, Eq, Structural)]
pub struct FaView {
    pub densify: bool,
    pub slot_elems: u32,
    pub capacity: u32,
    pub start: u32,
    pub kv_pos_offset: u32,
    pub rows: u32,
}

/// The low 32 bits of a natural number.
pub open spec fn low32(n: int) -> u32 {
    (n % 0x1_0000_0000) as u32
}

/// The low 32 bits of `n`.
pub fn to_u32(n: usize) -> (r: u32)
    ensures
        r == low32(n as int),
        n <= u32::MAX ==> r == n,
{
    let w: u64 = n as u64;
    assert(w as u32 == w % 0x1_0000_0000) by (bit_vector);
    w as u32
}

/// The smaller of two numbers.
pub open spec fn min2(a: int, b: int) -> int {
    if a <= b {
        a
    } else {
        b
    }
}

/// The larger of two numbers.
pub open spec fn max2(a: int, b: int) -> int {
    if a >= b {
        a
    } else {
        b
    }
}

/// Floats that a slot of this shape holds for keys (and again for values): at
/// least one, so that a buffer can always be made.
pub open spec fn slot_floats(capacity: int, heads: int, dim: int) -> int {
    max2(capacity * heads * dim, 1)
}

pub proof fn lemma_product_bound(a: int, b: int, c: int, limit: int)
    requires
        0 <= a,
        0 <= b,
        0 <= c,
        a * b * c <= limit,
        0 < a,
    ensures
        b * c <= limit,
{
    assert(b * c <= a * (b * c)) by (nonlinear_arith)
        requires
            0 < a,
            0 <= b,
            0 <= c,
    ;
    assert(a * (b * c) == a * b * c) by (nonlinear_arith);
}

impl GpuKvSlot {
    /// Floats per timestep.
    pub open spec fn row(self) -> int {
        self.heads * self.dim
    }

    /// The slot's invariant: its buffers can be addressed, a ring's write index
    /// is the position modulo the capacity, a linear buffer is never overfull.
    pub open spec fn wf(self) -> bool {
        &&& 4 * slot_floats(self.capacity as int, self.heads as int, self.dim as int) <= usize::MAX
        &&& if self.is_ring {
            if self.capacity == 0 {
                self.seq_len == 0 && self.head == 0
            } else {
                self.head == self.seq_len as int % self.capacity as int
            }
        } else {
            self.head == 0 && self.seq_len <= self.capacity
        }
    }

    /// The same shape: everything but how many timesteps are held.
    pub open spec fn same_shape(self, other: GpuKvSlot) -> bool {
        &&& self.capacity == other.capacity
        &&& self.heads == other.heads
        &&& self.dim == other.dim
        &&& self.is_ring == other.is_ring
    }

    /// The slot of this shape that holds `n` timesteps.
    pub open spec fn holding(self, n: int) -> GpuKvSlot {
        GpuKvSlot {
            seq_len: n as usize,
            head: if self.is_ring && self.capacity > 0 {
                (n % self.capacity as int) as usize
            } else {
                0
            },
            ..self
        }
    }

    /// The row index in the buffer where absolute position `p` is written.
    pub open spec fn index_of(self, p: int) -> int {
        if self.is_ring {
            p % self.capacity as int
        } else {
            p
        }
    }

    /// Why the next timestep cannot be written, if it cannot.
    pub open spec fn write_refusal(self) -> Option<ErrorV> {
        if self.capacity == 0 {
            Some(error::kv_error("GPU KV capacity 0"@))
        } else if !self.is_ring && self.seq_len >= self.capacity {
            Some(error::kv_error("GPU KV full"@))
        } else {
            None
        }
    }

    /// The float offset of the next write.
    pub open spec fn write_offset(self) -> u32 {
        low32(self.index_of(self.seq_len as int) * self.row())
    }

    /// The timesteps that attention can still read.
    pub open spec fn filled(self) -> int {
        min2(self.seq_len as int, self.capacity as int)
    }

    /// The ring has begun to overwrite old timesteps.
    pub open spec fn wrapped(self) -> bool {
        self.is_ring && self.seq_len > self.capacity
    }

    /// What attention is given when at most `limit` rows are wanted.
    pub open spec fn fa_view(self, limit: u32) -> FaView {
        FaView {
            densify: self.is_ring && self.filled() > 0,
            slot_elems: if self.is_ring && self.filled() > 0 {
                low32(self.row())
            } else {
                0
            },
            capacity: if self.is_ring && self.filled() > 0 {
                low32(self.capacity as int)
            } else {
                0
            },
            start: if self.wrapped() && self.filled() > 0 {
                low32(self.head as int)
            } else {
                0
            },
            kv_pos_offset: if self.wrapped() && self.filled() > 0 {
                low32(self.seq_len - self.capacity)
            } else {
                0
            },
            rows: min2(low32(self.filled()) as int, limit as int) as u32,
        }
    }

    /// An empty slot.
    pub fn new(capacity: usize, heads: usize, dim: usize, is_ring: bool) -> (r: GpuKvSlot)
        requires
            4 * slot_floats(capacity as int, heads as int, dim as int) <= usize::MAX,
        ensures
            r.wf(),
            r == (GpuKvSlot { capacity, heads, dim, seq_len: 0, head: 0, is_ring }),
    {
        proof {
            if capacity > 0 {
                lemma_small_mod(0, capacity as nat);
            }
        }
        GpuKvSlot { capacity, heads, dim, seq_len: 0, head: 0, is_ring }
    }

    /// Bytes of the key buffer (and again of the value buffer).
    pub fn buffer_bytes(&self) -> (r: usize)
        requires
            self.wf(),
        ensures
            r == 4 * slot_floats(self.capacity as int, self.heads as int, self.dim as int),
    {
        if self.capacity == 0 || self.heads == 0 || self.dim == 0 {
            assert(self.capacity * self.heads * self.dim == 0) by (nonlinear_arith)
                requires
                    self.capacity == 0 || self.heads == 0 || self.dim == 0,
            ;
            return 4;
        }
        assert(self.capacity * self.heads * self.dim >= self.capacity * self.heads) by (nonlinear_arith)
            requires
                self.dim >= 1,
        ;
        assert(self.capacity * self.heads * self.dim >= 1) by (nonlinear_arith)
            requires
                self.capacity >= 1,
                self.heads >= 1,
                self.dim >= 1,
        ;
        let n: usize = self.capacity * self.heads * self.dim;
        n * 4
    }

    /// Floats per timestep.
    pub fn slot_elems(&self) -> (r: usize)
        requires
            self.row() <= usize::MAX,
        ensures
            r == self.row(),
    {
        self.heads * self.dim
    }

    /// Forgets every timestep.
    pub fn reset(&mut self)
        requires
            old(self).wf(),
        ensures
            final(self).wf(),
            *final(self) == old(self).holding(0),
    {
        proof {
            if self.capacity > 0 {
                lemma_small_mod(0, self.capacity as nat);
            }
        }
        self.seq_len = 0;
        self.head = 0;
    }

    /// Forgets the last `n` timesteps.
    pub fn trim(&mut self, n: usize) -> (r: Result<()>)
        requires
            old(self).wf(),
        ensures
            final(self).wf(),
            n <= old(self).seq_len ==> r is Ok && *final(self) == old(self).holding(
                old(self).seq_len - n,
            ),
            n > old(self).seq_len ==> *final(self) == *old(self) && error::fails_with(
                r,
                error::kv_error(
                    "KV trim "@ + text::dec(n as nat) + " > seq_len "@ + text::dec(
                        old(self).seq_len as nat,
                    ),
                ),
            ),
    {
        if n == 0 {
            return Ok(());
        }
        if n > self.seq_len {
            return Err(
                Error::Kv(text::text_num2("KV trim ", n as u64, " > seq_len ", self.seq_len as u64)),
            );
        }
        let ghost before = self.seq_len as int;
        self.seq_len = self.seq_len - n;
        if self.is_ring {
            let cap: usize = if self.capacity > 1 {
                self.capacity
            } else {
                1
            };
            let r: usize = n % cap;
            proof {
                let c = self.capacity as int;
                let s = before;
                let k = n as int;
                lemma_fundamental_div_mod(s, c);
                lemma_fundamental_div_mod(k, c);
                lemma_mod_bound(s, c);
                lemma_mod_bound(k, c);
                let down = s % c - k % c;
                let wraps: int = if down >= 0 {
                    0
                } else {
                    1
                };
                assert(down + c * wraps == c * (k / c - s / c + wraps) + (s - k)) by (nonlinear_arith)
                    requires
                        s == c * (s / c) + s % c,
                        k == c * (k / c) + k % c,
                        down == s % c - k % c,
                ;
                lemma_mod_multiples_vanish(k / c - s / c + wraps, s - k, c);
                assert(c * wraps == (if wraps == 0 { 0 } else { c })) by (nonlinear_arith)
                    requires
                        wraps == 0 || wraps == 1,
                ;
                lemma_small_mod((down + c * wraps) as nat, c as nat);
            }
            self.head = if self.head >= r {
                self.head - r
            } else {
                self.head + (cap - r)
            };
        }
        Ok(())
    }

    /// Float offset of the next write, without taking it.
    pub fn peek_write_offset(&self) -> (r: Result<u32>)
        requires
            self.wf(),
        ensures
            match self.write_refusal() {
                Some(e) => error::fails_with(r, e),
                None => r == Ok::<u32, Error>(self.write_offset()),
            },
    {
        if self.capacity == 0 {
            return Err(Error::Kv(String::from_str("GPU KV capacity 0")));
        }
        let write_i: usize = if self.is_ring {
            self.head
        } else {
            if self.seq_len >= self.capacity {
                return Err(Error::Kv(String::from_str("GPU KV full")));
            }
            self.seq_len
        };
        proof {
            lemma_product_bound(
                self.capacity as int,
                self.heads as int,
                self.dim as int,
                usize::MAX as int,
            );
            if self.is_ring {
                lemma_mod_bound(self.seq_len as int, self.capacity as int);
            }
            assert(write_i * (self.heads * self.dim) <= self.capacity * self.heads * self.dim)
                by (nonlinear_arith)
                requires
                    write_i <= self.capacity,
                    0 <= self.heads,
                    0 <= self.dim,
            ;
        }
        Ok(to_u32(write_i * self.slot_elems()))
    }

    /// Counts one timestep as written.
    pub fn commit_append(&mut self) -> (r: Result<()>)
        requires
            old(self).wf(),
            old(self).seq_len < usize::MAX,
        ensures
            final(self).wf(),
            match old(self).write_refusal() {
                Some(e) => error::fails_with(r, e) && *final(self) == *old(self),
                None => r is Ok && *final(self) == old(self).holding(old(self).seq_len + 1),
            },
    {
        match self.peek_write_offset() {
            Err(e) => {
                return Err(e);
            },
            Ok(_) => {},
        }
        if self.is_ring {
            proof {
                let c = self.capacity as int;
                let s = self.seq_len as int;
                lemma_add_mod_noop(s, 1, c);
                lemma_mod_bound(s, c);
                if c > 1 {
                    lemma_small_mod(1, c as nat);
                }
                lemma_add_mod_noop_right(1, s, c);
            }
            self.head = (self.head + 1) % self.capacity;
        }
        self.seq_len = self.seq_len + 1;
        Ok(())
    }

    /// Queues the store of the timestep that begins at `src_elem_off` of the
    /// staging rows, and counts it as written.
    pub fn append_from_offset(&mut self, src_elem_off: u32, queue: &mut Vec<KvStore>) -> (r: Result<
        (),
    >)
        requires
            old(self).wf(),
            old(self).seq_len < usize::MAX,
            old(self).row() <= usize::MAX,
        ensures
            final(self).wf(),
            match old(self).write_refusal() {
                Some(e) => {
                    &&& error::fails_with(r, e)
                    &&& *final(self) == *old(self)
                    &&& final(queue)@ == old(queue)@
                },
                None => {
                    &&& r is Ok
                    &&& *final(self) == old(self).holding(old(self).seq_len + 1)
                    &&& final(queue)@ == old(queue)@.push(
                        KvStore {
                            src_off: src_elem_off,
                            len: low32(old(self).row()),
                            dst_off: old(self).write_offset(),
                        },
                    )
                },
            },
    {
        let n: u32 = to_u32(self.slot_elems());
        match self.peek_write_offset() {
            Err(e) => Err(e),
            Ok(off) => {
                queue.push(KvStore { src_off: src_elem_off, len: n, dst_off: off });
                self.commit_append()
            },
        }
    }

    /// Queues the store of the timestep at the start of the staging rows.
    pub fn append(&mut self, queue: &mut Vec<KvStore>) -> (r: Result<()>)
        requires
            old(self).wf(),
            old(self).seq_len < usize::MAX,
            old(self).row() <= usize::MAX,
        ensures
            final(self).wf(),
            match old(self).write_refusal() {
                Some(e) => {
                    &&& error::fails_with(r, e)
                    &&& *final(self) == *old(self)
                    &&& final(queue)@ == old(queue)@
                },
                None => {
                    &&& r is Ok
                    &&& *final(self) == old(self).holding(old(self).seq_len + 1)
                    &&& final(queue)@ == old(queue)@.push(
                        KvStore {
                            src_off: 0,
                            len: low32(old(self).row()),
                            dst_off: old(self).write_offset(),
                        },
                    )
                },
            },
    {
        self.append_from_offset(0, queue)
    }

    /// How many of `m` timesteps still find room.
    pub open spec fn room(self, m: int) -> int {
        if self.capacity == 0 {
            0
        } else if self.is_ring {
            m
        } else {
            min2(m, self.capacity - self.seq_len)
        }
    }

    /// The stores of the first `k` of several packed timesteps.
    pub open spec fn packed_stores(self, k: int) -> Seq<KvStore> {
        Seq::new(
            k as nat,
            |i: int|
                KvStore {
                    src_off: low32(i * self.row()),
                    len: low32(self.row()),
                    dst_off: low32(self.index_of(self.seq_len + i) * self.row()),
                },
        )
    }

    /// Queues the stores of `m` timesteps that stand packed one behind the
    /// other in the staging rows. Stops where the slot is full; what was queued
    /// until then stays.
    pub fn append_m(&mut self, m: usize, queue: &mut Vec<KvStore>) -> (r: Result<()>)
        requires
            old(self).wf(),
            old(self).seq_len + m <= usize::MAX,
            m * old(self).row() <= usize::MAX,
            old(self).row() <= usize::MAX,
        ensures
            final(self).wf(),
            ({
                let k = old(self).room(m as int);
                &&& *final(self) == old(self).holding(old(self).seq_len + k)
                &&& final(queue)@ == old(queue)@ + old(self).packed_stores(k)
                &&& k == m ==> r is Ok
                &&& k < m ==> error::fails_with(
                    r,
                    error::kv_error(
                        if old(self).capacity == 0 {
                            "GPU KV capacity 0"@
                        } else {
                            "GPU KV full"@
                        },
                    ),
                )
            }),
    {
        let n: usize = self.slot_elems();
        let ghost first = *self;
        proof {
            if self.is_ring && self.capacity > 0 {
                lemma_mod_bound(self.seq_len as int, self.capacity as int);
            }
        }
        let mut mi: usize = 0;
        assert(queue@ =~= old(queue)@ + first.packed_stores(0));
        while mi < m
            invariant
                mi <= m,
                n == first.row(),
                first == *old(self),
                first.wf(),
                self.wf(),
                *self == first.holding(first.seq_len + mi),
                mi <= first.room(m as int) || mi == 0,
                first.seq_len + m <= usize::MAX,
                m * first.row() <= usize::MAX,
                first.row() <= usize::MAX,
                queue@ == old(queue)@ + first.packed_stores(mi as int),
            decreases m - mi,
        {
            assert(mi * n <= m * n) by (nonlinear_arith)
                requires
                    mi <= m,
                    0 <= n,
            ;
            let ghost before = queue@;
            match self.append_from_offset(to_u32(mi * n), queue) {
                Err(e) => {
                    assert(first.room(m as int) == mi);
                    return Err(e);
                },
                Ok(()) => {},
            }
            assert(queue@ =~= old(queue)@ + first.packed_stores(mi + 1));
            mi = mi + 1;
        }
        Ok(())
    }

    /// What attention reads when at most `tkv_limit` rows are wanted. A ring is
    /// always gathered, so that the queue has the same form before and after
    /// the ring wraps.
    pub fn fa_buffers(&self, tkv_limit: u32) -> (r: FaView)
        requires
            self.wf(),
        ensures
            r == self.fa_view(tkv_limit),
    {
        let filled: usize = if self.seq_len <= self.capacity {
            self.seq_len
        } else {
            self.capacity
        };
        if filled == 0 {
            return FaView {
                densify: false,
                slot_elems: 0,
                capacity: 0,
                start: 0,
                kv_pos_offset: 0,
                rows: 0,
            };
        }
        let f: u32 = to_u32(filled);
        let rows: u32 = if f <= tkv_limit {
            f
        } else {
            tkv_limit
        };
        if !self.is_ring {
            return FaView {
                densify: false,
                slot_elems: 0,
                capacity: 0,
                start: 0,
                kv_pos_offset: 0,
                rows,
            };
        }
        proof {
            lemma_product_bound(
                self.capacity as int,
                self.heads as int,
                self.dim as int,
                usize::MAX as int,
            );
        }
        let wrapped = self.seq_len > self.capacity;
        let start: u32 = if wrapped {
            to_u32(self.head)
        } else {
            0
        };
        let kv_pos_offset: u32 = if wrapped {
            to_u32(self.seq_len - self.capacity)
        } else {
            0
        };
        FaView {
            densify: true,
            slot_elems: to_u32(self.slot_elems()),
            capacity: to_u32(self.capacity),
            start,
            kv_pos_offset,
            rows,
        }
    }
}

/// A slot that holds `n` timesteps is well formed, if `n` fits.
pub proof fn holding_is_wf(s: GpuKvSlot, n: int)
    requires
        s.wf(),
        0 <= n <= usize::MAX,
        s.is_ring || n <= s.capacity,
        s.capacity == 0 ==> n == 0,
    ensures
        s.holding(n).wf(),
        s.holding(n).seq_len == n,
        s.holding(n).same_shape(s),
{
    if s.is_ring && s.capacity > 0 {
        lemma_mod_bound(n, s.capacity as int);
    }
}

/// Writing `k` timesteps and forgetting the last `k` leaves the slot as it was.
pub proof fn trim_undoes_append(s: GpuKvSlot, k: int)
    requires
        s.wf(),
        0 <= k,
        s.seq_len + k <= usize::MAX,
        k <= s.room(k),
    ensures
        s.holding(s.seq_len + k).holding((s.seq_len + k) - k) == s,
{
    if s.is_ring && s.capacity > 0 {
        lemma_mod_bound(s.seq_len as int, s.capacity as int);
    }
}

/// Attention reads the right rows: gathered row `j` is taken from the buffer
/// row where absolute position `kv_pos_offset + j` was written.
pub proof fn fa_rows_are_consecutive_positions(s: GpuKvSlot, limit: u32, j: int)
    requires
        s.wf(),
        s.seq_len <= u32::MAX,
        s.capacity <= u32::MAX,
        0 <= j < s.fa_view(limit).rows,
    ensures
        ({
            let v = s.fa_view(limit);
            let p = v.kv_pos_offset + j;
            &&& 0 <= p < s.seq_len
            &&& s.seq_len - s.capacity <= p
            &&& v.densify ==> (v.start + j) % v.capacity as int == s.index_of(p)
            &&& !v.densify ==> j == s.index_of(p)
        }),
{
    let c = s.capacity as int;
    let n = s.seq_len as int;
    if s.is_ring {
        lemma_mod_bound(n, c);
        if s.wrapped() {
            let p = n - c + j;
            lemma_mod_multiples_vanish(-1, n + j, c);
            assert(c * (-1) + (n + j) == p);
            lemma_add_mod_noop(n, j, c);
            lemma_small_mod(j as nat, c as nat);
            lemma_small_mod((n % c) as nat, c as nat);
            assert((n + j) % c == (n % c + j) % c);
        }
    }
}

/// A ring keeps apart the positions that attention may read at one time: two of
/// the last `capacity` positions never share a buffer row.
pub proof fn live_positions_do_not_collide(s: GpuKvSlot, p: int, q: int)
    requires
        s.wf(),
        s.is_ring,
        s.capacity > 0,
        0 <= p < s.seq_len,
        0 <= q < s.seq_len,
        s.seq_len - s.capacity <= p,
        s.seq_len - s.capacity <= q,
        s.index_of(p) == s.index_of(q),
    ensures
        p == q,
{
    let c = s.capacity as int;
    lemma_fundamental_div_mod(p, c);
    lemma_fundamental_div_mod(q, c);
    assert(p / c == q / c) by (nonlinear_arith)
        requires
            p - q == c * (p / c) - c * (q / c),
            -c < p - q < c,
            c > 0,
    ;
}

} // verus!
