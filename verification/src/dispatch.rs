//! Binding arguments and dispatching, as commands for an encoder.

use crate::tensor;
use crate::tensor::{GpuBuffer, Tensor};
use vstd::prelude::*;

verus! {

/// What the encoder, the argument table or the tape being captured is told.
#[derive(Clone, Copy, Debug, PartialEq, Eq)]
pub enum Cmd {
    SetPipeline(usize),
    SetArgumentTable(usize),
    SetAddress { addr: u64, index: usize },
    SetResource { id: u64, index: usize },
    SetThreadgroupMemory { index: usize, length: usize },
    Dispatch { groups: (usize, usize, usize), threads: (usize, usize, usize) },
    ExecuteIndirect { start: u64, count: u64 },
    OptimizeIndirect { start: u64, count: u64 },
    Barrier,
    NotePipeline(usize),
    NoteBind { index: usize, addr: u64, offset: usize },
    /// The bytes that lie in the constant arena from `at` on.
    NoteImmediate { index: usize, at: usize, len: usize },
    NoteThreadgroupMemory { index: usize, length: usize },
    NoteDispatch { groups: (usize, usize, usize), threads: (usize, usize, usize) },
    NoteBarrier,
}

/// A compiled kernel and how many threads its device runs in step.
#[derive(Clone, Copy, Debug, PartialEq, Eq, Structural)]
pub struct Pipeline {
    pub id: usize,
    pub width: usize,
}

/// An argument to be bound at an index.
#[derive(Clone, Copy, Debug, PartialEq, Eq, Structural)]
pub enum Bind {
    /// A buffer at an address, from a byte offset on.
    Buffer { addr: u64, offset: usize, index: usize },
    U32 { value: u32, index: usize },
    /// A float, as bits.
    F32 { bits: u32, index: usize },
}

/// `n` raised to the next multiple of sixteen.
pub open spec fn aligned(n: int) -> int {
    (n + 15) / 16 * 16
}

/// The low sixty-four bits of a sum.
pub open spec fn wrapped64(n: int) -> u64 {
    (n % 0x1_0000_0000_0000_0000) as u64
}

/// `base` with `new` written over it from `at` on.
pub open spec fn overwritten(base: Seq<u8>, at: int, new: Seq<u8>) -> Seq<u8> {
    base.subrange(0, at) + new + base.subrange(at + new.len(), base.len() as int)
}

/// Commands, where a tape is being captured; nothing otherwise.
pub open spec fn noted(capturing: bool, c: Cmd) -> Seq<Cmd> {
    if capturing {
        seq![c]
    } else {
        Seq::empty()
    }
}

/// The state of a compute binder.
#[derive(Clone, Debug)]
pub struct Binder {
    /// The runtime's own argument table.
    pub table: usize,
    /// Where the constant arena is, and what it holds.
    pub arena_addr: u64,
    pub arena: Vec<u8>,
    /// The first byte of the arena that is not in use.
    pub cursor: usize,
    pub latched: bool,
    /// The table that the encoder last took.
    pub last_table: Option<usize>,
    /// Whether automatic barriers are left out.
    pub hazard: bool,
    /// Whether a tape is being captured.
    pub capturing: bool,
}

/// A binder, with the arena as a sequence.
#[verifier::ext_equal]
pub struct BinderV {
    pub table: usize,
    pub arena_addr: u64,
    pub arena: Seq<u8>,
    pub cursor: int,
    pub latched: bool,
    pub last_table: Option<usize>,
    pub hazard: bool,
    pub capturing: bool,
}

impl View for Binder {
    type V = BinderV;

    open spec fn view(&self) -> BinderV {
        BinderV {
            table: self.table,
            arena_addr: self.arena_addr,
            arena: self.arena@,
            cursor: self.cursor as int,
            latched: self.latched,
            last_table: self.last_table,
            hazard: self.hazard,
            capturing: self.capturing,
        }
    }
}

impl BinderV {
    /// The bookkeeping is consistent.
    pub open spec fn wf(self) -> bool {
        &&& self.latched == (self.last_table is Some)
        &&& self.arena_addr + self.arena.len() <= u64::MAX
        &&& self.arena.len() + 16 <= usize::MAX
        &&& 0 <= self.cursor <= self.arena.len() + 4
    }

    /// Where the next bytes go.
    pub open spec fn place(self) -> int {
        aligned(self.cursor)
    }

    /// Whether `len` more bytes fit in the arena.
    pub open spec fn fits(self, len: int) -> bool {
        self.place() + len <= self.arena.len()
    }

    /// The address that the next bytes get.
    pub open spec fn next_addr(self) -> u64 {
        (self.arena_addr + self.place()) as u64
    }

    /// The binder once `bytes` were placed.
    pub open spec fn placed(self, bytes: Seq<u8>) -> BinderV {
        BinderV {
            arena: overwritten(self.arena, self.place(), bytes),
            cursor: self.place() + (if bytes.len() < 4 {
                4
            } else {
                bytes.len() as int
            }),
            ..self
        }
    }

    /// The commands that bind `len` placed bytes.
    pub open spec fn bytes_cmds(self, len: int, index: usize) -> Seq<Cmd> {
        seq![Cmd::SetAddress { addr: self.next_addr(), index }] + noted(
            self.capturing,
            Cmd::NoteImmediate { index, at: self.place() as usize, len: len as usize },
        )
    }

    /// The commands that bind a buffer and note it.
    pub open spec fn buffer_cmds(self, addr: u64, offset: usize, index: usize) -> Seq<Cmd> {
        seq![Cmd::SetAddress { addr: wrapped64(addr + offset), index }] + noted(
            self.capturing,
            Cmd::NoteBind { index, addr, offset },
        )
    }

    /// The commands that choose a kernel.
    pub open spec fn pipeline_cmds(self, id: usize) -> Seq<Cmd> {
        seq![Cmd::SetPipeline(id)] + noted(self.capturing, Cmd::NotePipeline(id))
    }

    /// The commands that latch the runtime's table.
    pub open spec fn latch_cmds(self) -> Seq<Cmd> {
        if self.latched {
            Seq::empty()
        } else {
            seq![Cmd::SetArgumentTable(self.table)]
        }
    }

    /// The binder once a table is latched.
    pub open spec fn with_latch(self) -> BinderV {
        if self.latched {
            self
        } else {
            BinderV { latched: true, last_table: Some(self.table), ..self }
        }
    }

    /// The commands of an explicit barrier.
    pub open spec fn barrier_cmds(self) -> Seq<Cmd> {
        seq![Cmd::Barrier] + noted(self.capturing, Cmd::NoteBarrier)
    }

    /// The commands that follow a dispatch where automatic barriers are on.
    pub open spec fn auto_barrier_cmds(self) -> Seq<Cmd> {
        if self.hazard {
            Seq::empty()
        } else {
            self.barrier_cmds()
        }
    }

    /// The commands of a dispatch.
    pub open spec fn dispatch_cmds(
        self,
        groups: (usize, usize, usize),
        threads: (usize, usize, usize),
    ) -> Seq<Cmd> {
        self.latch_cmds() + seq![Cmd::Dispatch { groups, threads }] + noted(
            self.capturing,
            Cmd::NoteDispatch { groups, threads },
        ) + self.auto_barrier_cmds()
    }

    /// The binder after an argument was bound.
    pub open spec fn after_bind(self, b: Bind) -> BinderV {
        match b {
            Bind::Buffer { .. } => self,
            Bind::U32 { value, .. } => self.placed(tensor::word_bytes(value)),
            Bind::F32 { bits, .. } => self.placed(tensor::word_bytes(bits)),
        }
    }

    /// The commands that bind an argument.
    pub open spec fn bind_cmds(self, b: Bind) -> Seq<Cmd> {
        match b {
            Bind::Buffer { addr, offset, index } => self.buffer_cmds(addr, offset, index),
            Bind::U32 { index, .. } => self.bytes_cmds(4, index),
            Bind::F32 { index, .. } => self.bytes_cmds(4, index),
        }
    }

    /// The binder after arguments were bound in order.
    pub open spec fn after_binds(self, s: Seq<Bind>) -> BinderV
        decreases s.len(),
    {
        if s.len() == 0 {
            self
        } else {
            self.after_binds(s.drop_last()).after_bind(s.last())
        }
    }

    /// The commands that bind arguments in order.
    pub open spec fn binds_cmds(self, s: Seq<Bind>) -> Seq<Cmd>
        decreases s.len(),
    {
        if s.len() == 0 {
            Seq::empty()
        } else {
            self.binds_cmds(s.drop_last()) + self.after_binds(s.drop_last()).bind_cmds(s.last())
        }
    }

    /// Each argument that goes into the arena fits there in its turn.
    pub open spec fn binds_fit(self, s: Seq<Bind>) -> bool {
        forall|i: int|
            0 <= i < s.len() ==> s[i] is Buffer || self.after_binds(
                #[trigger] s.subrange(0, i),
            ).fits(4)
    }

    /// The commands of a whole dispatch: the kernel, its arguments, the grid.
    pub open spec fn launch_cmds(
        self,
        id: usize,
        s: Seq<Bind>,
        groups: (usize, usize, usize),
        threads: (usize, usize, usize),
    ) -> Seq<Cmd> {
        self.pipeline_cmds(id) + self.binds_cmds(s) + self.after_binds(s).dispatch_cmds(
            groups,
            threads,
        )
    }
}

impl Binder {
    /// A binder that has told its encoder nothing yet.
    pub fn new(
        table: usize,
        arena_addr: u64,
        arena: Vec<u8>,
        cursor: usize,
        hazard: bool,
        capturing: bool,
    ) -> (r: Binder)
        requires
            arena_addr + arena@.len() <= u64::MAX,
            arena@.len() + 16 <= usize::MAX,
            cursor <= arena@.len() + 4,
        ensures
            r@.wf(),
            r@ == (BinderV {
                table,
                arena_addr,
                arena: arena@,
                cursor: cursor as int,
                latched: false,
                last_table: None,
                hazard,
                capturing,
            }),
    {
        Binder {
            table,
            arena_addr,
            arena,
            cursor,
            latched: false,
            last_table: None,
            hazard,
            capturing,
        }
    }

    /// Latches the runtime's table, unless some table is latched already.
    pub fn latch_argument_table(&mut self, q: &mut Vec<Cmd>)
        requires
            old(self)@.wf(),
        ensures
            final(self)@.wf(),
            final(self)@ == old(self)@.with_latch(),
            final(q)@ == old(q)@ + old(self)@.latch_cmds(),
    {
        if self.latched {
            assert(q@ =~= q@ + self@.latch_cmds());
            return ;
        }
        q.push(Cmd::SetArgumentTable(self.table));
        self.latched = true;
        self.last_table = Some(self.table);
        assert(q@ =~= old(q)@ + old(self)@.latch_cmds());
    }

    /// Takes a prepared table. Says whether the encoder had to be told: not where
    /// it holds this very table.
    pub fn adopt_argument_table(&mut self, table: usize, q: &mut Vec<Cmd>) -> (r: bool)
        requires
            old(self)@.wf(),
        ensures
            final(self)@.wf(),
            r == (old(self)@.last_table != Some(table)),
            final(self)@ == (BinderV { latched: true, last_table: Some(table), ..old(self)@ }),
            final(q)@ == (if r {
                old(q)@.push(Cmd::SetArgumentTable(table))
            } else {
                old(q)@
            }),
    {
        match self.last_table {
            Some(t) => {
                if self.latched && t == table {
                    return false;
                }
            },
            None => {},
        }
        q.push(Cmd::SetArgumentTable(table));
        self.latched = true;
        self.last_table = Some(table);
        true
    }

    /// Copies bytes into the arena and gives their address, aligned to sixteen
    /// bytes from its beginning. The bytes must fit.
    pub fn materialize_bytes(&mut self, bytes: &[u8]) -> (addr: u64)
        requires
            old(self)@.wf(),
            old(self)@.fits(bytes@.len() as int),
        ensures
            final(self)@.wf(),
            final(self)@ == old(self)@.placed(bytes@),
            addr == old(self)@.next_addr(),
    {
        let at: usize = (self.cursor + 15) / 16 * 16;
        let addr: u64 = self.arena_addr + at as u64;
        let n: usize = bytes.len();
        let size: usize = self.arena.len();
        let mut i: usize = 0;
        while i < n
            invariant
                i <= n,
                n == bytes@.len(),
                at == old(self)@.place(),
                at + n <= size,
                size == self.arena@.len(),
                self@ == (BinderV { arena: self.arena@, ..old(self)@ }),
                self.arena@.len() == old(self).arena@.len(),
                forall|k: int| 0 <= k < at ==> self.arena@[k] == old(self).arena@[k],
                forall|k: int| 0 <= k < i ==> #[trigger] self.arena@[at + k] == bytes@[k],
                forall|k: int|
                    at + i <= k < self.arena@.len() ==> self.arena@[k] == old(self).arena@[k],
            decreases n - i,
        {
            self.arena.set(at + i, bytes[i]);
            i = i + 1;
        }
        self.cursor = at + (if n < 4 {
            4
        } else {
            n
        });
        proof {
            let w = overwritten(old(self).arena@, at as int, bytes@);
            assert forall|k: int| 0 <= k < w.len() implies self.arena@[k] == w[k] by {
                if at <= k < at + n {
                    assert(self.arena@[at + (k - at)] == bytes@[k - at]);
                }
            }
            assert(self.arena@ =~= w);
        }
        addr
    }

    /// Chooses a kernel.
    pub fn set_pipeline(&mut self, id: usize, q: &mut Vec<Cmd>)
        ensures
            final(self)@ == old(self)@,
            final(q)@ == old(q)@ + old(self)@.pipeline_cmds(id),
    {
        q.push(Cmd::SetPipeline(id));
        if self.capturing {
            q.push(Cmd::NotePipeline(id));
        }
        assert(q@ =~= old(q)@ + self@.pipeline_cmds(id));
    }

    /// Binds an address at an index.
    pub fn bind_addr(&mut self, addr: u64, index: usize, q: &mut Vec<Cmd>)
        ensures
            final(self)@ == old(self)@,
            final(q)@ == old(q)@.push(Cmd::SetAddress { addr, index }),
    {
        q.push(Cmd::SetAddress { addr, index });
    }

    /// Binds what lies at a byte offset in a buffer. No tape is told.
    pub fn bind_buf(&mut self, buf_addr: u64, offset: usize, index: usize, q: &mut Vec<Cmd>)
        ensures
            final(self)@ == old(self)@,
            final(q)@ == old(q)@.push(
                Cmd::SetAddress { addr: wrapped64(buf_addr + offset), index },
            ),
    {
        self.bind_addr(buf_addr.wrapping_add(offset as u64), index, q);
    }

    fn bind_noted(&mut self, addr: u64, offset: usize, index: usize, q: &mut Vec<Cmd>)
        ensures
            final(self)@ == old(self)@,
            final(q)@ == old(q)@ + old(self)@.buffer_cmds(addr, offset, index),
    {
        self.bind_buf(addr, offset, index, q);
        if self.capturing {
            q.push(Cmd::NoteBind { index, addr, offset });
        }
        assert(q@ =~= old(q)@ + self@.buffer_cmds(addr, offset, index));
    }

    /// Binds the elements of a tensor.
    pub fn bind_tensor(&mut self, t: &Tensor, index: usize, q: &mut Vec<Cmd>)
        ensures
            final(self)@ == old(self)@,
            final(q)@ == old(q)@ + old(self)@.buffer_cmds(t.buffer_addr, t.byte_offset, index),
    {
        self.bind_noted(t.buffer_addr, t.byte_offset, index, q);
    }

    /// Binds a whole buffer.
    pub fn bind_gpu_buf(&mut self, b: &GpuBuffer, index: usize, q: &mut Vec<Cmd>)
        ensures
            final(self)@ == old(self)@,
            final(q)@ == old(q)@ + old(self)@.buffer_cmds(b.addr, 0, index),
    {
        self.bind_noted(b.addr, 0, index, q);
    }

    /// Binds a resource by its number. No tape is told.
    pub fn bind_resource_id(&mut self, id: u64, index: usize, q: &mut Vec<Cmd>)
        ensures
            final(self)@ == old(self)@,
            final(q)@ == old(q)@.push(Cmd::SetResource { id, index }),
    {
        q.push(Cmd::SetResource { id, index });
    }

    /// Binds bytes at an index, through the arena. The bytes must fit.
    pub fn bind_bytes(&mut self, bytes: &[u8], index: usize, q: &mut Vec<Cmd>) -> (addr: u64)
        requires
            old(self)@.wf(),
            old(self)@.fits(bytes@.len() as int),
        ensures
            final(self)@.wf(),
            final(self)@ == old(self)@.placed(bytes@),
            addr == old(self)@.next_addr(),
            final(q)@ == old(q)@ + old(self)@.bytes_cmds(bytes@.len() as int, index),
    {
        let at: usize = (self.cursor + 15) / 16 * 16;
        let addr: u64 = self.materialize_bytes(bytes);
        q.push(Cmd::SetAddress { addr, index });
        if self.capturing {
            q.push(Cmd::NoteImmediate { index, at, len: bytes.len() });
        }
        assert(q@ =~= old(q)@ + old(self)@.bytes_cmds(bytes@.len() as int, index));
        addr
    }

    /// Binds a number at an index.
    pub fn bind_u32(&mut self, value: u32, index: usize, q: &mut Vec<Cmd>)
        requires
            old(self)@.wf(),
            old(self)@.fits(4),
        ensures
            final(self)@.wf(),
            final(self)@ == old(self)@.after_bind(Bind::U32 { value, index }),
            final(q)@ == old(q)@ + old(self)@.bind_cmds(Bind::U32 { value, index }),
    {
        let bytes = tensor::to_bytes(value);
        let _addr: u64 = self.bind_bytes(bytes.as_slice(), index, q);
    }

    /// Binds a float, given as bits, at an index.
    pub fn bind_f32(&mut self, bits: u32, index: usize, q: &mut Vec<Cmd>)
        requires
            old(self)@.wf(),
            old(self)@.fits(4),
        ensures
            final(self)@.wf(),
            final(self)@ == old(self)@.after_bind(Bind::F32 { bits, index }),
            final(q)@ == old(q)@ + old(self)@.bind_cmds(Bind::F32 { bits, index }),
    {
        let bytes = tensor::to_bytes(bits);
        let _addr: u64 = self.bind_bytes(bytes.as_slice(), index, q);
    }

    /// Sizes a piece of threadgroup memory.
    pub fn set_threadgroup_memory(&mut self, index: usize, length: usize, q: &mut Vec<Cmd>)
        ensures
            final(self)@ == old(self)@,
            final(q)@ == old(q)@ + seq![Cmd::SetThreadgroupMemory { index, length }] + noted(
                old(self)@.capturing,
                Cmd::NoteThreadgroupMemory { index, length },
            ),
    {
        q.push(Cmd::SetThreadgroupMemory { index, length });
        if self.capturing {
            q.push(Cmd::NoteThreadgroupMemory { index, length });
        }
        assert(q@ =~= old(q)@ + seq![Cmd::SetThreadgroupMemory { index, length }] + noted(
            self.capturing,
            Cmd::NoteThreadgroupMemory { index, length },
        ));
    }

    /// Orders what was dispatched before what comes.
    pub fn barrier(&mut self, q: &mut Vec<Cmd>)
        ensures
            final(self)@ == old(self)@,
            final(q)@ == old(q)@ + old(self)@.barrier_cmds(),
    {
        q.push(Cmd::Barrier);
        if self.capturing {
            q.push(Cmd::NoteBarrier);
        }
        assert(q@ =~= old(q)@ + self@.barrier_cmds());
    }

    fn auto_barrier(&mut self, q: &mut Vec<Cmd>)
        ensures
            final(self)@ == old(self)@,
            final(q)@ == old(q)@ + old(self)@.auto_barrier_cmds(),
    {
        if !self.hazard {
            self.barrier(q);
        } else {
            assert(q@ =~= q@ + self@.auto_barrier_cmds());
        }
    }

    /// Dispatches threadgroups.
    pub fn dispatch(
        &mut self,
        groups: (usize, usize, usize),
        threads: (usize, usize, usize),
        q: &mut Vec<Cmd>,
    )
        requires
            old(self)@.wf(),
        ensures
            final(self)@.wf(),
            final(self)@ == old(self)@.with_latch(),
            final(q)@ == old(q)@ + old(self)@.dispatch_cmds(groups, threads),
    {
        self.latch_argument_table(q);
        q.push(Cmd::Dispatch { groups, threads });
        if self.capturing {
            q.push(Cmd::NoteDispatch { groups, threads });
        }
        self.auto_barrier(q);
        assert(q@ =~= old(q)@ + old(self)@.dispatch_cmds(groups, threads));
    }

    /// Runs a range of commands encoded beforehand.
    pub fn execute_icb_ex(&mut self, start: u64, count: u64, inherit: bool, q: &mut Vec<Cmd>)
        requires
            old(self)@.wf(),
        ensures
            final(self)@.wf(),
            final(self)@ == (if inherit {
                old(self)@.with_latch()
            } else {
                old(self)@
            }),
            final(q)@ == old(q)@ + (if inherit {
                old(self)@.latch_cmds()
            } else {
                Seq::empty()
            }) + seq![Cmd::ExecuteIndirect { start, count }] + old(self)@.auto_barrier_cmds(),
    {
        if inherit {
            self.latch_argument_table(q);
        }
        q.push(Cmd::ExecuteIndirect { start, count });
        self.auto_barrier(q);
        assert(q@ =~= old(q)@ + (if inherit {
            old(self)@.latch_cmds()
        } else {
            Seq::empty()
        }) + seq![Cmd::ExecuteIndirect { start, count }] + old(self)@.auto_barrier_cmds());
    }

    /// Runs a range of commands encoded beforehand, with the table that is latched.
    pub fn execute_icb(&mut self, start: u64, count: u64, q: &mut Vec<Cmd>)
        requires
            old(self)@.wf(),
        ensures
            final(self)@.wf(),
            final(self)@ == old(self)@.with_latch(),
            final(q)@ == old(q)@ + old(self)@.latch_cmds() + seq![
                Cmd::ExecuteIndirect { start, count },
            ] + old(self)@.auto_barrier_cmds(),
    {
        self.execute_icb_ex(start, count, true, q);
    }

    /// Prepares a range of commands encoded beforehand for reuse.
    pub fn optimize_icb(&mut self, start: u64, count: u64, q: &mut Vec<Cmd>)
        ensures
            final(self)@ == old(self)@,
            final(q)@ == old(q)@.push(Cmd::OptimizeIndirect { start, count }),
    {
        q.push(Cmd::OptimizeIndirect { start, count });
    }

    fn bind(&mut self, b: Bind, q: &mut Vec<Cmd>)
        requires
            old(self)@.wf(),
            b is Buffer || old(self)@.fits(4),
        ensures
            final(self)@.wf(),
            final(self)@ == old(self)@.after_bind(b),
            final(q)@ == old(q)@ + old(self)@.bind_cmds(b),
    {
        match b {
            Bind::Buffer { addr, offset, index } => self.bind_noted(addr, offset, index, q),
            Bind::U32 { value, index } => self.bind_u32(value, index, q),
            Bind::F32 { bits, index } => self.bind_f32(bits, index, q),
        }
    }

    fn bind_all(&mut self, binds: &[Bind], q: &mut Vec<Cmd>)
        requires
            old(self)@.wf(),
            old(self)@.binds_fit(binds@),
        ensures
            final(self)@.wf(),
            final(self)@ == old(self)@.after_binds(binds@),
            final(q)@ == old(q)@ + old(self)@.binds_cmds(binds@),
    {
        let mut i: usize = 0;
        assert(q@ =~= q@ + self@.binds_cmds(binds@.subrange(0, 0)));
        while i < binds.len()
            invariant
                i <= binds@.len(),
                self@.wf(),
                old(self)@.binds_fit(binds@),
                self@ == old(self)@.after_binds(binds@.subrange(0, i as int)),
                q@ == old(q)@ + old(self)@.binds_cmds(binds@.subrange(0, i as int)),
            decreases binds@.len() - i,
        {
            let ghost done = binds@.subrange(0, i as int);
            let ghost next = binds@.subrange(0, i + 1);
            assert(next.drop_last() =~= done);
            self.bind(binds[i], q);
            i = i + 1;
            assert(q@ =~= old(q)@ + old(self)@.binds_cmds(next));
        }
        assert(binds@.subrange(0, i as int) =~= binds@);
    }

    fn launch(
        &mut self,
        id: usize,
        binds: &[Bind],
        groups: (usize, usize, usize),
        threads: (usize, usize, usize),
        q: &mut Vec<Cmd>,
    )
        requires
            old(self)@.wf(),
            old(self)@.binds_fit(binds@),
        ensures
            final(self)@.wf(),
            final(self)@ == old(self)@.after_binds(binds@).with_latch(),
            final(q)@ == old(q)@ + old(self)@.launch_cmds(id, binds@, groups, threads),
    {
        self.set_pipeline(id, q);
        self.bind_all(binds, q);
        self.dispatch(groups, threads, q);
        assert(q@ =~= old(q)@ + old(self)@.launch_cmds(id, binds@, groups, threads));
    }
}

/// Binds the elements of a tensor.
pub fn set_tensor(bnd: &mut Binder, t: &Tensor, index: usize, q: &mut Vec<Cmd>)
    ensures
        final(bnd)@ == old(bnd)@,
        final(q)@ == old(q)@ + old(bnd)@.buffer_cmds(t.buffer_addr, t.byte_offset, index),
{
    bnd.bind_tensor(t, index, q);
}

/// Binds a whole buffer.
pub fn set_gpu_buf(bnd: &mut Binder, buf: &GpuBuffer, index: usize, q: &mut Vec<Cmd>)
    ensures
        final(bnd)@ == old(bnd)@,
        final(q)@ == old(q)@ + old(bnd)@.buffer_cmds(buf.addr, 0, index),
{
    bnd.bind_gpu_buf(buf, index, q);
}

/// Binds a buffer from a byte offset on.
pub fn set_gpu_buf_offset(
    bnd: &mut Binder,
    buf: &GpuBuffer,
    byte_offset: usize,
    index: usize,
    q: &mut Vec<Cmd>,
)
    ensures
        final(bnd)@ == old(bnd)@,
        final(q)@ == old(q)@ + old(bnd)@.buffer_cmds(buf.addr, byte_offset, index),
{
    bnd.bind_noted(buf.addr, byte_offset, index, q);
}

/// Binds a number.
pub fn set_u32(bnd: &mut Binder, value: u32, index: usize, q: &mut Vec<Cmd>)
    requires
        old(bnd)@.wf(),
        old(bnd)@.fits(4),
    ensures
        final(bnd)@.wf(),
        final(bnd)@ == old(bnd)@.after_bind(Bind::U32 { value, index }),
        final(q)@ == old(q)@ + old(bnd)@.bind_cmds(Bind::U32 { value, index }),
{
    bnd.bind_u32(value, index, q);
}

/// Binds a float, given as bits.
pub fn set_f32(bnd: &mut Binder, bits: u32, index: usize, q: &mut Vec<Cmd>)
    requires
        old(bnd)@.wf(),
        old(bnd)@.fits(4),
    ensures
        final(bnd)@.wf(),
        final(bnd)@ == old(bnd)@.after_bind(Bind::F32 { bits, index }),
        final(q)@ == old(q)@ + old(bnd)@.bind_cmds(Bind::F32 { bits, index }),
{
    bnd.bind_f32(bits, index, q);
}

/// `g` is a grid for `n` threads: at most `width` threads to a group, and as few
/// groups as cover them.
pub open spec fn covers(g: (usize, usize), n: int, width: int) -> bool {
    &&& g.1 == (if width == 0 {
        1
    } else if width < n {
        width
    } else {
        n
    })
    &&& g.0 * g.1 >= n
    &&& (g.0 - 1) * g.1 < n
}

/// Threadgroups and threads of each for `n` threads. Nothing where there is nothing
/// to do.
pub fn grid_1d(n: usize, width: usize) -> (r: Option<(usize, usize)>)
    ensures
        n == 0 ==> r is None,
        n > 0 ==> (r matches Some(g) && covers(g, n as int, width as int)),
{
    if n == 0 {
        return None;
    }
    let mut tpt: usize = width;
    if n < tpt {
        tpt = n;
    }
    if tpt < 1 {
        tpt = 1;
    }
    let groups: usize = (n - 1) / tpt + 1;
    proof {
        let (m, t) = ((n - 1) as int, tpt as int);
        let k = m / t;
        vstd::arithmetic::div_mod::lemma_fundamental_div_mod(m, t);
        assert((k + 1) * t == t * k + t) by (nonlinear_arith);
        assert(k * t == t * k) by (nonlinear_arith);
        assert(0 <= m % t < t);
    }
    Some((groups, tpt))
}

/// Only one grid covers `n` threads.
pub proof fn grids_are_unique(a: (usize, usize), b: (usize, usize), n: int, width: int)
    requires
        n > 0,
        width >= 0,
        covers(a, n, width),
        covers(b, n, width),
    ensures
        a == b,
{
    let t = a.1 as int;
    if a.0 < b.0 {
        assert(a.0 * t <= (b.0 - 1) * t) by (nonlinear_arith)
            requires
                a.0 <= b.0 - 1,
                t >= 0,
        ;
    }
    if b.0 < a.0 {
        assert(b.0 * t <= (a.0 - 1) * t) by (nonlinear_arith)
            requires
                b.0 <= a.0 - 1,
                t >= 0,
        ;
    }
}

/// Dispatches a kernel on `n` threads with the given arguments. Nothing happens
/// where there is nothing to do.
pub fn dispatch_1d(bnd: &mut Binder, p: Pipeline, n: usize, binds: &[Bind], q: &mut Vec<Cmd>)
    requires
        old(bnd)@.wf(),
        old(bnd)@.binds_fit(binds@),
    ensures
        final(bnd)@.wf(),
        n == 0 ==> final(bnd)@ == old(bnd)@ && final(q)@ == old(q)@,
        n > 0 ==> {
            &&& final(bnd)@ == old(bnd)@.after_binds(binds@).with_latch()
            &&& exists|g: (usize, usize)| #[trigger]
                covers(g, n as int, p.width as int) && final(q)@ == old(q)@ + old(
                    bnd,
                )@.launch_cmds(p.id, binds@, (g.0, 1usize, 1usize), (g.1, 1usize, 1usize))
        },
{
    match grid_1d(n, p.width) {
        None => {},
        Some(g) => {
            assert(covers(g, n as int, p.width as int));
            bnd.launch(p.id, binds, (g.0, 1, 1), (g.1, 1, 1), q);
        },
    }
}

/// Dispatches a kernel on a grid of threadgroups with the given arguments. Nothing
/// happens where a side of the grid is empty.
pub fn dispatch_2d_tg(
    bnd: &mut Binder,
    p: Pipeline,
    groups_x: usize,
    groups_y: usize,
    threads_per_tg: usize,
    binds: &[Bind],
    q: &mut Vec<Cmd>,
)
    requires
        old(bnd)@.wf(),
        old(bnd)@.binds_fit(binds@),
    ensures
        final(bnd)@.wf(),
        (groups_x == 0 || groups_y == 0 || threads_per_tg == 0) ==> final(bnd)@ == old(bnd)@
            && final(q)@ == old(q)@,
        (groups_x > 0 && groups_y > 0 && threads_per_tg > 0) ==> {
            &&& final(bnd)@ == old(bnd)@.after_binds(binds@).with_latch()
            &&& final(q)@ == old(q)@ + old(bnd)@.launch_cmds(
                p.id,
                binds@,
                (groups_x, groups_y, 1usize),
                (threads_per_tg, 1usize, 1usize),
            )
        },
{
    if groups_x == 0 || groups_y == 0 || threads_per_tg == 0 {
        return ;
    }
    bnd.launch(p.id, binds, (groups_x, groups_y, 1), (threads_per_tg, 1, 1), q);
}

/// What a softcap over a tensor is dispatched with: the tensor, where the result
/// goes, the cap as bits, and how many elements there are.
pub open spec fn softcap_binds(pre: Tensor, post: Tensor, softcap_bits: u32, n: u32) -> Seq<Bind> {
    seq![
        Bind::Buffer { addr: pre.buffer_addr, offset: pre.byte_offset, index: 0 },
        Bind::Buffer { addr: post.buffer_addr, offset: post.byte_offset, index: 1 },
        Bind::F32 { bits: softcap_bits, index: 2 },
        Bind::U32 { value: n, index: 3 },
    ]
}

/// The arguments of a softcap over a tensor.
pub fn softcap_f32(pre: &Tensor, post: &Tensor, softcap_bits: u32) -> (r: Vec<Bind>)
    requires
        pre.wf(),
        tensor::product(pre.shape@) <= u32::MAX,
    ensures
        r@ == softcap_binds(
            *pre,
            *post,
            softcap_bits,
            tensor::product(pre.shape@) as u32,
        ),
{
    let n: u32 = pre.numel() as u32;
    let r: Vec<Bind> = vec![
        Bind::Buffer { addr: pre.buffer_addr, offset: pre.byte_offset, index: 0 },
        Bind::Buffer { addr: post.buffer_addr, offset: post.byte_offset, index: 1 },
        Bind::F32 { bits: softcap_bits, index: 2 },
        Bind::U32 { value: n, index: 3 },
    ];
    assert(r@ =~= softcap_binds(
        *pre,
        *post,
        softcap_bits,
        tensor::product(pre.shape@) as u32,
    ));
    r
}

/// What was placed in the arena lies where its address says.
pub proof fn placed_bytes_are_there(v: BinderV, bytes: Seq<u8>)
    requires
        v.wf(),
        v.fits(bytes.len() as int),
    ensures
        v.next_addr() == v.arena_addr + v.place(),
        v.place() % 16 == 0,
        v.placed(bytes).arena.subrange(v.place(), v.place() + bytes.len()) == bytes,
        v.placed(bytes).arena.len() == v.arena.len(),
        v.placed(bytes).wf(),
{
    assert(v.placed(bytes).arena.subrange(v.place(), v.place() + bytes.len()) =~= bytes);
}

/// Binding more arguments leaves everything that was placed before as it was.
pub proof fn binding_keeps_what_was_placed(v: BinderV, s: Seq<Bind>)
    requires
        v.wf(),
        v.binds_fit(s),
    ensures
        v.after_binds(s).wf(),
        v.after_binds(s).cursor >= v.cursor,
        v.after_binds(s).arena.len() == v.arena.len(),
        forall|k: int|
            0 <= k < v.cursor && k < v.arena.len() ==> v.after_binds(s).arena[k] == v.arena[k],
    decreases s.len(),
{
    if s.len() > 0 {
        let t = s.drop_last();
        assert forall|i: int| 0 <= i < t.len() implies t[i] is Buffer || v.after_binds(
            #[trigger] t.subrange(0, i),
        ).fits(4) by {
            assert(t.subrange(0, i) =~= s.subrange(0, i));
        }
        binding_keeps_what_was_placed(v, t);
        assert(t =~= s.subrange(0, s.len() - 1));
        let m = v.after_binds(t);
        match s.last() {
            Bind::Buffer { .. } => {},
            Bind::U32 { value, .. } => {
                placed_bytes_are_there(m, tensor::word_bytes(value));
            },
            Bind::F32 { bits, .. } => {
                placed_bytes_are_there(m, tensor::word_bytes(bits));
            },
        }
    }
}

/// Once a table is latched, dispatching tells the encoder of none.
pub proof fn latching_happens_once(b: BinderV)
    ensures
        b.with_latch().latch_cmds() == Seq::<Cmd>::empty(),
        b.with_latch().with_latch() == b.with_latch(),
{
}

/// A place is the next multiple of sixteen: none is skipped, and none goes back.
pub proof fn places_are_the_next_multiples(n: int)
    requires
        0 <= n,
    ensures
        n <= aligned(n) < n + 16,
        aligned(n) % 16 == 0,
{
}

} // verus!
