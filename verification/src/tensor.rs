//! Element types, the half-width float form, and views into a buffer.

use crate::dispatch;
use crate::dispatch::{Bind, Binder, Cmd, Pipeline};
use vstd::prelude::*;

verus! {

/// An element type.
#[derive(Clone, Copy, Debug, PartialEq, Eq, Structural)]
pub enum DType {
    F32,
    BF16,
}

impl DType {
    /// Bytes of an element.
    pub open spec fn width(self) -> int {
        match self {
            DType::F32 => 4,
            DType::BF16 => 2,
        }
    }

    /// Bytes of an element.
    pub fn size_of(self) -> (r: usize)
        ensures
            r == self.width(),
    {
        match self {
            DType::F32 => 4,
            DType::BF16 => 2,
        }
    }

    /// The kernel that copies elements of this type.
    pub fn copy_kernel(self) -> (r: &'static str)
        ensures
            r@ == (match self {
                DType::F32 => "copy_f32"@,
                DType::BF16 => "copy_bf16"@,
            }),
    {
        match self {
            DType::F32 => "copy_f32",
            DType::BF16 => "copy_bf16",
        }
    }
}

/// What a buffer is for. Only cold ones are given back when dropped.
#[derive(Clone, Copy, Debug, PartialEq, Eq, Structural)]
pub enum BufferKind {
    Hot,
    Cold,
    Bump,
}

/// Whether a dropped buffer is recycled: weights stay resident and bump views
/// share their slab.
pub fn recycles(kind: BufferKind, runtime_alive: bool) -> (r: bool)
    ensures
        r == (kind == BufferKind::Cold && runtime_alive),
{
    kind == BufferKind::Cold && runtime_alive
}

/// Elements of a shape.
pub open spec fn product(shape: Seq<usize>) -> int
    decreases shape.len(),
{
    if shape.len() == 0 {
        1
    } else {
        product(shape.drop_last()) * shape.last()
    }
}

proof fn lemma_product_nonneg(shape: Seq<usize>)
    ensures
        product(shape) >= 0,
    decreases shape.len(),
{
    if shape.len() > 0 {
        lemma_product_nonneg(shape.drop_last());
        assert(product(shape.drop_last()) * shape.last() >= 0) by (nonlinear_arith)
            requires
                product(shape.drop_last()) >= 0,
                shape.last() >= 0,
        ;
    }
}

/// Every leading part of the shape has few enough elements to count.
pub open spec fn countable(shape: Seq<usize>) -> bool {
    forall|i: int| 0 <= i <= shape.len() ==> product(#[trigger] shape.subrange(0, i)) <= usize::MAX
}

/// Elements of a shape.
pub fn numel_of(shape: &[usize]) -> (r: usize)
    requires
        countable(shape@),
    ensures
        r == product(shape@),
{
    let mut n: usize = 1;
    let mut i: usize = 0;
    assert(shape@.subrange(0, 0) =~= Seq::<usize>::empty());
    while i < shape.len()
        invariant
            i <= shape@.len(),
            countable(shape@),
            n == product(shape@.subrange(0, i as int)),
        decreases shape@.len() - i,
    {
        let ghost next = shape@.subrange(0, i + 1);
        proof {
            assert(next.drop_last() =~= shape@.subrange(0, i as int));
            assert(product(next) == n * shape@[i as int]);
            lemma_product_nonneg(next);
        }
        n = n * shape[i];
        i = i + 1;
    }
    assert(shape@.subrange(0, i as int) =~= shape@);
    n
}

fn copied_shape(shape: &[usize]) -> (r: Vec<usize>)
    ensures
        r@ == shape@,
{
    let mut s: Vec<usize> = Vec::new();
    let mut i: usize = 0;
    while i < shape.len()
        invariant
            i <= shape@.len(),
            s@ == shape@.subrange(0, i as int),
        decreases shape@.len() - i,
    {
        s.push(shape[i]);
        i = i + 1;
        assert(s@ =~= shape@.subrange(0, i as int));
    }
    assert(shape@.subrange(0, i as int) =~= shape@);
    s
}

/// A shape over part of a buffer, in row-major order.
#[derive(Clone, Debug)]
pub struct Tensor {
    pub shape: Vec<usize>,
    pub dtype: DType,
    /// Where the buffer is.
    pub buffer_addr: u64,
    /// Where the elements begin in the buffer, in bytes.
    pub byte_offset: usize,
    /// Bytes of the whole buffer.
    pub nbytes: usize,
}

impl Tensor {
    /// The elements lie within the buffer.
    pub open spec fn wf(self) -> bool {
        &&& countable(self.shape@)
        &&& self.byte_offset + product(self.shape@) * self.dtype.width() <= self.nbytes
    }

    /// Elements.
    pub fn numel(&self) -> (r: usize)
        requires
            self.wf(),
        ensures
            r == product(self.shape@),
    {
        numel_of(self.shape.as_slice())
    }

    /// Bytes of the elements.
    pub fn nbytes_logical(&self) -> (r: usize)
        requires
            self.wf(),
        ensures
            r == product(self.shape@) * self.dtype.width(),
    {
        let n: usize = self.numel();
        n * self.dtype.size_of()
    }

    /// A view of the same buffer, `elem_offset` elements further on. The view
    /// must end within the buffer.
    pub fn view(&self, shape: &[usize], elem_offset: usize) -> (r: Tensor)
        requires
            self.wf(),
            countable(shape@),
            self.byte_offset + elem_offset * self.dtype.width() + product(shape@)
                * self.dtype.width() <= self.nbytes,
        ensures
            r.wf(),
            r.shape@ == shape@,
            r.dtype == self.dtype,
            r.byte_offset == self.byte_offset + elem_offset * self.dtype.width(),
            r.buffer_addr == self.buffer_addr,
            r.nbytes == self.nbytes,
    {
        proof {
            lemma_product_nonneg(shape@);
            let n = product(shape@);
            assert(n * self.dtype.width() >= 0) by (nonlinear_arith)
                requires
                    n >= 0,
                    self.dtype.width() >= 0,
            ;
        }
        let off: usize = self.byte_offset + elem_offset * self.dtype.size_of();
        Tensor {
            shape: copied_shape(shape),
            dtype: self.dtype,
            buffer_addr: self.buffer_addr,
            byte_offset: off,
            nbytes: self.nbytes,
        }
    }

    /// A tensor of the same shape over a buffer of its own at `addr`, just large
    /// enough. It is filled by a copy.
    pub fn deep_copy(&self, addr: u64) -> (r: Tensor)
        requires
            self.wf(),
        ensures
            r.wf(),
            r.shape@ == self.shape@,
            r.dtype == self.dtype,
            r.buffer_addr == addr,
            r.byte_offset == 0,
            r.nbytes == product(self.shape@) * self.dtype.width(),
    {
        Tensor {
            shape: copied_shape(self.shape.as_slice()),
            dtype: self.dtype,
            buffer_addr: addr,
            byte_offset: 0,
            nbytes: self.nbytes_logical(),
        }
    }
}

/// A view of a view lies where the two offsets together say.
pub proof fn views_compose(a: Tensor, b: Tensor, c: Tensor, d: Tensor, i: int, j: int)
    requires
        b.dtype == a.dtype,
        c.dtype == a.dtype,
        d.dtype == a.dtype,
        b.byte_offset == a.byte_offset + i * a.dtype.width(),
        c.byte_offset == b.byte_offset + j * a.dtype.width(),
        d.byte_offset == a.byte_offset + (i + j) * a.dtype.width(),
    ensures
        c.byte_offset == d.byte_offset,
{
    let w = a.dtype.width();
    assert((i + j) * w == i * w + j * w) by (nonlinear_arith);
}

/// The word of four bytes from number `i` on.
pub open spec fn word_at(b: Seq<u8>, i: int) -> u32 {
    (b[i] + 0x100 * b[i + 1] + 0x1_0000 * b[i + 2] + 0x100_0000 * b[i + 3]) as u32
}

/// The bytes of a word, the low one first.
pub open spec fn word_bytes(w: u32) -> Seq<u8> {
    seq![
        (w % 0x100) as u8,
        (w / 0x100 % 0x100) as u8,
        (w / 0x1_0000 % 0x100) as u8,
        (w / 0x100_0000) as u8,
    ]
}

/// The bytes of a word, the low one first.
pub fn to_bytes(w: u32) -> (r: Vec<u8>)
    ensures
        r@ == word_bytes(w),
{
    let mut r: Vec<u8> = Vec::new();
    r.push((w % 0x100) as u8);
    r.push((w / 0x100 % 0x100) as u8);
    r.push((w / 0x1_0000 % 0x100) as u8);
    r.push((w / 0x100_0000) as u8);
    assert(r@ =~= word_bytes(w));
    r
}

/// The bytes of a word hold the word.
pub proof fn word_round_trip(w: u32)
    ensures
        word_at(word_bytes(w), 0) == w,
{
}

/// The half word of two bytes from number `i` on.
pub open spec fn half_at(b: Seq<u8>, i: int) -> u16 {
    (b[i] + 0x100 * b[i + 1]) as u16
}

/// The half words that bytes hold.
pub open spec fn halves_of(b: Seq<u8>) -> Seq<u16> {
    Seq::new(b.len() / 2, |i: int| half_at(b, 2 * i))
}

/// The words that bytes hold.
pub open spec fn words_of(b: Seq<u8>) -> Seq<u32> {
    Seq::new(b.len() / 4, |i: int| word_at(b, 4 * i))
}

/// A buffer that the host and the device share.
#[derive(Clone, Debug)]
pub struct GpuBuffer {
    pub kind: BufferKind,
    /// Where the device finds it.
    pub addr: u64,
    pub bytes: Vec<u8>,
}

impl GpuBuffer {
    /// Bytes of the buffer.
    pub fn nbytes(&self) -> (r: usize)
        ensures
            r == self.bytes@.len(),
    {
        self.bytes.len()
    }

    /// All words. The buffer must hold whole words.
    pub fn read_u32(&self) -> (r: Vec<u32>)
        requires
            self.bytes@.len() % 4 == 0,
        ensures
            r@ == words_of(self.bytes@),
    {
        let n: usize = self.bytes.len();
        let mut out: Vec<u32> = Vec::new();
        let mut i: usize = 0;
        while i < n / 4
            invariant
                i <= n / 4,
                n == self.bytes@.len(),
                out@ =~= Seq::new(i as nat, |k: int| word_at(self.bytes@, 4 * k)),
            decreases n / 4 - i,
        {
            let j: usize = 4 * i;
            let w: u32 = self.bytes[j] as u32 + 0x100 * (self.bytes[j + 1] as u32) + 0x1_0000 * (
            self.bytes[j + 2] as u32) + 0x100_0000 * (self.bytes[j + 3] as u32);
            out.push(w);
            i = i + 1;
        }
        out
    }

    /// Writes words from the beginning on; the rest stays. They must fit.
    pub fn write_f32_prefix(&mut self, data: &[u32])
        requires
            old(self).bytes@.len() % 4 == 0,
            4 * data@.len() <= old(self).bytes@.len(),
        ensures
            final(self).kind == old(self).kind,
            final(self).addr == old(self).addr,
            final(self).bytes@.len() == old(self).bytes@.len(),
            forall|i: int|
                0 <= i < data@.len() ==> #[trigger] words_of(final(self).bytes@)[i] == data@[i],
            forall|j: int|
                4 * data@.len() <= j < old(self).bytes@.len() ==> final(self).bytes@[j] == old(
                    self,
                ).bytes@[j],
    {
        let n: usize = self.bytes.len();
        let mut i: usize = 0;
        while i < data.len()
            invariant
                i <= data@.len(),
                n == self.bytes@.len(),
                self.bytes@.len() == old(self).bytes@.len(),
                self.kind == old(self).kind,
                self.addr == old(self).addr,
                4 * data@.len() <= n,
                forall|k: int| 0 <= k < i ==> #[trigger] word_at(self.bytes@, 4 * k) == data@[k],
                forall|j: int| 4 * i <= j < n ==> self.bytes@[j] == old(self).bytes@[j],
            decreases data@.len() - i,
        {
            let w: u32 = data[i];
            let j: usize = 4 * i;
            let ghost before = self.bytes@;
            self.bytes.set(j, (w % 0x100) as u8);
            self.bytes.set(j + 1, (w / 0x100 % 0x100) as u8);
            self.bytes.set(j + 2, (w / 0x1_0000 % 0x100) as u8);
            self.bytes.set(j + 3, (w / 0x100_0000) as u8);
            proof {
                let b = self.bytes@;
                assert(word_at(b, 4 * i) == w);
                assert forall|k: int| 0 <= k < i + 1 implies #[trigger] word_at(b, 4 * k)
                    == data@[k] by {
                    if k < i {
                        assert(word_at(before, 4 * k) == data@[k]);
                        assert(b[4 * k] == before[4 * k]);
                        assert(b[4 * k + 1] == before[4 * k + 1]);
                        assert(b[4 * k + 2] == before[4 * k + 2]);
                        assert(b[4 * k + 3] == before[4 * k + 3]);
                    }
                }
            }
            i = i + 1;
        }
        assert forall|k: int| 0 <= k < data@.len() implies #[trigger] words_of(self.bytes@)[k]
            == data@[k] by {
            assert(word_at(self.bytes@, 4 * k) == data@[k]);
        }
    }

    /// Writes the whole buffer. There must be as many words as it holds.
    pub fn write_u32(&mut self, data: &[u32])
        requires
            4 * data@.len() == old(self).bytes@.len(),
        ensures
            final(self).kind == old(self).kind,
            final(self).addr == old(self).addr,
            final(self).bytes@.len() == old(self).bytes@.len(),
            words_of(final(self).bytes@) == data@,
    {
        self.write_f32_prefix(data);
        assert(words_of(self.bytes@) =~= data@) by {
            assert(words_of(self.bytes@).len() == data@.len());
        }
    }

    /// Writes the whole buffer with floats, given as bits. There must be as many
    /// as it holds.
    pub fn write_f32(&mut self, data: &[u32])
        requires
            4 * data@.len() == old(self).bytes@.len(),
        ensures
            final(self).kind == old(self).kind,
            final(self).addr == old(self).addr,
            final(self).bytes@.len() == old(self).bytes@.len(),
            words_of(final(self).bytes@) == data@,
    {
        self.write_u32(data);
    }

    /// All floats, as bits. The buffer must hold whole floats.
    pub fn read_f32(&self) -> (r: Vec<u32>)
        requires
            self.bytes@.len() % 4 == 0,
        ensures
            r@ == words_of(self.bytes@),
    {
        self.read_u32()
    }

    /// Writes the whole buffer with half words. There must be as many as it holds.
    pub fn write_bf16_bits(&mut self, data: &[u16])
        requires
            2 * data@.len() == old(self).bytes@.len(),
        ensures
            final(self).kind == old(self).kind,
            final(self).addr == old(self).addr,
            final(self).bytes@.len() == old(self).bytes@.len(),
            halves_of(final(self).bytes@) == data@,
    {
        let n: usize = self.bytes.len();
        let mut i: usize = 0;
        while i < data.len()
            invariant
                i <= data@.len(),
                2 * data@.len() == n,
                n == self.bytes@.len(),
                self.bytes@.len() == old(self).bytes@.len(),
                self.kind == old(self).kind,
                self.addr == old(self).addr,
                forall|k: int| 0 <= k < i ==> #[trigger] half_at(self.bytes@, 2 * k) == data@[k],
            decreases data@.len() - i,
        {
            let w: u16 = data[i];
            let j: usize = 2 * i;
            let ghost before = self.bytes@;
            self.bytes.set(j, (w % 0x100) as u8);
            self.bytes.set(j + 1, (w / 0x100) as u8);
            proof {
                let b = self.bytes@;
                assert(half_at(b, 2 * i) == w);
                assert forall|k: int| 0 <= k < i + 1 implies #[trigger] half_at(b, 2 * k)
                    == data@[k] by {
                    if k < i {
                        assert(half_at(before, 2 * k) == data@[k]);
                        assert(b[2 * k] == before[2 * k]);
                        assert(b[2 * k + 1] == before[2 * k + 1]);
                    }
                }
            }
            i = i + 1;
        }
        assert forall|k: int| 0 <= k < data@.len() implies #[trigger] halves_of(self.bytes@)[k]
            == data@[k] by {
            assert(half_at(self.bytes@, 2 * k) == data@[k]);
        }
        assert(halves_of(self.bytes@) =~= data@);
    }

    /// Writes bytes from the beginning on; the rest stays. They must fit.
    pub fn write_bytes(&mut self, data: &[u8])
        requires
            data@.len() <= old(self).bytes@.len(),
        ensures
            final(self).kind == old(self).kind,
            final(self).addr == old(self).addr,
            final(self).bytes@ == data@ + old(self).bytes@.subrange(
                data@.len() as int,
                old(self).bytes@.len() as int,
            ),
    {
        let mut i: usize = 0;
        while i < data.len()
            invariant
                i <= data@.len() <= self.bytes@.len(),
                self.bytes@.len() == old(self).bytes@.len(),
                self.kind == old(self).kind,
                self.addr == old(self).addr,
                forall|k: int| 0 <= k < i ==> self.bytes@[k] == data@[k],
                forall|k: int|
                    i <= k < self.bytes@.len() ==> self.bytes@[k] == old(self).bytes@[k],
            decreases data@.len() - i,
        {
            self.bytes.set(i, data[i]);
            i = i + 1;
        }
        assert(self.bytes@ =~= data@ + old(self).bytes@.subrange(
            data@.len() as int,
            old(self).bytes@.len() as int,
        ));
    }

    /// Clears the buffer.
    pub fn zero(&mut self)
        ensures
            final(self).kind == old(self).kind,
            final(self).addr == old(self).addr,
            final(self).bytes@ == Seq::new(old(self).bytes@.len(), |i: int| 0u8),
    {
        let mut i: usize = 0;
        while i < self.bytes.len()
            invariant
                i <= self.bytes@.len(),
                self.bytes@.len() == old(self).bytes@.len(),
                self.kind == old(self).kind,
                self.addr == old(self).addr,
                forall|k: int| 0 <= k < i ==> self.bytes@[k] == 0,
            decreases self.bytes@.len() - i,
        {
            self.bytes.set(i, 0);
            i = i + 1;
        }
        assert(self.bytes@ =~= Seq::new(old(self).bytes@.len(), |i: int| 0u8));
    }
}

/// What a copy between tensors is dispatched with.
pub open spec fn copy_binds(src: Tensor, dst: Tensor) -> Seq<Bind> {
    seq![
        Bind::Buffer { addr: src.buffer_addr, offset: src.byte_offset, index: 0 },
        Bind::Buffer { addr: dst.buffer_addr, offset: dst.byte_offset, index: 1 },
        Bind::U32 { value: product(src.shape@) as u32, index: 2 },
    ]
}

/// Copies between tensors, with the copy kernel of their type. Both must have as many
/// elements, of the same type.
pub fn gpu_copy(bnd: &mut Binder, p: Pipeline, src: &Tensor, dst: &Tensor, q: &mut Vec<Cmd>)
    requires
        old(bnd)@.wf(),
        src.wf(),
        dst.wf(),
        src.dtype == dst.dtype,
        product(src.shape@) == product(dst.shape@),
        product(src.shape@) <= u32::MAX,
        old(bnd)@.fits(4),
    ensures
        final(bnd)@.wf(),
        product(src.shape@) == 0 ==> final(bnd)@ == old(bnd)@ && final(q)@ == old(q)@,
        product(src.shape@) > 0 ==> {
            &&& final(bnd)@ == old(bnd)@.after_binds(copy_binds(*src, *dst)).with_latch()
            &&& exists|g: (usize, usize)| #[trigger]
                dispatch::covers(g, product(src.shape@), p.width as int) && final(q)@ == old(
                    q,
                )@ + old(bnd)@.launch_cmds(
                    p.id,
                    copy_binds(*src, *dst),
                    (g.0, 1usize, 1usize),
                    (g.1, 1usize, 1usize),
                )
        },
{
    let n: usize = src.numel();
    let binds: Vec<Bind> = vec![
        Bind::Buffer { addr: src.buffer_addr, offset: src.byte_offset, index: 0 },
        Bind::Buffer { addr: dst.buffer_addr, offset: dst.byte_offset, index: 1 },
        Bind::U32 { value: n as u32, index: 2 },
    ];
    assert(binds@ =~= copy_binds(*src, *dst));
    proof {
        let v = bnd@;
        let s = binds@;
        reveal_with_fuel(dispatch::BinderV::after_binds, 3);
        assert(s.subrange(0, 2).drop_last() =~= s.subrange(0, 1));
        assert(v.after_binds(s.subrange(0, 2)) == v);
        assert(v.binds_fit(s));
    }
    dispatch::dispatch_1d(bnd, p, n, binds.as_slice(), q);
}

/// The bits that a float's half-width form comes to: the upper sixteen, after
/// rounding to the nearest, halves to the even one.
pub open spec fn bf16_rounded(bits: int) -> int {
    (bits + 0x7FFF + bits / 0x1_0000 % 2) / 0x1_0000
}

/// The half-width form of a float, both as bits. The rounding must stay within
/// thirty-two bits, as it does for every number and infinity.
pub fn f32_to_bf16_bits(bits: u32) -> (r: u16)
    requires
        bits <= 0xFFFF_7FFF,
    ensures
        r == bf16_rounded(bits as int),
{
    assert((bits >> 16u32) & 1u32 == bits / 0x1_0000 % 2) by (bit_vector);
    let sum: u32 = bits + 0x7FFF + ((bits >> 16) & 1);
    assert(sum >> 16u32 == sum / 0x1_0000) by (bit_vector);
    (sum >> 16) as u16
}

/// The float with the given half-width form, both as bits.
pub fn bf16_bits_to_f32(b: u16) -> (r: u32)
    ensures
        r == b * 0x1_0000,
{
    assert((b as u32) << 16u32 == b * 0x1_0000) by (bit_vector);
    (b as u32) << 16
}

/// The half-width forms of floats, all as bits.
pub fn f32_slice_to_bf16(data: &[u32]) -> (r: Vec<u16>)
    requires
        forall|i: int| 0 <= i < data@.len() ==> (#[trigger] data@[i]) <= 0xFFFF_7FFFu32,
    ensures
        r@.len() == data@.len(),
        forall|i: int| 0 <= i < data@.len() ==> (#[trigger] r@[i]) == bf16_rounded(data@[i] as int),
{
    let mut out: Vec<u16> = Vec::new();
    let mut i: usize = 0;
    while i < data.len()
        invariant
            i <= data@.len(),
            out@.len() == i,
            forall|j: int| 0 <= j < data@.len() ==> (#[trigger] data@[j]) <= 0xFFFF_7FFFu32,
            forall|j: int| 0 <= j < i ==> (#[trigger] out@[j]) == bf16_rounded(data@[j] as int),
        decreases data@.len() - i,
    {
        out.push(f32_to_bf16_bits(data[i]));
        i = i + 1;
    }
    out
}

/// Widening a half-width float and narrowing it again gives it back.
pub proof fn bf16_round_trip(b: u16)
    ensures
        bf16_rounded(b * 0x1_0000) == b,
{
}

/// The half-width form is the nearest one: the error is at most half a step, and
/// where it is exactly half, the form is even.
pub proof fn bf16_is_nearest(bits: u32)
    ensures
        ({
            let e = bf16_rounded(bits as int) * 0x1_0000 - bits;
            &&& -0x8000 <= e <= 0x8000
            &&& e == 0x8000 || e == -0x8000 ==> bf16_rounded(bits as int) % 2 == 0
        }),
{
}

} // verus!
