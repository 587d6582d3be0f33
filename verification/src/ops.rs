//! The commands that a decode or verify step sends to the device, in order.

use crate::kv_slot::{FaView, KvStore};
use vstd::prelude::*;

verus! {

/// Device buffers of a decode session.
#[derive(Clone, Copy, Debug, PartialEq, Eq, Structural)]
pub enum Buf {
    X,
    Normed,
    Q,
    K,
    V,
    O,
    AttnProj,
    Gate,
    Up,
    Mid,
    Down,
    Logits,
    KDense,
    VDense,
    PleOut,
    SeedTok,
    ArgmaxTok,
    VerifySeeds,
    VerifyOuts,
    CaptureRow,
    CaptureStage,
    /// The shared half-precision activation scratch.
    Act,
}

/// Norm weights.
#[derive(Clone, Copy, Debug, PartialEq, Eq, Structural)]
pub enum NormW {
    Input(usize),
    PostAttn(usize),
    PreFf(usize),
    PostFf(usize),
    Final,
}

/// Quantised weight banks.
#[derive(Clone, Copy, Debug, PartialEq, Eq, Structural)]
pub enum Bank {
    Q(usize),
    K(usize),
    V(usize),
    O(usize),
    Gate(usize),
    Up(usize),
    Down(usize),
    LmHead,
}

/// One of the session's cache slots.
#[derive(Clone, Copy, Debug, PartialEq, Eq, Structural)]
pub enum SlotRef {
    Ring(usize),
    Global(usize),
    SharedSliding,
    SharedGlobal,
}

/// Where attention finds its keys and values.
#[derive(Clone, Copy, Debug, PartialEq, Eq, Structural)]
pub enum KvSrc {
    /// The scratch that a ring is gathered into.
    Dense,
    Slot(SlotRef),
}

/// A scale factor.
#[derive(Clone, Copy, Debug, PartialEq, Eq, Structural)]
pub enum Factor {
    /// The embedding scale.
    Embed,
    /// The scalar of a layer.
    Layer(usize),
    /// One over the square root of two.
    InvSqrt2,
    One,
}

/// One device command.
#[derive(Clone, Copy, Debug, PartialEq, Eq, Structural)]
pub enum Op {
    WritePos { pos: u32 },
    WriteSeed { token: u32 },
    /// Write the whole seed buffer of a verify call.
    WriteSeeds,
    /// Write one token of a verify buffer.
    WriteToken { dst: Buf, index: usize, token: u32 },
    /// Put a token where the next chained step looks for it.
    WriteArgmax { token: u32 },
    CopyToken { src: Buf, index: u32, dst: Buf },
    Barrier,
    Synchronize,
    /// Embedding rows of the seed tokens, from the resident bank.
    EmbedHot { rows: u32 },
    /// One embedding row dequantised on the host.
    EmbedQuantRow { token: u32, at_row: u32, scaled: bool },
    /// One dense embedding row that begins at float `start`.
    EmbedDenseRow { start: usize, at_row: u32, scaled: bool },
    Scale { dst: Buf, by: Factor, n: u32 },
    /// Norm into the half-precision activations.
    RmsAct { src: Buf, weight: NormW, rows: u32, n: u32 },
    Rms { src: Buf, weight: NormW, dst: Buf, rows: u32, n: u32 },
    CastAct { src: Buf, n: u32 },
    /// Matrix times each of `rows` rows of `src`.
    Mat { bank: Bank, src: Buf, dst: Buf, rows: u32 },
    QkvFused { layer: usize },
    KvFused { layer: usize },
    /// Norms and rotary embedding, with the cache write in the same kernel.
    RopeStore { layer: usize, slot: SlotRef, offset: u32 },
    Rope { layer: usize, rows: u32, q_only: bool },
    Store { slot: SlotRef, store: KvStore },
    /// Gather a ring's rows in order of position.
    Gather { slot: SlotRef, values: bool, view: FaView },
    AttendSliding {
        layer: usize,
        kv: KvSrc,
        dst: Buf,
        rows: u32,
        tkv: u32,
        window: u32,
        q_pos: u32,
        kv_pos: u32,
    },
    AttendGlobal { layer: usize, kv: KvSrc, dst: Buf, rows: u32, tkv: u32, q_pos: u32, kv_pos: u32 },
    /// Matrix, norm, scale, and add to the residual.
    MatNormAdd { bank: Bank, src: Buf, weight: NormW, by: Factor, rows: u32 },
    /// Matrix, and add to the residual.
    MatAdd { bank: Bank, src: Buf, rows: u32 },
    /// Add `n` scaled floats of `src` to the residual from float `at` on.
    ResidualAdd { src: Buf, by: Factor, at: usize, n: u32 },
    PleFused { layer: usize },
    PleQ4 { layer: usize },
    PleTable { layer: usize },
    GateDownFused { layer: usize },
    GateUpGelu { layer: usize, half: bool },
    Gelu { half: bool, n: u32 },
    CopyF32 { src: Buf, from: usize, dst: Buf, to: usize, n: u32 },
    InterpFaO,
    InterpGateDown,
    /// Softcap and argmax over the logits from float `at` on, into token
    /// `index` of `dst`.
    Argmax { at: usize, dst: Buf, index: usize },
    /// Project the captured row.
    CondFc,
    /// Norm of the projected row.
    CondNorm { n: u32 },
    /// Append the normed row to the context, from float `at` on.
    CondStore { at: usize, n: u32 },
    /// Record the commands that follow as the layer graph.
    BeginRecord,
    /// The recorded layer graph ends here.
    EndRecord,
    /// Push an integer for the replayed commands to read.
    PushU32 { value: u32 },
    /// Push a float, as bits, for the replayed commands to read.
    PushF32 { bits: u32 },
    /// Replay the recorded layer graph.
    ReplayGraph,
}

} // verus!
