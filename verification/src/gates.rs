//! The benchmark of drafted decoding: what is done in which order, with which
//! barriers, and what is said where something fails.

use crate::golden::Lanes31b;
use crate::text;
use vstd::prelude::*;
use vstd::string::*;

verus! {

/// A stage of the benchmark on the small model. Those of the sweep come once for each
/// block size.
#[derive(Clone, Copy, Debug, PartialEq, Eq, Structural)]
pub enum GateStage {
    /// Upload the small model.
    Upload,
    /// Look for the kernels.
    Kernels,
    Session,
    /// Generate greedily, and once more against the clock.
    Greedy,
    TimedGreedy,
    /// A fresh model for the exactness check.
    ExactGraph,
    ExactUpload,
    ExactSession,
    Draft,
    /// Generate greedily with a capture, twice.
    CaptureGreedy,
    CaptureGreedyAgain,
    GpuDraft,
    Conditioner,
    ExactGenerate,
    SweepDraft(usize),
    SweepGpuDraft(usize),
    SweepConditioner(usize),
    /// A run at one block size, against the clock.
    SweepRun(usize),
    /// Generate greedily with barriers, against the clock.
    BaselineGreedy,
    /// The benchmark on the large model.
    Large,
    /// Write the results.
    Write,
    /// The benchmark on the large model, with nothing of the small one.
    LargeOnly,
    /// Write the results of the large model.
    WriteLarge,
    Stop,
}

/// How many block sizes the sweep tries.
pub const SWEEP_LEN: usize = 6;

/// The block sizes of the sweep.
pub open spec fn sweep_sizes() -> Seq<usize> {
    seq![2usize, 3, 4, 5, 6, 8]
}

/// Block size number `i` of the sweep.
pub fn sweep_block(i: usize) -> (r: usize)
    requires
        i < SWEEP_LEN,
    ensures
        r == sweep_sizes()[i as int],
{
    if i < 5 {
        i + 2
    } else {
        8
    }
}

impl GateStage {
    /// The stage is one of a sweep over the block sizes.
    pub open spec fn wf(self) -> bool {
        match self {
            GateStage::SweepDraft(i) => i < SWEEP_LEN,
            GateStage::SweepGpuDraft(i) => i < SWEEP_LEN,
            GateStage::SweepConditioner(i) => i < SWEEP_LEN,
            GateStage::SweepRun(i) => i < SWEEP_LEN,
            _ => true,
        }
    }

    /// The benchmark goes on after this stage, even where it fails.
    pub open spec fn may_fail(self) -> bool {
        self is TimedGreedy || self is SweepRun || self is BaselineGreedy || self is Large
            || self is LargeOnly
    }

    /// What follows a stage that went well.
    pub open spec fn follows(self, run_31b: bool) -> GateStage {
        match self {
            GateStage::Upload => GateStage::Kernels,
            GateStage::Kernels => GateStage::Session,
            GateStage::Session => GateStage::Greedy,
            GateStage::Greedy => GateStage::TimedGreedy,
            GateStage::TimedGreedy => GateStage::ExactGraph,
            GateStage::ExactGraph => GateStage::ExactUpload,
            GateStage::ExactUpload => GateStage::ExactSession,
            GateStage::ExactSession => GateStage::Draft,
            GateStage::Draft => GateStage::CaptureGreedy,
            GateStage::CaptureGreedy => GateStage::CaptureGreedyAgain,
            GateStage::CaptureGreedyAgain => GateStage::GpuDraft,
            GateStage::GpuDraft => GateStage::Conditioner,
            GateStage::Conditioner => GateStage::ExactGenerate,
            GateStage::ExactGenerate => GateStage::SweepDraft(0),
            GateStage::SweepDraft(i) => GateStage::SweepGpuDraft(i),
            GateStage::SweepGpuDraft(i) => GateStage::SweepConditioner(i),
            GateStage::SweepConditioner(i) => GateStage::SweepRun(i),
            GateStage::SweepRun(i) => if i + 1 < SWEEP_LEN {
                GateStage::SweepDraft((i + 1) as usize)
            } else {
                GateStage::BaselineGreedy
            },
            GateStage::BaselineGreedy => if run_31b {
                GateStage::Large
            } else {
                GateStage::Write
            },
            GateStage::Large => GateStage::Write,
            GateStage::LargeOnly => GateStage::WriteLarge,
            _ => GateStage::Stop,
        }
    }

    /// What follows a stage. Without the small model, only the large one can be
    /// measured.
    pub open spec fn then_stage(self, ok: bool, run_31b: bool) -> GateStage {
        if ok || self.may_fail() {
            self.follows(run_31b)
        } else if self is Upload && run_31b {
            GateStage::LargeOnly
        } else {
            GateStage::Stop
        }
    }

    /// How many stages are left at most.
    pub open spec fn left(self) -> int {
        match self {
            GateStage::Upload => 60,
            GateStage::Kernels => 59,
            GateStage::Session => 58,
            GateStage::Greedy => 57,
            GateStage::TimedGreedy => 56,
            GateStage::ExactGraph => 55,
            GateStage::ExactUpload => 54,
            GateStage::ExactSession => 53,
            GateStage::Draft => 52,
            GateStage::CaptureGreedy => 51,
            GateStage::CaptureGreedyAgain => 50,
            GateStage::GpuDraft => 49,
            GateStage::Conditioner => 48,
            GateStage::ExactGenerate => 47,
            GateStage::SweepDraft(i) => 10 + 4 * (SWEEP_LEN - i),
            GateStage::SweepGpuDraft(i) => 9 + 4 * (SWEEP_LEN - i),
            GateStage::SweepConditioner(i) => 8 + 4 * (SWEEP_LEN - i),
            GateStage::SweepRun(i) => 7 + 4 * (SWEEP_LEN - i),
            GateStage::BaselineGreedy => 5,
            GateStage::Large => 4,
            GateStage::Write => 3,
            GateStage::LargeOnly => 2,
            GateStage::WriteLarge => 1,
            GateStage::Stop => 0,
        }
    }

    /// What follows a stage.
    pub fn next(self, ok: bool, run_31b: bool) -> (r: GateStage)
        requires
            self.wf(),
        ensures
            r == self.then_stage(ok, run_31b),
            r.wf(),
    {
        let goes_on = ok || match self {
            GateStage::TimedGreedy => true,
            GateStage::SweepRun(_i) => true,
            GateStage::BaselineGreedy => true,
            GateStage::Large => true,
            GateStage::LargeOnly => true,
            _ => false,
        };
        if !goes_on {
            return match self {
                GateStage::Upload => if run_31b {
                    GateStage::LargeOnly
                } else {
                    GateStage::Stop
                },
                _ => GateStage::Stop,
            };
        }
        match self {
            GateStage::Upload => GateStage::Kernels,
            GateStage::Kernels => GateStage::Session,
            GateStage::Session => GateStage::Greedy,
            GateStage::Greedy => GateStage::TimedGreedy,
            GateStage::TimedGreedy => GateStage::ExactGraph,
            GateStage::ExactGraph => GateStage::ExactUpload,
            GateStage::ExactUpload => GateStage::ExactSession,
            GateStage::ExactSession => GateStage::Draft,
            GateStage::Draft => GateStage::CaptureGreedy,
            GateStage::CaptureGreedy => GateStage::CaptureGreedyAgain,
            GateStage::CaptureGreedyAgain => GateStage::GpuDraft,
            GateStage::GpuDraft => GateStage::Conditioner,
            GateStage::Conditioner => GateStage::ExactGenerate,
            GateStage::ExactGenerate => GateStage::SweepDraft(0),
            GateStage::SweepDraft(i) => GateStage::SweepGpuDraft(i),
            GateStage::SweepGpuDraft(i) => GateStage::SweepConditioner(i),
            GateStage::SweepConditioner(i) => GateStage::SweepRun(i),
            GateStage::SweepRun(i) => if i + 1 < SWEEP_LEN {
                GateStage::SweepDraft(i + 1)
            } else {
                GateStage::BaselineGreedy
            },
            GateStage::BaselineGreedy => if run_31b {
                GateStage::Large
            } else {
                GateStage::Write
            },
            GateStage::Large => GateStage::Write,
            GateStage::LargeOnly => GateStage::WriteLarge,
            _ => GateStage::Stop,
        }
    }

    /// Automatic barriers are left out at this stage, where `ambient` says whether
    /// they were left out at the beginning.
    pub open spec fn leaves_barriers_out(self, ambient: bool) -> bool {
        match self {
            GateStage::SweepDraft(_) => true,
            GateStage::SweepGpuDraft(_) => true,
            GateStage::SweepConditioner(_) => true,
            GateStage::SweepRun(_) => true,
            GateStage::Large => true,
            GateStage::Write => true,
            GateStage::Upload => ambient,
            GateStage::Kernels => ambient,
            GateStage::Session => ambient,
            GateStage::Greedy => ambient,
            GateStage::TimedGreedy => ambient,
            GateStage::LargeOnly => ambient,
            GateStage::WriteLarge => ambient,
            GateStage::Stop => ambient,
            _ => false,
        }
    }

    /// Whether automatic barriers are left out at this stage: never where streams are
    /// compared or the baseline with barriers is measured.
    pub fn hazard(self, ambient: bool) -> (r: bool)
        ensures
            r == self.leaves_barriers_out(ambient),
    {
        match self {
            GateStage::SweepDraft(_i) => true,
            GateStage::SweepGpuDraft(_i) => true,
            GateStage::SweepConditioner(_i) => true,
            GateStage::SweepRun(_i) => true,
            GateStage::Large => true,
            GateStage::Write => true,
            GateStage::Upload => ambient,
            GateStage::Kernels => ambient,
            GateStage::Session => ambient,
            GateStage::Greedy => ambient,
            GateStage::TimedGreedy => ambient,
            GateStage::LargeOnly => ambient,
            GateStage::WriteLarge => ambient,
            GateStage::Stop => ambient,
            _ => false,
        }
    }

    /// What is said where the stage fails, before and after the error. The timed runs
    /// say nothing.
    pub open spec fn complaint(self) -> Option<(Seq<char>, Seq<char>)> {
        match self {
            GateStage::Upload => Some(
                ("  GPU Hot synthetic unavailable — continue ("@, ")"@),
            ),
            GateStage::Session => Some(("  session failed: "@, ""@)),
            GateStage::Greedy => Some(("  greedy generate failed: "@, ""@)),
            GateStage::ExactGraph => Some(("  exactness mini graph failed: "@, ""@)),
            GateStage::ExactUpload => Some(("  exactness Hot upload failed: "@, ""@)),
            GateStage::ExactSession => Some(("  exactness session failed: "@, ""@)),
            GateStage::Draft => Some(("  synthetic draft failed: "@, ""@)),
            GateStage::CaptureGreedy => Some(("  capture-on greedy failed: "@, ""@)),
            GateStage::CaptureGreedyAgain => Some(("  capture-on greedy #2 failed: "@, ""@)),
            GateStage::GpuDraft => Some(("  GPU draft upload failed: "@, ""@)),
            GateStage::Conditioner => Some(("  conditioner failed: "@, ""@)),
            GateStage::ExactGenerate => Some(
                ("  exactness generate_with_dflash failed: "@, ""@),
            ),
            GateStage::SweepDraft(_) => Some(("  synthetic draft failed: "@, ""@)),
            GateStage::SweepGpuDraft(_) => Some(("  GPU draft upload failed: "@, ""@)),
            GateStage::SweepConditioner(_) => Some(("  conditioner failed: "@, ""@)),
            GateStage::SweepRun(i) => Some(
                (
                    "  generate_with_dflash_speed bs="@ + text::dec(
                        sweep_sizes()[i as int] as nat,
                    ) + " failed: "@,
                    ""@,
                ),
            ),
            GateStage::Large => Some(("  31B DFlash bench skipped/failed: "@, ""@)),
            GateStage::LargeOnly => Some(("  31B DFlash bench skipped/failed: "@, ""@)),
            _ => None,
        }
    }

    /// What is said where the stage fails with the given error text.
    pub fn failed(self, e: &str) -> (r: Option<String>)
        requires
            self.wf(),
        ensures
            match self.complaint() {
                None => r is None,
                Some((a, b)) => r matches Some(s) && s@ == a + e@ + b,
            },
    {
        let mut out = match self {
            GateStage::Upload => {
                let mut m = String::from_str("  GPU Hot synthetic unavailable — continue (");
                m.append(e);
                m.append(")");
                return Some(m);
            },
            GateStage::Session => String::from_str("  session failed: "),
            GateStage::Greedy => String::from_str("  greedy generate failed: "),
            GateStage::ExactGraph => String::from_str("  exactness mini graph failed: "),
            GateStage::ExactUpload => String::from_str("  exactness Hot upload failed: "),
            GateStage::ExactSession => String::from_str("  exactness session failed: "),
            GateStage::Draft => String::from_str("  synthetic draft failed: "),
            GateStage::CaptureGreedy => String::from_str("  capture-on greedy failed: "),
            GateStage::CaptureGreedyAgain => String::from_str("  capture-on greedy #2 failed: "),
            GateStage::GpuDraft => String::from_str("  GPU draft upload failed: "),
            GateStage::Conditioner => String::from_str("  conditioner failed: "),
            GateStage::ExactGenerate => String::from_str(
                "  exactness generate_with_dflash failed: ",
            ),
            GateStage::SweepDraft(_i) => String::from_str("  synthetic draft failed: "),
            GateStage::SweepGpuDraft(_i) => String::from_str("  GPU draft upload failed: "),
            GateStage::SweepConditioner(_i) => String::from_str("  conditioner failed: "),
            GateStage::SweepRun(i) => text::text1(
                "  generate_with_dflash_speed bs=",
                sweep_block(i) as u64,
                " failed: ",
            ),
            GateStage::Large => String::from_str("  31B DFlash bench skipped/failed: "),
            GateStage::LargeOnly => String::from_str("  31B DFlash bench skipped/failed: "),
            _ => {
                return None;
            },
        };
        let ghost label = out@;
        out.append(e);
        proof {
            reveal_strlit("");
            assert(label + e@ =~= label + e@ + ""@);
        }
        Some(out)
    }
}

/// Every stage brings the benchmark closer to its end.
pub proof fn gates_come_to_an_end(s: GateStage, ok: bool, run_31b: bool)
    requires
        s.wf(),
        s != GateStage::Stop,
    ensures
        s.then_stage(ok, run_31b).wf(),
        0 <= s.then_stage(ok, run_31b).left() < s.left(),
{
}

/// A stage that comes after the exactness check.
pub open spec fn after_exactness(s: GateStage) -> bool {
    s is SweepDraft || s is SweepGpuDraft || s is SweepConditioner || s is SweepRun
        || s is BaselineGreedy || s is Large || s is Write
}

/// Results of the small model are written only where its exactness check was done.
pub proof fn results_follow_the_exactness_check(s: GateStage, ok: bool, run_31b: bool)
    requires
        s.wf(),
        after_exactness(s.then_stage(ok, run_31b)),
    ensures
        after_exactness(s) || (s == GateStage::ExactGenerate && ok),
{
}

/// Why the benchmark on the small model is skipped, if it is.
pub fn kernels_missing(gemv_mlx: bool, gemv_q4: bool, fa_h128: bool, mlp_silu: bool) -> (r: Option<
    &'static str,
>)
    ensures
        !gemv_mlx && !gemv_q4 ==> (r matches Some(s) && s@
            == "  Metal gemv_q4 / gemv_q4_mlx unavailable — skip"@),
        (gemv_mlx || gemv_q4) && !(fa_h128 && mlp_silu) ==> (r matches Some(s) && s@
            == "  h128 FA / mlp_silu unavailable — skip"@),
        (gemv_mlx || gemv_q4) && fa_h128 && mlp_silu ==> r is None,
{
    if !gemv_mlx && !gemv_q4 {
        return Some("  Metal gemv_q4 / gemv_q4_mlx unavailable — skip");
    }
    if !fa_h128 || !mlp_silu {
        return Some("  h128 FA / mlp_silu unavailable — skip");
    }
    None
}

/// A stage of the benchmark on the large model. Those of the sweep come once for each
/// block size.
#[derive(Clone, Copy, Debug, PartialEq, Eq, Structural)]
pub enum LargeStage {
    /// Find the target and the draft.
    FindTarget,
    FindDraft,
    Load,
    Upload,
    Session,
    LoadDraft,
    GpuDraft,
    /// Generate greedily with a capture: warm up, then against the clock.
    WarmConditioner,
    WarmAttach,
    Warmup,
    Greedy,
    /// Check that the stream is healthy.
    Health,
    /// The stream that drafts are compared with.
    BaseConditioner,
    BaseAttach,
    BaseGreedy,
    /// Check that it is healthy too.
    BaseHealth,
    /// A short run at one block size, whose outcome does not matter.
    SweepWarmConditioner(usize),
    SweepWarmAttach(usize),
    SweepWarmup(usize),
    /// A run at one block size, against the clock.
    SweepConditioner(usize),
    SweepAttach(usize),
    SweepRun(usize),
    /// The run that is compared, at the best block size.
    ExactConditioner,
    ExactAttach,
    ExactRun,
    Compare,
    /// Dump the first drafted block, where that was asked for.
    Dump,
    /// Everything was measured.
    Done,
    /// Something failed.
    Failed,
}

/// How many block sizes the sweep on the large model tries.
pub const LARGE_SWEEP_LEN: usize = 2;

/// The block sizes of the sweep on the large model.
pub open spec fn large_sizes() -> Seq<usize> {
    seq![3usize, 5]
}

/// Block size number `i` of the sweep on the large model.
pub fn large_block(i: usize) -> (r: usize)
    requires
        i < LARGE_SWEEP_LEN,
    ensures
        r == large_sizes()[i as int],
{
    if i == 0 {
        3
    } else {
        5
    }
}

impl LargeStage {
    /// The stage is one of a sweep over the block sizes.
    pub open spec fn wf(self) -> bool {
        match self {
            LargeStage::SweepWarmConditioner(i) => i < LARGE_SWEEP_LEN,
            LargeStage::SweepWarmAttach(i) => i < LARGE_SWEEP_LEN,
            LargeStage::SweepWarmup(i) => i < LARGE_SWEEP_LEN,
            LargeStage::SweepConditioner(i) => i < LARGE_SWEEP_LEN,
            LargeStage::SweepAttach(i) => i < LARGE_SWEEP_LEN,
            LargeStage::SweepRun(i) => i < LARGE_SWEEP_LEN,
            _ => true,
        }
    }

    /// What follows a stage that went well.
    pub open spec fn follows(self, dump: bool) -> LargeStage {
        match self {
            LargeStage::FindTarget => LargeStage::FindDraft,
            LargeStage::FindDraft => LargeStage::Load,
            LargeStage::Load => LargeStage::Upload,
            LargeStage::Upload => LargeStage::Session,
            LargeStage::Session => LargeStage::LoadDraft,
            LargeStage::LoadDraft => LargeStage::GpuDraft,
            LargeStage::GpuDraft => LargeStage::WarmConditioner,
            LargeStage::WarmConditioner => LargeStage::WarmAttach,
            LargeStage::WarmAttach => LargeStage::Warmup,
            LargeStage::Warmup => LargeStage::Greedy,
            LargeStage::Greedy => LargeStage::Health,
            LargeStage::Health => LargeStage::BaseConditioner,
            LargeStage::BaseConditioner => LargeStage::BaseAttach,
            LargeStage::BaseAttach => LargeStage::BaseGreedy,
            LargeStage::BaseGreedy => LargeStage::BaseHealth,
            LargeStage::BaseHealth => LargeStage::SweepWarmConditioner(0),
            LargeStage::SweepWarmConditioner(i) => LargeStage::SweepWarmAttach(i),
            LargeStage::SweepWarmAttach(i) => LargeStage::SweepWarmup(i),
            LargeStage::SweepWarmup(i) => LargeStage::SweepConditioner(i),
            LargeStage::SweepConditioner(i) => LargeStage::SweepAttach(i),
            LargeStage::SweepAttach(i) => LargeStage::SweepRun(i),
            LargeStage::SweepRun(i) => if i + 1 < LARGE_SWEEP_LEN {
                LargeStage::SweepWarmConditioner((i + 1) as usize)
            } else {
                LargeStage::ExactConditioner
            },
            LargeStage::ExactConditioner => LargeStage::ExactAttach,
            LargeStage::ExactAttach => LargeStage::ExactRun,
            LargeStage::ExactRun => LargeStage::Compare,
            LargeStage::Compare => if dump {
                LargeStage::Dump
            } else {
                LargeStage::Done
            },
            LargeStage::Dump => LargeStage::Done,
            LargeStage::Done => LargeStage::Done,
            LargeStage::Failed => LargeStage::Failed,
        }
    }

    /// What follows a stage: only a short run of the sweep and the dump may fail.
    pub open spec fn then_stage(self, ok: bool, dump: bool) -> LargeStage {
        if ok || self is SweepWarmup || self is Dump || self is Done {
            self.follows(dump)
        } else {
            LargeStage::Failed
        }
    }

    /// What follows a stage. `dump` says whether the first drafted block is dumped.
    pub fn next(self, ok: bool, dump: bool) -> (r: LargeStage)
        requires
            self.wf(),
        ensures
            r == self.then_stage(ok, dump),
            r.wf(),
    {
        match self {
            LargeStage::Dump => {
                return LargeStage::Done;
            },
            LargeStage::Done => {
                return LargeStage::Done;
            },
            LargeStage::SweepWarmup(i) => {
                return LargeStage::SweepConditioner(i);
            },
            _ => {},
        }
        if !ok {
            return LargeStage::Failed;
        }
        match self {
            LargeStage::FindTarget => LargeStage::FindDraft,
            LargeStage::FindDraft => LargeStage::Load,
            LargeStage::Load => LargeStage::Upload,
            LargeStage::Upload => LargeStage::Session,
            LargeStage::Session => LargeStage::LoadDraft,
            LargeStage::LoadDraft => LargeStage::GpuDraft,
            LargeStage::GpuDraft => LargeStage::WarmConditioner,
            LargeStage::WarmConditioner => LargeStage::WarmAttach,
            LargeStage::WarmAttach => LargeStage::Warmup,
            LargeStage::Warmup => LargeStage::Greedy,
            LargeStage::Greedy => LargeStage::Health,
            LargeStage::Health => LargeStage::BaseConditioner,
            LargeStage::BaseConditioner => LargeStage::BaseAttach,
            LargeStage::BaseAttach => LargeStage::BaseGreedy,
            LargeStage::BaseGreedy => LargeStage::BaseHealth,
            LargeStage::BaseHealth => LargeStage::SweepWarmConditioner(0),
            LargeStage::SweepWarmConditioner(i) => LargeStage::SweepWarmAttach(i),
            LargeStage::SweepWarmAttach(i) => LargeStage::SweepWarmup(i),
            LargeStage::SweepWarmup(i) => LargeStage::SweepConditioner(i),
            LargeStage::SweepConditioner(i) => LargeStage::SweepAttach(i),
            LargeStage::SweepAttach(i) => LargeStage::SweepRun(i),
            LargeStage::SweepRun(i) => if i + 1 < LARGE_SWEEP_LEN {
                LargeStage::SweepWarmConditioner(i + 1)
            } else {
                LargeStage::ExactConditioner
            },
            LargeStage::ExactConditioner => LargeStage::ExactAttach,
            LargeStage::ExactAttach => LargeStage::ExactRun,
            LargeStage::ExactRun => LargeStage::Compare,
            LargeStage::Compare => if dump {
                LargeStage::Dump
            } else {
                LargeStage::Done
            },
            LargeStage::Dump => LargeStage::Done,
            LargeStage::Done => LargeStage::Done,
            LargeStage::Failed => LargeStage::Failed,
        }
    }

    /// How many stages are left at most.
    pub open spec fn left(self) -> int {
        match self {
            LargeStage::FindTarget => 40,
            LargeStage::FindDraft => 39,
            LargeStage::Load => 38,
            LargeStage::Upload => 37,
            LargeStage::Session => 36,
            LargeStage::LoadDraft => 35,
            LargeStage::GpuDraft => 34,
            LargeStage::WarmConditioner => 33,
            LargeStage::WarmAttach => 32,
            LargeStage::Warmup => 31,
            LargeStage::Greedy => 30,
            LargeStage::Health => 29,
            LargeStage::BaseConditioner => 28,
            LargeStage::BaseAttach => 27,
            LargeStage::BaseGreedy => 26,
            LargeStage::BaseHealth => 25,
            LargeStage::SweepWarmConditioner(i) => 12 + 6 * (LARGE_SWEEP_LEN - i),
            LargeStage::SweepWarmAttach(i) => 11 + 6 * (LARGE_SWEEP_LEN - i),
            LargeStage::SweepWarmup(i) => 10 + 6 * (LARGE_SWEEP_LEN - i),
            LargeStage::SweepConditioner(i) => 9 + 6 * (LARGE_SWEEP_LEN - i),
            LargeStage::SweepAttach(i) => 8 + 6 * (LARGE_SWEEP_LEN - i),
            LargeStage::SweepRun(i) => 7 + 6 * (LARGE_SWEEP_LEN - i),
            LargeStage::ExactConditioner => 6,
            LargeStage::ExactAttach => 5,
            LargeStage::ExactRun => 4,
            LargeStage::Compare => 3,
            LargeStage::Dump => 1,
            LargeStage::Done => 0,
            LargeStage::Failed => 0,
        }
    }

    /// Automatic barriers are left out at this stage: as the lanes say, except where
    /// streams are made to be compared.
    pub open spec fn leaves_barriers_out(self, lanes: Lanes31b) -> bool {
        match self {
            LargeStage::BaseConditioner => lanes.hazard && !lanes.exact_always_on,
            LargeStage::BaseAttach => lanes.hazard && !lanes.exact_always_on,
            LargeStage::BaseGreedy => lanes.hazard && !lanes.exact_always_on,
            LargeStage::ExactConditioner => !lanes.exact_always_on,
            LargeStage::ExactAttach => !lanes.exact_always_on,
            LargeStage::ExactRun => !lanes.exact_always_on,
            _ => lanes.hazard,
        }
    }

    /// Whether automatic barriers are left out at this stage.
    pub fn hazard(self, lanes: &Lanes31b) -> (r: bool)
        ensures
            r == self.leaves_barriers_out(*lanes),
    {
        match self {
            LargeStage::BaseConditioner => lanes.hazard && !lanes.exact_always_on,
            LargeStage::BaseAttach => lanes.hazard && !lanes.exact_always_on,
            LargeStage::BaseGreedy => lanes.hazard && !lanes.exact_always_on,
            LargeStage::ExactConditioner => !lanes.exact_always_on,
            LargeStage::ExactAttach => !lanes.exact_always_on,
            LargeStage::ExactRun => !lanes.exact_always_on,
            _ => lanes.hazard,
        }
    }

    /// What stands before the error where the stage fails. `host` says whether the
    /// draft runs on the host.
    pub open spec fn label(self, host: bool) -> Seq<char> {
        match self {
            LargeStage::Load => "load 31B: "@,
            LargeStage::Upload => "Hot upload: "@,
            LargeStage::Session => "31b session: "@,
            LargeStage::LoadDraft => "draft load: "@,
            LargeStage::GpuDraft => "GPU draft upload: "@,
            LargeStage::WarmConditioner => "conditioner warm: "@,
            LargeStage::WarmAttach => "attach cond warm: "@,
            LargeStage::Warmup => "warmup: "@,
            LargeStage::Greedy => "greedy: "@,
            LargeStage::BaseConditioner => "conditioner for greedy exact: "@,
            LargeStage::BaseAttach => "attach cond for greedy exact: "@,
            LargeStage::BaseGreedy => "capture+cond greedy: "@,
            LargeStage::SweepWarmConditioner(_) => "conditioner: "@,
            LargeStage::SweepWarmAttach(_) => "attach cond: "@,
            LargeStage::SweepConditioner(_) => "conditioner: "@,
            LargeStage::SweepAttach(_) => "attach cond: "@,
            LargeStage::SweepRun(i) => (if host {
                "dflash-host bs="@
            } else {
                "dflash bs="@
            }) + text::dec(large_sizes()[i as int] as nat) + ": "@,
            LargeStage::ExactConditioner => "conditioner: "@,
            LargeStage::ExactAttach => "attach cond: "@,
            LargeStage::ExactRun => if host {
                "dflash-host exactness: "@
            } else {
                "dflash exactness: "@
            },
            LargeStage::Compare => "compare: "@,
            _ => ""@,
        }
    }

    /// The error of the benchmark where the stage fails with the given text.
    pub fn failed(self, host: bool, e: &str) -> (r: String)
        requires
            self.wf(),
        ensures
            r@ == self.label(host) + e@,
    {
        let mut out = match self {
            LargeStage::Load => String::from_str("load 31B: "),
            LargeStage::Upload => String::from_str("Hot upload: "),
            LargeStage::Session => String::from_str("31b session: "),
            LargeStage::LoadDraft => String::from_str("draft load: "),
            LargeStage::GpuDraft => String::from_str("GPU draft upload: "),
            LargeStage::WarmConditioner => String::from_str("conditioner warm: "),
            LargeStage::WarmAttach => String::from_str("attach cond warm: "),
            LargeStage::Warmup => String::from_str("warmup: "),
            LargeStage::Greedy => String::from_str("greedy: "),
            LargeStage::BaseConditioner => String::from_str("conditioner for greedy exact: "),
            LargeStage::BaseAttach => String::from_str("attach cond for greedy exact: "),
            LargeStage::BaseGreedy => String::from_str("capture+cond greedy: "),
            LargeStage::SweepWarmConditioner(_i) => String::from_str("conditioner: "),
            LargeStage::SweepWarmAttach(_i) => String::from_str("attach cond: "),
            LargeStage::SweepConditioner(_i) => String::from_str("conditioner: "),
            LargeStage::SweepAttach(_i) => String::from_str("attach cond: "),
            LargeStage::SweepRun(i) => text::text1(
                if host {
                    "dflash-host bs="
                } else {
                    "dflash bs="
                },
                large_block(i) as u64,
                ": ",
            ),
            LargeStage::ExactConditioner => String::from_str("conditioner: "),
            LargeStage::ExactAttach => String::from_str("attach cond: "),
            LargeStage::ExactRun => if host {
                String::from_str("dflash-host exactness: ")
            } else {
                String::from_str("dflash exactness: ")
            },
            LargeStage::Compare => String::from_str("compare: "),
            _ => String::from_str(""),
        };
        out.append(e);
        out
    }
}

/// Every stage on the large model brings its benchmark closer to its end.
pub proof fn large_gates_come_to_an_end(s: LargeStage, ok: bool, dump: bool)
    requires
        s.wf(),
        s != LargeStage::Done,
        s != LargeStage::Failed,
    ensures
        s.then_stage(ok, dump).wf(),
        0 <= s.then_stage(ok, dump).left() < s.left(),
{
}

/// No draft runs on the large model before its greedy stream was found healthy, and
/// none is compared with an unhealthy one.
pub proof fn unhealthy_targets_are_not_drafted_for(s: LargeStage, dump: bool)
    requires
        s == LargeStage::Health || s == LargeStage::BaseHealth,
    ensures
        s.then_stage(false, dump) == LargeStage::Failed,
{
}

} // verus!
