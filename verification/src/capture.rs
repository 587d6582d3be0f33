//! Host mirror of the residuals captured after selected layers, one row per
//! timestep. Floats are held as their bit patterns.

use crate::error;
use crate::error::{Error, ErrorV, Result};
use crate::text;
use vstd::prelude::*;
use vstd::slice::*;
use vstd::string::*;

verus! {

/// Captured rows `[t, layers * hidden]` and which slots this step has filled.
#[derive(Clone, Debug)]
pub struct HiddenCapture {
    pub layer_ids: Vec<usize>,
    pub hidden: usize,
    pub concat: Vec<u32>,
    pub t: usize,
    pub step_mask: Vec<bool>,
}

/// The first place of `x` in `s`, if it has one.
pub open spec fn first_index(s: Seq<usize>, x: usize, i: int) -> bool {
    &&& 0 <= i < s.len()
    &&& s[i] == x
    &&& forall|j: int| 0 <= j < i ==> s[j] != x
}

/// The first slot that is not filled, if there is one.
pub open spec fn first_hole(mask: Seq<bool>, i: int) -> bool {
    &&& 0 <= i < mask.len()
    &&& !mask[i]
    &&& forall|j: int| 0 <= j < i ==> mask[j]
}

impl HiddenCapture {
    /// Floats per captured row.
    pub open spec fn stride(self) -> int {
        self.layer_ids@.len() * self.hidden
    }

    /// The rows are complete and the mask has one place per layer.
    pub open spec fn wf(self) -> bool {
        &&& self.layer_ids@.len() > 0
        &&& self.hidden > 0
        &&& self.stride() <= usize::MAX
        &&& self.concat@.len() == self.t * self.stride()
        &&& self.step_mask@.len() == self.layer_ids@.len()
    }

    /// The captured row of timestep `i`.
    pub open spec fn row(self, i: int) -> Seq<u32> {
        self.concat@.subrange(i * self.stride(), (i + 1) * self.stride())
    }

    /// Same layers and width.
    pub open spec fn same_setup(self, other: HiddenCapture) -> bool {
        self.layer_ids == other.layer_ids && self.hidden == other.hidden
    }

    /// An empty capture of the given layers.
    pub fn new(layer_ids: Vec<usize>, hidden: usize) -> (r: Result<HiddenCapture>)
        requires
            layer_ids@.len() * hidden <= usize::MAX,
        ensures
            layer_ids@.len() == 0 ==> error::fails_with(
                r,
                error::config_error("HiddenCapture: empty layer_ids"@),
            ),
            layer_ids@.len() > 0 && hidden == 0 ==> error::fails_with(
                r,
                error::config_error("HiddenCapture: hidden=0"@),
            ),
            layer_ids@.len() > 0 && hidden > 0 ==> (r matches Ok(c) && {
                &&& c.wf()
                &&& c.layer_ids == layer_ids
                &&& c.hidden == hidden
                &&& c.t == 0
                &&& c.concat@.len() == 0
                &&& forall|i: int| 0 <= i < c.step_mask@.len() ==> !c.step_mask@[i]
            }),
    {
        if layer_ids.len() == 0 {
            return Err(Error::Config(String::from_str("HiddenCapture: empty layer_ids")));
        }
        if hidden == 0 {
            return Err(Error::Config(String::from_str("HiddenCapture: hidden=0")));
        }
        let n: usize = layer_ids.len();
        let step_mask: Vec<bool> = vec![false; n];
        assert(0 * (layer_ids@.len() * hidden) == 0);
        Ok(HiddenCapture { layer_ids, hidden, concat: Vec::new(), t: 0, step_mask })
    }

    /// Floats per captured row.
    pub fn row_stride(&self) -> (r: usize)
        requires
            self.wf(),
        ensures
            r == self.stride(),
    {
        self.layer_ids.len() * self.hidden
    }

    /// Starts a step: no slot is filled.
    pub fn begin_step(&mut self)
        requires
            old(self).wf(),
        ensures
            final(self).wf(),
            final(self).same_setup(*old(self)),
            final(self).concat == old(self).concat,
            final(self).t == old(self).t,
            final(self).step_mask@ == Seq::new(old(self).step_mask@.len(), |i: int| false),
    {
        self.fill_mask(false);
    }

    fn fill_mask(&mut self, value: bool)
        requires
            old(self).wf(),
        ensures
            final(self).wf(),
            final(self).same_setup(*old(self)),
            final(self).concat == old(self).concat,
            final(self).t == old(self).t,
            final(self).step_mask@ == Seq::new(old(self).step_mask@.len(), |i: int| value),
    {
        let n: usize = self.step_mask.len();
        self.step_mask = vec![value; n];
        assert(self.step_mask@ =~= Seq::new(n as nat, |i: int| value));
    }

    /// Marks the first slot of layer `li` as filled and names it.
    pub fn mark_layer(&mut self, li: usize) -> (r: Option<usize>)
        requires
            old(self).wf(),
        ensures
            final(self).wf(),
            final(self).same_setup(*old(self)),
            final(self).concat == old(self).concat,
            final(self).t == old(self).t,
            match r {
                Some(i) => {
                    &&& first_index(old(self).layer_ids@, li, i as int)
                    &&& final(self).step_mask@ == old(self).step_mask@.update(i as int, true)
                },
                None => {
                    &&& !old(self).layer_ids@.contains(li)
                    &&& final(self).step_mask == old(self).step_mask
                },
            },
    {
        let mut i: usize = 0;
        while i < self.layer_ids.len()
            invariant
                i <= self.layer_ids@.len(),
                self.wf(),
                *self == *old(self),
                forall|j: int| 0 <= j < i ==> self.layer_ids@[j] != li,
            decreases self.layer_ids@.len() - i,
        {
            if self.layer_ids[i] == li {
                self.step_mask.set(i, true);
                return Some(i);
            }
            i = i + 1;
        }
        None
    }

    /// Why a row cannot be taken over, if it cannot.
    pub open spec fn row_refusal(self, len: int) -> Option<ErrorV> {
        if len < self.stride() {
            Some(
                error::config_error(
                    "HiddenCapture: row len "@ + text::dec(len as nat) + " < stride "@ + text::dec(
                        self.stride() as nat,
                    ),
                ),
            )
        } else if exists|i: int| first_hole(self.step_mask@, i) {
            let i = choose|i: int| first_hole(self.step_mask@, i);
            Some(
                error::config_error(
                    "HiddenCapture: missing layer "@ + text::dec(self.layer_ids@[i] as nat)
                        + " this step"@,
                ),
            )
        } else {
            None
        }
    }

    /// Appends the row of this step, if every slot was filled.
    pub fn finish_step_from_row(&mut self, row: &[u32]) -> (r: Result<()>)
        requires
            old(self).wf(),
        ensures
            final(self).wf(),
            final(self).same_setup(*old(self)),
            final(self).step_mask == old(self).step_mask,
            match old(self).row_refusal(row@.len() as int) {
                Some(e) => error::fails_with(r, e) && *final(self) == *old(self),
                None => {
                    &&& r is Ok
                    &&& final(self).t == old(self).t + 1
                    &&& final(self).concat@ == old(self).concat@ + row@.subrange(
                        0,
                        old(self).stride(),
                    )
                },
            },
    {
        let stride: usize = self.row_stride();
        if row.len() < stride {
            return Err(
                Error::Config(
                    text::text_num2(
                        "HiddenCapture: row len ",
                        row.len() as u64,
                        " < stride ",
                        stride as u64,
                    ),
                ),
            );
        }
        let mut i: usize = 0;
        while i < self.step_mask.len()
            invariant
                i <= self.step_mask@.len(),
                self.wf(),
                *self == *old(self),
                row@.len() >= self.stride(),
                forall|j: int| 0 <= j < i ==> self.step_mask@[j],
            decreases self.step_mask@.len() - i,
        {
            if !self.step_mask[i] {
                proof {
                    assert(first_hole(self.step_mask@, i as int));
                    let c = choose|c: int| first_hole(self.step_mask@, c);
                    assert(c == i) by {
                        if c < i {
                            assert(self.step_mask@[c]);
                        } else if i < c {
                            assert(self.step_mask@[i as int]);
                        }
                    }
                }
                return Err(
                    Error::Config(
                        text::text1(
                            "HiddenCapture: missing layer ",
                            self.layer_ids[i] as u64,
                            " this step",
                        ),
                    ),
                );
            }
            i = i + 1;
        }
        assert(!exists|c: int| first_hole(self.step_mask@, c));
        let ghost before = self.concat@;
        self.concat.extend_from_slice(slice_subrange(row, 0, stride));
        assert(self.concat@ =~= before + row@.subrange(0, stride as int));
        let total: usize = self.concat.len();
        assert(self.concat@.len() == total);
        proof {
            let s = stride as int;
            let t = self.t as int;
            assert((t + 1) * s == t * s + s) by (nonlinear_arith);
            assert(s >= 1) by (nonlinear_arith)
                requires
                    s == self.layer_ids@.len() * self.hidden,
                    self.layer_ids@.len() >= 1,
                    self.hidden >= 1,
            ;
            assert(t + 1 <= (t + 1) * s) by (nonlinear_arith)
                requires
                    s >= 1,
                    t >= 0,
            ;
        }
        self.t = self.t + 1;
        Ok(())
    }

    /// Appends a row whose slots are all known to be filled.
    pub fn finish_step_complete(&mut self, row: &[u32]) -> (r: Result<()>)
        requires
            old(self).wf(),
        ensures
            final(self).wf(),
            final(self).same_setup(*old(self)),
            final(self).step_mask@ == Seq::new(old(self).step_mask@.len(), |i: int| true),
            row@.len() >= old(self).stride() ==> {
                &&& r is Ok
                &&& final(self).t == old(self).t + 1
                &&& final(self).concat@ == old(self).concat@ + row@.subrange(0, old(self).stride())
            },
            row@.len() < old(self).stride() ==> {
                &&& final(self).t == old(self).t
                &&& final(self).concat == old(self).concat
                &&& error::fails_with(
                    r,
                    error::config_error(
                        "HiddenCapture: row len "@ + text::dec(row@.len()) + " < stride "@
                            + text::dec(old(self).stride() as nat),
                    ),
                )
            },
    {
        self.fill_mask(true);
        assert(!exists|c: int| first_hole(self.step_mask@, c));
        self.finish_step_from_row(row)
    }

    /// Forgets the last `n` rows.
    pub fn trim_recent(&mut self, n: usize) -> (r: Result<()>)
        requires
            old(self).wf(),
        ensures
            final(self).wf(),
            final(self).same_setup(*old(self)),
            final(self).step_mask == old(self).step_mask,
            n <= old(self).t ==> {
                &&& r is Ok
                &&& final(self).t == old(self).t - n
                &&& final(self).concat@ == old(self).concat@.subrange(
                    0,
                    (old(self).t - n) * old(self).stride(),
                )
            },
            n > old(self).t ==> *final(self) == *old(self) && error::fails_with(
                r,
                error::config_error(
                    "HiddenCapture::trim_recent "@ + text::dec(n as nat) + " > t="@ + text::dec(
                        old(self).t as nat,
                    ),
                ),
            ),
    {
        if n == 0 {
            assert(self.concat@ =~= self.concat@.subrange(0, self.t * self.stride()));
            return Ok(());
        }
        if n > self.t {
            return Err(
                Error::Config(
                    text::text_num2(
                        "HiddenCapture::trim_recent ",
                        n as u64,
                        " > t=",
                        self.t as u64,
                    ),
                ),
            );
        }
        let stride: usize = self.row_stride();
        let keep: usize = self.t - n;
        let total: usize = self.concat.len();
        assert(self.t * stride == total);
        assert(keep * stride <= self.t * stride) by (nonlinear_arith)
            requires
                keep <= self.t,
        ;
        self.concat.truncate(keep * stride);
        self.t = keep;
        Ok(())
    }

    /// Forgets every row.
    pub fn clear(&mut self)
        requires
            old(self).wf(),
        ensures
            final(self).wf(),
            final(self).same_setup(*old(self)),
            final(self).t == 0,
            final(self).concat@.len() == 0,
            final(self).step_mask@ == Seq::new(old(self).step_mask@.len(), |i: int| false),
    {
        assert(0 * self.stride() == 0);
        self.concat.clear();
        self.t = 0;
        self.begin_step();
    }
}

/// A finished step followed by forgetting one row gives back the rows.
pub proof fn trim_undoes_finish(before: HiddenCapture, after: HiddenCapture, row: Seq<u32>)
    requires
        before.wf(),
        after.same_setup(before),
        after.t == before.t + 1,
        row.len() >= before.stride(),
        after.concat@ == before.concat@ + row.subrange(0, before.stride()),
    ensures
        after.concat@.subrange(0, (after.t - 1) * after.stride()) == before.concat@,
        after.row(before.t as int) == row.subrange(0, before.stride()),
{
    let s = before.stride();
    let t = before.t as int;
    assert((t + 1) * s == t * s + s) by (nonlinear_arith);
    assert(after.concat@.subrange(0, t * s) =~= before.concat@);
    assert(after.row(t) =~= row.subrange(0, s));
}

} // verus!
