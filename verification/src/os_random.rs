//! The plan by which a byte buffer is filled from the operating system's
//! random source: in chunks that one request can serve, asking again where a
//! request fails or serves a part only.
//!
//! The requests themselves are made outside of this library. This module
//! decides what to ask for next and when to give up.

use vstd::prelude::*;

verus! {

/// The number of times that a request may fail within one chunk.
pub const CHUNK_RETRIES: u32 = 10;

/// The most bytes that one request to `getrandom` serves on Unix.
pub const MAX_URANDOM_REQUEST_SIZE: usize = 33554431;

/// What to do next.
#[derive(Debug, Clone, Copy, PartialEq, Eq)]
pub enum FillStep {
    /// Ask the source for `len` bytes, to be put at `offset` in the buffer.
    Request { offset: usize, len: usize },
    /// The buffer is full.
    Done,
    /// The source has failed too often: give up.
    Failed,
}

/// How far the filling of a buffer has come.
#[derive(Debug, Clone, Copy, PartialEq, Eq)]
pub struct FillPlan {
    /// The length of the buffer.
    pub len: usize,
    /// The most bytes that one chunk holds.
    pub chunk_size: usize,
    /// The number of bytes filled so far, from the start of the buffer.
    pub filled: usize,
    /// The end of the chunk that is being filled.
    pub chunk_end: usize,
    /// The number of failures that the chunk can still take.
    pub retries_left: u32,
}

impl FillPlan {
    /// The plan is consistent: the bytes filled lie within the chunk at hand,
    /// the chunk within the buffer, and a chunk is at hand as long as bytes
    /// are missing.
    pub open spec fn wf(&self) -> bool {
        &&& self.chunk_size > 0
        &&& self.filled <= self.chunk_end <= self.len
        &&& self.chunk_end - self.filled <= self.chunk_size
        &&& self.retries_left <= CHUNK_RETRIES
        &&& self.filled == self.chunk_end ==> self.filled == self.len
    }

    /// The end of the chunk that starts at `start`: one chunk size on, or the
    /// end of the buffer where that is nearer.
    pub open spec fn chunk_end_after(len: usize, chunk_size: usize, start: usize) -> usize {
        if len - start <= chunk_size {
            len
        } else {
            (start + chunk_size) as usize
        }
    }

    /// The step that the plan asks for: nothing more once the source has
    /// failed too often or the buffer is full, else what is missing of the
    /// chunk at hand.
    pub open spec fn step(&self) -> FillStep {
        if self.retries_left == 0 {
            FillStep::Failed
        } else if self.filled == self.len {
            FillStep::Done
        } else {
            FillStep::Request { offset: self.filled, len: (self.chunk_end - self.filled) as usize }
        }
    }

    /// The plan after the source has answered a request with `outcome`: a
    /// negative outcome is a failure and costs one retry; any other is the
    /// number of bytes served. A chunk that is full gives way to the next,
    /// with all its retries.
    pub open spec fn recorded(&self, outcome: isize) -> FillPlan {
        if outcome < 0 {
            FillPlan { retries_left: (self.retries_left - 1) as u32, ..*self }
        } else if self.filled + outcome < self.chunk_end {
            FillPlan { filled: (self.filled + outcome) as usize, ..*self }
        } else {
            FillPlan {
                filled: self.chunk_end,
                chunk_end: Self::chunk_end_after(self.len, self.chunk_size, self.chunk_end),
                retries_left: CHUNK_RETRIES,
                ..*self
            }
        }
    }

    /// The plan for a buffer of `len` bytes, filled in chunks of at most
    /// `chunk_size` bytes.
    pub fn new(len: usize, chunk_size: usize) -> (plan: Self)
        requires
            chunk_size > 0,
        ensures
            plan.wf(),
            plan == (FillPlan {
                len,
                chunk_size,
                filled: 0,
                chunk_end: Self::chunk_end_after(len, chunk_size, 0),
                retries_left: CHUNK_RETRIES,
            }),
    {
        let chunk_end: usize = if len <= chunk_size {
            len
        } else {
            chunk_size
        };
        Self { len, chunk_size, filled: 0, chunk_end, retries_left: CHUNK_RETRIES }
    }

    /// What to do next.
    pub fn next_step(&self) -> (step: FillStep)
        requires
            self.wf(),
        ensures
            step == self.step(),
            step matches FillStep::Request { offset, len } ==> 0 < len <= self.chunk_size
                && offset + len <= self.len,
    {
        if self.retries_left == 0 {
            FillStep::Failed
        } else if self.filled == self.len {
            FillStep::Done
        } else {
            FillStep::Request { offset: self.filled, len: self.chunk_end - self.filled }
        }
    }

    /// Takes note of the source's answer to the request that `next_step`
    /// asked for.
    ///
    /// A request must have been asked for, and the source must not have
    /// served more bytes than that.
    pub fn record(&mut self, outcome: isize)
        requires
            old(self).wf(),
            old(self).step() matches FillStep::Request { offset, len } && outcome <= len,
        ensures
            *final(self) == old(self).recorded(outcome),
            final(self).wf(),
            outcome >= 0 ==> final(self).filled == old(self).filled + outcome,
    {
        if outcome < 0 {
            self.retries_left = self.retries_left - 1;
        } else {
            let served: usize = outcome as usize;
            if served < self.chunk_end - self.filled {
                self.filled = self.filled + served;
            } else {
                self.filled = self.chunk_end;
                self.chunk_end = if self.len - self.chunk_end <= self.chunk_size {
                    self.len
                } else {
                    self.chunk_end + self.chunk_size
                };
                self.retries_left = CHUNK_RETRIES;
            }
        }
    }
}

} // verus!
