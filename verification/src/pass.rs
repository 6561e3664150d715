//! One pass of a sample buffer through an engine.
//!
//! The engine works on binary32 numbers, which this library does not compute
//! with, so the caller drives it: it takes each frame from the pass in turn,
//! runs it through the engine, and hands the engine's output back as bit
//! patterns. The pass decides which frame comes next, where each output
//! belongs, and what is delivered at the end.

use vstd::prelude::*;
use crate::{FRAME_SIZE, MAX_SAMPLE_MAGNITUDE};
use crate::error::DenoiseError;
use crate::frames::{is_whole, frame_count, frame_at, frames_of, whole};
use crate::rescale::{rescaled, rescale};

verus! {

/// A sample buffer on its way through the engine: the stream it belongs to,
/// the input, and the engine's output for the frames it has seen so far.
pub struct Pass {
    stream: i64,
    input: Vec<i16>,
    output: Vec<u32>,
}

impl Pass {
    #[verifier::type_invariant]
    spec fn well_formed(self) -> bool {
        &&& is_whole(self.input@.len())
        &&& is_whole(self.output@.len())
        &&& self.output@.len() <= self.input@.len()
    }

    /// Handle of the stream whose engine the frames must go through.
    pub closed spec fn stream(self) -> i64 {
        self.stream
    }

    /// The samples to denoise.
    pub closed spec fn input(self) -> Seq<i16> {
        self.input@
    }

    /// The engine's output so far, frame after frame.
    pub closed spec fn output(self) -> Seq<u32> {
        self.output@
    }

    /// Number of frames the engine has seen.
    pub open spec fn frames_done(self) -> nat {
        frame_count(self.output().len())
    }

    /// Whether the engine has seen every frame.
    pub open spec fn is_complete(self) -> bool {
        self.output().len() == self.input().len()
    }

    /// Starts a pass over `samples` on the stream named by `stream`.
    ///
    /// Fails with `InvalidArgument` if and only if the samples do not make a
    /// whole number of frames.
    pub fn new(stream: i64, samples: Vec<i16>) -> (r: Result<Pass, DenoiseError>)
        ensures
            is_whole(samples@.len()) <==> r is Ok,
            r matches Ok(pass) ==> pass.stream() == stream && pass.input() == samples@
                && pass.output() == Seq::<u32>::empty(),
            r matches Err(e) ==> e == DenoiseError::InvalidArgument,
    {
        if whole(samples.len()) {
            Ok(Pass { stream, input: samples, output: Vec::new() })
        } else {
            Err(DenoiseError::InvalidArgument)
        }
    }

    /// Returns [`Pass::stream`].
    pub fn handle(&self) -> (r: i64)
        ensures
            r == self.stream(),
    {
        self.stream
    }

    /// Computes [`Pass::is_complete`].
    pub fn complete(&self) -> (r: bool)
        ensures
            r == self.is_complete(),
    {
        self.output.len() == self.input.len()
    }

    /// The frame the engine must see next, or `None` once it has seen them
    /// all. Frames come in the order of the input and do not overlap.
    pub fn next_frame(&self) -> (r: Option<Vec<i16>>)
        ensures
            self.is_complete() <==> r is None,
            r matches Some(frame) ==> self.frames_done() < frame_count(self.input().len())
                && frame@ == frames_of(self.input())[self.frames_done() as int]
                && frame@.len() == FRAME_SIZE,
    {
        proof {
            use_type_invariant(self);
        }
        let start: usize = self.output.len();
        if start == self.input.len() {
            return None;
        }
        let total: usize = self.input.len();
        proof {
            assert(start + FRAME_SIZE <= total);
        }
        let mut frame: Vec<i16> = Vec::new();
        let mut i: usize = 0;
        while i < FRAME_SIZE
            invariant
                i <= FRAME_SIZE,
                total == self.input@.len(),
                start + FRAME_SIZE <= total,
                frame@ == self.input@.subrange(start as int, start + i),
            decreases FRAME_SIZE - i,
        {
            frame.push(self.input[start + i]);
            proof {
                assert(frame@ =~= self.input@.subrange(start as int, start + i + 1));
            }
            i = i + 1;
        }
        proof {
            let k = self.frames_done() as int;
            assert(start == k * FRAME_SIZE);
            assert(frame@ == frame_at(self.input@, k));
        }
        Some(frame)
    }

    /// Takes the engine's output for the frame last handed out.
    ///
    /// Returns whether it was taken: it is refused, and nothing changes, when
    /// no frame is outstanding or the output is not one frame long.
    pub fn accept(&mut self, frame: &[u32]) -> (accepted: bool)
        ensures
            accepted == (!old(self).is_complete() && frame@.len() == FRAME_SIZE),
            final(self).stream() == old(self).stream(),
            final(self).input() == old(self).input(),
            accepted ==> final(self).output() == old(self).output() + frame@,
            !accepted ==> final(self).output() == old(self).output(),
    {
        proof {
            use_type_invariant(&*self);
        }
        if self.output.len() == self.input.len() || frame.len() != FRAME_SIZE {
            return false;
        }
        let mut output: Vec<u32> = Vec::new();
        core::mem::swap(&mut self.output, &mut output);
        let ghost before = output@;
        let mut i: usize = 0;
        while i < FRAME_SIZE
            invariant
                i <= FRAME_SIZE,
                frame@.len() == FRAME_SIZE,
                output@ == before + frame@.subrange(0, i as int),
            decreases FRAME_SIZE - i,
        {
            output.push(frame[i]);
            proof {
                assert(output@ =~= before + frame@.subrange(0, i + 1));
            }
            i = i + 1;
        }
        proof {
            assert(frame@.subrange(0, FRAME_SIZE as int) =~= frame@);
        }
        self.output = output;
        true
    }

    /// Ends the pass and delivers the denoised samples: the engine's whole
    /// output, rescaled. There are as many as there were input samples, and
    /// none exceeds full scale.
    ///
    /// Returns `None` if and only if the engine has not seen every frame.
    pub fn finish(self) -> (r: Option<Vec<i16>>)
        ensures
            self.is_complete() <==> r is Some,
            r matches Some(samples) ==> samples@ == rescaled(self.output()),
            r matches Some(samples) ==> samples@.len() == self.input().len(),
            r matches Some(samples) ==> forall|i: int|
                0 <= i < samples@.len() ==> -MAX_SAMPLE_MAGNITUDE <= #[trigger] samples@[i]
                    <= MAX_SAMPLE_MAGNITUDE,
    {
        if self.complete() {
            Some(rescale(self.output.as_slice()))
        } else {
            None
        }
    }
}

} // verus!
