//! Cutting a sample buffer into engine-sized frames.

use vstd::prelude::*;
use crate::FRAME_SIZE;

verus! {

/// Whether `len` samples make a whole number of frames.
pub open spec fn is_whole(len: nat) -> bool {
    len % (FRAME_SIZE as nat) == 0
}

/// Number of whole frames in `len` samples.
pub open spec fn frame_count(len: nat) -> nat {
    len / (FRAME_SIZE as nat)
}

/// The `k`-th frame of `samples`.
pub open spec fn frame_at<T>(samples: Seq<T>, k: int) -> Seq<T> {
    samples.subrange(k * FRAME_SIZE, (k + 1) * FRAME_SIZE)
}

/// The frames of `samples`, in the order in which the engine must see them.
pub open spec fn frames_of<T>(samples: Seq<T>) -> Seq<Seq<T>> {
    Seq::new(frame_count(samples.len()), |k: int| frame_at(samples, k))
}

/// Every frame has exactly `FRAME_SIZE` samples.
pub proof fn frame_lengths<T>(samples: Seq<T>, k: int)
    requires
        0 <= k < frame_count(samples.len()),
    ensures
        (k + 1) * FRAME_SIZE <= samples.len(),
        frames_of(samples)[k].len() == FRAME_SIZE,
{
}

/// Cutting two whole buffers one after the other hands the engine the same
/// frames, in the same order, as cutting their concatenation.
pub proof fn frames_of_concat<T>(a: Seq<T>, b: Seq<T>)
    requires
        is_whole(a.len()),
        is_whole(b.len()),
    ensures
        is_whole((a + b).len()),
        frames_of(a + b) == frames_of(a) + frames_of(b),
{
    let na = frame_count(a.len());
    let nb = frame_count(b.len());
    assert(a.len() == na * FRAME_SIZE);
    assert(b.len() == nb * FRAME_SIZE);
    assert((a + b).len() == (na + nb) * FRAME_SIZE);
    assert(frame_count((a + b).len()) == na + nb);
    assert forall|k: int| 0 <= k < na + nb implies #[trigger] frames_of(a + b)[k] == (frames_of(a)
        + frames_of(b))[k] by {
        if k < na {
            assert(frame_at(a + b, k) =~= frame_at(a, k));
        } else {
            assert(frame_at(a + b, k) =~= frame_at(b, k - na));
        }
    }
    assert(frames_of(a + b) =~= frames_of(a) + frames_of(b));
}

/// Laying the frames of a whole buffer end to end gives the buffer back.
pub proof fn frames_flatten<T>(samples: Seq<T>)
    requires
        is_whole(samples.len()),
    ensures
        frames_of(samples).flatten() == samples,
    decreases samples.len(),
{
    let n = frame_count(samples.len());
    if n == 0 {
        assert(frames_of(samples) =~= Seq::<Seq<T>>::empty());
        assert(samples =~= Seq::<T>::empty());
    } else {
        let head = samples.subrange(0, FRAME_SIZE as int);
        let tail = samples.subrange(FRAME_SIZE as int, samples.len() as int);
        assert(samples =~= head + tail);
        assert(is_whole(tail.len()));
        frames_flatten(tail);
        assert(frame_count(head.len()) == 1);
        assert(frames_of(head) =~= seq![head]) by {
            assert(frame_at(head, 0) =~= head);
        }
        frames_of_concat(head, tail);
        assert(frames_of(samples) == seq![head] + frames_of(tail));
        assert(frames_of(samples).first() == head);
        assert(frames_of(samples).drop_first() =~= frames_of(tail));
    }
}

/// Whether `len` samples make a whole number of frames.
pub fn whole(len: usize) -> (r: bool)
    ensures
        r == is_whole(len as nat),
{
    len % FRAME_SIZE == 0
}

} // verus!
