//! The sample movement around the stereo resampler: splitting interleaved
//! input into channels, queueing interleaved output, and handing it out in
//! the sizes the output callback asks for.
//!
//! The functions are generic in the sample type; the host uses them with its
//! 32-bit float samples.
use std::collections::VecDeque;
use vstd::prelude::*;

verus! {

/// The two channels woven into one sequence: left, right, left, right, ...
pub open spec fn interleave<T>(left: Seq<T>, right: Seq<T>) -> Seq<T> {
    Seq::new(2 * left.len(), |i: int| if i % 2 == 0 { left[i / 2] } else { right[i / 2] })
}

/// Splits the first `frames` interleaved stereo frames of `interleaved` into
/// the first `frames` slots of `left` and `right`; later slots keep their values.
pub fn deinterleave_stereo<T: Copy>(
    interleaved: &[T],
    frames: usize,
    left: &mut [T],
    right: &mut [T],
)
    requires
        2 * frames <= interleaved@.len(),
        frames <= old(left)@.len(),
        frames <= old(right)@.len(),
    ensures
        final(left)@.len() == old(left)@.len(),
        final(right)@.len() == old(right)@.len(),
        forall|k: int| 0 <= k < frames ==> #[trigger] final(left)@[k] == interleaved@[2 * k],
        forall|k: int| 0 <= k < frames ==> #[trigger] final(right)@[k] == interleaved@[2 * k + 1],
        forall|k: int| frames <= k < old(left)@.len() ==> #[trigger] final(left)@[k] == old(left)@[k],
        forall|k: int|
            frames <= k < old(right)@.len() ==> #[trigger] final(right)@[k] == old(right)@[k],
{
    let n = interleaved.len();
    let mut i: usize = 0;
    while i < frames
        invariant
            i <= frames,
            n == interleaved@.len(),
            2 * frames <= interleaved@.len(),
            left@.len() == old(left)@.len(),
            right@.len() == old(right)@.len(),
            frames <= left@.len(),
            frames <= right@.len(),
            forall|k: int| 0 <= k < i ==> #[trigger] left@[k] == interleaved@[2 * k],
            forall|k: int| 0 <= k < i ==> #[trigger] right@[k] == interleaved@[2 * k + 1],
            forall|k: int| i <= k < left@.len() ==> #[trigger] left@[k] == old(left)@[k],
            forall|k: int| i <= k < right@.len() ==> #[trigger] right@[k] == old(right)@[k],
        decreases frames - i,
    {
        left[i] = interleaved[2 * i];
        right[i] = interleaved[2 * i + 1];
        i = i + 1;
    }
}

/// Appends the first `frames` frames of `left` and `right` to the queue, interleaved.
pub fn push_interleaved<T: Copy>(left: &[T], right: &[T], frames: usize, fifo: &mut VecDeque<T>)
    requires
        frames <= left@.len(),
        frames <= right@.len(),
    ensures
        final(fifo)@ == old(fifo)@ + interleave(
            left@.take(frames as int),
            right@.take(frames as int),
        ),
{
    let ghost start = fifo@;
    let mut i: usize = 0;
    while i < frames
        invariant
            i <= frames,
            frames <= left@.len(),
            frames <= right@.len(),
            fifo@ == start + interleave(left@.take(i as int), right@.take(i as int)),
        decreases frames - i,
    {
        fifo.push_back(left[i]);
        fifo.push_back(right[i]);
        i = i + 1;
        assert(fifo@ =~= start + interleave(left@.take(i as int), right@.take(i as int)));
    }
}

/// Fills `output` from the front of the queue, and with `silence` once the
/// queue runs dry. The samples handed out leave the queue.
pub fn drain_fifo<T: Copy>(fifo: &mut VecDeque<T>, output: &mut [T], silence: T)
    ensures
        final(output)@.len() == old(output)@.len(),
        forall|k: int|
            0 <= k < old(output)@.len() ==> #[trigger] final(output)@[k] == if k < old(
                fifo,
            )@.len() {
                old(fifo)@[k]
            } else {
                silence
            },
        old(fifo)@.len() <= old(output)@.len() ==> final(fifo)@ == Seq::<T>::empty(),
        old(fifo)@.len() > old(output)@.len() ==> final(fifo)@ == old(fifo)@.skip(
            old(output)@.len() as int,
        ),
{
    let ghost start = fifo@;
    let mut i: usize = 0;
    while i < output.len()
        invariant
            i <= output@.len(),
            output@.len() == old(output)@.len(),
            forall|k: int|
                0 <= k < i ==> #[trigger] output@[k] == if k < start.len() {
                    start[k]
                } else {
                    silence
                },
            i <= start.len() ==> fifo@ == start.skip(i as int),
            i > start.len() ==> fifo@ == Seq::<T>::empty(),
        decreases output@.len() - i,
    {
        let ghost before = fifo@;
        let v = match fifo.pop_front() {
            Some(x) => x,
            None => silence,
        };
        output[i] = v;
        proof {
            if i < start.len() {
                assert(before[0] == start[i as int]);
                assert(fifo@ =~= start.skip(i + 1));
            }
        }
        i = i + 1;
    }
    proof {
        if start.len() <= output@.len() {
            assert(start.skip(start.len() as int) =~= Seq::<T>::empty());
        }
    }
}

/// Splitting interleaved samples gives back the channels that were woven:
/// frame `k` of the woven sequence holds the left and right samples `k`.
pub proof fn law_interleave_then_split<T>(left: Seq<T>, right: Seq<T>, k: int)
    requires
        left.len() == right.len(),
        0 <= k < left.len(),
    ensures
        interleave(left, right).len() == 2 * left.len(),
        interleave(left, right)[2 * k] == left[k],
        interleave(left, right)[2 * k + 1] == right[k],
{
    assert((2 * k) % 2 == 0 && (2 * k) / 2 == k);
    assert((2 * k + 1) % 2 == 1 && (2 * k + 1) / 2 == k);
}

} // verus!
