//! Choosing the frames that are due for a broadcast.

use crate::buffer::{BufferModel, FrameBuffer};
use crate::structs::{frame_views, FrameView, TransformStamped};
use vstd::prelude::*;

verus! {

/// Time between two broadcasts of the static frames, in milliseconds.
pub const STATIC_TF_BROADCAST_RATE: u64 = 100;

/// Time between two broadcasts of the active frames, in milliseconds.
pub const ACTIVE_TF_BROADCAST_RATE: u64 = 10;

/// Among the first `count` frames of `buffer`, in insertion order, those of
/// the liveness class `active` whose name `known` does not hold.
pub open spec fn frames_of_class<P>(
    buffer: BufferModel<P>,
    known: BufferModel<P>,
    active: bool,
    count: nat,
) -> Seq<FrameView<P>>
    decreases count,
{
    if count == 0 {
        Seq::empty()
    } else {
        let before = frames_of_class(buffer, known, active, (count - 1) as nat);
        let name = buffer.names[count - 1];
        if buffer.frames[name].active == active && !known.contains(name) {
            before.push(buffer.frames[name])
        } else {
            before
        }
    }
}

/// The frames of one liveness class that are due for a broadcast: those of
/// `buffer` that are active, or those that are static, leaving out the names
/// that `known` holds already.
pub fn frames_to_broadcast<P: Copy>(
    buffer: &FrameBuffer<P>,
    known: &FrameBuffer<P>,
    active: bool,
) -> (r: Vec<TransformStamped<P>>)
    ensures
        frame_views(r@) == frames_of_class(
            buffer@,
            known@,
            active,
            buffer@.names.len(),
        ),
{
    let n = buffer.len();
    let mut due: Vec<TransformStamped<P>> = Vec::new();
    let mut i: usize = 0;
    assert(frame_views(due@) =~= Seq::empty());
    while i < n
        invariant
            n == buffer@.names.len(),
            i <= n,
            frame_views(due@) == frames_of_class(
                buffer@,
                known@,
                active,
                i as nat,
            ),
        decreases n - i,
    {
        let frame = buffer.frame_at(i);
        if frame.active == active && !known.contains_key(buffer.key_at(i).as_str()) {
            let ghost before = due@;
            let copy = frame.clone();
            due.push(copy);
            assert(frame_views(due@) =~= frame_views(before).push(copy@));
        }
        i += 1;
    }
    due
}

/// The static frames of a buffer, which go out at the slow rate.
pub fn static_frames_to_broadcast<P: Copy>(local_buffer: &FrameBuffer<P>) -> (r: Vec<
    TransformStamped<P>,
>)
    ensures
        frame_views(r@) == frames_of_class(
            local_buffer@,
            BufferModel::empty(),
            false,
            local_buffer@.names.len(),
        ),
{
    let known: FrameBuffer<P> = FrameBuffer::new();
    frames_to_broadcast(local_buffer, &known, false)
}

/// The active frames of a buffer, which go out at the fast rate.
pub fn active_frames_to_broadcast<P: Copy>(local_buffer: &FrameBuffer<P>) -> (r: Vec<
    TransformStamped<P>,
>)
    ensures
        frame_views(r@) == frames_of_class(
            local_buffer@,
            BufferModel::empty(),
            true,
            local_buffer@.names.len(),
        ),
{
    let known: FrameBuffer<P> = FrameBuffer::new();
    frames_to_broadcast(local_buffer, &known, true)
}

} // verus!
