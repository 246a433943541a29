//! The frame record and its mathematical value.

use vstd::prelude::*;

verus! {

/// `tokio::time::Instant`, carried through the library as an opaque value.
#[verifier::external_type_specification]
#[verifier::external_body]
pub struct ExInstant(tokio::time::Instant);

/// `serde_json::Value`, carried through the library as an opaque value.
#[verifier::external_type_specification]
#[verifier::external_body]
pub struct ExValue(serde_json::Value);

/// Calls `tokio::time::Instant::now`. The result is the current reading of a
/// clock, so nothing is claimed about it.
#[verifier::external_body]
pub(crate) fn current_instant() -> (r: tokio::time::Instant) {
    tokio::time::Instant::now()
}

/// Calls `<serde_json::Value as Clone>::clone`, which is derived: the result
/// has the same variant and the same contents as the value it was made from.
#[verifier::external_body]
pub(crate) fn clone_metadata(v: &serde_json::Value) -> (r: serde_json::Value)
    ensures
        r == *v,
{
    v.clone()
}

/// Calls `<serde_json::Value as Default>::default`, which gives the JSON
/// `null`. The library never looks inside a metadata value, so nothing is
/// claimed about the result.
#[verifier::external_body]
pub(crate) fn empty_metadata() -> (r: serde_json::Value) {
    serde_json::Value::default()
}

/// A named coordinate frame: where `child_frame_id` sits relative to
/// `parent_frame_id`.
///
/// The pose type `P` is chosen by the caller. The library stores and copies
/// poses but never computes with them; composing poses is left to a function
/// that the caller passes to the lookups.
#[derive(Debug)]
pub struct TransformStamped<P> {
    /// Liveness class: `true` for frames published at the fast, active rate,
    /// `false` for static frames.
    pub active: bool,
    pub time_stamp: tokio::time::Instant,
    pub parent_frame_id: String,
    pub child_frame_id: String,
    /// Pose of the frame relative to its parent.
    pub transform: P,
    pub metadata: serde_json::Value,
}

/// The mathematical value of a [`TransformStamped`]: the same record with its
/// two names as sequences of characters.
pub struct FrameView<P> {
    pub active: bool,
    pub time_stamp: tokio::time::Instant,
    pub parent_frame_id: Seq<char>,
    pub child_frame_id: Seq<char>,
    pub transform: P,
    pub metadata: serde_json::Value,
}

impl<P> FrameView<P> {
    /// The frame with its parent replaced.
    pub open spec fn with_parent(self, parent: Seq<char>) -> Self {
        FrameView { parent_frame_id: parent, ..self }
    }

    /// The frame with its own name replaced.
    pub open spec fn with_child(self, child: Seq<char>) -> Self {
        FrameView { child_frame_id: child, ..self }
    }

    /// The frame with its pose replaced.
    pub open spec fn with_transform(self, transform: P) -> Self {
        FrameView { transform, ..self }
    }
}

impl<P> View for TransformStamped<P> {
    type V = FrameView<P>;

    open spec fn view(&self) -> FrameView<P> {
        FrameView {
            active: self.active,
            time_stamp: self.time_stamp,
            parent_frame_id: self.parent_frame_id@,
            child_frame_id: self.child_frame_id@,
            transform: self.transform,
            metadata: self.metadata,
        }
    }
}

/// The mathematical values of a list of frames.
pub open spec fn frame_views<P>(frames: Seq<TransformStamped<P>>) -> Seq<FrameView<P>> {
    frames.map_values(|frame: TransformStamped<P>| frame@)
}

impl<P: Copy> Clone for TransformStamped<P> {
    fn clone(&self) -> (r: Self)
        ensures
            r@ == self@,
    {
        TransformStamped {
            active: self.active,
            time_stamp: self.time_stamp,
            parent_frame_id: self.parent_frame_id.clone(),
            child_frame_id: self.child_frame_id.clone(),
            transform: self.transform,
            metadata: clone_metadata(&self.metadata),
        }
    }
}

impl<P: Copy> TransformStamped<P> {
    /// The answer to a lookup as a frame: `transform` is the pose of
    /// `child_frame_id` in `parent_frame_id`, stamped with the current time.
    pub fn between(parent_frame_id: &str, child_frame_id: &str, transform: P) -> (r: Self)
        ensures
            r@.active,
            r@.parent_frame_id == parent_frame_id@,
            r@.child_frame_id == child_frame_id@,
            r@.transform == transform,
    {
        Self::observed(parent_frame_id, child_frame_id, transform, true)
    }

    /// A frame as it was observed on the bus: `transform` is the pose of
    /// `child_frame_id` in `parent_frame_id`, `active` tells whether it came
    /// in with the active or with the static frames. It is stamped with the
    /// current time and carries empty metadata.
    pub fn observed(
        parent_frame_id: &str,
        child_frame_id: &str,
        transform: P,
        active: bool,
    ) -> (r: Self)
        ensures
            r@.active == active,
            r@.parent_frame_id == parent_frame_id@,
            r@.child_frame_id == child_frame_id@,
            r@.transform == transform,
    {
        TransformStamped {
            active,
            time_stamp: current_instant(),
            parent_frame_id: parent_frame_id.to_owned(),
            child_frame_id: child_frame_id.to_owned(),
            transform,
            metadata: empty_metadata(),
        }
    }

    /// An active frame with empty names, stamped with the current time, that
    /// carries `transform` and empty metadata.
    pub fn default(transform: P) -> (r: Self)
        ensures
            r@.active,
            r@.parent_frame_id == Seq::<char>::empty(),
            r@.child_frame_id == Seq::<char>::empty(),
            r@.transform == transform,
    {
        TransformStamped {
            active: true,
            time_stamp: current_instant(),
            parent_frame_id: String::new(),
            child_frame_id: String::new(),
            transform,
            metadata: empty_metadata(),
        }
    }
}

} // verus!
