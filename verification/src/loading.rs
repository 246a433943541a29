//! Turning the descriptors of a scenario into frames.

use crate::buffer::{lemma_insert_wf, BufferModel, FrameBuffer};
use crate::structs::{clone_metadata, current_instant, FrameView, TransformStamped};
use vstd::prelude::*;

verus! {

/// An error that carries its message as text.
#[derive(Debug)]
pub struct ErrorMsg {
    info: String,
}

impl View for ErrorMsg {
    type V = Seq<char>;

    closed spec fn view(&self) -> Seq<char> {
        self.info@
    }
}

impl ErrorMsg {
    /// An error with the message `info`.
    pub fn new(info: &str) -> (r: ErrorMsg)
        ensures
            r@ == info@,
    {
        ErrorMsg { info: info.to_owned() }
    }

    /// The message.
    pub fn description(&self) -> (r: &str)
        ensures
            r@ == self@,
    {
        self.info.as_str()
    }

    /// The message as an owned string; this is also how the error prints.
    pub fn to_string(&self) -> (r: String)
        ensures
            r@ == self@,
    {
        self.info.clone()
    }
}

impl Clone for ErrorMsg {
    fn clone(&self) -> (r: Self)
        ensures
            r@ == self@,
    {
        ErrorMsg { info: self.info.clone() }
    }
}

/// What one descriptor file of a scenario says about a frame, field by
/// field. A field that the file lacks, or holds in the wrong shape, is `None`.
pub struct FrameDescriptor<P> {
    pub child_frame_id: Option<String>,
    pub parent_frame_id: Option<String>,
    pub transform: Option<P>,
    /// The flag `active_transform` of the metadata.
    pub active_transform: Option<bool>,
    /// The flag `enable_transform` of the metadata.
    pub enable_transform: Option<bool>,
    pub metadata: serde_json::Value,
}

/// The mathematical value of a [`FrameDescriptor`].
pub struct DescriptorView<P> {
    pub child_frame_id: Option<Seq<char>>,
    pub parent_frame_id: Option<Seq<char>>,
    pub transform: Option<P>,
    pub active_transform: Option<bool>,
    pub enable_transform: Option<bool>,
    pub metadata: serde_json::Value,
}

impl<P> View for FrameDescriptor<P> {
    type V = DescriptorView<P>;

    open spec fn view(&self) -> DescriptorView<P> {
        DescriptorView {
            child_frame_id: match self.child_frame_id {
                Some(name) => Some(name@),
                None => None,
            },
            parent_frame_id: match self.parent_frame_id {
                Some(name) => Some(name@),
                None => None,
            },
            transform: self.transform,
            active_transform: self.active_transform,
            enable_transform: self.enable_transform,
            metadata: self.metadata,
        }
    }
}

/// The members of a JSON object that hold a string, by key. A JSON value that
/// is no object has none.
pub uninterp spec fn json_strings(document: serde_json::Value) -> Map<Seq<char>, Seq<char>>;

/// The members of a JSON object that hold a boolean, by key. A JSON value
/// that is no object has none.
pub uninterp spec fn json_flags(document: serde_json::Value) -> Map<Seq<char>, bool>;

/// The member of a JSON object under `key`, or the JSON `null` where the
/// value is no object or has no such member.
pub uninterp spec fn json_member(document: serde_json::Value, key: Seq<char>) -> serde_json::Value;

/// Calls `serde_json::Value::get` with a string key, which gives the member of
/// an object under that key and nothing for other values, and keeps the
/// member if it is a JSON string.
#[verifier::external_body]
fn extract_string_field(json: &serde_json::Value, field: &str) -> (r: Option<String>)
    ensures
        match r {
            Some(text) => json_strings(*json).contains_key(field@) && json_strings(*json)[field@]
                == text@,
            None => !json_strings(*json).contains_key(field@),
        },
{
    match json.get(field) {
        Some(serde_json::Value::String(text)) => Some(text.clone()),
        _ => None,
    }
}

/// Calls `serde_json::Value::get` with a string key and keeps the member if it
/// is a JSON boolean.
#[verifier::external_body]
fn extract_flag(json: &serde_json::Value, field: &str) -> (r: Option<bool>)
    ensures
        match r {
            Some(flag) => json_flags(*json).contains_key(field@) && json_flags(*json)[field@]
                == flag,
            None => !json_flags(*json).contains_key(field@),
        },
{
    match json.get(field) {
        Some(serde_json::Value::Bool(flag)) => Some(*flag),
        _ => None,
    }
}

/// Indexes a `serde_json::Value` with a string key, which gives the member of
/// an object under that key and the JSON `null` in every other case.
#[verifier::external_body]
fn extract_member<'a>(json: &'a serde_json::Value, field: &str) -> (r: &'a serde_json::Value)
    ensures
        *r == json_member(*json, field@),
{
    &json[field]
}

/// The string that a JSON object holds under `key`, if it holds one there.
pub open spec fn string_under(document: serde_json::Value, key: Seq<char>) -> Option<Seq<char>> {
    if json_strings(document).contains_key(key) {
        Some(json_strings(document)[key])
    } else {
        None
    }
}

/// The boolean that a JSON object holds under `key`, if it holds one there.
pub open spec fn flag_under(document: serde_json::Value, key: Seq<char>) -> Option<bool> {
    if json_flags(document).contains_key(key) {
        Some(json_flags(document)[key])
    } else {
        None
    }
}

/// What a descriptor document says about a frame. The names are the strings
/// under `child_frame_id` and `parent_frame_id`; the metadata is the member
/// `metadata`, and the two flags are looked for in it. The pose is read
/// elsewhere and handed in.
pub open spec fn document_descriptor<P>(
    document: serde_json::Value,
    transform: Option<P>,
) -> DescriptorView<P> {
    let metadata = json_member(document, "metadata"@);
    DescriptorView {
        child_frame_id: string_under(document, "child_frame_id"@),
        parent_frame_id: string_under(document, "parent_frame_id"@),
        transform,
        active_transform: flag_under(metadata, "active_transform"@),
        enable_transform: flag_under(metadata, "enable_transform"@),
        metadata,
    }
}

/// Reads a descriptor document field by field. `transform` is the pose that
/// the caller has read from it, if it holds one.
pub fn describe_frame<P>(json: &serde_json::Value, transform: Option<P>) -> (r: FrameDescriptor<P>)
    ensures
        r@ == document_descriptor(*json, transform),
{
    let child_frame_id = extract_string_field(json, "child_frame_id");
    let parent_frame_id = extract_string_field(json, "parent_frame_id");
    let metadata = extract_member(json, "metadata");
    let active_transform = extract_flag(metadata, "active_transform");
    let enable_transform = extract_flag(metadata, "enable_transform");
    FrameDescriptor {
        child_frame_id,
        parent_frame_id,
        transform,
        active_transform,
        enable_transform,
        metadata: clone_metadata(metadata),
    }
}

/// The mathematical values of a list of descriptors.
pub open spec fn descriptor_views<P>(scenario: Seq<FrameDescriptor<P>>) -> Seq<DescriptorView<P>> {
    scenario.map_values(|descriptor: FrameDescriptor<P>| descriptor@)
}

/// The frame that a descriptor gives rise to when it is read at `time_stamp`.
///
/// A descriptor without a name, a parent or a pose gives none, and neither
/// does one that is switched off by `enable_transform`. A flag that is absent
/// counts as `true`.
pub open spec fn described<P>(
    descriptor: DescriptorView<P>,
    time_stamp: tokio::time::Instant,
) -> Option<FrameView<P>> {
    match (descriptor.child_frame_id, descriptor.parent_frame_id, descriptor.transform) {
        (Some(child), Some(parent), Some(transform)) => if descriptor.enable_transform
            != Some(false) {
            Some(
                FrameView {
                    active: descriptor.active_transform != Some(false),
                    time_stamp,
                    parent_frame_id: parent,
                    child_frame_id: child,
                    transform,
                    metadata: descriptor.metadata,
                },
            )
        } else {
            None
        },
        _ => None,
    }
}

/// The frames that the first `count` descriptors give rise to, each stored
/// under its own name; a later frame replaces an earlier one of the same
/// name. `stamps` holds the time at which each descriptor was read.
pub open spec fn scenario_frames<P>(
    descriptors: Seq<DescriptorView<P>>,
    stamps: Seq<tokio::time::Instant>,
    count: nat,
) -> BufferModel<P>
    decreases count,
{
    if count == 0 {
        BufferModel::empty()
    } else {
        let before = scenario_frames(descriptors, stamps, (count - 1) as nat);
        match described(descriptors[count - 1], stamps[count - 1]) {
            Some(frame) => before.insert(frame.child_frame_id, frame),
            None => before,
        }
    }
}

/// Turns one descriptor into a frame stamped with the current time, if it
/// describes one.
pub fn frame_from_descriptor<P: Copy>(descriptor: &FrameDescriptor<P>) -> (r: Option<
    TransformStamped<P>,
>)
    ensures
        match r {
            Some(frame) => described(descriptor@, frame@.time_stamp) == Some(frame@),
            None => forall|time_stamp: tokio::time::Instant|
                described(descriptor@, time_stamp) is None,
        },
{
    let child_frame_id = match &descriptor.child_frame_id {
        Some(name) => name.clone(),
        None => {
            return None;
        },
    };
    let parent_frame_id = match &descriptor.parent_frame_id {
        Some(name) => name.clone(),
        None => {
            return None;
        },
    };
    let transform = match descriptor.transform {
        Some(transform) => transform,
        None => {
            return None;
        },
    };
    let active = match descriptor.active_transform {
        Some(flag) => flag,
        None => true,
    };
    let enable_transform = match descriptor.enable_transform {
        Some(flag) => flag,
        None => true,
    };
    if enable_transform {
        Some(
            TransformStamped {
                active,
                time_stamp: current_instant(),
                parent_frame_id,
                child_frame_id,
                transform,
                metadata: clone_metadata(&descriptor.metadata),
            },
        )
    } else {
        None
    }
}

/// Builds the frames of a scenario from its descriptors, in the order given.
pub fn load_new_scenario<P: Copy>(scenario: &Vec<FrameDescriptor<P>>) -> (r: FrameBuffer<P>)
    ensures
        r@.wf(),
        exists|stamps: Seq<tokio::time::Instant>|
            {
                &&& stamps.len() == scenario@.len()
                &&& r@ == #[trigger] scenario_frames(
                    descriptor_views(scenario@),
                    stamps,
                    scenario@.len(),
                )
            },
{
    let ghost descriptors = descriptor_views(scenario@);
    let ghost mut stamps: Seq<tokio::time::Instant> = Seq::empty();
    let mut frames: FrameBuffer<P> = FrameBuffer::new();
    frames.well_formed();
    let mut i: usize = 0;
    while i < scenario.len()
        invariant
            i <= scenario@.len(),
            descriptors == descriptor_views(scenario@),
            stamps.len() == i,
            frames@.wf(),
            frames@ == scenario_frames(descriptors, stamps, i as nat),
        decreases scenario@.len() - i,
    {
        let ghost before = stamps;
        let made = frame_from_descriptor(&scenario[i]);
        assert(descriptors[i as int] == scenario@[i as int]@);
        match made {
            Some(frame) => {
                proof {
                    stamps = stamps.push(frame@.time_stamp);
                    lemma_scenario_frames_prefix(descriptors, before, stamps, i as nat);
                    lemma_insert_wf(frames@, frame@.child_frame_id, frame@);
                }
                let name = frame.child_frame_id.clone();
                frames.insert(name.as_str(), frame);
            },
            None => {
                proof {
                    stamps = stamps.push(arbitrary());
                    lemma_scenario_frames_prefix(descriptors, before, stamps, i as nat);
                }
            },
        }
        i += 1;
    }
    frames
}

proof fn lemma_scenario_frames_prefix<P>(
    descriptors: Seq<DescriptorView<P>>,
    stamps: Seq<tokio::time::Instant>,
    longer: Seq<tokio::time::Instant>,
    count: nat,
)
    requires
        count <= stamps.len() <= longer.len(),
        forall|i: int| 0 <= i < stamps.len() ==> stamps[i] == longer[i],
    ensures
        scenario_frames(descriptors, stamps, count) == scenario_frames(descriptors, longer, count),
    decreases count,
{
    if count > 0 {
        lemma_scenario_frames_prefix(descriptors, stamps, longer, (count - 1) as nat);
    }
}

} // verus!
