use nalgebra::{Isometry3, Translation3, UnitQuaternion};
use r2r_transforms::{
    describe_frame, frame_from_descriptor, load_new_scenario, ErrorMsg, FrameDescriptor,
};
use serde_json::Value;

type Pose = Isometry3<f64>;

fn pose(x: f64, y: f64, z: f64) -> Pose {
    Isometry3::from_parts(Translation3::new(x, y, z), UnitQuaternion::identity())
}

fn descriptor(child: &str, parent: &str) -> FrameDescriptor<Pose> {
    FrameDescriptor {
        child_frame_id: Some(child.to_string()),
        parent_frame_id: Some(parent.to_string()),
        transform: Some(pose(1.0, 2.0, 3.0)),
        active_transform: None,
        enable_transform: None,
        metadata: Value::default(),
    }
}

#[test]
fn error_message_is_kept_as_given() {
    let e = ErrorMsg::new("Reading the scenario directory failed.");
    assert_eq!(e.description(), "Reading the scenario directory failed.");
    assert_eq!(e.to_string(), "Reading the scenario directory failed.");
    let copy = e.clone();
    assert_eq!(copy.description(), e.description());
    assert_eq!(ErrorMsg::new("").description(), "");
}

#[test]
fn complete_descriptor_gives_a_frame() {
    let mut object = serde_json::Map::new();
    object.insert("zone".to_string(), Value::String("a".to_string()));
    let mut d = descriptor("frame_1", "world");
    d.metadata = Value::Object(object);
    let f = frame_from_descriptor(&d).unwrap();
    assert_eq!(f.child_frame_id, "frame_1");
    assert_eq!(f.parent_frame_id, "world");
    assert_eq!(f.transform, pose(1.0, 2.0, 3.0));
    assert!(f.active);
    assert_eq!(f.metadata, d.metadata);
    assert_ne!(f.metadata, Value::Null);
}

#[test]
fn flags_default_to_true() {
    let mut d = descriptor("frame_1", "world");
    d.active_transform = Some(false);
    let f = frame_from_descriptor(&d).unwrap();
    assert!(!f.active);
    d.active_transform = Some(true);
    d.enable_transform = Some(true);
    assert!(frame_from_descriptor(&d).unwrap().active);
    d.enable_transform = Some(false);
    assert!(frame_from_descriptor(&d).is_none());
}

#[test]
fn incomplete_descriptor_gives_no_frame() {
    let mut d = descriptor("frame_1", "world");
    d.child_frame_id = None;
    assert!(frame_from_descriptor(&d).is_none());
    let mut d = descriptor("frame_1", "world");
    d.parent_frame_id = None;
    assert!(frame_from_descriptor(&d).is_none());
    let mut d = descriptor("frame_1", "world");
    d.transform = None;
    assert!(frame_from_descriptor(&d).is_none());
}

#[test]
fn scenario_holds_the_enabled_frames() {
    let mut skipped = descriptor("frame_2", "frame_1");
    skipped.enable_transform = Some(false);
    let mut broken = descriptor("frame_3", "frame_1");
    broken.transform = None;
    let mut again = descriptor("frame_1", "base");
    again.active_transform = Some(false);
    let scenario = vec![
        descriptor("frame_1", "world"),
        skipped,
        descriptor("frame_4", "frame_1"),
        broken,
        again,
    ];
    let frames = load_new_scenario(&scenario);
    assert_eq!(
        frames.keys(),
        vec!["frame_1".to_string(), "frame_4".to_string()]
    );
    let first = frames.get("frame_1").unwrap();
    assert_eq!(first.parent_frame_id, "base");
    assert!(!first.active);
    assert_eq!(frames.get("frame_4").unwrap().parent_frame_id, "frame_1");
    assert!(load_new_scenario::<Pose>(&vec![]).is_empty());
}

fn document(text: &str) -> Value {
    serde_json::from_str(text).unwrap()
}

#[test]
fn document_is_read_field_by_field() {
    let json = document(
        r#"{
            "child_frame_id": "frame_1",
            "parent_frame_id": "world",
            "transform": { "translation": { "x": 1.0, "y": 2.0, "z": 3.0 } },
            "metadata": { "active_transform": false, "enable_transform": true, "zone": "a" }
        }"#,
    );
    let d = describe_frame(&json, Some(pose(1.0, 2.0, 3.0)));
    assert_eq!(d.child_frame_id, Some("frame_1".to_string()));
    assert_eq!(d.parent_frame_id, Some("world".to_string()));
    assert_eq!(d.transform, Some(pose(1.0, 2.0, 3.0)));
    assert_eq!(d.active_transform, Some(false));
    assert_eq!(d.enable_transform, Some(true));
    assert_eq!(d.metadata, json["metadata"]);
    assert_eq!(d.metadata["zone"], Value::String("a".to_string()));
    let f = frame_from_descriptor(&d).unwrap();
    assert_eq!(f.child_frame_id, "frame_1");
    assert_eq!(f.parent_frame_id, "world");
    assert!(!f.active);
    assert_eq!(f.metadata, json["metadata"]);
}

#[test]
fn fields_of_the_wrong_shape_count_as_missing() {
    let json = document(
        r#"{
            "child_frame_id": 7,
            "parent_frame_id": ["world"],
            "metadata": { "active_transform": "yes", "enable_transform": 0 }
        }"#,
    );
    let d = describe_frame::<Pose>(&json, None);
    assert_eq!(d.child_frame_id, None);
    assert_eq!(d.parent_frame_id, None);
    assert_eq!(d.transform, None);
    assert_eq!(d.active_transform, None);
    assert_eq!(d.enable_transform, None);
    assert!(frame_from_descriptor(&d).is_none());
}

#[test]
fn document_without_metadata_gets_null_metadata() {
    let json = document(r#"{ "child_frame_id": "frame_1", "parent_frame_id": "world" }"#);
    let d = describe_frame(&json, Some(pose(0.0, 0.0, 0.0)));
    assert_eq!(d.metadata, Value::Null);
    assert_eq!(d.active_transform, None);
    assert_eq!(d.enable_transform, None);
    let f = frame_from_descriptor(&d).unwrap();
    assert!(f.active);
    assert_eq!(f.metadata, Value::Null);
}

#[test]
fn document_that_is_no_object_describes_nothing() {
    for text in ["null", "[1, 2]", "\"child_frame_id\"", "3"] {
        let json = document(text);
        let d = describe_frame(&json, Some(pose(0.0, 0.0, 0.0)));
        assert_eq!(d.child_frame_id, None);
        assert_eq!(d.parent_frame_id, None);
        assert_eq!(d.metadata, Value::Null);
    }
}

#[test]
fn flags_are_looked_for_in_the_metadata_only() {
    let json = document(
        r#"{
            "child_frame_id": "frame_1",
            "parent_frame_id": "world",
            "active_transform": false,
            "enable_transform": false,
            "metadata": {}
        }"#,
    );
    let d = describe_frame(&json, Some(pose(0.0, 0.0, 0.0)));
    assert_eq!(d.active_transform, None);
    assert_eq!(d.enable_transform, None);
    assert!(frame_from_descriptor(&d).unwrap().active);
}
