use nalgebra::Isometry3;
use r2r_transforms::{
    check_would_produce_cycle, is_cyclic, is_cyclic_all, FrameBuffer, TransformStamped,
};
use serde_json::Value;
use tokio::time::Instant;

type Frame = TransformStamped<Isometry3<f64>>;
type Buffer = FrameBuffer<Isometry3<f64>>;

fn frame(parent: &str, child: &str) -> Frame {
    TransformStamped {
        active: true,
        time_stamp: Instant::now(),
        parent_frame_id: parent.to_string(),
        child_frame_id: child.to_string(),
        transform: Isometry3::default(),
        metadata: Value::default(),
    }
}

fn dummy_1_frame() -> Frame {
    frame("world", "dummy_1")
}

fn dummy_2_frame() -> Frame {
    frame("dummy_1", "dummy_2")
}

fn dummy_3_frame() -> Frame {
    frame("dummy_2", "dummy_3")
}

#[test]
fn test_is_not_cyclic() {
    let mut buffer = Buffer::new();
    buffer.insert("dummy_1", dummy_1_frame());

    //          w
    //          |
    //          d1

    let res = is_cyclic("dummy_1", &buffer);
    assert_eq!(res, false);

    buffer.insert("dummy_2", dummy_2_frame());

    //          w
    //          |
    //          d1
    //          |
    //          d2

    let res = is_cyclic("world", &buffer);
    assert_eq!(res, false);
    let res = is_cyclic("dummy_1", &buffer);
    assert_eq!(res, false);
    let res = is_cyclic("dummy_2", &buffer);
    assert_eq!(res, false);
}

#[test]
fn test_is_cyclic() {
    let mut buffer = Buffer::new();
    buffer.insert("dummy_1", dummy_1_frame());
    buffer.insert("dummy_2", dummy_2_frame());
    buffer.insert("dummy_1", frame("dummy_2", "dummy_1"));

    //          w
    //
    //          d1
    //          ||
    //          d2

    let res = is_cyclic("world", &buffer);
    assert_eq!(res, false);
    let res = is_cyclic("dummy_1", &buffer);
    assert_eq!(res, true);
    let res = is_cyclic("dummy_2", &buffer);
    assert_eq!(res, true);
}

#[test]
fn test_is_cyclic_triangle() {
    let mut buffer = Buffer::new();
    buffer.insert("dummy_1", dummy_1_frame());
    buffer.insert("dummy_2", dummy_2_frame());
    buffer.insert("dummy_3", dummy_3_frame());

    //          w
    //          |
    //          d1
    //         /
    //       d2 -- d3

    let res = is_cyclic("world", &buffer);
    assert_eq!(res, false);
    let res = is_cyclic("dummy_1", &buffer);
    assert_eq!(res, false);
    let res = is_cyclic("dummy_2", &buffer);
    assert_eq!(res, false);
    let res = is_cyclic("dummy_3", &buffer);
    assert_eq!(res, false);

    buffer.insert("dummy_1", frame("dummy_3", "dummy_1"));

    //          w
    //
    //          d1
    //         /  \
    //       d2 -- d3

    let res = is_cyclic("world", &buffer);
    assert_eq!(res, false);
    let res = is_cyclic("dummy_1", &buffer);
    assert_eq!(res, true);
    let res = is_cyclic("dummy_2", &buffer);
    assert_eq!(res, true);
    let res = is_cyclic("dummy_3", &buffer);
    assert_eq!(res, true);
}

#[test]
fn test_is_cyclic_all() {
    let mut buffer = Buffer::new();
    buffer.insert("dummy_1", dummy_1_frame());
    buffer.insert("dummy_2", dummy_2_frame());
    buffer.insert("dummy_3", dummy_3_frame());

    //          w
    //          |
    //          d1
    //         /
    //       d2 -- d3

    let res = is_cyclic_all(&buffer);
    assert_eq!(res, false);

    buffer.insert("dummy_5", frame("dummy_4", "dummy_5"));
    buffer.insert("dummy_6", frame("dummy_5", "dummy_6"));

    //          w           d4
    //          |           |
    //          d1          d5
    //         /            |
    //       d2 -- d3       d6

    let res = is_cyclic_all(&buffer);
    assert_eq!(res, false);

    buffer.insert("dummy_4", frame("dummy_6", "dummy_4"));

    //          w           d4
    //          |          /  \
    //          d1       d5 -- d6
    //         /
    //       d2 -- d3

    let res = is_cyclic_all(&buffer);
    assert_eq!(res, true);

    buffer.insert("dummy_4", frame("world", "dummy_4"));

    //          w --------- d4
    //          |          /
    //          d1       d5 -- d6
    //         /
    //       d2 -- d3

    let res = is_cyclic_all(&buffer);
    assert_eq!(res, false);
}

#[test]
fn test_would_produce_cycle() {
    let mut buffer = Buffer::new();
    buffer.insert("dummy_1", dummy_1_frame());
    buffer.insert("dummy_2", dummy_2_frame());
    buffer.insert("dummy_3", dummy_3_frame());

    //          w
    //          |
    //          d1
    //         /
    //       d2 -- d3

    let res = is_cyclic("world", &buffer);
    assert_eq!(res, false);
    let res = is_cyclic("dummy_1", &buffer);
    assert_eq!(res, false);
    let res = is_cyclic("dummy_2", &buffer);
    assert_eq!(res, false);
    let res = is_cyclic("dummy_3", &buffer);
    assert_eq!(res, false);

    assert_eq!(
        check_would_produce_cycle(&frame("dummy_4", "dummy_1"), &buffer),
        false
    );

    assert_eq!(
        check_would_produce_cycle(&frame("dummy_3", "dummy_1"), &buffer),
        true
    );
}

#[test]
fn would_produce_cycle_leaves_the_buffer_alone() {
    let mut buffer = Buffer::new();
    buffer.insert("dummy_1", dummy_1_frame());
    buffer.insert("dummy_2", dummy_2_frame());
    assert!(check_would_produce_cycle(&frame("dummy_2", "dummy_1"), &buffer));
    assert_eq!(buffer.len(), 2);
    assert_eq!(buffer.get("dummy_1").unwrap().parent_frame_id, "world");
    assert!(!is_cyclic_all(&buffer));
}

#[test]
fn accepted_candidate_leaves_no_cycle() {
    let mut buffer = Buffer::new();
    buffer.insert("dummy_1", dummy_1_frame());
    buffer.insert("dummy_2", dummy_2_frame());
    assert!(!is_cyclic_all(&buffer));
    let candidate = frame("dummy_2", "dummy_3");
    assert!(!check_would_produce_cycle(&candidate, &buffer));
    buffer.insert("dummy_3", candidate);
    assert!(!is_cyclic_all(&buffer));
}

#[test]
fn frame_that_is_its_own_parent_is_a_cycle() {
    let mut buffer = Buffer::new();
    assert!(!is_cyclic_all(&buffer));
    assert!(check_would_produce_cycle(&frame("loop", "loop"), &buffer));
    buffer.insert("loop", frame("loop", "loop"));
    assert!(is_cyclic("loop", &buffer));
    assert!(is_cyclic_all(&buffer));
}

#[test]
fn frame_below_a_cycle_leads_into_it() {
    let mut buffer = Buffer::new();
    buffer.insert("a", frame("b", "a"));
    buffer.insert("b", frame("a", "b"));
    buffer.insert("below", frame("a", "below"));
    buffer.insert("apart", frame("world", "apart"));
    assert!(is_cyclic("below", &buffer));
    assert!(!is_cyclic("apart", &buffer));
    assert!(!is_cyclic("unknown", &buffer));
    assert!(is_cyclic_all(&buffer));
}

#[test]
fn empty_buffer_has_no_cycle() {
    let buffer = Buffer::new();
    assert!(!is_cyclic_all(&buffer));
    assert!(!is_cyclic("world", &buffer));
}

#[test]
fn long_chain_is_not_a_cycle() {
    let mut buffer = Buffer::new();
    buffer.insert("f0", frame("world", "f0"));
    for i in 1..200 {
        let child = format!("f{}", i);
        let parent = format!("f{}", i - 1);
        buffer.insert(&child, frame(&parent, &child));
    }
    assert!(!is_cyclic("f199", &buffer));
    assert!(!is_cyclic_all(&buffer));
    buffer.insert("f0", frame("f199", "f0"));
    assert!(is_cyclic("f100", &buffer));
    assert!(is_cyclic_all(&buffer));
}

#[test]
fn buffer_keeps_one_frame_per_name_in_insertion_order() {
    let mut buffer = Buffer::new();
    assert!(buffer.is_empty());
    buffer.insert("a", frame("world", "a"));
    buffer.insert("b", frame("a", "b"));
    buffer.insert("c", frame("b", "c"));
    buffer.insert("a", frame("elsewhere", "a"));
    assert_eq!(buffer.len(), 3);
    assert_eq!(buffer.keys(), vec!["a".to_string(), "b".to_string(), "c".to_string()]);
    assert_eq!(buffer.get("a").unwrap().parent_frame_id, "elsewhere");
    assert_eq!(buffer.position("b"), Some(1));
    assert_eq!(buffer.key_at(2), "c");
    assert_eq!(buffer.frame_at(1).parent_frame_id, "a");
    buffer.remove("a");
    assert_eq!(buffer.keys(), vec!["b".to_string(), "c".to_string()]);
    assert!(!buffer.contains_key("a"));
    assert!(buffer.get("a").is_none());
    assert_eq!(buffer.position("a"), None);
    buffer.remove("a");
    assert_eq!(buffer.len(), 2);
    let copy = buffer.clone();
    buffer.clear();
    assert_eq!(buffer.len(), 0);
    assert_eq!(copy.len(), 2);
    assert!(copy.contains_key("c"));
}

#[test]
fn cloned_frame_keeps_its_metadata() {
    let mut object = serde_json::Map::new();
    object.insert("active_transform".to_string(), Value::Bool(false));
    object.insert("note".to_string(), Value::String("kept".to_string()));
    let mut original = frame("world", "tagged");
    original.metadata = Value::Object(object);
    let copy = original.clone();
    assert_eq!(copy.metadata, original.metadata);
    assert_ne!(copy.metadata, Value::Null);
    let mut buffer = Buffer::new();
    buffer.insert("tagged", original.clone());
    let stored = buffer.clone();
    assert_eq!(stored.get("tagged").unwrap().metadata, original.metadata);
    assert_eq!(stored.get("tagged").unwrap().time_stamp, original.time_stamp);
}
