use nalgebra::{Isometry3, Translation3, UnitQuaternion};
use r2r_transforms::{
    get_tree_root, lookup_path, lookup_transform_in_tree, lookup_transform_with_root, FrameBuffer,
    SpaceTreeServer, TransformPath, TransformStamped, MAX_RECURSION_DEPTH, MAX_TRANSFORM_CHAIN,
};
use serde_json::Value;
use tokio::time::Instant;

type Pose = Isometry3<f64>;
type Frame = TransformStamped<Pose>;

fn pose(x: f64, y: f64, z: f64, yaw: f64) -> Pose {
    Isometry3::from_parts(
        Translation3::new(x, y, z),
        UnitQuaternion::from_euler_angles(0.0, 0.0, yaw),
    )
}

fn frame(parent: &str, child: &str, transform: Pose) -> Frame {
    TransformStamped {
        active: true,
        time_stamp: Instant::now(),
        parent_frame_id: parent.to_string(),
        child_frame_id: child.to_string(),
        transform,
        metadata: Value::default(),
    }
}

fn product(chain: &Vec<Pose>) -> Pose {
    chain.iter().fold(Pose::identity(), |below, step| step * below)
}

fn compose(path: TransformPath<Pose>) -> Pose {
    product(&path.parent_chain).inverse() * product(&path.child_chain)
}

fn close(a: &Pose, b: &Pose) -> bool {
    (a.translation.vector - b.translation.vector).norm() < 1e-9
        && a.rotation.angle_to(&b.rotation) < 1e-9
}

fn server_with(frames: Vec<Frame>) -> SpaceTreeServer<Pose> {
    let mut server = SpaceTreeServer::new("test");
    for f in frames {
        let name = f.child_frame_id.clone();
        server.insert_transform(&name, f);
    }
    server.apply_changes(&compose);
    server
}

fn a_and_b() -> SpaceTreeServer<Pose> {
    server_with(vec![
        frame("world", "A", pose(1.0, 2.0, 3.0, 0.5)),
        frame("A", "B", pose(0.5, -1.0, 0.25, -1.25)),
    ])
}

#[test]
fn new_server_is_empty() {
    let server: SpaceTreeServer<Pose> = SpaceTreeServer::new("test");
    assert_eq!(server.name, "test");
    assert_eq!(server.local_buffer.len(), 0);
    assert_eq!(server.pending_updates.len(), 0);
    assert!(server.get_local_transform_names().is_empty());
}

#[test]
fn nothing_is_visible_before_the_commit() {
    let mut server: SpaceTreeServer<Pose> = SpaceTreeServer::new("test");
    server.insert_transform("A", frame("world", "A", Pose::identity()));
    assert_eq!(server.local_buffer.len(), 0);
    assert_eq!(server.pending_updates.len(), 1);
    assert!(server.lookup_transform("world", "A", &compose).is_none());
    server.apply_changes(&compose);
    assert_eq!(server.pending_updates.len(), 0);
    assert_eq!(server.get_local_transform_names(), vec!["A".to_string()]);
    assert!(server.lookup_transform("world", "A", &compose).is_some());
}

#[test]
fn commit_of_an_empty_queue_changes_nothing() {
    let mut server = a_and_b();
    server.apply_changes(&compose);
    assert_eq!(
        server.get_local_transform_names(),
        vec!["A".to_string(), "B".to_string()]
    );
}

#[test]
fn reparent_keeps_the_frame_where_it_is() {
    let mut server = a_and_b();
    let before = server.lookup_transform("world", "B", &compose).unwrap();
    assert!(close(
        &before.transform,
        &(pose(1.0, 2.0, 3.0, 0.5) * pose(0.5, -1.0, 0.25, -1.25))
    ));

    server.reparent_transform("B", "world");
    server.apply_changes(&compose);

    let b = server.local_buffer.get("B").unwrap();
    assert_eq!(b.parent_frame_id, "world");
    assert_eq!(b.child_frame_id, "B");
    assert!(close(&b.transform, &before.transform));
    let after = server.lookup_transform("world", "B", &compose).unwrap();
    assert!(close(&after.transform, &before.transform));
    assert!(!r2r_transforms::is_cyclic_all(&server.local_buffer));
}

#[test]
fn reparent_that_would_close_a_cycle_is_rejected() {
    let mut server = a_and_b();
    let a_before = server.local_buffer.get("A").unwrap().clone();
    server.reparent_transform("A", "B");
    assert_eq!(server.pending_updates.len(), 1);
    server.apply_changes(&compose);
    let a = server.local_buffer.get("A").unwrap();
    assert_eq!(a.parent_frame_id, "world");
    assert!(close(&a.transform, &a_before.transform));
    assert_eq!(server.local_buffer.get("B").unwrap().parent_frame_id, "A");
    assert!(!r2r_transforms::is_cyclic_all(&server.local_buffer));
}

#[test]
fn reparent_under_a_sibling_after_the_first_reparent() {
    let mut server = a_and_b();
    let a_in_world = server.lookup_transform("world", "A", &compose).unwrap();
    server.reparent_transform("B", "world");
    server.apply_changes(&compose);
    server.reparent_transform("A", "B");
    server.apply_changes(&compose);
    let a = server.local_buffer.get("A").unwrap();
    assert_eq!(a.parent_frame_id, "B");
    assert!(!r2r_transforms::is_cyclic_all(&server.local_buffer));
    let again = server.lookup_transform("world", "A", &compose).unwrap();
    assert!(close(&again.transform, &a_in_world.transform));
}

#[test]
fn reparent_to_an_unreachable_parent_is_rejected() {
    let mut server = a_and_b();
    let b_before = server.local_buffer.get("B").unwrap().clone();
    server.reparent_transform("B", "nowhere");
    server.apply_changes(&compose);
    let b = server.local_buffer.get("B").unwrap();
    assert_eq!(b.parent_frame_id, "A");
    assert!(close(&b.transform, &b_before.transform));
}

#[test]
fn reparent_of_an_absent_frame_queues_nothing() {
    let mut server = a_and_b();
    server.reparent_transform("C", "A");
    assert_eq!(server.pending_updates.len(), 0);
}

#[test]
fn insert_with_a_name_that_is_not_the_frame_name_is_rejected() {
    let mut server: SpaceTreeServer<Pose> = SpaceTreeServer::new("test");
    server.insert_transform("x", frame("world", "y", Pose::identity()));
    server.apply_changes(&compose);
    assert!(!server.local_buffer.contains_key("x"));
    assert!(!server.local_buffer.contains_key("y"));
    assert_eq!(server.local_buffer.len(), 0);
    assert_eq!(server.pending_updates.len(), 0);
}

#[test]
fn clone_then_remove_leaves_the_copy() {
    let mut server = a_and_b();
    let a = server.local_buffer.get("A").unwrap().clone();
    server.clone_transform("A", "A2");
    server.apply_changes(&compose);
    server.remove_transform("A");
    server.apply_changes(&compose);
    assert!(!server.local_buffer.contains_key("A"));
    let copy = server.local_buffer.get("A2").unwrap();
    assert_eq!(copy.child_frame_id, "A2");
    assert_eq!(copy.parent_frame_id, "world");
    assert_eq!(copy.transform, a.transform);
    assert_eq!(copy.active, a.active);
    assert_eq!(copy.time_stamp, a.time_stamp);
    // B is left as it was, under a parent that is gone.
    assert_eq!(server.local_buffer.get("B").unwrap().parent_frame_id, "A");
    assert_eq!(
        server.get_local_transform_names(),
        vec!["B".to_string(), "A2".to_string()]
    );
}

#[test]
fn later_update_for_a_name_replaces_the_earlier_one() {
    let mut server = a_and_b();
    server.clone_transform("A", "A2");
    server.remove_transform("A");
    assert_eq!(server.pending_updates.len(), 1);
    server.apply_changes(&compose);
    assert!(!server.local_buffer.contains_key("A"));
    assert!(!server.local_buffer.contains_key("A2"));
}

#[test]
fn rename_and_rename_back() {
    let mut server = a_and_b();
    let a = server.local_buffer.get("A").unwrap().clone();
    server.rename_transform("A", "C");
    server.apply_changes(&compose);
    assert!(!server.local_buffer.contains_key("A"));
    let c = server.local_buffer.get("C").unwrap();
    assert_eq!(c.child_frame_id, "C");
    assert_eq!(c.parent_frame_id, "world");
    assert_eq!(c.transform, a.transform);
    server.rename_transform("C", "A");
    server.apply_changes(&compose);
    assert!(!server.local_buffer.contains_key("C"));
    let back = server.local_buffer.get("A").unwrap();
    assert_eq!(back.child_frame_id, "A");
    assert_eq!(back.parent_frame_id, a.parent_frame_id);
    assert_eq!(back.transform, a.transform);
    assert_eq!(
        server.get_local_transform_names(),
        vec!["B".to_string(), "A".to_string()]
    );
}

#[test]
fn rename_onto_a_name_in_use_queues_nothing() {
    let mut server = a_and_b();
    server.rename_transform("A", "B");
    assert_eq!(server.pending_updates.len(), 0);
    server.rename_transform("missing", "C");
    assert_eq!(server.pending_updates.len(), 0);
}

#[test]
fn remove_of_an_absent_name_is_a_no_op() {
    let mut server = a_and_b();
    server.remove_transform("missing");
    assert_eq!(server.pending_updates.len(), 0);
    server.apply_changes(&compose);
    assert_eq!(
        server.get_local_transform_names(),
        vec!["A".to_string(), "B".to_string()]
    );
    server.remove_transform("B");
    server.apply_changes(&compose);
    server.remove_transform("B");
    assert_eq!(server.pending_updates.len(), 0);
    server.apply_changes(&compose);
    assert_eq!(server.get_local_transform_names(), vec!["A".to_string()]);
}

#[test]
fn delete_all_wins_over_what_was_queued_before() {
    let mut server = a_and_b();
    server.insert_transform("C", frame("world", "C", Pose::identity()));
    server.move_transform("A", pose(9.0, 9.0, 9.0, 0.0));
    server.remove_transform("B");
    assert_eq!(server.pending_updates.len(), 3);
    server.delete_all_transforms();
    assert_eq!(server.pending_updates.len(), 1);
    assert_eq!(server.pending_updates.name_at(0), "delete_all");
    server.apply_changes(&compose);
    assert_eq!(server.local_buffer.len(), 0);
    assert_eq!(server.pending_updates.len(), 0);
}

#[test]
fn delete_all_on_an_empty_server() {
    let mut server: SpaceTreeServer<Pose> = SpaceTreeServer::new("test");
    server.delete_all_transforms();
    server.apply_changes(&compose);
    assert_eq!(server.local_buffer.len(), 0);
}

#[test]
fn move_overwrites_the_pose_only() {
    let mut server = a_and_b();
    let target = pose(4.0, 5.0, 6.0, 1.0);
    server.move_transform("B", target);
    server.apply_changes(&compose);
    let b = server.local_buffer.get("B").unwrap();
    assert_eq!(b.transform, target);
    assert_eq!(b.parent_frame_id, "A");
    assert_eq!(b.child_frame_id, "B");
    server.move_transform("missing", target);
    assert_eq!(server.pending_updates.len(), 0);
}

#[test]
fn add_of_a_name_in_use_is_rejected() {
    let mut server = a_and_b();
    let a = server.local_buffer.get("A").unwrap().clone();
    server.insert_transform("A", frame("B", "A", Pose::identity()));
    server.apply_changes(&compose);
    let still = server.local_buffer.get("A").unwrap();
    assert_eq!(still.parent_frame_id, "world");
    assert_eq!(still.transform, a.transform);
}

#[test]
fn add_that_would_close_a_cycle_is_rejected() {
    let mut server = server_with(vec![frame("top", "mid", Pose::identity())]);
    server.insert_transform("top", frame("mid", "top", Pose::identity()));
    server.apply_changes(&compose);
    assert!(!server.local_buffer.contains_key("top"));
    assert_eq!(server.local_buffer.len(), 1);
}

#[test]
fn one_rejection_does_not_hold_up_the_others() {
    let mut server = a_and_b();
    server.insert_transform("x", frame("world", "y", Pose::identity()));
    server.insert_transform("C", frame("B", "C", Pose::identity()));
    server.insert_transform("A", frame("world", "A", Pose::identity()));
    server.insert_transform("D", frame("C", "D", Pose::identity()));
    server.apply_changes(&compose);
    assert_eq!(
        server.get_local_transform_names(),
        vec![
            "A".to_string(),
            "B".to_string(),
            "C".to_string(),
            "D".to_string()
        ]
    );
}

#[test]
fn second_addition_of_a_batch_sees_the_first() {
    let mut server: SpaceTreeServer<Pose> = SpaceTreeServer::new("test");
    server.insert_transform("p", frame("q", "p", Pose::identity()));
    server.insert_transform("q", frame("p", "q", Pose::identity()));
    server.apply_changes(&compose);
    assert!(server.local_buffer.contains_key("p"));
    assert!(!server.local_buffer.contains_key("q"));
    assert!(!r2r_transforms::is_cyclic_all(&server.local_buffer));
}

#[test]
fn lookup_between_two_branches() {
    let server = server_with(vec![
        frame("world", "A", pose(1.0, 0.0, 0.0, 0.3)),
        frame("A", "B", pose(0.0, 2.0, 0.0, 0.7)),
        frame("world", "C", pose(-1.0, 1.0, 2.0, -0.4)),
    ]);
    let c_in_b = server.lookup_transform("B", "C", &compose).unwrap();
    assert_eq!(c_in_b.parent_frame_id, "B");
    assert_eq!(c_in_b.child_frame_id, "C");
    assert!(c_in_b.active);
    let b_in_world = pose(1.0, 0.0, 0.0, 0.3) * pose(0.0, 2.0, 0.0, 0.7);
    let expected = b_in_world.inverse() * pose(-1.0, 1.0, 2.0, -0.4);
    assert!(close(&c_in_b.transform, &expected));
    let same = server.lookup_transform("B", "B", &compose).unwrap();
    assert!(close(&same.transform, &Pose::identity()));
}

#[test]
fn lookup_with_a_root_inside_the_tree() {
    let server = a_and_b();
    let b_in_a = server.lookup_with_root("A", "B", "A", &compose).unwrap();
    assert!(close(&b_in_a.transform, &pose(0.5, -1.0, 0.25, -1.25)));
    assert!(server.lookup_with_root("world", "B", "A", &compose).is_none());
    assert!(server.lookup_with_root("A", "B", "elsewhere", &compose).is_none());
    assert!(server.lookup_transform("A", "missing", &compose).is_none());
}

#[test]
fn lookup_hands_the_chains_nearest_first() {
    let server = a_and_b();
    let path = lookup_path("world", "B", "world", &server.local_buffer).unwrap();
    assert!(path.parent_chain.is_empty());
    assert_eq!(path.child_chain.len(), 2);
    assert_eq!(path.child_chain[0], pose(0.5, -1.0, 0.25, -1.25));
    assert_eq!(path.child_chain[1], pose(1.0, 2.0, 3.0, 0.5));
    let other = lookup_path("B", "A", "world", &server.local_buffer).unwrap();
    assert_eq!(other.parent_chain.len(), 2);
    assert_eq!(other.child_chain.len(), 1);
    let count = |path: TransformPath<Pose>| {
        pose(
            path.parent_chain.len() as f64,
            path.child_chain.len() as f64,
            0.0,
            0.0,
        )
    };
    let counted =
        lookup_transform_with_root("B", "A", "world", &server.local_buffer, &count).unwrap();
    assert_eq!(counted, pose(2.0, 1.0, 0.0, 0.0));
    let by_default = lookup_transform_in_tree("B", "A", &server.local_buffer, &count).unwrap();
    assert_eq!(by_default, pose(2.0, 1.0, 0.0, 0.0));
}

#[test]
fn tree_root_is_found_from_the_oldest_frame() {
    let empty: FrameBuffer<Pose> = FrameBuffer::new();
    assert_eq!(get_tree_root(&empty), None);
    let server = a_and_b();
    assert_eq!(get_tree_root(&server.local_buffer), Some("world".to_string()));
    let mut forest: FrameBuffer<Pose> = FrameBuffer::new();
    forest.insert("x", frame("base", "x", Pose::identity()));
    forest.insert("A", frame("world", "A", Pose::identity()));
    assert_eq!(get_tree_root(&forest), Some("base".to_string()));
    let mut looped: FrameBuffer<Pose> = FrameBuffer::new();
    looped.insert("a", frame("b", "a", Pose::identity()));
    looped.insert("b", frame("a", "b", Pose::identity()));
    assert_eq!(get_tree_root(&looped), None);
}

#[test]
fn lookup_in_an_empty_buffer_goes_through_world() {
    let server: SpaceTreeServer<Pose> = SpaceTreeServer::new("test");
    let same = server.lookup_transform("world", "world", &compose).unwrap();
    assert!(close(&same.transform, &Pose::identity()));
    assert!(server.lookup_transform("world", "A", &compose).is_none());
}

fn chain(length: u64) -> FrameBuffer<Pose> {
    let mut buffer: FrameBuffer<Pose> = FrameBuffer::new();
    buffer.insert("f1", frame("world", "f1", Pose::identity()));
    for i in 2..=length {
        let child = format!("f{}", i);
        let parent = format!("f{}", i - 1);
        buffer.insert(&child, frame(&parent, &child, Pose::identity()));
    }
    buffer
}

#[test]
fn lookup_gives_up_beyond_the_depth_limit() {
    assert_eq!(MAX_RECURSION_DEPTH, 1000);
    assert_eq!(MAX_TRANSFORM_CHAIN, 1000);
    let buffer = chain(MAX_RECURSION_DEPTH + 1);
    let deepest_allowed = format!("f{}", MAX_RECURSION_DEPTH);
    let too_deep = format!("f{}", MAX_RECURSION_DEPTH + 1);
    let path = lookup_path("world", &deepest_allowed, "world", &buffer).unwrap();
    assert_eq!(path.child_chain.len() as u64, MAX_RECURSION_DEPTH);
    assert!(lookup_path("world", &too_deep, "world", &buffer).is_none());
    assert!(lookup_path(&too_deep, "world", "world", &buffer).is_none());
}

#[test]
fn lookup_gives_up_beyond_the_chain_limit() {
    let mut buffer = chain(600);
    buffer.insert("g1", frame("world", "g1", Pose::identity()));
    for i in 2..=600 {
        let child = format!("g{}", i);
        let parent = format!("g{}", i - 1);
        buffer.insert(&child, frame(&parent, &child, Pose::identity()));
    }
    let path = lookup_path("g400", "f600", "world", &buffer).unwrap();
    assert_eq!(path.child_chain.len() + path.parent_chain.len(), 1000);
    assert!(lookup_path("g401", "f600", "world", &buffer).is_none());
}

#[test]
fn lookup_in_a_cycle_fails_instead_of_running_on() {
    let mut buffer: FrameBuffer<Pose> = FrameBuffer::new();
    buffer.insert("a", frame("b", "a", Pose::identity()));
    buffer.insert("b", frame("a", "b", Pose::identity()));
    assert!(lookup_path("world", "a", "world", &buffer).is_none());
    assert!(lookup_transform_in_tree("a", "b", &buffer, &compose).is_none());
}

#[test]
fn load_scenario_with_and_without_overlay() {
    let mut scenario: FrameBuffer<Pose> = FrameBuffer::new();
    scenario.insert("A", frame("world", "A", pose(7.0, 7.0, 7.0, 0.0)));
    scenario.insert("C", frame("A", "C", Pose::identity()));

    let mut server = a_and_b();
    server.load_scenario(&scenario, false);
    assert_eq!(server.pending_updates.len(), 1);
    assert_eq!(server.pending_updates.name_at(0), "C");
    server.apply_changes(&compose);
    assert_eq!(
        server.get_local_transform_names(),
        vec!["A".to_string(), "B".to_string(), "C".to_string()]
    );

    let mut server = a_and_b();
    server.load_scenario(&scenario, true);
    assert_eq!(server.pending_updates.len(), 2);
    assert_eq!(server.pending_updates.name_at(0), "A");
    assert_eq!(server.pending_updates.name_at(1), "C");
    server.apply_changes(&compose);
    // A is in the buffer already, so its addition is turned down.
    assert_eq!(
        server.local_buffer.get("A").unwrap().transform,
        pose(1.0, 2.0, 3.0, 0.5)
    );
    assert!(server.local_buffer.contains_key("C"));
}

#[test]
fn default_frame_is_active_and_unnamed() {
    let f: Frame = TransformStamped::default(pose(1.0, 0.0, 0.0, 0.0));
    assert!(f.active);
    assert_eq!(f.parent_frame_id, "");
    assert_eq!(f.child_frame_id, "");
    assert_eq!(f.transform, pose(1.0, 0.0, 0.0, 0.0));
    assert_eq!(f.metadata, Value::Null);
    let g: Frame = TransformStamped::between("world", "A", Pose::identity());
    assert!(g.active);
    assert_eq!(g.parent_frame_id, "world");
    assert_eq!(g.child_frame_id, "A");
    assert_eq!(g.metadata, Value::Null);
    assert!(g.time_stamp >= f.time_stamp);
}
