//! What holds of buffers and commits in general.

use crate::buffer::BufferModel;
use crate::cycles::{ancestor, has_cycle, lemma_ancestor_add, on_cycle, would_cycle};
use crate::lookup::{chain_to_root, TransformPath};
use crate::space_tree::delete_all_queue;
use crate::space_tree_ros::{apply_update_reconciled, commit_ok_reconciled, step_ok_reconciled};
use crate::structs::FrameView;
use crate::updates::{
    apply_update, commit_ok, lemma_apply_update_wf, needs_pose, reparent_candidate, step_ok,
    QueueView, UpdateView,
};
use vstd::prelude::*;

verus! {

/// Every frame is stored under its own name.
pub open spec fn names_match<P>(buffer: BufferModel<P>) -> bool {
    forall|name: Seq<char>| #[trigger]
        buffer.contains(name) ==> buffer.frames[name].child_frame_id == name
}

/// Two sets of frames hold the same names with the same parents.
pub open spec fn same_parents<P>(
    a: Map<Seq<char>, FrameView<P>>,
    b: Map<Seq<char>, FrameView<P>>,
) -> bool {
    forall|name: Seq<char>|
        #![trigger a.contains_key(name)]
        #![trigger b.contains_key(name)]
        a.contains_key(name) == b.contains_key(name) && (a.contains_key(name)
            ==> a[name].parent_frame_id == b[name].parent_frame_id)
}

proof fn lemma_walk_same_parents<P>(
    a: Map<Seq<char>, FrameView<P>>,
    b: Map<Seq<char>, FrameView<P>>,
    name: Seq<char>,
    hops: nat,
)
    requires
        same_parents(a, b),
    ensures
        ancestor(a, name, hops) == ancestor(b, name, hops),
    decreases hops,
{
    if hops > 0 {
        lemma_walk_same_parents(a, b, name, (hops - 1) as nat);
        if ancestor(a, name, (hops - 1) as nat) is Some {
            let below = ancestor(a, name, (hops - 1) as nat)->0;
            assert(a.contains_key(below) == b.contains_key(below));
        }
    }
}

/// Whether there is a cycle depends on the names and their parents alone,
/// not on poses, time stamps or metadata.
pub proof fn lemma_cycles_follow_parents<P>(
    a: Map<Seq<char>, FrameView<P>>,
    b: Map<Seq<char>, FrameView<P>>,
)
    requires
        same_parents(a, b),
    ensures
        has_cycle(a) == has_cycle(b),
{
    if has_cycle(a) {
        let name = choose|name: Seq<char>| #[trigger] a.contains_key(name) && on_cycle(a, name);
        let hops = choose|hops: nat| hops >= 1 && #[trigger] ancestor(a, name, hops) == Some(name);
        lemma_walk_same_parents(a, b, name, hops);
        assert(b.contains_key(name) && on_cycle(b, name));
    }
    if has_cycle(b) {
        let name = choose|name: Seq<char>| #[trigger] b.contains_key(name) && on_cycle(b, name);
        let hops = choose|hops: nat| hops >= 1 && #[trigger] ancestor(b, name, hops) == Some(name);
        lemma_walk_same_parents(a, b, name, hops);
        assert(a.contains_key(name) && on_cycle(a, name));
    }
}

proof fn lemma_walk_after_removal<P>(
    frames: Map<Seq<char>, FrameView<P>>,
    gone: Seq<char>,
    name: Seq<char>,
    hops: nat,
)
    requires
        ancestor(frames.remove(gone), name, hops) is Some,
    ensures
        ancestor(frames, name, hops) == ancestor(frames.remove(gone), name, hops),
    decreases hops,
{
    if hops > 0 {
        lemma_walk_after_removal(frames, gone, name, (hops - 1) as nat);
    }
}

/// Taking a frame away closes no cycle.
pub proof fn lemma_removal_closes_no_cycle<P>(frames: Map<Seq<char>, FrameView<P>>, gone: Seq<char>)
    requires
        !has_cycle(frames),
    ensures
        !has_cycle(frames.remove(gone)),
{
    let rest = frames.remove(gone);
    if has_cycle(rest) {
        let name = choose|name: Seq<char>| #[trigger]
            rest.contains_key(name) && on_cycle(rest, name);
        let hops = choose|hops: nat|
            hops >= 1 && #[trigger] ancestor(rest, name, hops) == Some(name);
        lemma_walk_after_removal(frames, gone, name, hops);
        assert(frames.contains_key(name) && on_cycle(frames, name));
    }
}

/// No frame names `name` as its parent.
pub open spec fn nobody_under<P>(frames: Map<Seq<char>, FrameView<P>>, name: Seq<char>) -> bool {
    forall|other: Seq<char>| #[trigger]
        frames.contains_key(other) ==> frames[other].parent_frame_id != name
}

proof fn lemma_walk_past_a_leaf<P>(
    frames: Map<Seq<char>, FrameView<P>>,
    leaf: Seq<char>,
    name: Seq<char>,
    hops: nat,
)
    requires
        nobody_under(frames, leaf),
        name != leaf,
    ensures
        ancestor(frames, name, hops) != Some(leaf),
        ancestor(frames, name, hops) == ancestor(frames.remove(leaf), name, hops),
    decreases hops,
{
    if hops > 0 {
        lemma_walk_past_a_leaf(frames, leaf, name, (hops - 1) as nat);
    }
}

/// Storing a frame under a name that no frame names as its parent, the new
/// frame included, closes no cycle.
pub proof fn lemma_leaf_closes_no_cycle<P>(
    frames: Map<Seq<char>, FrameView<P>>,
    name: Seq<char>,
    frame: FrameView<P>,
)
    requires
        !has_cycle(frames),
        nobody_under(frames, name),
        frame.parent_frame_id != name,
    ensures
        !has_cycle(frames.insert(name, frame)),
{
    let after = frames.insert(name, frame);
    assert(nobody_under(after, name));
    if has_cycle(after) {
        let start = choose|start: Seq<char>| #[trigger]
            after.contains_key(start) && on_cycle(after, start);
        let hops = choose|hops: nat|
            hops >= 1 && #[trigger] ancestor(after, start, hops) == Some(start);
        if start == name {
            let below = ancestor(after, start, (hops - 1) as nat)->0;
            assert(after.contains_key(below) && after[below].parent_frame_id == name);
        } else {
            lemma_walk_past_a_leaf(after, name, start, hops);
            assert(after.remove(name) =~= frames.remove(name));
            assert(frames.remove(name).contains_key(start) && on_cycle(
                frames.remove(name),
                start,
            ));
            lemma_removal_closes_no_cycle(frames, name);
        }
    }
}

/// A commit keeps every frame stored under its own name.
pub proof fn lemma_commit_keeps_names<P>(
    buffer: BufferModel<P>,
    name: Seq<char>,
    update: UpdateView<P>,
    resolved: Option<P>,
)
    requires
        names_match(buffer),
    ensures
        names_match(apply_update(buffer, name, update, resolved)),
{
    let after = apply_update(buffer, name, update, resolved);
    assert forall|other: Seq<char>| #[trigger] after.contains(other) implies after.frames[other].child_frame_id
        == other by {
        if buffer.contains(other) {
            assert(buffer.frames[other].child_frame_id == other);
        }
        if buffer.contains(name) {
            assert(buffer.frames[name].child_frame_id == name);
        }
    }
}

/// A buffer without a cycle has none after an update is committed, as long
/// as a rename or a copy uses a new name that no frame names as its parent.
///
/// Those two store a frame under a name of the caller's choice without
/// asking the cycle check. Where other frames already name that name as
/// their parent, the new frame can close a loop: with `a` under `b` and `c`
/// under `a`, renaming `c` to `b` leaves `a` and `b` parents of each other.
pub proof fn lemma_commit_keeps_acyclic<P>(
    buffer: BufferModel<P>,
    name: Seq<char>,
    update: UpdateView<P>,
    resolved: Option<P>,
)
    requires
        !has_cycle(buffer.frames),
        names_match(buffer),
        update matches UpdateView::Rename(new_name) ==> nobody_under(buffer.frames, new_name),
        update matches UpdateView::Clone(new_name) ==> nobody_under(buffer.frames, new_name),
    ensures
        !has_cycle(apply_update(buffer, name, update, resolved).frames),
{
    let after = apply_update(buffer, name, update, resolved);
    match update {
        UpdateView::Add(frame) => {},
        UpdateView::Move(pose) => {
            if buffer.contains(name) {
                lemma_cycles_follow_parents(buffer.frames, after.frames);
            }
        },
        UpdateView::Remove => {
            lemma_removal_closes_no_cycle(buffer.frames, name);
        },
        UpdateView::Rename(new_name) => {
            if buffer.contains(name) {
                lemma_removal_closes_no_cycle(buffer.frames, name);
                let rest = buffer.frames.remove(name);
                assert(nobody_under(rest, new_name)) by {
                    assert forall|other: Seq<char>| #[trigger]
                        rest.contains_key(other) implies rest[other].parent_frame_id
                        != new_name by {
                        assert(buffer.frames.contains_key(other));
                    }
                }
                lemma_leaf_closes_no_cycle(
                    rest,
                    new_name,
                    buffer.frames[name].with_child(new_name),
                );
            }
        },
        UpdateView::Reparent(new_parent) => {
            if after != buffer {
                let candidate = reparent_candidate(buffer, name, new_parent);
                assert(buffer.contains(name));
                assert(candidate.child_frame_id == name);
                assert(!would_cycle(candidate, buffer.frames));
                lemma_cycles_follow_parents(buffer.frames.insert(name, candidate), after.frames);
            }
        },
        UpdateView::Clone(new_name) => {
            if buffer.contains(name) {
                lemma_leaf_closes_no_cycle(
                    buffer.frames,
                    new_name,
                    buffer.frames[name].with_child(new_name),
                );
            }
        },
        UpdateView::DeleteAll => {
            assert(after.frames =~= Map::empty());
        },
    }
}

/// Renaming a frame and then renaming it back gives the frame at its old
/// name the parent and the pose that it had. The place of the name in the
/// insertion order is not restored.
pub proof fn lemma_rename_round_trip<P>(
    buffer: BufferModel<P>,
    name: Seq<char>,
    other: Seq<char>,
    first: Option<P>,
    second: Option<P>,
)
    requires
        buffer.contains(name),
    ensures
        ({
            let there = apply_update(buffer, name, UpdateView::Rename(other), first);
            let back = apply_update(there, other, UpdateView::Rename(name), second);
            &&& back.contains(name)
            &&& back.frames[name].parent_frame_id == buffer.frames[name].parent_frame_id
            &&& back.frames[name].transform == buffer.frames[name].transform
            &&& back.frames[name] == buffer.frames[name].with_child(name)
        }),
{
}

/// Where the new name was free and the frame was stored under its own name,
/// renaming it and renaming it back restores the whole map of frames.
pub proof fn lemma_rename_round_trip_restores<P>(
    buffer: BufferModel<P>,
    name: Seq<char>,
    other: Seq<char>,
    first: Option<P>,
    second: Option<P>,
)
    requires
        buffer.contains(name),
        !buffer.contains(other),
        buffer.frames[name].child_frame_id == name,
    ensures
        ({
            let there = apply_update(buffer, name, UpdateView::Rename(other), first);
            let back = apply_update(there, other, UpdateView::Rename(name), second);
            back.frames == buffer.frames
        }),
{
    let there = apply_update(buffer, name, UpdateView::Rename(other), first);
    let back = apply_update(there, other, UpdateView::Rename(name), second);
    assert(back.frames =~= buffer.frames);
}

/// An addition filed under a name that is not the frame's own changes
/// nothing: neither name gets a frame.
pub proof fn lemma_mismatched_add_is_rejected<P>(
    buffer: BufferModel<P>,
    name: Seq<char>,
    frame: FrameView<P>,
    resolved: Option<P>,
)
    requires
        name != frame.child_frame_id,
    ensures
        apply_update(buffer, name, UpdateView::Add(frame), resolved) == buffer,
{
}

/// Copying a frame and then removing it leaves the copy, with the parent and
/// the pose of the frame that is gone.
pub proof fn lemma_copy_outlives_its_source<P>(
    buffer: BufferModel<P>,
    name: Seq<char>,
    copy: Seq<char>,
    first: Option<P>,
    second: Option<P>,
)
    requires
        buffer.contains(name),
        name != copy,
    ensures
        ({
            let copied = apply_update(buffer, name, UpdateView::Clone(copy), first);
            let after = apply_update(copied, name, UpdateView::Remove, second);
            &&& !after.contains(name)
            &&& after.contains(copy)
            &&& after.frames[copy] == buffer.frames[name].with_child(copy)
        }),
{
}

/// Removing a name that is not in the buffer changes nothing.
pub proof fn lemma_remove_absent<P>(buffer: BufferModel<P>, name: Seq<char>, resolved: Option<P>)
    requires
        !buffer.contains(name),
    ensures
        apply_update(buffer, name, UpdateView::Remove, resolved) == buffer,
{
    let after = apply_update(buffer, name, UpdateView::Remove, resolved);
    assert(after.frames =~= buffer.frames);
}

/// Removing a frame twice is removing it once.
pub proof fn lemma_remove_idempotent<P>(
    buffer: BufferModel<P>,
    name: Seq<char>,
    first: Option<P>,
    second: Option<P>,
)
    ensures
        ({
            let once = apply_update(buffer, name, UpdateView::Remove, first);
            apply_update(once, name, UpdateView::Remove, second) == once
        }),
{
    let once = apply_update(buffer, name, UpdateView::Remove, first);
    lemma_remove_absent(once, name, second);
}

/// Committing the queue that `delete_all_transforms` leaves gives an empty
/// buffer, whatever the buffer held.
pub proof fn lemma_delete_all_commit<P, F: Fn(TransformPath<P>) -> P>(
    compose: F,
    snapshot: Map<Seq<char>, FrameView<P>>,
    root: Seq<char>,
    states: Seq<BufferModel<P>>,
)
    requires
        commit_ok(compose, snapshot, root, delete_all_queue::<P>(), states),
    ensures
        states.last() == BufferModel::<P>::empty(),
{
    let queue = delete_all_queue::<P>();
    assert(queue.len() == 1 && queue[0].1 == UpdateView::<P>::DeleteAll);
    assert(step_ok(compose, snapshot, root, states[0], queue[0].0, queue[0].1, states[0int + 1]));
}

/// The same next to a global view: the local buffer ends up empty.
pub proof fn lemma_delete_all_commit_reconciled<P, F: Fn(TransformPath<P>) -> P>(
    compose: F,
    global: Map<Seq<char>, FrameView<P>>,
    root: Seq<char>,
    states: Seq<BufferModel<P>>,
)
    requires
        commit_ok_reconciled(compose, global, root, delete_all_queue::<P>(), states),
    ensures
        states.last() == BufferModel::<P>::empty(),
{
    let queue = delete_all_queue::<P>();
    assert(queue.len() == 1 && queue[0].1 == UpdateView::<P>::DeleteAll);
    assert(step_ok_reconciled(
        compose,
        global,
        root,
        states[0],
        queue[0].0,
        queue[0].1,
        states[0int + 1],
    ));
}

/// A commit next to a global view keeps every local frame stored under its
/// own name.
pub proof fn lemma_commit_keeps_names_reconciled<P>(
    local: BufferModel<P>,
    global: Map<Seq<char>, FrameView<P>>,
    name: Seq<char>,
    update: UpdateView<P>,
    resolved: Option<P>,
)
    requires
        names_match(local),
    ensures
        names_match(apply_update_reconciled(local, global, name, update, resolved)),
{
    let after = apply_update_reconciled(local, global, name, update, resolved);
    lemma_commit_keeps_names(local, name, update, resolved);
    assert forall|other: Seq<char>| #[trigger] after.contains(other) implies after.frames[other].child_frame_id
        == other by {
        if local.contains(other) {
            assert(local.frames[other].child_frame_id == other);
        }
        if local.contains(name) {
            assert(local.frames[name].child_frame_id == name);
        }
    }
}

/// Whether the walk from `from` towards `root` comes to `name` before it
/// ends.
pub open spec fn walk_passes<P>(
    frames: Map<Seq<char>, FrameView<P>>,
    from: Seq<char>,
    root: Seq<char>,
    limit: nat,
    name: Seq<char>,
) -> bool
    decreases limit,
{
    if from == root || limit == 0 || !frames.contains_key(from) {
        false
    } else {
        from == name || walk_passes(
            frames,
            frames[from].parent_frame_id,
            root,
            (limit - 1) as nat,
            name,
        )
    }
}

proof fn lemma_walk_reaches<P>(
    frames: Map<Seq<char>, FrameView<P>>,
    replaced: FrameView<P>,
    from: Seq<char>,
    root: Seq<char>,
    limit: nat,
    name: Seq<char>,
) -> (hops: nat)
    requires
        walk_passes(frames, from, root, limit, name),
    ensures
        ancestor(frames.insert(name, replaced), from, hops) == Some(name),
    decreases limit,
{
    if from == name {
        0
    } else {
        let changed = frames.insert(name, replaced);
        let above = frames[from].parent_frame_id;
        let further = lemma_walk_reaches(frames, replaced, above, root, (limit - 1) as nat, name);
        assert(ancestor(changed, from, 1) == Some(above)) by {
            assert(ancestor(changed, from, 0) == Some(from));
            assert(changed.contains_key(from) && changed[from] == frames[from]);
        }
        lemma_ancestor_add(changed, from, 1, further);
        further + 1
    }
}

proof fn lemma_chain_unchanged<P>(
    frames: Map<Seq<char>, FrameView<P>>,
    replaced: FrameView<P>,
    from: Seq<char>,
    root: Seq<char>,
    limit: nat,
    name: Seq<char>,
)
    requires
        !walk_passes(frames, from, root, limit, name),
        chain_to_root(frames, from, root, limit) is Some,
    ensures
        chain_to_root(frames.insert(name, replaced), from, root, limit) == chain_to_root(
            frames,
            from,
            root,
            limit,
        ),
    decreases limit,
{
    if from != root {
        lemma_chain_unchanged(
            frames,
            replaced,
            frames[from].parent_frame_id,
            root,
            (limit - 1) as nat,
            name,
        );
    }
}

/// After a reparent the frame hangs where its new parent hung: its chain to
/// the root is its new pose followed by the chain that the new parent had.
///
/// The new pose is what the composer made of the old chains of the frame and
/// of the new parent. Where composing means multiplying out, the frame
/// therefore stays where it was in the root's frame; the library does not
/// compute with poses and says no more than this about them.
pub proof fn lemma_reparent_keeps_chain<P>(
    buffer: BufferModel<P>,
    name: Seq<char>,
    new_parent: Seq<char>,
    root: Seq<char>,
    limit: nat,
    pose: P,
)
    requires
        needs_pose(buffer, name, UpdateView::Reparent(new_parent)),
        buffer.frames[name].child_frame_id == name,
        name != root,
        chain_to_root(buffer.frames, new_parent, root, limit) is Some,
    ensures
        ({
            let after = apply_update(buffer, name, UpdateView::Reparent(new_parent), Some(pose));
            let above = chain_to_root(buffer.frames, new_parent, root, limit)->0;
            &&& after.frames[name].parent_frame_id == new_parent
            &&& after.frames[name].transform == pose
            &&& chain_to_root(after.frames, new_parent, root, limit) == Some(above)
            &&& chain_to_root(after.frames, name, root, limit + 1) == Some(seq![pose] + above)
        }),
{
    let frames = buffer.frames;
    let candidate = reparent_candidate(buffer, name, new_parent);
    let placed = candidate.with_transform(pose);
    if walk_passes(frames, new_parent, root, limit, name) {
        let changed = frames.insert(name, candidate);
        let hops = lemma_walk_reaches(frames, candidate, new_parent, root, limit, name);
        assert(ancestor(changed, name, 1) == Some(new_parent)) by {
            assert(ancestor(changed, name, 0) == Some(name));
        }
        lemma_ancestor_add(changed, name, 1, hops);
        assert(on_cycle(changed, name));
        assert(changed.contains_key(name));
        assert(would_cycle(candidate, frames));
    }
    lemma_chain_unchanged(frames, placed, new_parent, root, limit, name);
    let after = frames.insert(name, placed);
    assert(chain_to_root(after, name, root, limit + 1) == Some(
        seq![pose] + chain_to_root(frames, new_parent, root, limit)->0,
    )) by {
        assert(after.contains_key(name) && after[name] == placed);
        assert((limit + 1 - 1) as nat == limit);
    }
}

/// The buffer after the first `count` updates of `queue` have been committed
/// one after the other, none of them given a pose.
pub open spec fn commit_without_poses<P>(
    buffer: BufferModel<P>,
    queue: QueueView<P>,
    count: nat,
) -> BufferModel<P>
    decreases count,
{
    if count == 0 {
        buffer
    } else {
        apply_update(
            commit_without_poses(buffer, queue, (count - 1) as nat),
            queue[count - 1].0,
            queue[count - 1].1,
            None,
        )
    }
}

/// A commit of a queue that holds no reparent has one outcome, whatever the
/// composer: the updates applied in turn.
pub proof fn lemma_commit_is_determined<P, F: Fn(TransformPath<P>) -> P>(
    compose: F,
    snapshot: Map<Seq<char>, FrameView<P>>,
    root: Seq<char>,
    queue: QueueView<P>,
    states: Seq<BufferModel<P>>,
)
    requires
        commit_ok(compose, snapshot, root, queue, states),
        forall|i: int| 0 <= i < queue.len() ==> !((#[trigger] queue[i]).1 is Reparent),
    ensures
        states.last() == commit_without_poses(states[0], queue, queue.len()),
{
    lemma_commit_prefix(compose, snapshot, root, queue, states, queue.len());
}

proof fn lemma_commit_prefix<P, F: Fn(TransformPath<P>) -> P>(
    compose: F,
    snapshot: Map<Seq<char>, FrameView<P>>,
    root: Seq<char>,
    queue: QueueView<P>,
    states: Seq<BufferModel<P>>,
    count: nat,
)
    requires
        commit_ok(compose, snapshot, root, queue, states),
        forall|i: int| 0 <= i < queue.len() ==> !((#[trigger] queue[i]).1 is Reparent),
        count <= queue.len(),
    ensures
        states[count as int] == commit_without_poses(states[0], queue, count),
    decreases count,
{
    if count > 0 {
        lemma_commit_prefix(compose, snapshot, root, queue, states, (count - 1) as nat);
        let i = count - 1;
        assert(!(queue[i].1 is Reparent));
        assert(step_ok(compose, snapshot, root, states[i], queue[i].0, queue[i].1, states[i + 1]));
    }
}

/// A commit that holds no rename and no copy takes a buffer that is well
/// formed, stores every frame under its own name and has no cycle to a
/// buffer of the same kind.
pub proof fn lemma_commit_keeps_invariants<P, F: Fn(TransformPath<P>) -> P>(
    compose: F,
    snapshot: Map<Seq<char>, FrameView<P>>,
    root: Seq<char>,
    queue: QueueView<P>,
    states: Seq<BufferModel<P>>,
)
    requires
        commit_ok(compose, snapshot, root, queue, states),
        states[0].wf(),
        names_match(states[0]),
        !has_cycle(states[0].frames),
        forall|i: int|
            0 <= i < queue.len() ==> !((#[trigger] queue[i]).1 is Rename) && !(queue[i].1
                is Clone),
    ensures
        states.last().wf(),
        names_match(states.last()),
        !has_cycle(states.last().frames),
{
    lemma_invariants_prefix(compose, snapshot, root, queue, states, queue.len());
}

proof fn lemma_invariants_prefix<P, F: Fn(TransformPath<P>) -> P>(
    compose: F,
    snapshot: Map<Seq<char>, FrameView<P>>,
    root: Seq<char>,
    queue: QueueView<P>,
    states: Seq<BufferModel<P>>,
    count: nat,
)
    requires
        commit_ok(compose, snapshot, root, queue, states),
        states[0].wf(),
        names_match(states[0]),
        !has_cycle(states[0].frames),
        forall|i: int|
            0 <= i < queue.len() ==> !((#[trigger] queue[i]).1 is Rename) && !(queue[i].1
                is Clone),
        count <= queue.len(),
    ensures
        states[count as int].wf(),
        names_match(states[count as int]),
        !has_cycle(states[count as int].frames),
    decreases count,
{
    if count > 0 {
        lemma_invariants_prefix(compose, snapshot, root, queue, states, (count - 1) as nat);
        let i = count - 1;
        assert(!(queue[i].1 is Rename) && !(queue[i].1 is Clone));
        assert(step_ok(compose, snapshot, root, states[i], queue[i].0, queue[i].1, states[i + 1]));
        let resolved = choose|resolved: Option<P>| #[trigger]
            apply_update(states[i], queue[i].0, queue[i].1, resolved) == states[i + 1];
        lemma_apply_update_wf(states[i], queue[i].0, queue[i].1, resolved);
        lemma_commit_keeps_names(states[i], queue[i].0, queue[i].1, resolved);
        lemma_commit_keeps_acyclic(states[i], queue[i].0, queue[i].1, resolved);
    }
}

} // verus!
