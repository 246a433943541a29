//! The transform tree that shares its world with other authorities.

use crate::buffer::{lemma_insert_wf, BufferModel, FrameBuffer};
use crate::cycles::{check_would_produce_cycle, would_cycle};
use crate::lookup::{
    default_root, get_tree_root, lookup_result, lookup_transform_with_root, path_between,
    TransformPath,
};
use crate::space_tree::{delete_all_queue, lookup_answer, scenario_queue};
use crate::structs::{frame_views, FrameView, TransformStamped};
use crate::updates::{
    apply_update, enqueue, lemma_apply_update_wf, reparent_candidate, PendingUpdates, QueueView,
    Update, UpdateView,
};
use vstd::prelude::*;

verus! {

/// `base` with the first `count` frames of `top`, in insertion order, stored
/// over it.
pub open spec fn overlay<P>(base: BufferModel<P>, top: BufferModel<P>, count: nat) -> BufferModel<P>
    decreases count,
{
    if count == 0 {
        base
    } else {
        overlay(base, top, (count - 1) as nat).insert(
            top.names[count - 1],
            top.frames[top.names[count - 1]],
        )
    }
}

/// The best-known full tree: the frames observed from others, with the
/// frames that this server owns stored over them.
pub open spec fn global_view<P>(observed: BufferModel<P>, local: BufferModel<P>) -> BufferModel<P> {
    overlay(observed, local, local.names.len())
}

/// The observed frames after the first `count` frames of a batch have been
/// merged in: a frame is stored under its own name unless `local` holds that
/// name.
pub open spec fn merge_batch<P>(
    observed: BufferModel<P>,
    local: BufferModel<P>,
    batch: Seq<FrameView<P>>,
    count: nat,
) -> BufferModel<P>
    decreases count,
{
    if count == 0 {
        observed
    } else {
        let before = merge_batch(observed, local, batch, (count - 1) as nat);
        let frame = batch[count - 1];
        if local.contains(frame.child_frame_id) {
            before
        } else {
            before.insert(frame.child_frame_id, frame)
        }
    }
}

/// Whether committing `update` gets as far as asking for a pose, where the
/// cycle check is made against the global view.
pub open spec fn needs_pose_reconciled<P>(
    local: BufferModel<P>,
    global: Map<Seq<char>, FrameView<P>>,
    name: Seq<char>,
    update: UpdateView<P>,
) -> bool {
    update matches UpdateView::Reparent(new_parent) && local.contains(name) && !would_cycle(
        reparent_candidate(local, name, new_parent),
        global,
    )
}

/// The local buffer after one update has been committed next to a global
/// view.
///
/// Only the local buffer changes. An addition must be new to the global view
/// and close no cycle in it; a reparent must close no cycle in it; a copy
/// takes its source from it. The other updates concern the local buffer
/// alone.
pub open spec fn apply_update_reconciled<P>(
    local: BufferModel<P>,
    global: Map<Seq<char>, FrameView<P>>,
    name: Seq<char>,
    update: UpdateView<P>,
    resolved: Option<P>,
) -> BufferModel<P> {
    match update {
        UpdateView::Add(frame) => if name != frame.child_frame_id || global.contains_key(name)
            || would_cycle(frame, global) {
            local
        } else {
            local.insert(name, frame)
        },
        UpdateView::Reparent(new_parent) => if needs_pose_reconciled(local, global, name, update) {
            match resolved {
                Some(pose) => local.insert(
                    name,
                    reparent_candidate(local, name, new_parent).with_transform(pose),
                ),
                None => local,
            }
        } else {
            local
        },
        UpdateView::Clone(new_name) => if global.contains_key(name) {
            local.insert(new_name, global[name].with_child(new_name))
        } else {
            local
        },
        _ => apply_update(local, name, update, resolved),
    }
}

/// One step of a commit next to a global view: `after` is `before` with the
/// update applied, and where the update needed a pose, that pose is what the
/// lookup from the new parent to the frame gave in the global view.
pub open spec fn step_ok_reconciled<P, F: Fn(TransformPath<P>) -> P>(
    compose: F,
    global: Map<Seq<char>, FrameView<P>>,
    root: Seq<char>,
    before: BufferModel<P>,
    name: Seq<char>,
    update: UpdateView<P>,
    after: BufferModel<P>,
) -> bool {
    exists|resolved: Option<P>|
        {
            &&& #[trigger] apply_update_reconciled(before, global, name, update, resolved)
                == after
            &&& match update {
                UpdateView::Reparent(new_parent) => needs_pose_reconciled(
                    before,
                    global,
                    name,
                    update,
                ) ==> lookup_result(compose, path_between(global, new_parent, name, root), resolved),
                _ => true,
            }
        }
}

/// A whole commit next to a global view: `states` lists the local buffer
/// before the first update and after each one.
pub open spec fn commit_ok_reconciled<P, F: Fn(TransformPath<P>) -> P>(
    compose: F,
    global: Map<Seq<char>, FrameView<P>>,
    root: Seq<char>,
    queue: QueueView<P>,
    states: Seq<BufferModel<P>>,
) -> bool {
    &&& states.len() == queue.len() + 1
    &&& forall|i: int|
        0 <= i < queue.len() ==> step_ok_reconciled(
            compose,
            global,
            root,
            #[trigger] states[i],
            queue[i].0,
            queue[i].1,
            states[i + 1],
        )
}

/// A commit next to a global view keeps the local buffer well formed.
pub proof fn lemma_apply_update_reconciled_wf<P>(
    local: BufferModel<P>,
    global: Map<Seq<char>, FrameView<P>>,
    name: Seq<char>,
    update: UpdateView<P>,
    resolved: Option<P>,
)
    requires
        local.wf(),
    ensures
        apply_update_reconciled(local, global, name, update, resolved).wf(),
{
    match update {
        UpdateView::Add(frame) => {
            lemma_insert_wf(local, name, frame);
        },
        UpdateView::Reparent(new_parent) => {
            if resolved is Some {
                lemma_insert_wf(
                    local,
                    name,
                    reparent_candidate(local, name, new_parent).with_transform(resolved->0),
                );
            }
        },
        UpdateView::Clone(new_name) => {
            lemma_insert_wf(local, new_name, global[name].with_child(new_name));
        },
        _ => {
            lemma_apply_update_wf(local, name, update, resolved);
        },
    }
}

/// In the global view a frame that this server owns always stands in front
/// of an observed frame of the same name.
pub proof fn lemma_local_wins<P>(observed: BufferModel<P>, local: BufferModel<P>)
    requires
        local.wf(),
    ensures
        global_view(observed, local).frames == observed.frames.union_prefer_right(local.frames),
{
    let merged = global_view(observed, local).frames;
    let expected = observed.frames.union_prefer_right(local.frames);
    assert forall|name: Seq<char>|
        #![trigger merged.contains_key(name)]
        #![trigger expected.contains_key(name)]
        merged.contains_key(name) == expected.contains_key(name) && (merged.contains_key(name)
            ==> merged[name] == expected[name]) by {
        lemma_overlay_frames(observed, local, local.names.len(), name);
        if local.frames.contains_key(name) {
            assert(local.names.contains(name));
            let i = choose|i: int| 0 <= i < local.names.len() && local.names[i] == name;
            assert(listed(local, local.names.len(), name));
        }
        if listed(local, local.names.len(), name) {
            let i = choose|i: int| 0 <= i < local.names.len() && local.names[i] == name;
            assert(local.names.contains(name));
        }
    }
    assert(merged =~= expected);
}

/// `name` is among the first `count` names of `top`.
spec fn listed<P>(top: BufferModel<P>, count: nat, name: Seq<char>) -> bool {
    exists|i: int| 0 <= i < count && top.names[i] == name
}

proof fn lemma_overlay_frames<P>(
    base: BufferModel<P>,
    top: BufferModel<P>,
    count: nat,
    name: Seq<char>,
)
    requires
        top.wf(),
        count <= top.names.len(),
    ensures
        overlay(base, top, count).frames.contains_key(name) == (listed(top, count, name)
            || base.frames.contains_key(name)),
        listed(top, count, name) ==> overlay(base, top, count).frames[name] == top.frames[name],
        !listed(top, count, name) && base.frames.contains_key(name) ==> overlay(
            base,
            top,
            count,
        ).frames[name] == base.frames[name],
    decreases count,
{
    if count > 0 {
        lemma_overlay_frames(base, top, (count - 1) as nat, name);
        let last = top.names[count - 1];
        if name == last {
            assert(0 <= count - 1 < count && top.names[count - 1] == name);
        } else {
            if listed(top, count, name) {
                let i = choose|i: int| 0 <= i < count && top.names[i] == name;
                assert(0 <= i < count - 1 && top.names[i] == name);
            }
            if listed(top, (count - 1) as nat, name) {
                let i = choose|i: int| 0 <= i < count - 1 && top.names[i] == name;
                assert(0 <= i < count && top.names[i] == name);
            }
        }
    }
}

/// A tree of frames that is shared with other authorities.
///
/// The server owns the frames of its local buffer and is the only one to
/// change them. What it has seen of frames owned by others is kept in the
/// global buffer. Checks and lookups read the two together, the local frames
/// in front; commits change the local buffer alone.
pub struct RosSpaceTreeServer<P> {
    pub name: String,
    /// The frames that this server owns.
    pub local_buffer: FrameBuffer<P>,
    /// The frames observed from other authorities.
    pub global_buffer: FrameBuffer<P>,
    /// The updates queued since the last commit.
    pub pending_updates: PendingUpdates<P>,
}

/// Commits one update to the local buffer `working`, next to the global view
/// `global`, which is also where a reparent looks its pose up.
pub fn commit_update_reconciled<P: Copy, F: Fn(TransformPath<P>) -> P>(
    working: &mut FrameBuffer<P>,
    name: &str,
    update: &Update<P>,
    global: &FrameBuffer<P>,
    root: &str,
    compose: &F,
)
    requires
        forall|path: TransformPath<P>| call_requires(*compose, (path,)),
    ensures
        step_ok_reconciled(
            *compose,
            global@.frames,
            root@,
            old(working)@,
            name@,
            update@,
            final(working)@,
        ),
        final(working)@.wf(),
{
    let ghost before = working@;
    let ghost mut resolved: Option<P> = None;
    working.well_formed();
    match update {
        Update::Add(frame) => {
            let key = name.to_owned();
            if key == frame.child_frame_id && !global.contains_key(name)
                && !check_would_produce_cycle(frame, global) {
                working.insert(name, frame.clone());
            }
        },
        Update::Move(pose) => {
            let moved = match working.get(name) {
                Some(frame) => {
                    let mut moved = frame.clone();
                    moved.transform = *pose;
                    Some(moved)
                },
                None => None,
            };
            if let Some(moved) = moved {
                working.insert(name, moved);
            }
        },
        Update::Remove => {
            working.remove(name);
        },
        Update::Rename(new_name) => {
            let renamed = match working.get(name) {
                Some(frame) => {
                    let mut renamed = frame.clone();
                    renamed.child_frame_id = new_name.clone();
                    Some(renamed)
                },
                None => None,
            };
            if let Some(renamed) = renamed {
                working.remove(name);
                working.insert(new_name.as_str(), renamed);
            }
        },
        Update::Reparent(new_parent) => {
            let candidate = match working.get(name) {
                Some(frame) => {
                    let mut candidate = frame.clone();
                    candidate.parent_frame_id = new_parent.clone();
                    Some(candidate)
                },
                None => None,
            };
            if let Some(candidate) = candidate {
                if !check_would_produce_cycle(&candidate, global) {
                    let found = lookup_transform_with_root(
                        new_parent.as_str(),
                        name,
                        root,
                        global,
                        compose,
                    );
                    proof {
                        resolved = found;
                    }
                    if let Some(pose) = found {
                        let mut placed = candidate;
                        placed.transform = pose;
                        working.insert(name, placed);
                    }
                }
            }
        },
        Update::Clone(new_name) => {
            if let Some(frame) = global.get(name) {
                let mut copy = frame.clone();
                copy.child_frame_id = new_name.clone();
                working.insert(new_name.as_str(), copy);
            }
        },
        Update::DeleteAll => {
            working.clear();
        },
    }
    proof {
        lemma_apply_update_reconciled_wf(
            before,
            global@.frames,
            name@,
            update@,
            resolved,
        );
        assert(apply_update_reconciled(before, global@.frames, name@, update@, resolved)
            == working@);
    }
}

impl<P: Copy> RosSpaceTreeServer<P> {
    /// A server with no frames, nothing observed and nothing queued.
    pub fn new(name: &str) -> (r: Self)
        ensures
            r.name@ == name@,
            r.local_buffer@ == BufferModel::<P>::empty(),
            r.global_buffer@ == BufferModel::<P>::empty(),
            r.pending_updates@ == QueueView::<P>::empty(),
    {
        RosSpaceTreeServer {
            name: name.to_owned(),
            local_buffer: FrameBuffer::new(),
            global_buffer: FrameBuffer::new(),
            pending_updates: PendingUpdates::new(),
        }
    }

    /// The best-known full tree: a copy of the observed frames with the
    /// frames of the local buffer stored over them.
    pub fn global_snapshot(&self) -> (r: FrameBuffer<P>)
        ensures
            r@ == global_view(self.global_buffer@, self.local_buffer@),
            r@.wf(),
    {
        let mut merged = self.global_buffer.clone();
        let n = self.local_buffer.len();
        merged.well_formed();
        let mut i: usize = 0;
        while i < n
            invariant
                n == self.local_buffer@.names.len(),
                i <= n,
                merged@ == overlay(self.global_buffer@, self.local_buffer@, i as nat),
                merged@.wf(),
            decreases n - i,
        {
            let frame = self.local_buffer.frame_at(i);
            merged.insert(self.local_buffer.key_at(i).as_str(), frame.clone());
            i += 1;
        }
        merged
    }

    /// Whether the global view holds a frame under `name`: whether this
    /// server owns one or has observed one.
    pub fn known(&self, name: &str) -> (r: bool)
        ensures
            r == global_view(self.global_buffer@, self.local_buffer@).contains(name@),
    {
        self.local_buffer.well_formed();
        proof {
            lemma_local_wins(self.global_buffer@, self.local_buffer@);
        }
        self.local_buffer.contains_key(name) || self.global_buffer.contains_key(name)
    }

    /// Merges a batch of frames observed from other authorities into the
    /// global buffer, each under its own name. A frame whose name the local
    /// buffer holds is passed over: the server's own word on its frames
    /// stands.
    pub fn merge_observed(&mut self, batch: &Vec<TransformStamped<P>>)
        ensures
            final(self).name == old(self).name,
            final(self).local_buffer == old(self).local_buffer,
            final(self).pending_updates == old(self).pending_updates,
            final(self).global_buffer@ == merge_batch(
                old(self).global_buffer@,
                old(self).local_buffer@,
                frame_views(batch@),
                batch@.len(),
            ),
    {
        let ghost frames = frame_views(batch@);
        let mut i: usize = 0;
        while i < batch.len()
            invariant
                i <= batch@.len(),
                frames == frame_views(batch@),
                self.name == old(self).name,
                self.local_buffer == old(self).local_buffer,
                self.pending_updates == old(self).pending_updates,
                self.global_buffer@ == merge_batch(
                    old(self).global_buffer@,
                    old(self).local_buffer@,
                    frames,
                    i as nat,
                ),
            decreases batch@.len() - i,
        {
            let frame = &batch[i];
            assert(frames[i as int] == frame@);
            if !self.local_buffer.contains_key(frame.child_frame_id.as_str()) {
                self.global_buffer.insert(frame.child_frame_id.as_str(), frame.clone());
            }
            i += 1;
        }
    }

    /// Queues every frame of a loaded scenario as an addition. With `overlay`
    /// all of them are queued; without it, those whose name the local buffer
    /// already holds are passed over.
    pub fn load_scenario(&mut self, scenario: &FrameBuffer<P>, overlay: bool)
        ensures
            final(self).name == old(self).name,
            final(self).local_buffer == old(self).local_buffer,
            final(self).global_buffer == old(self).global_buffer,
            final(self).pending_updates@ == scenario_queue(
                old(self).pending_updates@,
                old(self).local_buffer@,
                scenario@,
                overlay,
                scenario@.names.len(),
            ),
    {
        let n = scenario.len();
        let mut i: usize = 0;
        while i < n
            invariant
                n == scenario@.names.len(),
                i <= n,
                self.name == old(self).name,
                self.local_buffer == old(self).local_buffer,
                self.global_buffer == old(self).global_buffer,
                self.pending_updates@ == scenario_queue(
                    old(self).pending_updates@,
                    old(self).local_buffer@,
                    scenario@,
                    overlay,
                    i as nat,
                ),
            decreases n - i,
        {
            let frame = scenario.frame_at(i);
            if overlay || !self.local_buffer.contains_key(frame.child_frame_id.as_str()) {
                self.insert_transform(frame.child_frame_id.as_str(), frame.clone());
            }
            i += 1;
        }
    }

    /// Queues the addition of `transform` under `name`. Whether the frame is
    /// acceptable is decided at the commit.
    pub fn insert_transform(&mut self, name: &str, transform: TransformStamped<P>)
        ensures
            final(self).name == old(self).name,
            final(self).local_buffer == old(self).local_buffer,
            final(self).global_buffer == old(self).global_buffer,
            final(self).pending_updates@ == enqueue(
                old(self).pending_updates@,
                name@,
                UpdateView::Add(transform@),
            ),
    {
        self.pending_updates.upsert(name, Update::Add(transform));
    }

    /// Queues a new pose for the frame `name`, if the local buffer holds it.
    pub fn move_transform(&mut self, name: &str, pose: P)
        ensures
            final(self).name == old(self).name,
            final(self).local_buffer == old(self).local_buffer,
            final(self).global_buffer == old(self).global_buffer,
            final(self).pending_updates@ == if old(self).local_buffer@.contains(name@) {
                enqueue(old(self).pending_updates@, name@, UpdateView::Move(pose))
            } else {
                old(self).pending_updates@
            },
    {
        if self.local_buffer.contains_key(name) {
            self.pending_updates.upsert(name, Update::Move(pose));
        }
    }

    /// Queues the removal of the frame `name`, if the local buffer holds it.
    pub fn remove_transform(&mut self, name: &str)
        ensures
            final(self).name == old(self).name,
            final(self).local_buffer == old(self).local_buffer,
            final(self).global_buffer == old(self).global_buffer,
            final(self).pending_updates@ == if old(self).local_buffer@.contains(name@) {
                enqueue(old(self).pending_updates@, name@, UpdateView::Remove)
            } else {
                old(self).pending_updates@
            },
    {
        if self.local_buffer.contains_key(name) {
            self.pending_updates.upsert(name, Update::Remove);
        }
    }

    /// Queues a new name for the frame `name`, if the local buffer holds it
    /// and the global view holds nothing under `rename_to`.
    pub fn rename_transform(&mut self, name: &str, rename_to: &str)
        ensures
            final(self).name == old(self).name,
            final(self).local_buffer == old(self).local_buffer,
            final(self).global_buffer == old(self).global_buffer,
            final(self).pending_updates@ == if old(self).local_buffer@.contains(name@)
                && !global_view(old(self).global_buffer@, old(self).local_buffer@).contains(
                rename_to@,
            ) {
                enqueue(old(self).pending_updates@, name@, UpdateView::Rename(rename_to@))
            } else {
                old(self).pending_updates@
            },
    {
        if self.local_buffer.contains_key(name) && !self.known(rename_to) {
            self.pending_updates.upsert(name, Update::Rename(rename_to.to_owned()));
        }
    }

    /// Queues a new parent for the frame `name`, if the local buffer holds
    /// the frame and the global view holds the new parent.
    pub fn reparent_transform(&mut self, name: &str, reparent_to: &str)
        ensures
            final(self).name == old(self).name,
            final(self).local_buffer == old(self).local_buffer,
            final(self).global_buffer == old(self).global_buffer,
            final(self).pending_updates@ == if old(self).local_buffer@.contains(name@)
                && global_view(old(self).global_buffer@, old(self).local_buffer@).contains(
                reparent_to@,
            ) {
                enqueue(old(self).pending_updates@, name@, UpdateView::Reparent(reparent_to@))
            } else {
                old(self).pending_updates@
            },
    {
        if self.local_buffer.contains_key(name) && self.known(reparent_to) {
            self.pending_updates.upsert(name, Update::Reparent(reparent_to.to_owned()));
        }
    }

    /// Queues a copy of the frame `name` under `clone_name`, if the global
    /// view holds `name`.
    pub fn clone_transform(&mut self, name: &str, clone_name: &str)
        ensures
            final(self).name == old(self).name,
            final(self).local_buffer == old(self).local_buffer,
            final(self).global_buffer == old(self).global_buffer,
            final(self).pending_updates@ == if global_view(
                old(self).global_buffer@,
                old(self).local_buffer@,
            ).contains(name@) {
                enqueue(old(self).pending_updates@, name@, UpdateView::Clone(clone_name@))
            } else {
                old(self).pending_updates@
            },
    {
        if self.known(name) {
            self.pending_updates.upsert(name, Update::Clone(clone_name.to_owned()));
        }
    }

    /// Drops whatever is queued and queues the deletion of every local frame.
    pub fn delete_all_transforms(&mut self)
        ensures
            final(self).name == old(self).name,
            final(self).local_buffer == old(self).local_buffer,
            final(self).global_buffer == old(self).global_buffer,
            final(self).pending_updates@ == delete_all_queue::<P>(),
    {
        self.pending_updates.clear();
        self.pending_updates.upsert("delete_all", Update::DeleteAll);
        assert(self.pending_updates@ =~= delete_all_queue::<P>());
    }

    /// The pose of `child_frame_id` in the frame of `parent_frame_id`, found
    /// in the global view through the root of its tree.
    pub fn lookup_transform<F: Fn(TransformPath<P>) -> P>(
        &self,
        parent_frame_id: &str,
        child_frame_id: &str,
        compose: &F,
    ) -> (r: Option<TransformStamped<P>>)
        requires
            forall|path: TransformPath<P>| call_requires(*compose, (path,)),
        ensures
            lookup_answer(
                *compose,
                path_between(
                    global_view(self.global_buffer@, self.local_buffer@).frames,
                    parent_frame_id@,
                    child_frame_id@,
                    default_root(global_view(self.global_buffer@, self.local_buffer@)),
                ),
                parent_frame_id@,
                child_frame_id@,
                r,
            ),
    {
        let global = self.global_snapshot();
        let root = match get_tree_root(&global) {
            Some(root) => root,
            None => "world".to_owned(),
        };
        match lookup_transform_with_root(
            parent_frame_id,
            child_frame_id,
            root.as_str(),
            &global,
            compose,
        ) {
            Some(pose) => Some(TransformStamped::between(parent_frame_id, child_frame_id, pose)),
            None => None,
        }
    }

    /// The pose of `child_frame_id` in the frame of `parent_frame_id`, found
    /// in the global view through `root_frame_id`.
    pub fn lookup_with_root<F: Fn(TransformPath<P>) -> P>(
        &self,
        parent_frame_id: &str,
        child_frame_id: &str,
        root_frame_id: &str,
        compose: &F,
    ) -> (r: Option<TransformStamped<P>>)
        requires
            forall|path: TransformPath<P>| call_requires(*compose, (path,)),
        ensures
            lookup_answer(
                *compose,
                path_between(
                    global_view(self.global_buffer@, self.local_buffer@).frames,
                    parent_frame_id@,
                    child_frame_id@,
                    root_frame_id@,
                ),
                parent_frame_id@,
                child_frame_id@,
                r,
            ),
    {
        let global = self.global_snapshot();
        match lookup_transform_with_root(
            parent_frame_id,
            child_frame_id,
            root_frame_id,
            &global,
            compose,
        ) {
            Some(pose) => Some(TransformStamped::between(parent_frame_id, child_frame_id, pose)),
            None => None,
        }
    }

    /// The names of the frames in the global view: the observed ones, oldest
    /// first, then the local ones that were not among them.
    pub fn get_all_transform_names(&self) -> (r: Vec<String>)
        ensures
            r@.len() == global_view(self.global_buffer@, self.local_buffer@).names.len(),
            forall|i: int|
                0 <= i < r@.len() ==> #[trigger] r@[i]@ == global_view(
                    self.global_buffer@,
                    self.local_buffer@,
                ).names[i],
    {
        self.global_snapshot().keys()
    }

    /// Commits the queue to the local buffer: applies the updates one by
    /// one, oldest name first, then empties the queue. Checks and lookups are
    /// made against the global view as it stood before the commit; the
    /// global buffer itself is not changed.
    pub fn apply_changes<F: Fn(TransformPath<P>) -> P>(&mut self, compose: &F)
        requires
            forall|path: TransformPath<P>| call_requires(*compose, (path,)),
        ensures
            final(self).name == old(self).name,
            final(self).global_buffer == old(self).global_buffer,
            final(self).pending_updates@ == QueueView::<P>::empty(),
            final(self).local_buffer@.wf(),
            exists|states: Seq<BufferModel<P>>|
                {
                    &&& #[trigger] commit_ok_reconciled(
                        *compose,
                        global_view(old(self).global_buffer@, old(self).local_buffer@).frames,
                        default_root(global_view(old(self).global_buffer@, old(self).local_buffer@)),
                        old(self).pending_updates@,
                        states,
                    )
                    &&& states[0] == old(self).local_buffer@
                    &&& states.last() == final(self).local_buffer@
                },
    {
        let global = self.global_snapshot();
        let root = match get_tree_root(&global) {
            Some(root) => root,
            None => "world".to_owned(),
        };
        let mut working = self.local_buffer.clone();
        let n = self.pending_updates.len();
        working.well_formed();
        let ghost queue = self.pending_updates@;
        let ghost mut states: Seq<BufferModel<P>> = seq![working@];
        let mut i: usize = 0;
        while i < n
            invariant
                forall|path: TransformPath<P>| call_requires(*compose, (path,)),
                self.name == old(self).name,
                self.global_buffer == old(self).global_buffer,
                self.pending_updates@ == queue,
                queue == old(self).pending_updates@,
                n == queue.len(),
                i <= n,
                global@ == global_view(old(self).global_buffer@, old(self).local_buffer@),
                root@ == default_root(global@),
                working@.wf(),
                states.len() == i + 1,
                states[0] == old(self).local_buffer@,
                states[i as int] == working@,
                forall|k: int|
                    0 <= k < i ==> step_ok_reconciled(
                        *compose,
                        global@.frames,
                        root@,
                        #[trigger] states[k],
                        queue[k].0,
                        queue[k].1,
                        states[k + 1],
                    ),
            decreases n - i,
        {
            commit_update_reconciled(
                &mut working,
                self.pending_updates.name_at(i).as_str(),
                self.pending_updates.update_at(i),
                &global,
                root.as_str(),
                compose,
            );
            proof {
                states = states.push(working@);
            }
            i += 1;
        }
        self.pending_updates.clear();
        self.local_buffer = working;
        proof {
            assert(commit_ok_reconciled(
                *compose,
                global_view(old(self).global_buffer@, old(self).local_buffer@).frames,
                default_root(global_view(old(self).global_buffer@, old(self).local_buffer@)),
                old(self).pending_updates@,
                states,
            ));
        }
    }
}

} // verus!
