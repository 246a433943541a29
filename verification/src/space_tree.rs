//! The transform tree with a single buffer.

use crate::buffer::{BufferModel, FrameBuffer};
use crate::lookup::{
    composed, default_root, get_tree_root, lookup_transform_with_root, path_between, PathView,
    TransformPath,
};
use crate::structs::TransformStamped;
use crate::updates::{
    commit_ok, commit_update, enqueue, step_ok, PendingUpdates, QueueView,
    Update, UpdateView,
};
use vstd::prelude::*;

verus! {

/// The queue that `delete_all_transforms` leaves: a single update, filed
/// under the name `"delete_all"`.
pub open spec fn delete_all_queue<P>() -> QueueView<P> {
    seq![("delete_all"@, UpdateView::DeleteAll)]
}

/// The queue after the first `count` frames of `scenario`, in insertion
/// order, have been offered to it. With `overlay` every frame is queued as an
/// addition under its own name; without it, only frames whose name the
/// buffer `local` does not hold.
pub open spec fn scenario_queue<P>(
    queue: QueueView<P>,
    local: BufferModel<P>,
    scenario: BufferModel<P>,
    overlay: bool,
    count: nat,
) -> QueueView<P>
    decreases count,
{
    if count == 0 {
        queue
    } else {
        let before = scenario_queue(queue, local, scenario, overlay, (count - 1) as nat);
        let frame = scenario.frames[scenario.names[count - 1]];
        if overlay || !local.contains(frame.child_frame_id) {
            enqueue(before, frame.child_frame_id, UpdateView::Add(frame))
        } else {
            before
        }
    }
}

/// What a lookup between `parent` and `child` returns: nothing where there is
/// no path, and otherwise an active frame between the two names whose pose is
/// one that `compose` gave for the path.
pub open spec fn lookup_answer<P, F: Fn(TransformPath<P>) -> P>(
    compose: F,
    path: Option<PathView<P>>,
    parent: Seq<char>,
    child: Seq<char>,
    answer: Option<TransformStamped<P>>,
) -> bool {
    match path {
        Some(path) => {
            &&& answer matches Some(frame)
            &&& frame@.active
            &&& frame@.parent_frame_id == parent
            &&& frame@.child_frame_id == child
            &&& composed(compose, path, frame@.transform)
        },
        None => answer is None,
    }
}

/// A tree of frames with a queue of pending updates.
///
/// The mutating calls only queue an update; `apply_changes` commits the
/// queue. Queries read the buffer as the last commit left it.
pub struct SpaceTreeServer<P> {
    pub name: String,
    /// The frames that this server owns.
    pub local_buffer: FrameBuffer<P>,
    /// The updates queued since the last commit.
    pub pending_updates: PendingUpdates<P>,
}

impl<P: Copy> SpaceTreeServer<P> {
    /// A server with no frames and nothing queued.
    pub fn new(name: &str) -> (r: Self)
        ensures
            r.name@ == name@,
            r.local_buffer@ == BufferModel::<P>::empty(),
            r.pending_updates@ == QueueView::<P>::empty(),
    {
        SpaceTreeServer {
            name: name.to_owned(),
            local_buffer: FrameBuffer::new(),
            pending_updates: PendingUpdates::new(),
        }
    }

    /// Queues every frame of a loaded scenario as an addition. With `overlay`
    /// all of them are queued; without it, those whose name the buffer
    /// already holds are passed over.
    pub fn load_scenario(&mut self, scenario: &FrameBuffer<P>, overlay: bool)
        ensures
            final(self).name == old(self).name,
            final(self).local_buffer == old(self).local_buffer,
            final(self).pending_updates@ == scenario_queue(
                old(self).pending_updates@,
                old(self).local_buffer@,
                scenario@,
                overlay,
                scenario@.names.len(),
            ),
    {
        let n = scenario.len();
        let mut i: usize = 0;
        while i < n
            invariant
                n == scenario@.names.len(),
                i <= n,
                self.name == old(self).name,
                self.local_buffer == old(self).local_buffer,
                self.pending_updates@ == scenario_queue(
                    old(self).pending_updates@,
                    old(self).local_buffer@,
                    scenario@,
                    overlay,
                    i as nat,
                ),
            decreases n - i,
        {
            let frame = scenario.frame_at(i);
            if overlay || !self.local_buffer.contains_key(frame.child_frame_id.as_str()) {
                self.insert_transform(frame.child_frame_id.as_str(), frame.clone());
            }
            i += 1;
        }
    }

    /// Queues the addition of `transform` under `name`. Whether the frame is
    /// acceptable is decided at the commit.
    pub fn insert_transform(&mut self, name: &str, transform: TransformStamped<P>)
        ensures
            final(self).name == old(self).name,
            final(self).local_buffer == old(self).local_buffer,
            final(self).pending_updates@ == enqueue(old(self).pending_updates@, name@, UpdateView::Add(transform@)),
    {
        self.pending_updates.upsert(name, Update::Add(transform));
    }

    /// Queues a new pose for the frame `name`, if the buffer holds it.
    pub fn move_transform(&mut self, name: &str, pose: P)
        ensures
            final(self).name == old(self).name,
            final(self).local_buffer == old(self).local_buffer,
            final(self).pending_updates@ == if old(self).local_buffer@.contains(name@) {
                enqueue(old(self).pending_updates@, name@, UpdateView::Move(pose))
            } else {
                old(self).pending_updates@
            },
    {
        if self.local_buffer.contains_key(name) {
            self.pending_updates.upsert(name, Update::Move(pose));
        }
    }

    /// Queues the removal of the frame `name`, if the buffer holds it.
    pub fn remove_transform(&mut self, name: &str)
        ensures
            final(self).name == old(self).name,
            final(self).local_buffer == old(self).local_buffer,
            final(self).pending_updates@ == if old(self).local_buffer@.contains(name@) {
                enqueue(old(self).pending_updates@, name@, UpdateView::Remove)
            } else {
                old(self).pending_updates@
            },
    {
        if self.local_buffer.contains_key(name) {
            self.pending_updates.upsert(name, Update::Remove);
        }
    }

    /// Queues a new name for the frame `name`, if the buffer holds it and
    /// holds nothing under `rename_to`.
    pub fn rename_transform(&mut self, name: &str, rename_to: &str)
        ensures
            final(self).name == old(self).name,
            final(self).local_buffer == old(self).local_buffer,
            final(self).pending_updates@ == if old(self).local_buffer@.contains(name@) && !old(
                self,
            ).local_buffer@.contains(rename_to@) {
                enqueue(old(self).pending_updates@, name@, UpdateView::Rename(rename_to@))
            } else {
                old(self).pending_updates@
            },
    {
        if self.local_buffer.contains_key(name) && !self.local_buffer.contains_key(rename_to) {
            self.pending_updates.upsert(name, Update::Rename(rename_to.to_owned()));
        }
    }

    /// Queues a new parent for the frame `name`, if the buffer holds it.
    pub fn reparent_transform(&mut self, name: &str, reparent_to: &str)
        ensures
            final(self).name == old(self).name,
            final(self).local_buffer == old(self).local_buffer,
            final(self).pending_updates@ == if old(self).local_buffer@.contains(name@) {
                enqueue(old(self).pending_updates@, name@, UpdateView::Reparent(reparent_to@))
            } else {
                old(self).pending_updates@
            },
    {
        if self.local_buffer.contains_key(name) {
            self.pending_updates.upsert(name, Update::Reparent(reparent_to.to_owned()));
        }
    }

    /// Queues a copy of the frame `name` under `clone_name`, if the buffer
    /// holds `name`.
    pub fn clone_transform(&mut self, name: &str, clone_name: &str)
        ensures
            final(self).name == old(self).name,
            final(self).local_buffer == old(self).local_buffer,
            final(self).pending_updates@ == if old(self).local_buffer@.contains(name@) {
                enqueue(old(self).pending_updates@, name@, UpdateView::Clone(clone_name@))
            } else {
                old(self).pending_updates@
            },
    {
        if self.local_buffer.contains_key(name) {
            self.pending_updates.upsert(name, Update::Clone(clone_name.to_owned()));
        }
    }

    /// Drops whatever is queued and queues the deletion of every frame.
    pub fn delete_all_transforms(&mut self)
        ensures
            final(self).name == old(self).name,
            final(self).local_buffer == old(self).local_buffer,
            final(self).pending_updates@ == delete_all_queue::<P>(),
    {
        self.pending_updates.clear();
        self.pending_updates.upsert("delete_all", Update::DeleteAll);
        assert(self.pending_updates@ =~= delete_all_queue::<P>());
    }

    /// The pose of `child_frame_id` in the frame of `parent_frame_id`,
    /// through the root of the tree.
    pub fn lookup_transform<F: Fn(TransformPath<P>) -> P>(
        &self,
        parent_frame_id: &str,
        child_frame_id: &str,
        compose: &F,
    ) -> (r: Option<TransformStamped<P>>)
        requires
            forall|path: TransformPath<P>| call_requires(*compose, (path,)),
        ensures
            lookup_answer(
                *compose,
                path_between(
                    self.local_buffer@.frames,
                    parent_frame_id@,
                    child_frame_id@,
                    default_root(self.local_buffer@),
                ),
                parent_frame_id@,
                child_frame_id@,
                r,
            ),
    {
        match get_tree_root(&self.local_buffer) {
            Some(root) => self.lookup_with_root(
                parent_frame_id,
                child_frame_id,
                root.as_str(),
                compose,
            ),
            None => self.lookup_with_root(parent_frame_id, child_frame_id, "world", compose),
        }
    }

    /// The pose of `child_frame_id` in the frame of `parent_frame_id`,
    /// through `root_frame_id`.
    pub fn lookup_with_root<F: Fn(TransformPath<P>) -> P>(
        &self,
        parent_frame_id: &str,
        child_frame_id: &str,
        root_frame_id: &str,
        compose: &F,
    ) -> (r: Option<TransformStamped<P>>)
        requires
            forall|path: TransformPath<P>| call_requires(*compose, (path,)),
        ensures
            lookup_answer(
                *compose,
                path_between(
                    self.local_buffer@.frames,
                    parent_frame_id@,
                    child_frame_id@,
                    root_frame_id@,
                ),
                parent_frame_id@,
                child_frame_id@,
                r,
            ),
    {
        match lookup_transform_with_root(
            parent_frame_id,
            child_frame_id,
            root_frame_id,
            &self.local_buffer,
            compose,
        ) {
            Some(pose) => Some(TransformStamped::between(parent_frame_id, child_frame_id, pose)),
            None => None,
        }
    }

    /// The names of the frames in the buffer, oldest first.
    pub fn get_local_transform_names(&self) -> (r: Vec<String>)
        ensures
            r@.len() == self.local_buffer@.names.len(),
            forall|i: int| 0 <= i < r@.len() ==> #[trigger] r@[i]@ == self.local_buffer@.names[i],
    {
        self.local_buffer.keys()
    }

    /// Commits the queue: applies the updates one by one, oldest name first,
    /// each to the buffer as the ones before it left it, then empties the
    /// queue. An update that is not acceptable changes nothing and does not
    /// hold up the others.
    ///
    /// A reparented frame gets the pose that a lookup from its new parent
    /// finds in the buffer as it stood before the commit.
    pub fn apply_changes<F: Fn(TransformPath<P>) -> P>(&mut self, compose: &F)
        requires
            forall|path: TransformPath<P>| call_requires(*compose, (path,)),
        ensures
            final(self).name == old(self).name,
            final(self).pending_updates@ == QueueView::<P>::empty(),
            final(self).local_buffer@.wf(),
            exists|states: Seq<BufferModel<P>>|
                {
                    &&& #[trigger] commit_ok(
                        *compose,
                        old(self).local_buffer@.frames,
                        default_root(old(self).local_buffer@),
                        old(self).pending_updates@,
                        states,
                    )
                    &&& states[0] == old(self).local_buffer@
                    &&& states.last() == final(self).local_buffer@
                },
    {
        let snapshot = self.local_buffer.clone();
        let root = match get_tree_root(&snapshot) {
            Some(root) => root,
            None => "world".to_owned(),
        };
        let mut working = self.local_buffer.clone();
        let n = self.pending_updates.len();
        working.well_formed();
        let ghost queue = self.pending_updates@;
        let ghost mut states: Seq<BufferModel<P>> = seq![working@];
        let mut i: usize = 0;
        while i < n
            invariant
                forall|path: TransformPath<P>| call_requires(*compose, (path,)),
                self.name == old(self).name,
                self.pending_updates@ == queue,
                queue == old(self).pending_updates@,
                n == queue.len(),
                i <= n,
                snapshot@ == old(self).local_buffer@,
                root@ == default_root(snapshot@),
                working@.wf(),
                states.len() == i + 1,
                states[0] == old(self).local_buffer@,
                states[i as int] == working@,
                forall|k: int|
                    0 <= k < i ==> step_ok(
                        *compose,
                        snapshot@.frames,
                        root@,
                        #[trigger] states[k],
                        queue[k].0,
                        queue[k].1,
                        states[k + 1],
                    ),
            decreases n - i,
        {
            commit_update(
                &mut working,
                self.pending_updates.name_at(i).as_str(),
                self.pending_updates.update_at(i),
                &snapshot,
                root.as_str(),
                compose,
            );
            proof {
                states = states.push(working@);
            }
            i += 1;
        }
        self.pending_updates.clear();
        self.local_buffer = working;
        proof {
            assert(commit_ok(
                *compose,
                old(self).local_buffer@.frames,
                default_root(old(self).local_buffer@),
                old(self).pending_updates@,
                states,
            ));
        }
    }
}

} // verus!
