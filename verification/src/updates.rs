//! The queue of pending updates and what committing an update does.

use crate::buffer::{lemma_insert_wf, lemma_remove_wf, BufferModel, FrameBuffer};
use crate::cycles::{check_would_produce_cycle, would_cycle};
use crate::lookup::{lookup_result, lookup_transform_with_root, path_between, TransformPath};
use crate::structs::{FrameView, TransformStamped};
use vstd::prelude::*;

verus! {

/// A queued change to one frame, waiting for the next commit.
pub enum Update<P> {
    /// Store a new frame under the name.
    Add(TransformStamped<P>),
    /// Give the frame a new pose relative to its parent.
    Move(P),
    /// Delete the frame.
    Remove,
    /// Store the frame under another name.
    Rename(String),
    /// Hang the frame under another parent, keeping it where it is in space.
    Reparent(String),
    /// Store a copy of the frame under another name.
    Clone(String),
    /// Delete every frame.
    DeleteAll,
}

/// The mathematical value of an [`Update`].
pub enum UpdateView<P> {
    Add(FrameView<P>),
    Move(P),
    Remove,
    Rename(Seq<char>),
    Reparent(Seq<char>),
    Clone(Seq<char>),
    DeleteAll,
}

impl<P> View for Update<P> {
    type V = UpdateView<P>;

    open spec fn view(&self) -> UpdateView<P> {
        match self {
            Update::Add(frame) => UpdateView::Add(frame@),
            Update::Move(pose) => UpdateView::Move(*pose),
            Update::Remove => UpdateView::Remove,
            Update::Rename(name) => UpdateView::Rename(name@),
            Update::Reparent(name) => UpdateView::Reparent(name@),
            Update::Clone(name) => UpdateView::Clone(name@),
            Update::DeleteAll => UpdateView::DeleteAll,
        }
    }
}

/// The queue as a value: names with their pending update, oldest first.
pub type QueueView<P> = Seq<(Seq<char>, UpdateView<P>)>;

/// Whether an update is pending for `name`.
pub open spec fn queued<P>(queue: QueueView<P>, name: Seq<char>) -> bool {
    exists|i: int| 0 <= i < queue.len() && (#[trigger] queue[i]).0 == name
}

/// Place in the queue of the update pending for `name`.
pub open spec fn queue_place<P>(queue: QueueView<P>, name: Seq<char>) -> int {
    choose|i: int| 0 <= i < queue.len() && (#[trigger] queue[i]).0 == name
}

/// No name has two pending updates.
pub open spec fn one_update_per_name<P>(queue: QueueView<P>) -> bool {
    forall|i: int, j: int|
        0 <= i < queue.len() && 0 <= j < queue.len() && i != j ==> (#[trigger] queue[i]).0 != (
        #[trigger] queue[j]).0
}

/// The queue after `update` has been queued for `name`: it takes the place of
/// the update that was pending for that name, or joins the end.
pub open spec fn enqueue<P>(queue: QueueView<P>, name: Seq<char>, update: UpdateView<P>) -> QueueView<
    P,
> {
    if queued(queue, name) {
        queue.update(queue_place(queue, name), (name, update))
    } else {
        queue.push((name, update))
    }
}

/// The frame that a reparent update proposes: the stored frame under the new
/// parent.
pub open spec fn reparent_candidate<P>(
    buffer: BufferModel<P>,
    name: Seq<char>,
    new_parent: Seq<char>,
) -> FrameView<P> {
    buffer.frames[name].with_parent(new_parent)
}

/// Whether committing `update` gets as far as asking for a pose: only a
/// reparent of a frame that is present and would close no cycle does.
pub open spec fn needs_pose<P>(buffer: BufferModel<P>, name: Seq<char>, update: UpdateView<P>) -> bool {
    update matches UpdateView::Reparent(new_parent) && buffer.contains(name) && !would_cycle(
        reparent_candidate(buffer, name, new_parent),
        buffer.frames,
    )
}

/// The buffer after one update has been committed.
///
/// An update that is not acceptable leaves the buffer as it was. `resolved`
/// is the pose found for a reparented frame under its new parent; it is read
/// only where [`needs_pose`] holds, and `None` there rejects the update.
pub open spec fn apply_update<P>(
    buffer: BufferModel<P>,
    name: Seq<char>,
    update: UpdateView<P>,
    resolved: Option<P>,
) -> BufferModel<P> {
    match update {
        UpdateView::Add(frame) => if name != frame.child_frame_id || buffer.contains(name)
            || would_cycle(frame, buffer.frames) {
            buffer
        } else {
            buffer.insert(name, frame)
        },
        UpdateView::Move(pose) => if buffer.contains(name) {
            buffer.insert(name, buffer.frames[name].with_transform(pose))
        } else {
            buffer
        },
        UpdateView::Remove => buffer.remove(name),
        UpdateView::Rename(new_name) => if buffer.contains(name) {
            buffer.remove(name).insert(new_name, buffer.frames[name].with_child(new_name))
        } else {
            buffer
        },
        UpdateView::Reparent(new_parent) => if needs_pose(buffer, name, update) {
            match resolved {
                Some(pose) => buffer.insert(
                    name,
                    reparent_candidate(buffer, name, new_parent).with_transform(pose),
                ),
                None => buffer,
            }
        } else {
            buffer
        },
        UpdateView::Clone(new_name) => if buffer.contains(name) {
            buffer.insert(new_name, buffer.frames[name].with_child(new_name))
        } else {
            buffer
        },
        UpdateView::DeleteAll => BufferModel::empty(),
    }
}

/// One step of a commit: `after` is `before` with the update applied, and
/// where the update needed a pose, that pose is what the lookup from the new
/// parent to the frame gave in `snapshot`, the buffer as it stood when the
/// commit began.
pub open spec fn step_ok<P, F: Fn(TransformPath<P>) -> P>(
    compose: F,
    snapshot: Map<Seq<char>, FrameView<P>>,
    root: Seq<char>,
    before: BufferModel<P>,
    name: Seq<char>,
    update: UpdateView<P>,
    after: BufferModel<P>,
) -> bool {
    exists|resolved: Option<P>|
        {
            &&& #[trigger] apply_update(before, name, update, resolved) == after
            &&& match update {
                UpdateView::Reparent(new_parent) => needs_pose(before, name, update)
                    ==> lookup_result(
                    compose,
                    path_between(snapshot, new_parent, name, root),
                    resolved,
                ),
                _ => true,
            }
        }
}

/// A whole commit: `states` lists the buffer before the first update and
/// after each one, every update applied to what the ones before it left.
pub open spec fn commit_ok<P, F: Fn(TransformPath<P>) -> P>(
    compose: F,
    snapshot: Map<Seq<char>, FrameView<P>>,
    root: Seq<char>,
    queue: QueueView<P>,
    states: Seq<BufferModel<P>>,
) -> bool {
    &&& states.len() == queue.len() + 1
    &&& forall|i: int|
        0 <= i < queue.len() ==> step_ok(
            compose,
            snapshot,
            root,
            #[trigger] states[i],
            queue[i].0,
            queue[i].1,
            states[i + 1],
        )
}

/// Committing an update keeps the buffer well formed.
pub proof fn lemma_apply_update_wf<P>(
    buffer: BufferModel<P>,
    name: Seq<char>,
    update: UpdateView<P>,
    resolved: Option<P>,
)
    requires
        buffer.wf(),
    ensures
        apply_update(buffer, name, update, resolved).wf(),
{
    match update {
        UpdateView::Add(frame) => {
            lemma_insert_wf(buffer, name, frame);
        },
        UpdateView::Move(pose) => {
            lemma_insert_wf(buffer, name, buffer.frames[name].with_transform(pose));
        },
        UpdateView::Remove => {
            lemma_remove_wf(buffer, name);
        },
        UpdateView::Rename(new_name) => {
            lemma_remove_wf(buffer, name);
            lemma_insert_wf(buffer.remove(name), new_name, buffer.frames[name].with_child(new_name));
        },
        UpdateView::Reparent(new_parent) => {
            if resolved is Some {
                lemma_insert_wf(
                    buffer,
                    name,
                    reparent_candidate(buffer, name, new_parent).with_transform(resolved->0),
                );
            }
        },
        UpdateView::Clone(new_name) => {
            lemma_insert_wf(buffer, new_name, buffer.frames[name].with_child(new_name));
        },
        UpdateView::DeleteAll => {},
    }
}

/// Commits one update to `working`.
///
/// `snapshot` is the buffer as the commit found it and `root` the root that
/// lookups in it go through; both are read only by a reparent.
pub fn commit_update<P: Copy, F: Fn(TransformPath<P>) -> P>(
    working: &mut FrameBuffer<P>,
    name: &str,
    update: &Update<P>,
    snapshot: &FrameBuffer<P>,
    root: &str,
    compose: &F,
)
    requires
        forall|path: TransformPath<P>| call_requires(*compose, (path,)),
    ensures
        step_ok(*compose, snapshot@.frames, root@, old(working)@, name@, update@, final(working)@),
        final(working)@.wf(),
{
    let ghost before = working@;
    let ghost mut resolved: Option<P> = None;
    working.well_formed();
    match update {
        Update::Add(frame) => {
            let key = name.to_owned();
            if key == frame.child_frame_id && !working.contains_key(name)
                && !check_would_produce_cycle(frame, working) {
                working.insert(name, frame.clone());
            }
        },
        Update::Move(pose) => {
            let moved = match working.get(name) {
                Some(frame) => {
                    let mut moved = frame.clone();
                    moved.transform = *pose;
                    Some(moved)
                },
                None => None,
            };
            if let Some(moved) = moved {
                working.insert(name, moved);
            }
        },
        Update::Remove => {
            working.remove(name);
        },
        Update::Rename(new_name) => {
            let renamed = match working.get(name) {
                Some(frame) => {
                    let mut renamed = frame.clone();
                    renamed.child_frame_id = new_name.clone();
                    Some(renamed)
                },
                None => None,
            };
            if let Some(renamed) = renamed {
                working.remove(name);
                working.insert(new_name.as_str(), renamed);
            }
        },
        Update::Reparent(new_parent) => {
            let candidate = match working.get(name) {
                Some(frame) => {
                    let mut candidate = frame.clone();
                    candidate.parent_frame_id = new_parent.clone();
                    Some(candidate)
                },
                None => None,
            };
            if let Some(candidate) = candidate {
                if !check_would_produce_cycle(&candidate, working) {
                    let found = lookup_transform_with_root(
                        new_parent.as_str(),
                        name,
                        root,
                        snapshot,
                        compose,
                    );
                    proof {
                        resolved = found;
                    }
                    if let Some(pose) = found {
                        let mut placed = candidate;
                        placed.transform = pose;
                        working.insert(name, placed);
                    }
                }
            }
        },
        Update::Clone(new_name) => {
            let copy = match working.get(name) {
                Some(frame) => {
                    let mut copy = frame.clone();
                    copy.child_frame_id = new_name.clone();
                    Some(copy)
                },
                None => None,
            };
            if let Some(copy) = copy {
                working.insert(new_name.as_str(), copy);
            }
        },
        Update::DeleteAll => {
            working.clear();
        },
    }
    proof {
        lemma_apply_update_wf(before, name@, update@, resolved);
        assert(apply_update(before, name@, update@, resolved) == working@);
    }
}

struct Pending<P> {
    name: String,
    update: Update<P>,
}

/// The updates queued since the last commit, at most one per name, in the
/// order in which their names were first queued.
pub struct PendingUpdates<P> {
    entries: Vec<Pending<P>>,
}

impl<P> View for PendingUpdates<P> {
    type V = QueueView<P>;

    closed spec fn view(&self) -> QueueView<P> {
        Seq::new(self.entries@.len(), |i: int| (self.entries@[i].name@, self.entries@[i].update@))
    }
}

impl<P> PendingUpdates<P> {
    #[verifier::type_invariant]
    spec fn unique_names(&self) -> bool {
        forall|i: int, j: int|
            0 <= i < self.entries@.len() && 0 <= j < self.entries@.len() && i != j
                ==> self.entries@[i].name@ != self.entries@[j].name@
    }

    /// An empty queue.
    pub fn new() -> (r: Self)
        ensures
            r@ == QueueView::<P>::empty(),
    {
        let r = PendingUpdates { entries: Vec::new() };
        assert(r@ =~= Seq::empty());
        r
    }

    /// Number of queued updates.
    pub fn len(&self) -> (n: usize)
        ensures
            n == self@.len(),
            one_update_per_name(self@),
    {
        proof {
            use_type_invariant(self);
        }
        self.entries.len()
    }

    /// The name that the update at place `i` is queued for.
    pub fn name_at(&self, i: usize) -> (r: &String)
        requires
            i < self@.len(),
        ensures
            r@ == self@[i as int].0,
    {
        &self.entries[i].name
    }

    /// The update at place `i`.
    pub fn update_at(&self, i: usize) -> (r: &Update<P>)
        requires
            i < self@.len(),
        ensures
            r@ == self@[i as int].1,
    {
        &self.entries[i].update
    }

    /// Queues `update` for `name`, in place of the update that was pending
    /// for that name.
    pub fn upsert(&mut self, name: &str, update: Update<P>)
        ensures
            final(self)@ == enqueue(old(self)@, name@, update@),
            one_update_per_name(final(self)@),
    {
        proof {
            use_type_invariant(&*self);
        }
        let ghost before = *self;
        let key = name.to_owned();
        let mut entries: Vec<Pending<P>> = Vec::new();
        core::mem::swap(&mut self.entries, &mut entries);
        let mut i: usize = 0;
        let mut found: Option<usize> = None;
        while i < entries.len()
            invariant_except_break
                found is None,
                forall|j: int| 0 <= j < i ==> entries@[j].name@ != name@,
            invariant
                i <= entries@.len(),
                entries@ == before.entries@,
                key@ == name@,
            ensures
                entries@ == before.entries@,
                match found {
                    Some(k) => k < entries@.len() && entries@[k as int].name@ == name@,
                    None => forall|j: int| 0 <= j < entries@.len() ==> entries@[j].name@ != name@,
                },
            decreases entries@.len() - i,
        {
            if entries[i].name == key {
                found = Some(i);
                break ;
            }
            i += 1;
        }
        match found {
            Some(k) => {
                entries.set(k, Pending { name: key, update });
                proof {
                    assert(before@[k as int].0 == name@);
                    assert(queued(before@, name@));
                    let place = queue_place(before@, name@);
                    assert(before@[place].0 == name@);
                    assert(place == k);
                    assert forall|a: int, b: int|
                        0 <= a < entries@.len() && 0 <= b < entries@.len() && a
                            != b implies entries@[a].name@ != entries@[b].name@ by {
                        assert(entries@[a].name@ == before.entries@[a].name@);
                        assert(entries@[b].name@ == before.entries@[b].name@);
                    }
                }
            },
            None => {
                entries.push(Pending { name: key, update });
                proof {
                    assert(!queued(before@, name@)) by {
                        if queued(before@, name@) {
                            let place = queue_place(before@, name@);
                            assert(before@[place].0 == name@);
                            assert(before.entries@[place].name@ == name@);
                        }
                    }
                }
            },
        }
        core::mem::swap(&mut self.entries, &mut entries);
        assert(self@ =~= enqueue(before@, name@, update@));
    }

    /// Empties the queue.
    pub fn clear(&mut self)
        ensures
            final(self)@ == QueueView::<P>::empty(),
    {
        self.entries = Vec::new();
        assert(self@ =~= Seq::empty());
    }
}

} // verus!
