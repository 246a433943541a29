//! Cycle checking on the graph of parent pointers.

use crate::buffer::{BufferModel, FrameBuffer};
use crate::structs::{FrameView, TransformStamped};
use vstd::prelude::*;

verus! {

/// The name reached from `name` after `hops` steps along parent pointers.
///
/// A step leaves a name only while a frame is stored under it, so the result
/// is `None` as soon as the walk has passed a name that has no frame.
pub open spec fn ancestor<P>(
    frames: Map<Seq<char>, FrameView<P>>,
    name: Seq<char>,
    hops: nat,
) -> Option<Seq<char>>
    decreases hops,
{
    if hops == 0 {
        Some(name)
    } else {
        match ancestor(frames, name, (hops - 1) as nat) {
            Some(below) => if frames.contains_key(below) {
                Some(frames[below].parent_frame_id)
            } else {
                None
            },
            None => None,
        }
    }
}

/// `name` is its own ancestor: one or more steps along parent pointers lead
/// from it back to itself.
pub open spec fn on_cycle<P>(frames: Map<Seq<char>, FrameView<P>>, name: Seq<char>) -> bool {
    exists|hops: nat| hops >= 1 && #[trigger] ancestor(frames, name, hops) == Some(name)
}

/// The walk along parent pointers that starts at `name` reaches a name that
/// lies on a cycle; from there on it revisits names for ever.
pub open spec fn leads_to_cycle<P>(frames: Map<Seq<char>, FrameView<P>>, name: Seq<char>) -> bool {
    exists|hops: nat|
        (#[trigger] ancestor(frames, name, hops)) matches Some(a) && on_cycle(frames, a)
}

/// Some frame is its own ancestor.
pub open spec fn has_cycle<P>(frames: Map<Seq<char>, FrameView<P>>) -> bool {
    exists|name: Seq<char>| #[trigger] frames.contains_key(name) && on_cycle(frames, name)
}

/// Storing `frame` under its own name would leave the buffer with a cycle.
pub open spec fn would_cycle<P>(frame: FrameView<P>, frames: Map<Seq<char>, FrameView<P>>) -> bool {
    has_cycle(frames.insert(frame.child_frame_id, frame))
}

/// `path` is a closed loop of frames: each one is present and names the next
/// as its parent, and the last names the first.
pub open spec fn is_loop<P>(frames: Map<Seq<char>, FrameView<P>>, path: Seq<Seq<char>>) -> bool {
    &&& path.len() > 0
    &&& forall|i: int|
        0 <= i < path.len() ==> {
            &&& frames.contains_key(#[trigger] path[i])
            &&& frames[path[i]].parent_frame_id == path[if i + 1 == path.len() {
                0
            } else {
                i + 1
            }]
        }
}

/// Once the walk has ended it stays ended.
pub proof fn lemma_ancestor_ends<P>(
    frames: Map<Seq<char>, FrameView<P>>,
    name: Seq<char>,
    early: nat,
    late: nat,
)
    requires
        early <= late,
        ancestor(frames, name, early) is None,
    ensures
        ancestor(frames, name, late) is None,
    decreases late,
{
    if early < late {
        lemma_ancestor_ends(frames, name, early, (late - 1) as nat);
    }
}

/// Walking `first` steps and then `then` more is walking `first + then` steps.
pub proof fn lemma_ancestor_add<P>(
    frames: Map<Seq<char>, FrameView<P>>,
    name: Seq<char>,
    first: nat,
    then: nat,
)
    requires
        ancestor(frames, name, first) is Some,
    ensures
        ancestor(frames, name, first + then) == ancestor(
            frames,
            ancestor(frames, name, first)->0,
            then,
        ),
    decreases then,
{
    if then > 0 {
        lemma_ancestor_add(frames, name, first, (then - 1) as nat);
        assert((first + then - 1) as nat == first + (then - 1) as nat);
    }
}

/// A name with no frame is on no cycle, and the walk from it goes nowhere.
pub proof fn lemma_absent_name<P>(frames: Map<Seq<char>, FrameView<P>>, name: Seq<char>)
    requires
        !frames.contains_key(name),
    ensures
        !on_cycle(frames, name),
        !leads_to_cycle(frames, name),
{
    assert(ancestor(frames, name, 1) is None) by {
        reveal_with_fuel(ancestor, 2);
    }
    assert forall|hops: nat| hops >= 1 implies #[trigger] ancestor(frames, name, hops)
        is None by {
        lemma_ancestor_ends(frames, name, 1, hops);
    }
    assert forall|hops: nat|
        !((#[trigger] ancestor(frames, name, hops)) matches Some(a) && on_cycle(frames, a)) by {
        if hops >= 1 {
            assert(ancestor(frames, name, hops) is None);
        }
    }
}

/// The walk from a name on a cycle never ends.
pub proof fn lemma_cycle_never_ends<P>(
    frames: Map<Seq<char>, FrameView<P>>,
    name: Seq<char>,
    hops: nat,
)
    requires
        on_cycle(frames, name),
    ensures
        ancestor(frames, name, hops) is Some,
    decreases hops,
{
    let period = choose|period: nat|
        period >= 1 && #[trigger] ancestor(frames, name, period) == Some(name);
    if hops <= period {
        if ancestor(frames, name, hops) is None {
            lemma_ancestor_ends(frames, name, hops, period);
        }
    } else {
        lemma_cycle_never_ends(frames, name, (hops - period) as nat);
        lemma_ancestor_add(frames, name, period, (hops - period) as nat);
        assert(period + (hops - period) as nat == hops);
    }
}

/// If the walk from `name` ends, it leads to no cycle.
pub proof fn lemma_ended_walk<P>(frames: Map<Seq<char>, FrameView<P>>, name: Seq<char>, end: nat)
    requires
        ancestor(frames, name, end) is None,
    ensures
        !leads_to_cycle(frames, name),
{
    assert forall|hops: nat|
        !((#[trigger] ancestor(frames, name, hops)) matches Some(a) && on_cycle(frames, a)) by {
        let a = ancestor(frames, name, hops)->0;
        if ancestor(frames, name, hops) is Some && on_cycle(frames, a) {
            if hops >= end {
                lemma_ancestor_ends(frames, name, end, hops);
            } else {
                lemma_cycle_never_ends(frames, a, (end - hops) as nat);
                lemma_ancestor_add(frames, name, hops, (end - hops) as nat);
                assert(hops + (end - hops) as nat == end);
            }
        }
    }
}

/// If the walk from `name` is at the same name after `i` and after `j` steps,
/// it leads to a cycle.
pub proof fn lemma_revisit<P>(frames: Map<Seq<char>, FrameView<P>>, name: Seq<char>, i: nat, j: nat)
    requires
        i < j,
        ancestor(frames, name, i) is Some,
        ancestor(frames, name, i) == ancestor(frames, name, j),
    ensures
        leads_to_cycle(frames, name),
{
    let a = ancestor(frames, name, i)->0;
    lemma_ancestor_add(frames, name, i, (j - i) as nat);
    assert(i + (j - i) as nat == j);
    assert(ancestor(frames, a, (j - i) as nat) == Some(a));
    assert(on_cycle(frames, a));
}

/// More than `bound` numbers below `bound` cannot all differ.
proof fn lemma_pigeonhole(s: Seq<int>, bound: nat)
    requires
        s.len() > bound,
        forall|i: int| 0 <= i < s.len() ==> 0 <= #[trigger] s[i] < bound,
    ensures
        exists|i: int, j: int| 0 <= i < j < s.len() && s[i] == s[j],
{
    if !(exists|i: int, j: int| 0 <= i < j < s.len() && s[i] == s[j]) {
        assert(s.no_duplicates()) by {
            assert forall|i: int, j: int|
                0 <= i < s.len() && 0 <= j < s.len() && i != j implies s[i] != s[j] by {
                if i < j {
                    assert(!(0 <= i < j < s.len() && s[i] == s[j]));
                } else {
                    assert(!(0 <= j < i < s.len() && s[j] == s[i]));
                }
            }
        }
        s.unique_seq_to_set();
        let range = vstd::set_lib::set_int_range(0, bound as int);
        vstd::set_lib::lemma_int_range(0, bound as int);
        assert(s.to_set().subset_of(range)) by {
            assert forall|x: int| s.to_set().contains(x) implies range.contains(x) by {
                let i = choose|i: int| 0 <= i < s.len() && s[i] == x;
                assert(0 <= s[i] < bound);
            }
        }
        vstd::set_lib::lemma_len_subset(s.to_set(), range);
        assert(false);
    }
}

/// A cycle is exactly a closed loop of frames: the buffer has a cycle if and
/// only if some frames can be listed so that each names the next as its
/// parent and the last names the first.
pub proof fn lemma_has_cycle_iff_loop<P>(frames: Map<Seq<char>, FrameView<P>>)
    ensures
        has_cycle(frames) <==> exists|path: Seq<Seq<char>>| is_loop(frames, path),
{
    if has_cycle(frames) {
        let name = choose|name: Seq<char>| #[trigger]
            frames.contains_key(name) && on_cycle(frames, name);
        let period = choose|period: nat|
            period >= 1 && #[trigger] ancestor(frames, name, period) == Some(name);
        let path = Seq::new(period, |i: int| ancestor(frames, name, i as nat)->0);
        assert forall|i: int| 0 <= i < path.len() implies {
            &&& frames.contains_key(#[trigger] path[i])
            &&& frames[path[i]].parent_frame_id == path[if i + 1 == path.len() {
                0
            } else {
                i + 1
            }]
        } by {
            if ancestor(frames, name, i as nat) is None {
                lemma_ancestor_ends(frames, name, i as nat, period);
            }
            if ancestor(frames, name, (i + 1) as nat) is None {
                lemma_ancestor_ends(frames, name, (i + 1) as nat, period);
            }
            assert((i + 1) as nat - 1 == i);
        }
        assert(is_loop(frames, path));
    }
    if exists|path: Seq<Seq<char>>| is_loop(frames, path) {
        let path = choose|path: Seq<Seq<char>>| is_loop(frames, path);
        lemma_loop_walk(frames, path, path.len());
        assert(frames.contains_key(path[0]));
        assert(on_cycle(frames, path[0]));
    }
}

/// Walking along a closed loop from its first frame.
proof fn lemma_loop_walk<P>(frames: Map<Seq<char>, FrameView<P>>, path: Seq<Seq<char>>, hops: nat)
    requires
        is_loop(frames, path),
        hops <= path.len(),
    ensures
        ancestor(frames, path[0], hops) == Some(
            path[if hops == path.len() {
                0
            } else {
                hops as int
            }],
        ),
    decreases hops,
{
    if hops > 0 {
        lemma_loop_walk(frames, path, (hops - 1) as nat);
        assert(frames.contains_key(path[hops - 1]));
    }
}

/// The whole buffer has a cycle exactly when the walk from one of its frames
/// leads to one.
pub proof fn lemma_has_cycle_iff_some_walk<P>(frames: Map<Seq<char>, FrameView<P>>)
    ensures
        has_cycle(frames) <==> exists|name: Seq<char>| #[trigger]
            frames.contains_key(name) && leads_to_cycle(frames, name),
{
    if has_cycle(frames) {
        let name = choose|name: Seq<char>| #[trigger]
            frames.contains_key(name) && on_cycle(frames, name);
        assert(ancestor(frames, name, 0) == Some(name));
        assert(leads_to_cycle(frames, name));
    }
    if exists|name: Seq<char>| #[trigger]
        frames.contains_key(name) && leads_to_cycle(frames, name) {
        let name = choose|name: Seq<char>| #[trigger]
            frames.contains_key(name) && leads_to_cycle(frames, name);
        let hops = choose|hops: nat|
            (#[trigger] ancestor(frames, name, hops)) matches Some(a) && on_cycle(frames, a);
        let a = ancestor(frames, name, hops)->0;
        if !frames.contains_key(a) {
            lemma_absent_name(frames, a);
        }
    }
}

/// A candidate that the check lets through leaves a buffer without a cycle.
pub proof fn lemma_cycle_check_sound<P>(frames: Map<Seq<char>, FrameView<P>>, frame: FrameView<P>)
    requires
        !has_cycle(frames),
        !would_cycle(frame, frames),
    ensures
        !has_cycle(frames.insert(frame.child_frame_id, frame)),
{
}

/// The check misses no cycle: if storing the candidate closes a loop of
/// frames, the check says so.
pub proof fn lemma_cycle_check_complete<P>(
    frames: Map<Seq<char>, FrameView<P>>,
    frame: FrameView<P>,
    path: Seq<Seq<char>>,
)
    requires
        is_loop(frames.insert(frame.child_frame_id, frame), path),
    ensures
        would_cycle(frame, frames),
{
    lemma_has_cycle_iff_loop(frames.insert(frame.child_frame_id, frame));
}

/// For each frame, in insertion order, the place of its parent, or `None`
/// where the parent has no frame.
pub open spec fn parents_of<P>(buffer: BufferModel<P>, parents: Seq<Option<usize>>) -> bool {
    &&& parents.len() == buffer.names.len()
    &&& forall|i: int|
        0 <= i < parents.len() ==> match #[trigger] parents[i] {
            Some(j) => j < buffer.names.len() && buffer.names[j as int]
                == buffer.frames[buffer.names[i]].parent_frame_id,
            None => !buffer.contains(buffer.frames[buffer.names[i]].parent_frame_id),
        }
}

fn parent_indices<P>(buffer: &FrameBuffer<P>) -> (r: Vec<Option<usize>>)
    ensures
        parents_of(buffer@, r@),
{
    let n = buffer.len();
    let mut parents: Vec<Option<usize>> = Vec::new();
    let mut i: usize = 0;
    while i < n
        invariant
            n == buffer@.names.len(),
            i <= n,
            parents@.len() == i,
            forall|k: int|
                0 <= k < i ==> match #[trigger] parents@[k] {
                    Some(j) => j < buffer@.names.len() && buffer@.names[j as int]
                        == buffer@.frames[buffer@.names[k]].parent_frame_id,
                    None => !buffer@.contains(buffer@.frames[buffer@.names[k]].parent_frame_id),
                },
        decreases n - i,
    {
        let frame = buffer.frame_at(i);
        parents.push(buffer.position(frame.parent_frame_id.as_str()));
        i += 1;
    }
    parents
}

/// Walks up from the frame at place `start`, one parent at a time. A walk
/// that is still going after as many steps as there are frames has been at
/// some frame twice.
fn walk_revisits<P>(buffer: &FrameBuffer<P>, parents: &Vec<Option<usize>>, start: usize) -> (r:
    bool)
    requires
        parents_of(buffer@, parents@),
        start < buffer@.names.len(),
    ensures
        r == leads_to_cycle(buffer@.frames, buffer@.names[start as int]),
{
    let n = buffer.len();
    let ghost frames = buffer@.frames;
    let ghost names = buffer@.names;
    let ghost origin = names[start as int];
    let mut current = start;
    let mut hops: usize = 0;
    let ghost trail: Seq<int> = seq![start as int];
    while hops < n
        invariant
            buffer@.wf(),
            frames == buffer@.frames,
            names == buffer@.names,
            origin == names[start as int],
            parents_of(buffer@, parents@),
            n == names.len(),
            hops <= n,
            current < n,
            trail.len() == hops + 1,
            trail[hops as int] == current,
            forall|k: int|
                0 <= k <= hops ==> 0 <= #[trigger] trail[k] < n && ancestor(
                    frames,
                    origin,
                    k as nat,
                ) == Some(names[trail[k]]),
        decreases n - hops,
    {
        assert(names.contains(names[current as int]));
        match parents[current] {
            Some(next) => {
                proof {
                    assert(ancestor(frames, origin, hops as nat) == Some(names[trail[hops as int]]));
                    assert(ancestor(frames, origin, (hops + 1) as nat) == Some(names[next as int]));
                    trail = trail.push(next as int);
                }
                current = next;
                hops += 1;
            },
            None => {
                proof {
                    assert(ancestor(frames, origin, hops as nat) == Some(names[trail[hops as int]]));
                    let top = frames[names[current as int]].parent_frame_id;
                    assert(ancestor(frames, origin, (hops + 1) as nat) == Some(top));
                    assert(ancestor(frames, origin, (hops + 2) as nat) is None) by {
                        assert((hops + 2) as nat - 1 == (hops + 1) as nat);
                    }
                    lemma_ended_walk(frames, origin, (hops + 2) as nat);
                }
                return false;
            },
        }
    }
    proof {
        lemma_pigeonhole(trail, n as nat);
        let (i, j) = choose|i: int, j: int| 0 <= i < j < trail.len() && trail[i] == trail[j];
        assert(ancestor(frames, origin, i as nat) == Some(names[trail[i]]));
        assert(ancestor(frames, origin, j as nat) == Some(names[trail[j]]));
        lemma_revisit(frames, origin, i as nat, j as nat);
    }
    true
}

/// Whether the walk along parent pointers that starts at `frame` comes back
/// to a frame it has already passed.
///
/// A name that has no frame in the buffer ends the walk, so a chain that
/// reaches a root is not cyclic, and neither is a name that is not in the
/// buffer at all.
pub fn is_cyclic<P>(frame: &str, buffer: &FrameBuffer<P>) -> (r: bool)
    ensures
        r == leads_to_cycle(buffer@.frames, frame@),
{
    match buffer.position(frame) {
        Some(start) => {
            let parents = parent_indices(buffer);
            walk_revisits(buffer, &parents, start)
        },
        None => {
            proof {
                lemma_absent_name(buffer@.frames, frame@);
            }
            false
        },
    }
}

/// Whether any frame of the buffer is its own ancestor. Frames in separate
/// trees are all checked.
pub fn is_cyclic_all<P>(frames: &FrameBuffer<P>) -> (r: bool)
    ensures
        r == has_cycle(frames@.frames),
{
    let n = frames.len();
    let parents = parent_indices(frames);
    let mut i: usize = 0;
    while i < n
        invariant
            frames@.wf(),
            parents_of(frames@, parents@),
            n == frames@.names.len(),
            i <= n,
            forall|k: int| 0 <= k < i ==> !leads_to_cycle(frames@.frames, #[trigger] frames@.names[k]),
        decreases n - i,
    {
        if walk_revisits(frames, &parents, i) {
            proof {
                assert(frames@.names.contains(frames@.names[i as int]));
                lemma_has_cycle_iff_some_walk(frames@.frames);
            }
            return true;
        }
        i += 1;
    }
    proof {
        lemma_has_cycle_iff_some_walk(frames@.frames);
        if has_cycle(frames@.frames) {
            let name = choose|name: Seq<char>| #[trigger]
                frames@.frames.contains_key(name) && leads_to_cycle(frames@.frames, name);
            assert(frames@.names.contains(name));
            let k = choose|k: int| 0 <= k < frames@.names.len() && frames@.names[k] == name;
            assert(!leads_to_cycle(frames@.frames, frames@.names[k]));
        }
    }
    false
}

/// Whether the buffer would hold a cycle if `frame` were stored in it under
/// its own name, `frame.child_frame_id`. The buffer itself is left alone:
/// the check runs on a copy.
pub fn check_would_produce_cycle<P: Copy>(frame: &TransformStamped<P>, buffer: &FrameBuffer<P>) -> (r:
    bool)
    ensures
        r == would_cycle(frame@, buffer@.frames),
{
    let mut buffer_local = buffer.clone();
    buffer_local.insert(frame.child_frame_id.as_str(), frame.clone());
    is_cyclic_all(&buffer_local)
}

} // verus!
