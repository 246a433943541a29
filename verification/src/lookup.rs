//! Finding the chain of poses between two frames.

use crate::buffer::{BufferModel, FrameBuffer};
use crate::structs::FrameView;
use vstd::prelude::*;

verus! {

/// Longest chain of poses, both walks together, that a lookup will hand to
/// the composer.
pub const MAX_TRANSFORM_CHAIN: u64 = 1000;

/// Most steps a single walk towards the root may take.
pub const MAX_RECURSION_DEPTH: u64 = 1000;

/// The poses that link two frames through a common root.
///
/// Each chain lists the poses met on the walk from a frame up to the root,
/// the frame's own pose first. The pose of the child in the parent's frame
/// is the inverse of the product of `parent_chain` applied before the
/// product of `child_chain`, each product taken root-most pose first.
pub struct TransformPath<P> {
    pub parent_chain: Vec<P>,
    pub child_chain: Vec<P>,
}

/// The mathematical value of a [`TransformPath`].
pub struct PathView<P> {
    pub parent_chain: Seq<P>,
    pub child_chain: Seq<P>,
}

impl<P> View for TransformPath<P> {
    type V = PathView<P>;

    open spec fn view(&self) -> PathView<P> {
        PathView { parent_chain: self.parent_chain@, child_chain: self.child_chain@ }
    }
}

/// The poses met on the walk from `from` up to `root`, nearest first, or
/// `None` if the walk does not arrive at `root` within `limit` steps: because
/// it comes to a name that has no frame, or because it is too long.
pub open spec fn chain_to_root<P>(
    frames: Map<Seq<char>, FrameView<P>>,
    from: Seq<char>,
    root: Seq<char>,
    limit: nat,
) -> Option<Seq<P>>
    decreases limit,
{
    if from == root {
        Some(Seq::empty())
    } else if limit == 0 || !frames.contains_key(from) {
        None
    } else {
        match chain_to_root(frames, frames[from].parent_frame_id, root, (limit - 1) as nat) {
            Some(rest) => Some(seq![frames[from].transform] + rest),
            None => None,
        }
    }
}

/// The two chains that link `child` and `parent` through `root`, if both
/// walks arrive there and the chains are not too long.
pub open spec fn path_between<P>(
    frames: Map<Seq<char>, FrameView<P>>,
    parent: Seq<char>,
    child: Seq<char>,
    root: Seq<char>,
) -> Option<PathView<P>> {
    match (
        chain_to_root(frames, child, root, MAX_RECURSION_DEPTH as nat),
        chain_to_root(frames, parent, root, MAX_RECURSION_DEPTH as nat),
    ) {
        (Some(child_chain), Some(parent_chain)) => if child_chain.len() + parent_chain.len()
            <= MAX_TRANSFORM_CHAIN {
            Some(PathView { parent_chain, child_chain })
        } else {
            None
        },
        _ => None,
    }
}

/// The first name without a frame on the walk up from `name`, or `None` if
/// the walk is still among frames after `limit` steps.
pub open spec fn top_of<P>(frames: Map<Seq<char>, FrameView<P>>, name: Seq<char>, limit: nat) -> Option<
    Seq<char>,
>
    decreases limit,
{
    if !frames.contains_key(name) {
        Some(name)
    } else if limit == 0 {
        None
    } else {
        top_of(frames, frames[name].parent_frame_id, (limit - 1) as nat)
    }
}

/// The root that the oldest frame of the buffer hangs from: the name above
/// its topmost ancestor. `None` for an empty buffer, and for one whose oldest
/// frame leads into a cycle.
pub open spec fn tree_root<P>(buffer: BufferModel<P>) -> Option<Seq<char>> {
    if buffer.names.len() == 0 {
        None
    } else {
        top_of(buffer.frames, buffer.names[0], buffer.names.len())
    }
}

/// The root that lookups go through when the caller names none: the root of
/// the tree, or `"world"` where the buffer has none.
pub open spec fn default_root<P>(buffer: BufferModel<P>) -> Seq<char> {
    match tree_root(buffer) {
        Some(root) => root,
        None => "world"@,
    }
}

/// `pose` is a result of `compose` for the chains of `path`.
pub open spec fn composed<P, F: Fn(TransformPath<P>) -> P>(
    compose: F,
    path: PathView<P>,
    pose: P,
) -> bool {
    exists|handed: TransformPath<P>| #[trigger]
        call_ensures(compose, (handed,), pose) && handed@ == path
}

/// What a lookup returns: nothing where there is no path, and otherwise a
/// pose that `compose` gave for the path.
pub open spec fn lookup_result<P, F: Fn(TransformPath<P>) -> P>(
    compose: F,
    path: Option<PathView<P>>,
    result: Option<P>,
) -> bool {
    match path {
        Some(path) => result matches Some(pose) && composed(compose, path, pose),
        None => result is None,
    }
}

/// Finds the root of the tree that the oldest frame belongs to. The root is
/// a name that has no frame of its own.
pub fn get_tree_root<P>(buffer: &FrameBuffer<P>) -> (r: Option<String>)
    ensures
        match r {
            Some(root) => tree_root(buffer@) == Some(root@) && !buffer@.contains(root@),
            None => tree_root(buffer@) is None,
        },
{
    let n = buffer.len();
    if n == 0 {
        return None;
    }
    let mut current: String = buffer.key_at(0).clone();
    let mut hops: usize = 0;
    loop
        invariant
            n == buffer@.names.len(),
            n > 0,
            hops <= n,
            tree_root(buffer@) == top_of(buffer@.frames, current@, (n - hops) as nat),
        decreases n - hops,
    {
        match buffer.get(current.as_str()) {
            None => {
                return Some(current);
            },
            Some(frame) => {
                if hops == n {
                    return None;
                }
                current = frame.parent_frame_id.clone();
                hops += 1;
            },
        }
    }
}

fn walk_to_root<P: Copy>(from: &str, root: &str, buffer: &FrameBuffer<P>) -> (r: Option<Vec<P>>)
    ensures
        match r {
            Some(chain) => chain@.len() <= MAX_RECURSION_DEPTH && chain_to_root(
                buffer@.frames,
                from@,
                root@,
                MAX_RECURSION_DEPTH as nat,
            ) == Some(chain@),
            None => chain_to_root(buffer@.frames, from@, root@, MAX_RECURSION_DEPTH as nat)
                is None,
        },
{
    let ghost frames = buffer@.frames;
    let ghost limit = MAX_RECURSION_DEPTH as nat;
    let root_name = root.to_owned();
    let mut current: String = from.to_owned();
    let mut chain: Vec<P> = Vec::new();
    let mut hops: u64 = 0;
    loop
        invariant
            frames == buffer@.frames,
            limit == MAX_RECURSION_DEPTH as nat,
            root_name@ == root@,
            hops <= MAX_RECURSION_DEPTH,
            chain@.len() == hops,
            chain_to_root(frames, from@, root@, limit) == match chain_to_root(
                frames,
                current@,
                root@,
                (limit - hops) as nat,
            ) {
                Some(rest) => Some(chain@ + rest),
                None => None,
            },
        decreases MAX_RECURSION_DEPTH - hops,
    {
        if current == root_name {
            assert(chain@ + Seq::<P>::empty() =~= chain@);
            return Some(chain);
        }
        if hops >= MAX_RECURSION_DEPTH {
            return None;
        }
        match buffer.get(current.as_str()) {
            None => {
                return None;
            },
            Some(frame) => {
                proof {
                    let next = frames[current@].parent_frame_id;
                    let beyond = chain_to_root(frames, next, root@, (limit - hops - 1) as nat);
                    if beyond is Some {
                        assert(chain@ + (seq![frame@.transform] + beyond->0) =~= chain@.push(
                            frame@.transform,
                        ) + beyond->0);
                    }
                }
                chain.push(frame.transform);
                current = frame.parent_frame_id.clone();
                hops += 1;
            },
        }
    }
}

/// Collects the two chains of poses that link `child_frame_id` and
/// `parent_frame_id` through `root_frame_id`.
///
/// Fails where one of the walks does not arrive at the root within
/// [`MAX_RECURSION_DEPTH`] steps, or where the chains together hold more than
/// [`MAX_TRANSFORM_CHAIN`] poses.
pub fn lookup_path<P: Copy>(
    parent_frame_id: &str,
    child_frame_id: &str,
    root_frame_id: &str,
    buffer: &FrameBuffer<P>,
) -> (r: Option<TransformPath<P>>)
    ensures
        match r {
            Some(path) => path_between(
                buffer@.frames,
                parent_frame_id@,
                child_frame_id@,
                root_frame_id@,
            ) == Some(path@),
            None => path_between(buffer@.frames, parent_frame_id@, child_frame_id@, root_frame_id@)
                is None,
        },
{
    let child_chain = match walk_to_root(child_frame_id, root_frame_id, buffer) {
        Some(chain) => chain,
        None => {
            return None;
        },
    };
    let parent_chain = match walk_to_root(parent_frame_id, root_frame_id, buffer) {
        Some(chain) => chain,
        None => {
            return None;
        },
    };
    if child_chain.len() as u64 + parent_chain.len() as u64 > MAX_TRANSFORM_CHAIN {
        return None;
    }
    Some(TransformPath { parent_chain, child_chain })
}

/// The pose of `child_frame_id` in the frame of `parent_frame_id`, found by
/// walking from both up to `root_frame_id` and handing the two chains to
/// `compose`.
pub fn lookup_transform_with_root<P: Copy, F: Fn(TransformPath<P>) -> P>(
    parent_frame_id: &str,
    child_frame_id: &str,
    root_frame_id: &str,
    buffer: &FrameBuffer<P>,
    compose: &F,
) -> (r: Option<P>)
    requires
        forall|path: TransformPath<P>| call_requires(*compose, (path,)),
    ensures
        lookup_result(
            *compose,
            path_between(buffer@.frames, parent_frame_id@, child_frame_id@, root_frame_id@),
            r,
        ),
{
    match lookup_path(parent_frame_id, child_frame_id, root_frame_id, buffer) {
        Some(path) => {
            let ghost handed = path;
            let pose = compose(path);
            assert(call_ensures(*compose, (handed,), pose) && handed@ == path_between(
                buffer@.frames,
                parent_frame_id@,
                child_frame_id@,
                root_frame_id@,
            )->0);
            Some(pose)
        },
        None => None,
    }
}

/// The pose of `child_frame_id` in the frame of `parent_frame_id`, through
/// the root of the tree, or through `"world"` where the buffer has no root.
pub fn lookup_transform_in_tree<P: Copy, F: Fn(TransformPath<P>) -> P>(
    parent_frame_id: &str,
    child_frame_id: &str,
    buffer: &FrameBuffer<P>,
    compose: &F,
) -> (r: Option<P>)
    requires
        forall|path: TransformPath<P>| call_requires(*compose, (path,)),
    ensures
        lookup_result(
            *compose,
            path_between(
                buffer@.frames,
                parent_frame_id@,
                child_frame_id@,
                default_root(buffer@),
            ),
            r,
        ),
{
    match get_tree_root(buffer) {
        Some(root) => lookup_transform_with_root(
            parent_frame_id,
            child_frame_id,
            root.as_str(),
            buffer,
            compose,
        ),
        None => lookup_transform_with_root(
            parent_frame_id,
            child_frame_id,
            "world",
            buffer,
            compose,
        ),
    }
}

} // verus!
