//! The buffer of frames: a map from name to frame that keeps insertion order.

use crate::structs::{FrameView, TransformStamped};
use vstd::prelude::*;

verus! {

/// The mathematical value of a [`FrameBuffer`]: a finite map from frame name
/// to frame, together with the order in which the names now present were
/// first inserted.
pub struct BufferModel<P> {
    pub names: Seq<Seq<char>>,
    pub frames: Map<Seq<char>, FrameView<P>>,
}

impl<P> BufferModel<P> {
    /// Every name is listed once, and the listed names are the keys of the map.
    pub open spec fn wf(self) -> bool {
        &&& self.names.no_duplicates()
        &&& forall|name: Seq<char>|
            #![trigger self.frames.contains_key(name)]
            #![trigger self.names.contains(name)]
            self.frames.contains_key(name) <==> self.names.contains(name)
    }

    pub open spec fn empty() -> Self {
        BufferModel { names: Seq::empty(), frames: Map::empty() }
    }

    pub open spec fn contains(self, name: Seq<char>) -> bool {
        self.frames.contains_key(name)
    }

    /// Position of `name` in the insertion order.
    pub open spec fn position(self, name: Seq<char>) -> int {
        choose|i: int| 0 <= i < self.names.len() && self.names[i] == name
    }

    /// The buffer with `frame` stored under `name`. A name that is already
    /// present keeps its place in the order; a new one goes to the end.
    pub open spec fn insert(self, name: Seq<char>, frame: FrameView<P>) -> Self {
        BufferModel {
            names: if self.contains(name) {
                self.names
            } else {
                self.names.push(name)
            },
            frames: self.frames.insert(name, frame),
        }
    }

    /// The buffer without `name`; the other names keep their order.
    pub open spec fn remove(self, name: Seq<char>) -> Self {
        BufferModel {
            names: if self.contains(name) {
                self.names.remove(self.position(name))
            } else {
                self.names
            },
            frames: self.frames.remove(name),
        }
    }
}

/// Inserting into a well-formed buffer gives a well-formed buffer.
pub proof fn lemma_insert_wf<P>(b: BufferModel<P>, name: Seq<char>, frame: FrameView<P>)
    requires
        b.wf(),
    ensures
        b.insert(name, frame).wf(),
{
    let r = b.insert(name, frame);
    if b.contains(name) {
        assert(r.names == b.names);
    } else {
        assert(!b.names.contains(name));
        assert forall|i: int, j: int|
            0 <= i < r.names.len() && 0 <= j < r.names.len() && i != j implies r.names[i]
            != r.names[j] by {
            if i < b.names.len() {
                assert(b.names.contains(r.names[i]));
            }
            if j < b.names.len() {
                assert(b.names.contains(r.names[j]));
            }
        }
        assert forall|n: Seq<char>| r.frames.contains_key(n) <==> r.names.contains(n) by {
            if r.names.contains(n) {
                let i = choose|i: int| 0 <= i < r.names.len() && r.names[i] == n;
                if i < b.names.len() {
                    assert(b.names.contains(n));
                }
            }
            if r.frames.contains_key(n) {
                if n == name {
                    assert(r.names[b.names.len() as int] == n);
                } else {
                    let i = choose|i: int| 0 <= i < b.names.len() && b.names[i] == n;
                    assert(r.names[i] == n);
                }
            }
        }
    }
}

/// Removing from a well-formed buffer gives a well-formed buffer.
pub proof fn lemma_remove_wf<P>(b: BufferModel<P>, name: Seq<char>)
    requires
        b.wf(),
    ensures
        b.remove(name).wf(),
{
    let r = b.remove(name);
    if b.contains(name) {
        assert(b.names.contains(name));
        let p = b.position(name);
        assert(0 <= p < b.names.len() && b.names[p] == name);
        assert forall|i: int, j: int|
            0 <= i < r.names.len() && 0 <= j < r.names.len() && i != j implies r.names[i]
            != r.names[j] by {
            let i0 = if i < p { i } else { i + 1 };
            let j0 = if j < p { j } else { j + 1 };
            assert(r.names[i] == b.names[i0]);
            assert(r.names[j] == b.names[j0]);
        }
        assert forall|n: Seq<char>| r.frames.contains_key(n) <==> r.names.contains(n) by {
            if r.names.contains(n) {
                let i = choose|i: int| 0 <= i < r.names.len() && r.names[i] == n;
                let i0 = if i < p { i } else { i + 1 };
                assert(b.names[i0] == n);
                assert(b.names.contains(n));
            }
            if r.frames.contains_key(n) {
                let i = choose|i: int| 0 <= i < b.names.len() && b.names[i] == n;
                assert(i != p);
                let i1 = if i < p { i } else { i - 1 };
                assert(r.names[i1] == n);
            }
        }
    } else {
        assert(r.frames =~= b.frames);
    }
}

struct Entry<P> {
    key: String,
    frame: TransformStamped<P>,
}

/// A map from frame name to frame that remembers insertion order.
///
/// Names are unique. Lookups scan the entries, so every operation is linear
/// in the number of frames.
pub struct FrameBuffer<P> {
    entries: Vec<Entry<P>>,
}

impl<P> View for FrameBuffer<P> {
    type V = BufferModel<P>;

    closed spec fn view(&self) -> BufferModel<P> {
        BufferModel {
            names: Seq::new(self.entries@.len(), |i: int| self.entries@[i].key@),
            frames: Map::new(
                |name: Seq<char>|
                    exists|i: int| 0 <= i < self.entries@.len() && self.entries@[i].key@ == name,
                |name: Seq<char>|
                    self.entries@[choose|i: int|
                        0 <= i < self.entries@.len() && self.entries@[i].key@ == name].frame@,
            ),
        }
    }
}

impl<P> FrameBuffer<P> {
    #[verifier::type_invariant]
    spec fn unique_names(&self) -> bool {
        forall|i: int, j: int|
            0 <= i < self.entries@.len() && 0 <= j < self.entries@.len() && i != j
                ==> self.entries@[i].key@ != self.entries@[j].key@
    }

    proof fn lemma_view(&self)
        requires
            self.unique_names(),
        ensures
            self@.wf(),
            self@.names.len() == self.entries@.len(),
            forall|i: int|
                0 <= i < self.entries@.len() ==> {
                    &&& #[trigger] self@.names[i] == self.entries@[i].key@
                    &&& self@.frames.contains_key(self.entries@[i].key@)
                    &&& self@.frames[self.entries@[i].key@] == self.entries@[i].frame@
                    &&& self@.position(self.entries@[i].key@) == i
                },
    {
        let v = self@;
        assert forall|name: Seq<char>| v.frames.contains_key(name) <==> v.names.contains(
            name,
        ) by {
            if v.names.contains(name) {
                let i = choose|i: int| 0 <= i < v.names.len() && v.names[i] == name;
                assert(self.entries@[i].key@ == name);
            }
            if v.frames.contains_key(name) {
                let i = choose|i: int|
                    0 <= i < self.entries@.len() && self.entries@[i].key@ == name;
                assert(v.names[i] == name);
            }
        }
        assert forall|i: int| 0 <= i < self.entries@.len() implies {
            &&& #[trigger] v.names[i] == self.entries@[i].key@
            &&& v.frames.contains_key(self.entries@[i].key@)
            &&& v.frames[self.entries@[i].key@] == self.entries@[i].frame@
            &&& v.position(self.entries@[i].key@) == i
        } by {
            let name = self.entries@[i].key@;
            let c = choose|c: int| 0 <= c < self.entries@.len() && self.entries@[c].key@ == name;
            assert(c == i);
            assert(v.names[i] == name);
            let p = v.position(name);
            assert(0 <= p < v.names.len() && v.names[p] == name);
            assert(p == i);
        }
    }

    /// An empty buffer.
    pub fn new() -> (r: Self)
        ensures
            r@ == BufferModel::<P>::empty(),
    {
        let r = FrameBuffer { entries: Vec::new() };
        assert(r@.names =~= Seq::empty());
        assert(r@.frames =~= Map::empty());
        r
    }

    /// Makes known to the caller's proof that the buffer is well formed.
    /// Nothing happens at run time.
    pub fn well_formed(&self)
        ensures
            self@.wf(),
    {
        proof {
            use_type_invariant(self);
            self.lemma_view();
        }
    }

    /// Number of frames.
    pub fn len(&self) -> (n: usize)
        ensures
            n == self@.names.len(),
            self@.wf(),
    {
        proof {
            use_type_invariant(self);
            self.lemma_view();
        }
        self.entries.len()
    }

    pub fn is_empty(&self) -> (r: bool)
        ensures
            r == (self@.names.len() == 0),
            self@.wf(),
    {
        self.len() == 0
    }

    /// Place of `name` in the insertion order, if it is present.
    #[verifier::loop_isolation(false)]
    pub fn position(&self, name: &str) -> (r: Option<usize>)
        ensures
            self@.wf(),
            match r {
                Some(i) => i < self@.names.len() && self@.names[i as int] == name@
                    && self@.contains(name@) && self@.position(name@) == i,
                None => !self@.contains(name@),
            },
    {
        proof {
            use_type_invariant(self);
            self.lemma_view();
        }
        let key = name.to_owned();
        let mut i: usize = 0;
        while i < self.entries.len()
            invariant
                i <= self.entries@.len(),
                key@ == name@,
                forall|j: int| 0 <= j < i ==> self.entries@[j].key@ != name@,
            decreases self.entries@.len() - i,
        {
            if self.entries[i].key == key {
                return Some(i);
            }
            i += 1;
        }
        None
    }

    /// Whether a frame is stored under `name`.
    pub fn contains_key(&self, name: &str) -> (r: bool)
        ensures
            r == self@.contains(name@),
    {
        self.position(name).is_some()
    }

    /// The name at place `i` of the insertion order.
    pub fn key_at(&self, i: usize) -> (r: &String)
        requires
            i < self@.names.len(),
        ensures
            r@ == self@.names[i as int],
            self@.contains(r@),
            self@.wf(),
    {
        proof {
            use_type_invariant(self);
            self.lemma_view();
        }
        &self.entries[i].key
    }

    /// The frame stored under the name at place `i` of the insertion order.
    pub fn frame_at(&self, i: usize) -> (r: &TransformStamped<P>)
        requires
            i < self@.names.len(),
        ensures
            self@.contains(self@.names[i as int]),
            r@ == self@.frames[self@.names[i as int]],
            self@.wf(),
    {
        proof {
            use_type_invariant(self);
            self.lemma_view();
        }
        &self.entries[i].frame
    }

    /// The frame stored under `name`, if there is one.
    pub fn get(&self, name: &str) -> (r: Option<&TransformStamped<P>>)
        ensures
            match r {
                Some(frame) => self@.contains(name@) && frame@ == self@.frames[name@],
                None => !self@.contains(name@),
            },
    {
        match self.position(name) {
            Some(i) => Some(self.frame_at(i)),
            None => None,
        }
    }

    /// Stores `frame` under `name`, replacing the frame that was there.
    pub fn insert(&mut self, name: &str, frame: TransformStamped<P>)
        ensures
            final(self)@ == old(self)@.insert(name@, frame@),
            final(self)@.wf(),
    {
        proof {
            use_type_invariant(&*self);
            self.lemma_view();
            lemma_insert_wf(self@, name@, frame@);
        }
        let ghost before = *self;
        match self.position(name) {
            Some(i) => {
                let key = name.to_owned();
                let mut entries: Vec<Entry<P>> = Vec::new();
                core::mem::swap(&mut self.entries, &mut entries);
                entries.set(i, Entry { key, frame });
                proof {
                    assert forall|a: int, b: int|
                        0 <= a < entries@.len() && 0 <= b < entries@.len() && a
                            != b implies entries@[a].key@ != entries@[b].key@ by {
                        assert(entries@[a].key@ == before.entries@[a].key@);
                        assert(entries@[b].key@ == before.entries@[b].key@);
                    }
                }
                core::mem::swap(&mut self.entries, &mut entries);
                proof {
                    self.lemma_view();
                    let want = before@.insert(name@, frame@);
                    assert(self@.names =~= want.names);
                    assert forall|n: Seq<char>| #[trigger]
                        self@.frames.contains_key(n) implies self@.frames[n] == want.frames[n] by {
                        let k = choose|k: int| 0 <= k < self@.names.len() && self@.names[k] == n;
                        assert(self.entries@[k].key@ == n);
                        if k != i {
                            assert(before.entries@[k].key@ == n);
                        }
                    }
                    assert(self@.frames =~= want.frames);
                }
            },
            None => {
                let key = name.to_owned();
                let mut entries: Vec<Entry<P>> = Vec::new();
                core::mem::swap(&mut self.entries, &mut entries);
                entries.push(Entry { key, frame });
                let ghost n0 = before.entries@.len() as int;
                proof {
                    assert forall|a: int, b: int|
                        0 <= a < entries@.len() && 0 <= b < entries@.len() && a
                            != b implies entries@[a].key@ != entries@[b].key@ by {
                        if a < n0 {
                            assert(before@.names[a] == before.entries@[a].key@);
                            assert(before@.names.contains(before.entries@[a].key@));
                        }
                        if b < n0 {
                            assert(before@.names[b] == before.entries@[b].key@);
                            assert(before@.names.contains(before.entries@[b].key@));
                        }
                    }
                }
                core::mem::swap(&mut self.entries, &mut entries);
                proof {
                    self.lemma_view();
                    let want = before@.insert(name@, frame@);
                    assert(self@.names =~= want.names) by {
                        assert(self@.names.len() == want.names.len());
                        assert forall|k: int| 0 <= k < self@.names.len() implies self@.names[k]
                            == want.names[k] by {
                            if k < n0 {
                                assert(before@.names[k] == before.entries@[k].key@);
                            }
                        }
                    }
                    assert forall|n: Seq<char>| #[trigger]
                        self@.frames.contains_key(n) implies self@.frames[n] == want.frames[n] by {
                        let k = choose|k: int| 0 <= k < self@.names.len() && self@.names[k] == n;
                        assert(self.entries@[k].key@ == n);
                        if k < n0 {
                            assert(before.entries@[k].key@ == n);
                            assert(before@.names[k] == n);
                        }
                    }
                    assert(self@.frames =~= want.frames);
                }
            },
        }
    }

    /// Removes the frame stored under `name`, if there is one. Frames that
    /// name it as their parent stay as they are.
    pub fn remove(&mut self, name: &str)
        ensures
            final(self)@ == old(self)@.remove(name@),
            final(self)@.wf(),
    {
        proof {
            use_type_invariant(&*self);
            self.lemma_view();
            lemma_remove_wf(self@, name@);
        }
        let ghost before = *self;
        match self.position(name) {
            Some(i) => {
                let mut entries: Vec<Entry<P>> = Vec::new();
                core::mem::swap(&mut self.entries, &mut entries);
                let _ = entries.remove(i);
                let ghost p = i as int;
                proof {
                    assert forall|a: int, b: int|
                        0 <= a < entries@.len() && 0 <= b < entries@.len() && a
                            != b implies entries@[a].key@ != entries@[b].key@ by {
                        let a0 = if a < p { a } else { a + 1 };
                        let b0 = if b < p { b } else { b + 1 };
                        assert(entries@[a] == before.entries@[a0]);
                        assert(entries@[b] == before.entries@[b0]);
                    }
                }
                core::mem::swap(&mut self.entries, &mut entries);
                proof {
                    self.lemma_view();
                    let want = before@.remove(name@);
                    assert(self@.names =~= want.names) by {
                        assert forall|k: int| 0 <= k < self@.names.len() implies self@.names[k]
                            == want.names[k] by {
                            let k0 = if k < p { k } else { k + 1 };
                            assert(self.entries@[k] == before.entries@[k0]);
                            assert(before@.names[k0] == before.entries@[k0].key@);
                        }
                    }
                    assert forall|n: Seq<char>| #[trigger]
                        self@.frames.contains_key(n) implies self@.frames[n] == want.frames[n] by {
                        let k = choose|k: int| 0 <= k < self@.names.len() && self@.names[k] == n;
                        let k0 = if k < p { k } else { k + 1 };
                        assert(self.entries@[k] == before.entries@[k0]);
                        assert(before@.names[k0] == n);
                    }
                    assert(self@.frames =~= want.frames);
                }
            },
            None => {
                proof {
                    assert(before@.remove(name@).frames =~= before@.frames);
                }
            },
        }
    }

    /// Removes every frame.
    pub fn clear(&mut self)
        ensures
            final(self)@ == BufferModel::<P>::empty(),
    {
        self.entries = Vec::new();
        assert(self@.names =~= Seq::empty());
        assert(self@.frames =~= Map::empty());
    }
}

impl<P: Copy> FrameBuffer<P> {
    /// The names of the frames, in insertion order.
    #[verifier::loop_isolation(false)]
    pub fn keys(&self) -> (r: Vec<String>)
        ensures
            r@.len() == self@.names.len(),
            forall|i: int| 0 <= i < r@.len() ==> #[trigger] r@[i]@ == self@.names[i],
    {
        proof {
            use_type_invariant(self);
            self.lemma_view();
        }
        let mut out: Vec<String> = Vec::new();
        let mut i: usize = 0;
        while i < self.entries.len()
            invariant
                i <= self.entries@.len(),
                out@.len() == i,
                forall|j: int| 0 <= j < i ==> #[trigger] out@[j]@ == self.entries@[j].key@,
            decreases self.entries@.len() - i,
        {
            out.push(self.entries[i].key.clone());
            i += 1;
        }
        out
    }
}

impl<P: Copy> Clone for FrameBuffer<P> {
    #[verifier::loop_isolation(false)]
    fn clone(&self) -> (r: Self)
        ensures
            r@ == self@,
    {
        proof {
            use_type_invariant(self);
            self.lemma_view();
        }
        let mut entries: Vec<Entry<P>> = Vec::new();
        let mut i: usize = 0;
        while i < self.entries.len()
            invariant
                i <= self.entries@.len(),
                entries@.len() == i,
                forall|j: int|
                    0 <= j < i ==> {
                        &&& #[trigger] entries@[j].key@ == self.entries@[j].key@
                        &&& entries@[j].frame@ == self.entries@[j].frame@
                    },
            decreases self.entries@.len() - i,
        {
            let e = &self.entries[i];
            entries.push(Entry { key: e.key.clone(), frame: e.frame.clone() });
            i += 1;
        }
        let r = FrameBuffer { entries };
        proof {
            r.lemma_view();
            assert(r@.names =~= self@.names);
            assert forall|n: Seq<char>| #[trigger] r@.frames.contains_key(n) implies r@.frames[n]
                == self@.frames[n] by {
                let k = choose|k: int| 0 <= k < r@.names.len() && r@.names[k] == n;
                assert(r.entries@[k].key@ == n);
                assert(self.entries@[k].key@ == n);
            }
            assert(r@.frames =~= self@.frames);
        }
        r
    }
}

} // verus!
