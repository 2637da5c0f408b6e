//! The files that are being tailed, and the color index of each.

use crate::path::FilePath;
use vstd::prelude::*;

verus! {

/// The state of a registry: the index of each tracked path, and the index that
/// the next path to be tracked will get.
#[verifier::ext_equal]
pub struct Tracking {
    /// The color index of each tracked path.
    pub indices: Map<Seq<u8>, nat>,
    /// The index that is given out next.
    pub next: nat,
}

impl Tracking {
    /// Every index in use has been given out before, and no two paths share one.
    pub open spec fn sound(self) -> bool {
        &&& forall|path: Seq<u8>| #[trigger]
            self.indices.contains_key(path) ==> self.indices[path] < self.next
        &&& forall|a: Seq<u8>, b: Seq<u8>|
            self.indices.contains_key(a) && self.indices.contains_key(b) && a != b
                ==> #[trigger] self.indices[a] != #[trigger] self.indices[b]
    }

    /// The index that a request to track `path` gets, if it is not tracked yet.
    pub open spec fn index_for(self, path: Seq<u8>) -> Option<nat> {
        if self.indices.contains_key(path) {
            None
        } else {
            Some(self.next)
        }
    }

    /// The state after a request to track `path`.
    pub open spec fn with(self, path: Seq<u8>) -> Tracking {
        if self.indices.contains_key(path) {
            self
        } else {
            Tracking { indices: self.indices.insert(path, self.next), next: self.next + 1 }
        }
    }

    /// The state after `path` is forgotten.
    pub open spec fn without(self, path: Seq<u8>) -> Tracking {
        Tracking { indices: self.indices.remove(path), next: self.next }
    }

    /// The index of `path`, or 0 for a path that is not tracked.
    pub open spec fn index_or_zero(self, path: Seq<u8>) -> nat {
        if self.indices.contains_key(path) {
            self.indices[path]
        } else {
            0
        }
    }
}

/// Whatever is tracked or forgotten, no two tracked paths share an index, and no
/// index is given out twice.
pub proof fn law_indices_stay_distinct(state: Tracking, path: Seq<u8>)
    requires
        state.sound(),
    ensures
        state.with(path).sound(),
        state.without(path).sound(),
        state.with(path).next >= state.next,
        state.without(path).next == state.next,
{
    let less = state.without(path);
    assert forall|p: Seq<u8>| #[trigger] less.indices.contains_key(p) implies less.indices[p]
        < less.next by {
        assert(state.indices.contains_key(p));
    }
    assert forall|a: Seq<u8>, b: Seq<u8>|
        less.indices.contains_key(a) && less.indices.contains_key(b) && a
            != b implies #[trigger] less.indices[a] != #[trigger] less.indices[b] by {
        assert(state.indices.contains_key(a) && state.indices.contains_key(b));
        assert(state.indices[a] != state.indices[b]);
    }
    let more = state.with(path);
    assert forall|p: Seq<u8>| #[trigger] more.indices.contains_key(p) implies more.indices[p]
        < more.next by {
        assert(p != path ==> state.indices.contains_key(p));
    }
    assert forall|a: Seq<u8>, b: Seq<u8>|
        more.indices.contains_key(a) && more.indices.contains_key(b) && a
            != b implies #[trigger] more.indices[a] != #[trigger] more.indices[b] by {
        assert(a != path ==> state.indices.contains_key(a));
        assert(b != path ==> state.indices.contains_key(b));
        if a != path && b != path {
            assert(state.indices[a] != state.indices[b]);
        }
    }
}

/// A tracked path is not tailed a second time.
pub proof fn law_no_double_tailing(state: Tracking, path: Seq<u8>)
    ensures
        state.with(path).index_for(path) is None,
        state.with(path).with(path) == state.with(path),
{
}

/// Rotation: once a tracked path is forgotten, a new file in its place is tracked
/// again, under a new index that is higher than all before.
pub proof fn law_rotated_path_is_tailed_again(state: Tracking, path: Seq<u8>)
    requires
        state.sound(),
        state.indices.contains_key(path),
    ensures
        state.without(path).index_for(path) == Some(state.next),
        state.next > state.indices[path],
        state.without(path).with(path).index_or_zero(path) == state.next,
{
}

/// Tracking or forgetting a path leaves the other paths as they were.
pub proof fn law_other_paths_are_untouched(state: Tracking, path: Seq<u8>, other: Seq<u8>)
    requires
        other != path,
    ensures
        state.with(path).index_or_zero(other) == state.index_or_zero(other),
        state.without(path).index_or_zero(other) == state.index_or_zero(other),
        state.with(path).indices.contains_key(other) == state.indices.contains_key(other),
        state.without(path).indices.contains_key(other) == state.indices.contains_key(other),
{
}

/// A request to a registry.
pub enum Request {
    /// To track a path.
    Track(Seq<u8>),
    /// To forget a path.
    Forget(Seq<u8>),
}

/// The indices that are given out, in order, when `requests` come one by one.
pub open spec fn given_out(state: Tracking, requests: Seq<Request>) -> Seq<nat>
    decreases requests.len(),
{
    if requests.len() == 0 {
        Seq::empty()
    } else {
        match requests[0] {
            Request::Track(path) => match state.index_for(path) {
                Some(idx) => seq![idx] + given_out(state.with(path), requests.skip(1)),
                None => given_out(state, requests.skip(1)),
            },
            Request::Forget(path) => given_out(state.without(path), requests.skip(1)),
        }
    }
}

/// The indices given out count up by one, whatever is asked for and forgotten in
/// between: none is left out and none is used again.
pub proof fn law_indices_count_up(state: Tracking, requests: Seq<Request>)
    ensures
        forall|i: int|
            0 <= i < given_out(state, requests).len() ==> #[trigger] given_out(state, requests)[i]
                == state.next + i,
    decreases requests.len(),
{
    if requests.len() > 0 {
        let rest = requests.skip(1);
        match requests[0] {
            Request::Track(path) => {
                law_indices_count_up(state, rest);
                law_indices_count_up(state.with(path), rest);
                if state.index_for(path) is Some {
                    let all = given_out(state, requests);
                    assert forall|i: int| 0 <= i < all.len() implies #[trigger] all[i] == state.next
                        + i by {
                        if i > 0 {
                            assert(all[i] == given_out(state.with(path), rest)[i - 1]);
                        }
                    }
                } else {
                    assert(given_out(state, requests) == given_out(state, rest));
                }
            },
            Request::Forget(path) => {
                law_indices_count_up(state.without(path), rest);
                assert(given_out(state, requests) == given_out(state.without(path), rest));
            },
        }
    }
}

/// The files that are being tailed. Each path is listed once.
#[derive(Debug)]
pub struct FileRegistry {
    by_path: Vec<(FilePath, usize)>,
    next_idx: usize,
}

/// Some entry is for `path`.
spec fn lists(entries: Seq<(FilePath, usize)>, path: Seq<u8>) -> bool {
    exists|i: int| 0 <= i < entries.len() && #[trigger] entries[i].0@ == path
}

/// The position of the entry for `path`.
spec fn place(entries: Seq<(FilePath, usize)>, path: Seq<u8>) -> int {
    choose|i: int| 0 <= i < entries.len() && #[trigger] entries[i].0@ == path
}

/// The indices that the entries hold.
spec fn indices_of(entries: Seq<(FilePath, usize)>) -> Map<Seq<u8>, nat> {
    Map::new(
        |path: Seq<u8>| lists(entries, path),
        |path: Seq<u8>| entries[place(entries, path)].1 as nat,
    )
}

/// No two entries are for the same path.
spec fn each_once(entries: Seq<(FilePath, usize)>) -> bool {
    forall|i: int, j: int|
        0 <= i < j < entries.len() ==> #[trigger] entries[i].0@ != #[trigger] entries[j].0@
}

/// Where each path has one entry, that entry holds its index.
proof fn lemma_entry(entries: Seq<(FilePath, usize)>, i: int)
    requires
        each_once(entries),
        0 <= i < entries.len(),
    ensures
        indices_of(entries).contains_key(entries[i].0@),
        indices_of(entries)[entries[i].0@] == entries[i].1,
{
    let path = entries[i].0@;
    assert(lists(entries, path));
    let p = place(entries, path);
    assert(0 <= p < entries.len() && entries[p].0@ == path);
    assert(p == i) by {
        if p < i {
            assert(entries[p].0@ != entries[i].0@);
        }
        if i < p {
            assert(entries[i].0@ != entries[p].0@);
        }
    }
}

/// A new entry at the end adds its path and nothing else.
proof fn lemma_push(entries: Seq<(FilePath, usize)>, entry: (FilePath, usize))
    requires
        each_once(entries),
        !lists(entries, entry.0@),
    ensures
        each_once(entries.push(entry)),
        indices_of(entries.push(entry)) == indices_of(entries).insert(entry.0@, entry.1 as nat),
{
    let more = entries.push(entry);
    assert forall|i: int, j: int| 0 <= i < j < more.len() implies #[trigger] more[i].0@
        != #[trigger] more[j].0@ by {
        if j < entries.len() {
            assert(entries[i].0@ != entries[j].0@);
        } else {
            assert(entries[i] == more[i]);
        }
    }
    let a = indices_of(more);
    let b = indices_of(entries).insert(entry.0@, entry.1 as nat);
    assert forall|path: Seq<u8>|
        #![trigger a.contains_key(path)]
        #![trigger b.contains_key(path)]
        #![trigger a[path]]
        a.contains_key(path) == b.contains_key(path) && (a.contains_key(path) ==> a[path]
            == b[path]) by {
        if b.contains_key(path) {
            if path == entry.0@ {
                lemma_entry(more, entries.len() as int);
                assert(more[entries.len() as int] == entry);
            } else {
                let p = place(entries, path);
                assert(entries[p].0@ == path);
                assert(more[p] == entries[p]);
                lemma_entry(more, p);
                lemma_entry(entries, p);
            }
        } else if a.contains_key(path) {
            let p = place(more, path);
            assert(more[p].0@ == path);
            if p < entries.len() {
                assert(entries[p] == more[p]);
                assert(lists(entries, path));
            }
            assert(false);
        }
    }
    assert(a =~= b);
}

/// Taking an entry out takes its path out and nothing else.
proof fn lemma_remove(entries: Seq<(FilePath, usize)>, at: int)
    requires
        each_once(entries),
        0 <= at < entries.len(),
    ensures
        each_once(entries.remove(at)),
        indices_of(entries.remove(at)) == indices_of(entries).remove(entries[at].0@),
{
    let less = entries.remove(at);
    let gone = entries[at].0@;
    assert forall|i: int, j: int| 0 <= i < j < less.len() implies #[trigger] less[i].0@
        != #[trigger] less[j].0@ by {
        let from_i = if i < at {
            i
        } else {
            i + 1
        };
        let from_j = if j < at {
            j
        } else {
            j + 1
        };
        assert(less[i] == entries[from_i] && less[j] == entries[from_j]);
    }
    let a = indices_of(less);
    let b = indices_of(entries).remove(gone);
    assert forall|path: Seq<u8>|
        #![trigger a.contains_key(path)]
        #![trigger b.contains_key(path)]
        #![trigger a[path]]
        a.contains_key(path) == b.contains_key(path) && (a.contains_key(path) ==> a[path]
            == b[path]) by {
        if b.contains_key(path) {
            let p = place(entries, path);
            assert(entries[p].0@ == path);
            let q = if p < at {
                p
            } else {
                p - 1
            };
            assert(less[q] == entries[p]);
            lemma_entry(less, q);
            lemma_entry(entries, p);
        } else if a.contains_key(path) {
            let q = place(less, path);
            assert(less[q].0@ == path);
            let p = if q < at {
                q
            } else {
                q + 1
            };
            assert(less[q] == entries[p]);
            lemma_entry(entries, p);
            assert(path == gone);
            assert(false) by {
                if p < at {
                    assert(entries[p].0@ != entries[at].0@);
                } else {
                    assert(entries[at].0@ != entries[p].0@);
                }
            }
        }
    }
    assert(a =~= b);
}

impl View for FileRegistry {
    type V = Tracking;

    closed spec fn view(&self) -> Tracking {
        Tracking { indices: indices_of(self.by_path@), next: self.next_idx as nat }
    }
}

impl FileRegistry {
    /// Each path is listed once, each index in use has been given out, and no two
    /// paths share one.
    pub closed spec fn wf(&self) -> bool {
        each_once(self.by_path@) && self@.sound()
    }

    /// Makes a registry that tracks nothing.
    pub fn new() -> (registry: FileRegistry)
        ensures
            registry.wf(),
            registry@ == (Tracking { indices: Map::empty(), next: 0 }),
    {
        let registry = FileRegistry { by_path: Vec::new(), next_idx: 0 };
        assert(indices_of(registry.by_path@) =~= Map::empty());
        registry
    }

    /// The position of the entry for `path`, if there is one.
    fn find(&self, path: &FilePath) -> (at: Option<usize>)
        ensures
            match at {
                Some(at) => at < self.by_path@.len() && self.by_path@[at as int].0@ == path@,
                None => !lists(self.by_path@, path@),
            },
    {
        let mut i: usize = 0;
        while i < self.by_path.len()
            invariant
                forall|j: int| 0 <= j < i ==> #[trigger] self.by_path@[j].0@ != path@,
            decreases self.by_path.len() - i,
        {
            if self.by_path[i].0.same_as(path) {
                return Some(i);
            }
            i += 1;
        }
        None
    }

    /// Starts to track `path`. Gives its index, or `None` if it is tracked already.
    pub fn insert(&mut self, path: FilePath) -> (idx: Option<usize>)
        requires
            old(self).wf(),
            old(self)@.indices.contains_key(path@) || old(self)@.next < usize::MAX,
        ensures
            final(self).wf(),
            final(self)@ == old(self)@.with(path@),
            match idx {
                Some(idx) => old(self)@.index_for(path@) == Some(idx as nat),
                None => old(self)@.index_for(path@) is None,
            },
    {
        if let Some(at) = self.find(&path) {
            proof {
                lemma_entry(self.by_path@, at as int);
            }
            return None;
        }
        proof {
            law_indices_stay_distinct(self@, path@);
            lemma_push(self.by_path@, (path, self.next_idx));
        }
        let idx: usize = self.next_idx;
        self.next_idx += 1;
        self.by_path.push((path, idx));
        Some(idx)
    }

    /// Forgets `path`, so that a new file in its place can be tracked.
    pub fn remove(&mut self, path: &FilePath)
        requires
            old(self).wf(),
        ensures
            final(self).wf(),
            final(self)@ == old(self)@.without(path@),
    {
        proof {
            law_indices_stay_distinct(self@, path@);
        }
        match self.find(path) {
            Some(at) => {
                proof {
                    lemma_remove(self.by_path@, at as int);
                }
                self.by_path.remove(at);
            },
            None => {
                assert(self@.without(path@) =~= self@);
            },
        }
    }

    /// The index of `path`, or 0 for a path that is not tracked.
    pub fn index_of(&self, path: &FilePath) -> (idx: usize)
        requires
            self.wf(),
        ensures
            idx == self@.index_or_zero(path@),
    {
        match self.find(path) {
            Some(at) => {
                proof {
                    lemma_entry(self.by_path@, at as int);
                }
                self.by_path[at].1
            },
            None => 0,
        }
    }

    /// The index that the next path to be tracked will get.
    pub fn next_index(&self) -> (next: usize)
        ensures
            next == self@.next,
    {
        self.next_idx
    }
}

/// The next index of a registry is one that a machine can hold.
pub proof fn lemma_next_index_fits(registry: FileRegistry)
    ensures
        registry@.next <= usize::MAX,
{
}

/// No two files that a registry tracks share an index.
pub proof fn law_tracked_files_have_distinct_indices(registry: FileRegistry)
    requires
        registry.wf(),
    ensures
        registry@.sound(),
{
}

/// A path that is not tracked gets the next index, and is tracked under it from then
/// on; one that is tracked gets none and changes nothing.
pub proof fn law_tracking_a_path(state: Tracking, path: Seq<u8>)
    ensures
        !state.indices.contains_key(path) ==> {
            &&& state.index_for(path) == Some(state.next)
            &&& state.with(path).indices.contains_key(path)
            &&& state.with(path).indices[path] == state.next
            &&& state.with(path).next == state.next + 1
        },
        state.indices.contains_key(path) ==> {
            &&& state.index_for(path) is None
            &&& state.with(path).indices == state.indices
            &&& state.with(path).next == state.next
        },
        forall|other: Seq<u8>|
            other != path ==> (#[trigger] state.with(path).indices.contains_key(other)
                <==> state.indices.contains_key(other)),
        forall|other: Seq<u8>|
            other != path && state.indices.contains_key(other)
                ==> #[trigger] state.with(path).indices[other] == state.indices[other],
{
}

/// A path that is forgotten is not tracked any more; the other paths keep their
/// indices, and no index is freed.
pub proof fn law_forgetting_a_path(state: Tracking, path: Seq<u8>)
    ensures
        !state.without(path).indices.contains_key(path),
        state.without(path).next == state.next,
        forall|other: Seq<u8>|
            other != path ==> (#[trigger] state.without(path).indices.contains_key(other)
                <==> state.indices.contains_key(other)),
        forall|other: Seq<u8>|
            other != path && state.indices.contains_key(other)
                ==> #[trigger] state.without(path).indices[other] == state.indices[other],
{
}

/// The index of a tracked path is the one that it was tracked under, whatever else is
/// tracked or forgotten since; that of a path that is not tracked is 0.
pub proof fn law_index_is_the_one_given(state: Tracking, path: Seq<u8>, other: Seq<u8>)
    ensures
        state.indices.contains_key(path) ==> state.index_or_zero(path) == state.indices[path],
        !state.indices.contains_key(path) ==> state.index_or_zero(path) == 0,
        !state.indices.contains_key(path) ==> state.with(path).index_or_zero(path) == state.next,
        other != path ==> state.with(other).index_or_zero(path) == state.index_or_zero(path),
        other != path ==> state.without(other).index_or_zero(path) == state.index_or_zero(path),
        state.without(path).index_or_zero(path) == 0,
{
}

/// In a sound state every index in use is below the next one, and no two paths share
/// one.
pub proof fn law_sound_indices_are_distinct(state: Tracking, a: Seq<u8>, b: Seq<u8>)
    requires
        state.sound(),
        state.indices.contains_key(a),
        state.indices.contains_key(b),
    ensures
        state.indices[a] < state.next,
        state.indices[a] == state.indices[b] ==> a == b,
{
}

} // verus!
