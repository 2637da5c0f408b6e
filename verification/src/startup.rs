//! Starting up: which files are there, which color each gets, in which order
//! their last lines are shown, and what is announced.

use crate::filter::{self, NameFilter};
use crate::order::{self, NameKey, TimeKey};
use crate::path::FilePath;
use crate::registry::{FileRegistry, Tracking};
use vstd::prelude::*;

verus! {

/// An entry of the directory.
#[derive(Debug)]
pub struct DirEntry {
    /// Where it is.
    pub path: FilePath,
    /// Whether it is a file.
    pub is_file: bool,
}

/// The name of the file at `path` in bytes.
pub open spec fn name_bytes(path: FilePath) -> Option<Seq<u8>> {
    match path.file_name() {
        Some(name) => Some(vstd::utf8::encode_utf8(name)),
        None => None,
    }
}

/// Entry `i` comes before entry `j` by name, or by position where names are equal.
pub open spec fn named_before(entries: Seq<DirEntry>, i: int, j: int) -> bool {
    let a = name_bytes(entries[i].path);
    let b = name_bytes(entries[j].path);
    &&& order::name_at_most(a, b)
    &&& order::name_at_most(b, a) ==> i < j
}

/// `chosen` lists the entries that are files and whose name is accepted, each
/// once, sorted by name.
pub open spec fn is_selection(
    entries: Seq<DirEntry>,
    accepted: Seq<bool>,
    chosen: Seq<usize>,
) -> bool {
    &&& forall|p: int|
        0 <= p < chosen.len() ==> {
            &&& #[trigger] chosen[p] < entries.len()
            &&& entries[chosen[p] as int].is_file
            &&& accepted[chosen[p] as int]
        }
    &&& forall|i: usize|
        i < entries.len() && entries[i as int].is_file && accepted[i as int]
            ==> #[trigger] chosen.contains(i)
    &&& forall|p: int, q: int|
        0 <= p < q < chosen.len() ==> named_before(
            entries,
            #[trigger] chosen[p] as int,
            #[trigger] chosen[q] as int,
        )
}

/// The sort key for the name of the file at `path`.
fn name_key(path: &FilePath) -> (key: NameKey)
    ensures
        key@ == name_bytes(*path),
{
    match path.name() {
        Some(name) => NameKey { bytes: Some(name.as_bytes_vec()) },
        None => NameKey { bytes: None },
    }
}

/// Picks the entries to tail, given which names are accepted: the files among
/// them, sorted by name so that colors do not depend on how the directory is
/// listed. Gives their positions.
pub fn select_existing(entries: &Vec<DirEntry>, accepted: &Vec<bool>) -> (chosen: Vec<usize>)
    requires
        accepted@.len() == entries@.len(),
    ensures
        is_selection(entries@, accepted@, chosen@),
{
    let mut picked: Vec<usize> = Vec::new();
    let mut keys: Vec<NameKey> = Vec::new();
    let mut i: usize = 0;
    while i < entries.len()
        invariant
            i <= entries@.len(),
            accepted@.len() == entries@.len(),
            keys@.len() == picked@.len(),
            forall|p: int|
                0 <= p < picked@.len() ==> {
                    &&& #[trigger] picked@[p] < i
                    &&& entries@[picked@[p] as int].is_file
                    &&& accepted@[picked@[p] as int]
                    &&& keys@[p]@ == name_bytes(entries@[picked@[p] as int].path)
                },
            forall|p: int, q: int|
                0 <= p < q < picked@.len() ==> #[trigger] picked@[p] < #[trigger] picked@[q],
            forall|j: usize|
                j < i && entries@[j as int].is_file && accepted@[j as int]
                    ==> #[trigger] picked@.contains(j),
        decreases entries@.len() - i,
    {
        let ghost before = picked@;
        if entries[i].is_file && accepted[i] {
            picked.push(i);
            keys.push(name_key(&entries[i].path));
            proof {
                assert(picked@.last() == i);
                assert forall|j: usize| #[trigger] before.contains(j) implies picked@.contains(
                    j,
                ) by {
                    let p = choose|p: int| 0 <= p < before.len() && before[p] == j;
                    assert(picked@[p] == j);
                }
                assert forall|j: usize|
                    j < i + 1 && entries@[j as int].is_file
                        && accepted@[j as int] implies #[trigger] picked@.contains(j) by {
                    if j < i {
                        assert(before.contains(j));
                    }
                }
            }
        }
        i += 1;
    }
    let order: Vec<usize> = order::stable_order(&keys);
    proof {
        order::law_every_position_once(keys@, order@);
    }
    let mut chosen: Vec<usize> = Vec::new();
    let mut p: usize = 0;
    while p < order.len()
        invariant
            p <= order@.len(),
            order@.len() == picked@.len(),
            forall|q: int| 0 <= q < order@.len() ==> #[trigger] order@[q] < picked@.len(),
            chosen@.len() == p,
            forall|q: int| 0 <= q < p ==> #[trigger] chosen@[q] == picked@[order@[q] as int],
        decreases order@.len() - p,
    {
        chosen.push(picked[order[p]]);
        p += 1;
    }
    proof {
        assert forall|j: usize|
            j < entries@.len() && entries@[j as int].is_file
                && accepted@[j as int] implies #[trigger] chosen@.contains(j) by {
            assert(picked@.contains(j));
            let at = choose|at: int| 0 <= at < picked@.len() && picked@[at] == j;
            assert(order@.contains(at as usize));
            let q = choose|q: int| 0 <= q < order@.len() && order@[q] == at as usize;
            assert(chosen@[q] == j);
        }
        assert forall|p: int, q: int| 0 <= p < q < chosen@.len() implies named_before(
            entries@,
            #[trigger] chosen@[p] as int,
            #[trigger] chosen@[q] as int,
        ) by {
            let a = order@[p] as int;
            let b = order@[q] as int;
            assert(order::comes_before(keys@, a, b));
            assert(keys@[a]@ == name_bytes(entries@[picked@[a] as int].path));
            assert(keys@[b]@ == name_bytes(entries@[picked@[b] as int].path));
        }
    }
    chosen
}

/// `accepted` holds an answer of the filter for each entry.
pub open spec fn are_answers(
    filter: &NameFilter,
    entries: Seq<DirEntry>,
    accepted: Seq<bool>,
) -> bool {
    &&& accepted.len() == entries.len()
    &&& forall|i: int|
        0 <= i < entries.len() ==> filter.answers(
            entries[i].path.file_name(),
            #[trigger] accepted[i],
        )
}

/// Where no backslash is in the pattern or in a name, the answers are what the
/// pattern says of the names on any platform, and no to entries without one.
pub proof fn law_answers_follow_the_pattern(
    filter: &NameFilter,
    entries: Seq<DirEntry>,
    accepted: Seq<bool>,
)
    requires
        are_answers(filter, entries, accepted),
        filter::portable(filter@),
        forall|i: int|
            0 <= i < entries.len() ==> ((#[trigger] entries[i]).path.file_name() matches Some(name)
                ==> filter::portable(name)),
    ensures
        forall|i: int|
            0 <= i < entries.len() ==> match entries[i].path.file_name() {
                Some(name) => filter::said_everywhere(filter@, name, #[trigger] accepted[i]),
                None => !accepted[i],
            },
{
    assert forall|i: int| 0 <= i < entries.len() implies match entries[i].path.file_name() {
        Some(name) => filter::said_everywhere(filter@, name, #[trigger] accepted[i]),
        None => !accepted[i],
    } by {
        assert(filter.answers(entries[i].path.file_name(), accepted[i]));
    }
}

/// Asks the filter about the name of each entry.
pub fn accepted_names(filter: &NameFilter, entries: &Vec<DirEntry>) -> (accepted: Vec<bool>)
    ensures
        are_answers(filter, entries@, accepted@),
{
    let mut accepted: Vec<bool> = Vec::new();
    let mut i: usize = 0;
    while i < entries.len()
        invariant
            i <= entries@.len(),
            accepted@.len() == i,
            forall|j: int|
                0 <= j < i ==> filter.answers(
                    entries@[j].path.file_name(),
                    #[trigger] accepted@[j],
                ),
        decreases entries@.len() - i,
    {
        accepted.push(filter.accepts(&entries[i].path));
        i += 1;
    }
    accepted
}

/// Picks the entries to tail: the files whose name the filter accepts, sorted by
/// name. Gives their positions.
pub fn existing_files(filter: &NameFilter, entries: &Vec<DirEntry>) -> (chosen: Vec<usize>)
    ensures
        exists|accepted: Seq<bool>|
            #![trigger are_answers(filter, entries@, accepted)]
            are_answers(filter, entries@, accepted) && is_selection(entries@, accepted, chosen@),
{
    let accepted: Vec<bool> = accepted_names(filter, entries);
    select_existing(entries, &accepted)
}

/// Two selections agree on their first `n` places.
proof fn lemma_same_selection_until(
    entries: Seq<DirEntry>,
    accepted: Seq<bool>,
    a: Seq<usize>,
    b: Seq<usize>,
    n: int,
)
    requires
        is_selection(entries, accepted, a),
        is_selection(entries, accepted, b),
        0 <= n <= a.len(),
    ensures
        n <= b.len(),
        forall|p: int| 0 <= p < n ==> a[p] == b[p],
    decreases n,
{
    if n > 0 {
        let p = n - 1;
        lemma_same_selection_until(entries, accepted, a, b, p);
        assert(b.contains(a[p]));
        let q = choose|q: int| 0 <= q < b.len() && b[q] == a[p];
        assert(q >= p) by {
            if q < p {
                assert(a[q] == b[q]);
                assert(named_before(entries, a[q] as int, a[p] as int));
            }
        }
        if q > p {
            assert(a.contains(b[p]));
            let r = choose|r: int| 0 <= r < a.len() && a[r] == b[p];
            assert(named_before(entries, b[p] as int, b[q] as int));
            if r < p {
                assert(a[r] == b[r]);
                assert(named_before(entries, b[r] as int, b[p] as int));
            } else if r > p {
                assert(named_before(entries, a[p] as int, a[r] as int));
            }
            assert(false);
        }
    }
}

/// What is selected, and in which order, follows from the entries and from which
/// names are accepted.
pub proof fn law_selection_is_unique(
    entries: Seq<DirEntry>,
    accepted: Seq<bool>,
    a: Seq<usize>,
    b: Seq<usize>,
)
    requires
        is_selection(entries, accepted, a),
        is_selection(entries, accepted, b),
    ensures
        a == b,
{
    lemma_same_selection_until(entries, accepted, a, b, a.len() as int);
    lemma_same_selection_until(entries, accepted, b, a, b.len() as int);
    assert(a =~= b);
}

/// A file to tail: its entry in the directory and its color index.
#[derive(Clone, Copy, Debug, PartialEq, Eq, Structural)]
pub struct ColoredFile {
    /// The position of its entry.
    pub entry: usize,
    /// Its color index.
    pub color_idx: usize,
}

/// The state of a registry after requests to track `paths`, one by one.
pub open spec fn tracking_after(state: Tracking, paths: Seq<Seq<u8>>) -> Tracking
    decreases paths.len(),
{
    if paths.len() == 0 {
        state
    } else {
        tracking_after(state, paths.drop_last()).with(paths.last())
    }
}

/// The place in `paths` and the index of each path that gets tracked, in order.
pub open spec fn indices_given(state: Tracking, paths: Seq<Seq<u8>>) -> Seq<(int, nat)>
    decreases paths.len(),
{
    if paths.len() == 0 {
        Seq::empty()
    } else {
        let before = indices_given(state, paths.drop_last());
        match tracking_after(state, paths.drop_last()).index_for(paths.last()) {
            Some(idx) => before.push((paths.len() - 1, idx)),
            None => before,
        }
    }
}

/// The paths of the chosen entries.
pub open spec fn chosen_paths(entries: Seq<DirEntry>, chosen: Seq<usize>) -> Seq<Seq<u8>> {
    chosen.map_values(|i: usize| entries[i as int].path@)
}

/// `file` is the chosen entry at the given place, with the given index.
pub open spec fn is_colored(file: ColoredFile, chosen: Seq<usize>, given: (int, nat)) -> bool {
    &&& 0 <= given.0 < chosen.len()
    &&& file.entry == chosen[given.0]
    &&& file.color_idx == given.1
}

/// `files` are the chosen entries that get tracked, with their indices.
pub open spec fn are_colored(
    files: Seq<ColoredFile>,
    chosen: Seq<usize>,
    given: Seq<(int, nat)>,
) -> bool {
    &&& files.len() == given.len()
    &&& forall|i: int|
        0 <= i < files.len() ==> is_colored(#[trigger] files[i], chosen, given[i])
}

/// Requests to track paths use up one index each at most.
pub proof fn law_one_index_each(state: Tracking, paths: Seq<Seq<u8>>)
    ensures
        tracking_after(state, paths).next <= state.next + paths.len(),
    decreases paths.len(),
{
    if paths.len() > 0 {
        law_one_index_each(state, paths.drop_last());
    }
}

/// The next index never goes down.
proof fn lemma_next_never_shrinks(state: Tracking, paths: Seq<Seq<u8>>, n: int)
    requires
        0 <= n <= paths.len(),
    ensures
        tracking_after(state, paths.take(n)).next <= tracking_after(state, paths).next,
    decreases paths.len(),
{
    if n < paths.len() {
        assert(paths.drop_last().take(n) =~= paths.take(n));
        lemma_next_never_shrinks(state, paths.drop_last(), n);
    } else {
        assert(paths.take(n) =~= paths);
    }
}

/// Starts to track the chosen entries, in order, and gives the color index of each
/// that was not tracked before.
pub fn assign_colors(
    registry: &mut FileRegistry,
    entries: &Vec<DirEntry>,
    chosen: &Vec<usize>,
) -> (files: Vec<ColoredFile>)
    requires
        old(registry).wf(),
        forall|p: int| 0 <= p < chosen@.len() ==> #[trigger] chosen@[p] < entries@.len(),
        tracking_after(old(registry)@, chosen_paths(entries@, chosen@)).next <= usize::MAX,
    ensures
        final(registry).wf(),
        final(registry)@ == tracking_after(old(registry)@, chosen_paths(entries@, chosen@)),
        are_colored(
            files@,
            chosen@,
            indices_given(old(registry)@, chosen_paths(entries@, chosen@)),
        ),
{
    let ghost start = registry@;
    let ghost paths = chosen_paths(entries@, chosen@);
    let mut files: Vec<ColoredFile> = Vec::new();
    let mut p: usize = 0;
    assert(paths.take(0) =~= Seq::<Seq<u8>>::empty());
    while p < chosen.len()
        invariant
            registry.wf(),
            p <= chosen@.len(),
            paths == chosen_paths(entries@, chosen@),
            tracking_after(start, paths).next <= usize::MAX,
            forall|q: int| 0 <= q < chosen@.len() ==> #[trigger] chosen@[q] < entries@.len(),
            registry@ == tracking_after(start, paths.take(p as int)),
            are_colored(files@, chosen@, indices_given(start, paths.take(p as int))),
        decreases chosen@.len() - p,
    {
        proof {
            assert(paths.take(p + 1).drop_last() =~= paths.take(p as int));
            assert(paths.take(p + 1).last() == entries@[chosen@[p as int] as int].path@);
            lemma_next_never_shrinks(start, paths, p + 1);
        }
        let ghost before = files@;
        let ghost given_before = indices_given(start, paths.take(p as int));
        let ghost given = indices_given(start, paths.take(p + 1));
        let entry: usize = chosen[p];
        if let Some(color_idx) = registry.insert(entries[entry].path.clone()) {
            files.push(ColoredFile { entry, color_idx });
            proof {
                assert(given == given_before.push((p as int, color_idx as nat)));
                assert forall|i: int| 0 <= i < files@.len() implies is_colored(
                    #[trigger] files@[i],
                    chosen@,
                    given[i],
                ) by {
                    if i < before.len() {
                        assert(files@[i] == before[i]);
                        assert(given[i] == given_before[i]);
                    }
                }
            }
        } else {
            assert(given == given_before);
        }
        p += 1;
    }
    assert(paths.take(chosen@.len() as int) =~= paths);
    files
}

/// Files that are all new get consecutive indices, in the order in which they
/// come.
pub proof fn law_new_files_get_consecutive_colors(state: Tracking, paths: Seq<Seq<u8>>)
    requires
        paths.no_duplicates(),
        forall|i: int|
            0 <= i < paths.len() ==> !state.indices.contains_key(#[trigger] paths[i]),
    ensures
        indices_given(state, paths).len() == paths.len(),
        forall|i: int|
            0 <= i < paths.len() ==> #[trigger] indices_given(state, paths)[i] == (
                i,
                (state.next + i) as nat,
            ),
        tracking_after(state, paths).next == state.next + paths.len(),
        forall|path: Seq<u8>| #[trigger]
            tracking_after(state, paths).indices.contains_key(path)
                <==> state.indices.contains_key(path) || paths.contains(path),
    decreases paths.len(),
{
    if paths.len() > 0 {
        let before = paths.drop_last();
        assert forall|i: int| 0 <= i < before.len() implies !state.indices.contains_key(
            #[trigger] before[i],
        ) by {
            assert(before[i] == paths[i]);
        }
        law_new_files_get_consecutive_colors(state, before);
        assert(!before.contains(paths.last())) by {
            if before.contains(paths.last()) {
                let i = choose|i: int| 0 <= i < before.len() && before[i] == paths.last();
                assert(paths[i] == paths[paths.len() - 1]);
            }
        }
        assert(paths[paths.len() - 1] == paths.last());
        let given = indices_given(state, paths);
        assert forall|i: int| 0 <= i < paths.len() implies #[trigger] given[i] == (
            i,
            (state.next + i) as nat,
        ) by {
            if i < before.len() {
                assert(given[i] == indices_given(state, before)[i]);
            }
        }
        assert forall|path: Seq<u8>| #[trigger]
            tracking_after(state, paths).indices.contains_key(path) <==> state.indices.contains_key(
                path,
            ) || paths.contains(path) by {
            assert(tracking_after(state, before).indices.contains_key(path)
                <==> state.indices.contains_key(path) || before.contains(path));
            if before.contains(path) {
                let i = choose|i: int| 0 <= i < before.len() && before[i] == path;
                assert(paths[i] == path);
            }
            if paths.contains(path) && path != paths.last() {
                let i = choose|i: int| 0 <= i < paths.len() && paths[i] == path;
                assert(before[i] == path);
            }
        }
    }
}

/// `sorted` holds `files` in the given order.
pub open spec fn are_reordered(
    sorted: Seq<ColoredFile>,
    files: Seq<ColoredFile>,
    order: Seq<usize>,
) -> bool {
    sorted == order.map_values(|i: usize| files[i as int])
}

/// Sorts the files by their times of modification, the oldest first and files of
/// the same time in the order they have: in this order their last lines are shown.
pub fn oldest_first(files: &Vec<ColoredFile>, times: &Vec<TimeKey>) -> (sorted: Vec<ColoredFile>)
    requires
        times@.len() == files@.len(),
    ensures
        exists|order: Seq<usize>|
            #![trigger order::is_stable_order(times@, order)]
            order::is_stable_order(times@, order) && are_reordered(sorted@, files@, order),
{
    let order: Vec<usize> = order::stable_order(times);
    let mut sorted: Vec<ColoredFile> = Vec::new();
    let mut p: usize = 0;
    while p < order.len()
        invariant
            p <= order@.len(),
            order@.len() == files@.len(),
            forall|q: int| 0 <= q < order@.len() ==> #[trigger] order@[q] < files@.len(),
            sorted@.len() == p,
            forall|q: int| 0 <= q < p ==> #[trigger] sorted@[q] == files@[order@[q] as int],
        decreases order@.len() - p,
    {
        sorted.push(files[order[p]]);
        p += 1;
    }
    assert(sorted@ =~= order@.map_values(|i: usize| files@[i as int]));
    assert(are_reordered(sorted@, files@, order@));
    sorted
}

/// Last lines come in the order of age: of two files, the one whose lines are shown
/// first was not modified later.
pub proof fn law_older_files_come_first(
    sorted: Seq<ColoredFile>,
    files: Seq<ColoredFile>,
    times: Seq<TimeKey>,
    order: Seq<usize>,
)
    requires
        times.len() == files.len(),
        order::is_stable_order(times, order),
        are_reordered(sorted, files, order),
    ensures
        sorted.len() == files.len(),
        forall|p: int, q: int|
            0 <= p < q < sorted.len() ==> {
                &&& sorted[p] == files[order[p] as int]
                &&& sorted[q] == files[order[q] as int]
                &&& order::time_at_most(
                    times[#[trigger] order[p] as int].nanos,
                    times[#[trigger] order[q] as int].nanos,
                )
                &&& times[order[p] as int].nanos is Some && times[order[q] as int].nanos is Some
                    ==> times[order[p] as int].nanos->0 <= times[order[q] as int].nanos->0
            },
        order.no_duplicates(),
{
    order::law_every_position_once(times, order);
    assert forall|p: int, q: int| 0 <= p < q < sorted.len() implies {
        &&& sorted[p] == files[order[p] as int]
        &&& sorted[q] == files[order[q] as int]
        &&& order::time_at_most(
            times[#[trigger] order[p] as int].nanos,
            times[#[trigger] order[q] as int].nanos,
        )
        &&& times[order[p] as int].nanos is Some && times[order[q] as int].nanos is Some
            ==> times[order[p] as int].nanos->0 <= times[order[q] as int].nanos->0
    } by {
        assert(order::comes_before(times, order[p] as int, order[q] as int));
    }
}

/// What is selected are the files whose names are accepted, all of them and each
/// once, in the order of the bytes of their names; of two with the same name the one
/// that is listed first comes first.
pub proof fn law_selection_is_sorted_by_name(
    entries: Seq<DirEntry>,
    accepted: Seq<bool>,
    chosen: Seq<usize>,
)
    requires
        entries.len() <= usize::MAX,
        is_selection(entries, accepted, chosen),
    ensures
        chosen.no_duplicates(),
        forall|p: int|
            0 <= p < chosen.len() ==> #[trigger] chosen[p] < entries.len()
                && entries[chosen[p] as int].is_file && accepted[chosen[p] as int],
        forall|i: int|
            0 <= i < entries.len() && #[trigger] entries[i].is_file && accepted[i]
                ==> chosen.contains(i as usize),
        forall|p: int, q: int|
            #![trigger chosen[p], chosen[q]]
            0 <= p < q < chosen.len() ==> {
                let a = entries[chosen[p] as int].path.file_name();
                let b = entries[chosen[q] as int].path.file_name();
                &&& a == b ==> chosen[p] < chosen[q]
                &&& b is None ==> a is None
                &&& a is Some && b is Some ==> {
                    let x = vstd::utf8::encode_utf8(a->0);
                    let y = vstd::utf8::encode_utf8(b->0);
                    x.is_prefix_of(y) || exists|i: int|
                        0 <= i < x.len() && i < y.len() && x.take(i) == y.take(i) && #[trigger] x[i]
                            < y[i]
                }
            },
{
    assert forall|p: int, q: int| #![trigger chosen[p], chosen[q]] 0 <= p < q
        < chosen.len() implies {
        let a = entries[chosen[p] as int].path.file_name();
        let b = entries[chosen[q] as int].path.file_name();
        &&& chosen[p] != chosen[q]
        &&& a == b ==> chosen[p] < chosen[q]
        &&& b is None ==> a is None
        &&& a is Some && b is Some ==> {
            let x = vstd::utf8::encode_utf8(a->0);
            let y = vstd::utf8::encode_utf8(b->0);
            x.is_prefix_of(y) || exists|i: int|
                0 <= i < x.len() && i < y.len() && x.take(i) == y.take(i) && #[trigger] x[i] < y[i]
        }
    } by {
        let a = entries[chosen[p] as int].path.file_name();
        let b = entries[chosen[q] as int].path.file_name();
        assert(named_before(entries, chosen[p] as int, chosen[q] as int));
        if a is Some && b is Some {
            order::law_bytes_go_by_the_first_difference(
                vstd::utf8::encode_utf8(a->0),
                vstd::utf8::encode_utf8(b->0),
            );
        }
    }
    assert forall|p: int, q: int|
        0 <= p < chosen.len() && 0 <= q < chosen.len() && p != q implies chosen[p] != chosen[q] by {
        if p < q {
            assert(chosen[p] != chosen[q]);
        } else {
            assert(chosen[q] != chosen[p]);
        }
    }
}

/// The files at the start are shown by time of modification, the oldest first: of two
/// files with known times the time of the first is the lower one, or the same one and
/// then the files stand in the order they had. Files without a known time come before
/// all others. Each file is shown once.
pub proof fn law_files_are_shown_oldest_first(
    sorted: Seq<ColoredFile>,
    files: Seq<ColoredFile>,
    times: Seq<TimeKey>,
    order: Seq<usize>,
)
    requires
        times.len() == files.len(),
        order::is_stable_order(times, order),
        are_reordered(sorted, files, order),
    ensures
        sorted.len() == files.len(),
        order.len() == files.len(),
        order.no_duplicates(),
        forall|i: usize| i < files.len() ==> #[trigger] order.contains(i),
        forall|p: int|
            0 <= p < order.len() ==> #[trigger] order[p] < files.len() && sorted[p]
                == files[order[p] as int],
        forall|p: int, q: int|
            #![trigger order[p], order[q]]
            0 <= p < q < order.len() ==> {
                let a = times[order[p] as int].nanos;
                let b = times[order[q] as int].nanos;
                &&& b is None ==> a is None
                &&& a is Some && b is Some ==> a->0 <= b->0
                &&& a == b ==> order[p] < order[q]
            },
{
    order::law_every_position_once(times, order);
    assert forall|p: int, q: int| #![trigger order[p], order[q]] 0 <= p < q
        < order.len() implies {
        let a = times[order[p] as int].nanos;
        let b = times[order[q] as int].nanos;
        &&& b is None ==> a is None
        &&& a is Some && b is Some ==> a->0 <= b->0
        &&& a == b ==> order[p] < order[q]
    } by {
        assert(order::comes_before(times, order[p] as int, order[q] as int));
    }
}

/// Of paths that are to be tracked one by one, each that is not tracked already and
/// has not come before among them gets an index, and is tracked under it from then on.
/// The indices count up by one from the next one on, in the order of the paths.
pub proof fn law_each_new_path_gets_the_next_index(state: Tracking, paths: Seq<Seq<u8>>)
    ensures
        ({
            let given = indices_given(state, paths);
            &&& forall|k: int|
                #![trigger given[k]]
                0 <= k < given.len() ==> {
                    &&& 0 <= given[k].0 < paths.len()
                    &&& given[k].1 == state.next + k
                    &&& !state.indices.contains_key(paths[given[k].0])
                    &&& !paths.take(given[k].0).contains(paths[given[k].0])
                    &&& tracking_after(state, paths).indices[paths[given[k].0]] == given[k].1
                }
            &&& forall|k: int, l: int|
                0 <= k < l < given.len() ==> (#[trigger] given[k]).0 < (#[trigger] given[l]).0
            &&& forall|p: int|
                #![trigger paths[p]]
                0 <= p < paths.len() && !state.indices.contains_key(paths[p]) && !paths.take(
                    p,
                ).contains(paths[p]) ==> exists|k: int|
                    0 <= k < given.len() && (#[trigger] given[k]).0 == p
            &&& tracking_after(state, paths).next == state.next + given.len()
        }),
        forall|path: Seq<u8>| #[trigger]
            tracking_after(state, paths).indices.contains_key(path)
                <==> state.indices.contains_key(path) || paths.contains(path),
        forall|path: Seq<u8>|
            state.indices.contains_key(path) ==> #[trigger] tracking_after(
                state,
                paths,
            ).indices[path] == state.indices[path],
    decreases paths.len(),
{
    if paths.len() > 0 {
        let before = paths.drop_last();
        let last = paths.len() - 1;
        let path = paths.last();
        law_each_new_path_gets_the_next_index(state, before);
        let old_given = indices_given(state, before);
        let given = indices_given(state, paths);
        let old_state = tracking_after(state, before);
        assert(paths.take(last) =~= before);
        assert(old_state.indices.contains_key(path) <==> state.indices.contains_key(path)
            || before.contains(path));
        assert forall|k: int| #![trigger given[k]] 0 <= k < given.len() implies {
            &&& 0 <= given[k].0 < paths.len()
            &&& given[k].1 == state.next + k
            &&& !state.indices.contains_key(paths[given[k].0])
            &&& !paths.take(given[k].0).contains(paths[given[k].0])
            &&& tracking_after(state, paths).indices[paths[given[k].0]] == given[k].1
        } by {
            if k < old_given.len() {
                assert(given[k] == old_given[k]);
                assert(before.take(given[k].0) =~= paths.take(given[k].0));
                assert(before[given[k].0] == paths[given[k].0]);
                assert(before.contains(before[given[k].0]));
                assert(old_state.indices.contains_key(before[given[k].0]));
            }
        }
        assert forall|k: int, l: int| 0 <= k < l < given.len() implies (#[trigger] given[k]).0 < (
        #[trigger] given[l]).0 by {
            assert(given[k] == old_given[k]);
            if l < old_given.len() {
                assert(given[l] == old_given[l]);
            }
        }
        assert forall|p: int|
            #![trigger paths[p]]
            0 <= p < paths.len() && !state.indices.contains_key(paths[p]) && !paths.take(
                p,
            ).contains(paths[p]) implies exists|k: int|
            0 <= k < given.len() && (#[trigger] given[k]).0 == p by {
            if p < last {
                assert(before[p] == paths[p]);
                assert(before.take(p) =~= paths.take(p));
                let k = choose|k: int| 0 <= k < old_given.len() && (#[trigger] old_given[k]).0 == p;
                assert(given[k].0 == p);
            } else {
                assert(given[old_given.len() as int].0 == p);
            }
        }
        assert forall|other: Seq<u8>| #[trigger]
            tracking_after(state, paths).indices.contains_key(other)
                <==> state.indices.contains_key(other) || paths.contains(other) by {
            assert(old_state.indices.contains_key(other) <==> state.indices.contains_key(other)
                || before.contains(other));
            if before.contains(other) {
                let i = choose|i: int| 0 <= i < before.len() && before[i] == other;
                assert(paths[i] == other);
            }
            if paths.contains(other) && other != path {
                let i = choose|i: int| 0 <= i < paths.len() && paths[i] == other;
                assert(before[i] == other);
            }
            assert(paths[last] == path);
        }
        assert forall|other: Seq<u8>|
            state.indices.contains_key(other) implies #[trigger] tracking_after(
            state,
            paths,
        ).indices[other] == state.indices[other] by {
            assert(old_state.indices.contains_key(other));
            assert(old_state.indices[other] == state.indices[other]);
        }
    }
}

/// The files at the start are colored in the order in which they were chosen: each
/// whose path is not tracked yet and was not chosen before gets the next index, and
/// the others get none.
pub proof fn law_chosen_files_are_colored_in_order(
    state: Tracking,
    entries: Seq<DirEntry>,
    chosen: Seq<usize>,
    files: Seq<ColoredFile>,
)
    requires
        are_colored(files, chosen, indices_given(state, chosen_paths(entries, chosen))),
    ensures
        forall|k: int|
            0 <= k < files.len() ==> (#[trigger] files[k]).color_idx == state.next + k
                && chosen.contains(files[k].entry) && !state.indices.contains_key(
                entries[files[k].entry as int].path@,
            ),
        forall|k: int, l: int|
            0 <= k < l < files.len() ==> entries[(#[trigger] files[k]).entry as int].path@
                != entries[(#[trigger] files[l]).entry as int].path@,
        forall|p: int|
            #![trigger chosen[p]]
            0 <= p < chosen.len() && !state.indices.contains_key(
                entries[chosen[p] as int].path@,
            ) && (forall|q: int|
                0 <= q < p ==> entries[#[trigger] chosen[q] as int].path@
                    != entries[chosen[p] as int].path@) ==> exists|k: int|
                0 <= k < files.len() && (#[trigger] files[k]).entry == chosen[p],
        (forall|p: int|
            0 <= p < chosen.len() ==> !state.indices.contains_key(
                entries[#[trigger] chosen[p] as int].path@,
            )) && (forall|p: int, q: int|
            0 <= p < q < chosen.len() ==> entries[#[trigger] chosen[p] as int].path@
                != entries[#[trigger] chosen[q] as int].path@) ==> files.len() == chosen.len() && (
        forall|k: int| 0 <= k < files.len() ==> (#[trigger] files[k]).entry == chosen[k]),
{
    let paths = chosen_paths(entries, chosen);
    let given = indices_given(state, paths);
    law_each_new_path_gets_the_next_index(state, paths);
    assert forall|k: int| 0 <= k < files.len() implies (#[trigger] files[k]).color_idx == state.next
        + k && chosen.contains(files[k].entry) && !state.indices.contains_key(
        entries[files[k].entry as int].path@,
    ) by {
        assert(is_colored(files[k], chosen, given[k]));
        assert(chosen[given[k].0] == files[k].entry);
        assert(paths[given[k].0] == entries[files[k].entry as int].path@);
    }
    assert forall|k: int, l: int| 0 <= k < l < files.len() implies entries[(
    #[trigger] files[k]).entry as int].path@ != entries[(
    #[trigger] files[l]).entry as int].path@ by {
        assert(is_colored(files[k], chosen, given[k]) && is_colored(files[l], chosen, given[l]));
        assert(given[k].0 < given[l].0);
        assert(paths.take(given[l].0)[given[k].0] == paths[given[k].0]);
        assert(paths.take(given[l].0).contains(paths[given[k].0]));
    }
    assert forall|p: int|
        #![trigger chosen[p]]
        0 <= p < chosen.len() && !state.indices.contains_key(entries[chosen[p] as int].path@) && (
        forall|q: int|
            0 <= q < p ==> entries[#[trigger] chosen[q] as int].path@
                != entries[chosen[p] as int].path@) implies exists|k: int|
        0 <= k < files.len() && (#[trigger] files[k]).entry == chosen[p] by {
        assert(paths[p] == entries[chosen[p] as int].path@);
        assert(!paths.take(p).contains(paths[p])) by {
            if paths.take(p).contains(paths[p]) {
                let q = choose|q: int| 0 <= q < p && paths.take(p)[q] == paths[p];
                assert(paths[q] == entries[chosen[q] as int].path@);
            }
        }
        let k = choose|k: int| 0 <= k < given.len() && (#[trigger] given[k]).0 == p;
        assert(is_colored(files[k], chosen, given[k]));
    }
    if (forall|p: int|
        0 <= p < chosen.len() ==> !state.indices.contains_key(
            entries[#[trigger] chosen[p] as int].path@,
        )) && (forall|p: int, q: int|
        0 <= p < q < chosen.len() ==> entries[#[trigger] chosen[p] as int].path@
            != entries[#[trigger] chosen[q] as int].path@) {
        assert forall|i: int| 0 <= i < paths.len() implies !state.indices.contains_key(
            #[trigger] paths[i],
        ) by {
            assert(paths[i] == entries[chosen[i] as int].path@);
        }
        assert forall|i: int, j: int|
            0 <= i < paths.len() && 0 <= j < paths.len() && i != j implies paths[i]
            != paths[j] by {
            assert(paths[i] == entries[chosen[i] as int].path@);
            assert(paths[j] == entries[chosen[j] as int].path@);
        }
        law_new_files_get_consecutive_colors(state, paths);
        assert forall|k: int| 0 <= k < files.len() implies (#[trigger] files[k]).entry
            == chosen[k] by {
            assert(is_colored(files[k], chosen, given[k]));
            assert(given[k].0 == k);
        }
    }
}

/// Each entry gets the answer that its own name has from the filter.
pub proof fn law_each_entry_is_answered_by_its_name(
    filter: &NameFilter,
    entries: Seq<DirEntry>,
    accepted: Seq<bool>,
)
    requires
        are_answers(filter, entries, accepted),
    ensures
        accepted.len() == entries.len(),
        forall|i: int|
            #![trigger accepted[i]]
            0 <= i < entries.len() ==> {
                let name = entries[i].path.file_name();
                &&& filter.answers(name, accepted[i])
                &&& name is None ==> !accepted[i]
                &&& name is Some && !filter@.contains('\\') && !(name->0).contains('\\')
                    ==> accepted[i] == filter::pattern_matches(false, false, filter@, name->0)
            },
{
    assert forall|i: int| #![trigger accepted[i]] 0 <= i < entries.len() implies {
        let name = entries[i].path.file_name();
        &&& filter.answers(name, accepted[i])
        &&& name is None ==> !accepted[i]
        &&& name is Some && !filter@.contains('\\') && !(name->0).contains('\\') ==> accepted[i]
            == filter::pattern_matches(false, false, filter@, name->0)
    } by {
        filter::law_glob_decides_on_names(*filter, entries[i].path.file_name(), accepted[i]);
    }
}

} // verus!
