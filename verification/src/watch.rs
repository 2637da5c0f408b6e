//! Changes in the directory: which files to start tailing, and which to forget.

use crate::filter::NameFilter;
use crate::path::FilePath;
use crate::registry::{self, FileRegistry, Tracking};
use crate::startup::{self, ColoredFile, DirEntry};
use vstd::prelude::*;

verus! {

/// What happened to some paths of the directory.
#[derive(Clone, Copy, Debug, PartialEq, Eq, Structural)]
pub enum WatchKind {
    /// They were created.
    Created,
    /// They were removed.
    Removed,
    /// They were renamed to something else.
    RenamedAway,
    /// Anything else.
    Other,
}

/// A path that has changed, by what matters of it.
pub struct Change {
    /// The bytes of the path.
    pub path: Seq<u8>,
    /// Whether there is a file of an accepted name.
    pub wanted: bool,
}

/// The index that a change makes a file be tailed under.
pub open spec fn starts(state: Tracking, kind: WatchKind, change: Change) -> Option<nat> {
    if kind == WatchKind::Created && change.wanted {
        state.index_for(change.path)
    } else {
        None
    }
}

/// The state of the registry after a change: a wanted file that is new is tracked,
/// a path that is gone is forgotten.
pub open spec fn after_change(state: Tracking, kind: WatchKind, change: Change) -> Tracking {
    match kind {
        WatchKind::Created => if change.wanted {
            state.with(change.path)
        } else {
            state
        },
        WatchKind::Removed => state.without(change.path),
        WatchKind::RenamedAway => state.without(change.path),
        WatchKind::Other => state,
    }
}

/// The state of the registry after changes of one kind, one by one.
pub open spec fn after_changes(
    state: Tracking,
    kind: WatchKind,
    changes: Seq<Change>,
) -> Tracking
    decreases changes.len(),
{
    if changes.len() == 0 {
        state
    } else {
        after_change(after_changes(state, kind, changes.drop_last()), kind, changes.last())
    }
}

/// The place and the index of each change that makes a file be tailed, in order.
pub open spec fn all_starts(
    state: Tracking,
    kind: WatchKind,
    changes: Seq<Change>,
) -> Seq<(int, nat)>
    decreases changes.len(),
{
    if changes.len() == 0 {
        Seq::empty()
    } else {
        let before = all_starts(state, kind, changes.drop_last());
        match starts(after_changes(state, kind, changes.drop_last()), kind, changes.last()) {
            Some(idx) => before.push((changes.len() - 1, idx)),
            None => before,
        }
    }
}

/// The changes that concern `entries`, given which names are accepted.
pub open spec fn changes_of(entries: Seq<DirEntry>, accepted: Seq<bool>) -> Seq<Change> {
    Seq::new(
        entries.len(),
        |i: int|
            Change { path: entries[i].path@, wanted: entries[i].is_file && accepted[i] },
    )
}

/// `files` are the entries that get tailed, with their indices.
pub open spec fn are_started(files: Seq<ColoredFile>, given: Seq<(int, nat)>) -> bool {
    &&& files.len() == given.len()
    &&& forall|i: int|
        0 <= i < files.len() ==> (#[trigger] files[i]).entry == given[i].0 && files[i].color_idx
            == given[i].1
}

/// Takes in one change. Gives the color index of the file to start tailing, if it
/// is one: a file, of an accepted name, that is not tailed yet.
pub fn on_change(
    registry: &mut FileRegistry,
    kind: WatchKind,
    path: &FilePath,
    is_file: bool,
    accepted: bool,
) -> (idx: Option<usize>)
    requires
        old(registry).wf(),
        starts(
            old(registry)@,
            kind,
            Change { path: path@, wanted: is_file && accepted },
        ) is Some ==> old(registry)@.next < usize::MAX,
    ensures
        final(registry).wf(),
        ({
            let change = Change { path: path@, wanted: is_file && accepted };
            &&& final(registry)@ == after_change(old(registry)@, kind, change)
            &&& match idx {
                Some(idx) => starts(old(registry)@, kind, change) == Some(idx as nat),
                None => starts(old(registry)@, kind, change) is None,
            }
        }),
{
    match kind {
        WatchKind::Created => {
            if is_file && accepted {
                registry.insert(path.clone())
            } else {
                None
            }
        },
        WatchKind::Removed | WatchKind::RenamedAway => {
            registry.remove(path);
            None
        },
        WatchKind::Other => None,
    }
}

/// Changes use up one index each at most, and those only that create something.
pub proof fn law_one_index_each(state: Tracking, kind: WatchKind, changes: Seq<Change>)
    ensures
        after_changes(state, kind, changes).next <= state.next + changes.len(),
        kind != WatchKind::Created ==> after_changes(state, kind, changes).next == state.next,
    decreases changes.len(),
{
    if changes.len() > 0 {
        law_one_index_each(state, kind, changes.drop_last());
    }
}

/// The next index never goes down.
proof fn lemma_next_never_shrinks(
    state: Tracking,
    kind: WatchKind,
    changes: Seq<Change>,
    n: int,
)
    requires
        0 <= n <= changes.len(),
    ensures
        after_changes(state, kind, changes.take(n)).next <= after_changes(
            state,
            kind,
            changes,
        ).next,
    decreases changes.len(),
{
    if n < changes.len() {
        assert(changes.drop_last().take(n) =~= changes.take(n));
        lemma_next_never_shrinks(state, kind, changes.drop_last(), n);
    } else {
        assert(changes.take(n) =~= changes);
    }
}

/// Takes in what happened to the given paths, of which it is known whether there
/// is a file and whether its name is accepted. Gives the files to start tailing.
pub fn on_changes(
    registry: &mut FileRegistry,
    kind: WatchKind,
    entries: &Vec<DirEntry>,
    accepted: &Vec<bool>,
) -> (files: Vec<ColoredFile>)
    requires
        old(registry).wf(),
        accepted@.len() == entries@.len(),
        after_changes(old(registry)@, kind, changes_of(entries@, accepted@)).next <= usize::MAX,
    ensures
        final(registry).wf(),
        final(registry)@ == after_changes(
            old(registry)@,
            kind,
            changes_of(entries@, accepted@),
        ),
        are_started(
            files@,
            all_starts(old(registry)@, kind, changes_of(entries@, accepted@)),
        ),
{
    let ghost start = registry@;
    let ghost changes = changes_of(entries@, accepted@);
    let mut files: Vec<ColoredFile> = Vec::new();
    let mut i: usize = 0;
    assert(changes.take(0) =~= Seq::<Change>::empty());
    while i < entries.len()
        invariant
            registry.wf(),
            i <= entries@.len(),
            accepted@.len() == entries@.len(),
            changes == changes_of(entries@, accepted@),
            after_changes(start, kind, changes).next <= usize::MAX,
            registry@ == after_changes(start, kind, changes.take(i as int)),
            are_started(files@, all_starts(start, kind, changes.take(i as int))),
        decreases entries@.len() - i,
    {
        proof {
            assert(changes.take(i + 1).drop_last() =~= changes.take(i as int));
            assert(changes.take(i + 1).last() == changes[i as int]);
            lemma_next_never_shrinks(start, kind, changes, i + 1);
        }
        let ghost before = files@;
        let ghost given_before = all_starts(start, kind, changes.take(i as int));
        let ghost given = all_starts(start, kind, changes.take(i + 1));
        if let Some(color_idx) = on_change(
            registry,
            kind,
            &entries[i].path,
            entries[i].is_file,
            accepted[i],
        ) {
            files.push(ColoredFile { entry: i, color_idx });
            assert(given == given_before.push((i as int, color_idx as nat)));
        } else {
            assert(given == given_before);
        }
        assert(are_started(files@, given));
        i += 1;
    }
    assert(changes.take(entries@.len() as int) =~= changes);
    files
}

/// Takes in what happened to the given paths, of which it is known whether there
/// is a file. Gives the files to start tailing.
pub fn on_watch_event(
    registry: &mut FileRegistry,
    filter: &NameFilter,
    kind: WatchKind,
    entries: &Vec<DirEntry>,
) -> (files: Vec<ColoredFile>)
    requires
        old(registry).wf(),
        kind == WatchKind::Created ==> old(registry)@.next + entries@.len() <= usize::MAX,
    ensures
        final(registry).wf(),
        exists|accepted: Seq<bool>|
            #![trigger startup::are_answers(filter, entries@, accepted)]
            {
                &&& startup::are_answers(filter, entries@, accepted)
                &&& final(registry)@ == after_changes(
                    old(registry)@,
                    kind,
                    changes_of(entries@, accepted),
                )
                &&& are_started(
                    files@,
                    all_starts(old(registry)@, kind, changes_of(entries@, accepted)),
                )
            },
{
    let accepted: Vec<bool> = startup::accepted_names(filter, entries);
    proof {
        registry::lemma_next_index_fits(*registry);
        law_one_index_each(registry@, kind, changes_of(entries@, accepted@));
    }
    on_changes(registry, kind, entries, &accepted)
}

/// Log rotation: when a tracked file is renamed away or removed and a wanted file
/// is then created in its place, the new file is tailed, under a new index.
pub proof fn law_rotation(state: Tracking, gone: WatchKind, path: Seq<u8>, wanted: bool)
    requires
        state.sound(),
        gone == WatchKind::Removed || gone == WatchKind::RenamedAway,
    ensures
        ({
            let rotated = after_change(state, gone, Change { path, wanted });
            let created = Change { path, wanted: true };
            &&& starts(rotated, WatchKind::Created, created) == Some(state.next)
            &&& state.indices.contains_key(path) ==> state.next > state.indices[path]
            &&& after_change(rotated, WatchKind::Created, created).index_or_zero(path)
                == state.next
        }),
{
}

/// A file that is created, whose name is accepted and that is not tailed yet is
/// tailed from then on.
pub proof fn law_new_file_is_started(state: Tracking, change: Change)
    requires
        change.wanted,
        !state.indices.contains_key(change.path),
    ensures
        starts(state, WatchKind::Created, change) == Some(state.next),
        after_change(state, WatchKind::Created, change).indices.contains_key(change.path),
{
}

/// A file is not tailed twice: creating what is tracked starts nothing and changes
/// nothing.
pub proof fn law_tracked_file_is_not_started_again(state: Tracking, change: Change)
    requires
        state.indices.contains_key(change.path),
    ensures
        starts(state, WatchKind::Created, change) is None,
        after_change(state, WatchKind::Created, change) == state,
{
}

/// Other changes than these start nothing and leave the registry alone.
pub proof fn law_other_changes_do_nothing(state: Tracking, changes: Seq<Change>)
    ensures
        after_changes(state, WatchKind::Other, changes) == state,
        all_starts(state, WatchKind::Other, changes).len() == 0,
    decreases changes.len(),
{
    if changes.len() > 0 {
        law_other_changes_do_nothing(state, changes.drop_last());
    }
}

/// Whatever happens, no two tracked files share an index.
pub proof fn law_changes_keep_indices_distinct(
    state: Tracking,
    kind: WatchKind,
    changes: Seq<Change>,
)
    requires
        state.sound(),
    ensures
        after_changes(state, kind, changes).sound(),
    decreases changes.len(),
{
    if changes.len() > 0 {
        let before = after_changes(state, kind, changes.drop_last());
        law_changes_keep_indices_distinct(state, kind, changes.drop_last());
        registry::law_indices_stay_distinct(before, changes.last().path);
    }
}

/// Only the creation of a wanted file that is not tracked starts something, under the
/// next index; it is tracked under that from then on.
pub proof fn law_what_a_change_starts(state: Tracking, kind: WatchKind, change: Change)
    ensures
        starts(state, kind, change) is Some <==> kind == WatchKind::Created && change.wanted
            && !state.indices.contains_key(change.path),
        starts(state, kind, change) matches Some(idx) ==> {
            &&& idx == state.next
            &&& after_change(state, kind, change).indices.contains_key(change.path)
            &&& after_change(state, kind, change).indices[change.path] == idx
            &&& after_change(state, kind, change).next == state.next + 1
        },
        starts(state, kind, change) is None ==> after_change(state, kind, change).next
            == state.next,
{
}

/// A change leaves all other paths as they are. A path that is removed or renamed away
/// is forgotten; a tracked path stays tracked under its index otherwise, and a file
/// that is not wanted is not tracked.
pub proof fn law_what_a_change_leaves(
    state: Tracking,
    kind: WatchKind,
    change: Change,
    other: Seq<u8>,
)
    ensures
        other != change.path ==> (after_change(state, kind, change).indices.contains_key(other)
            <==> state.indices.contains_key(other)),
        other != change.path && state.indices.contains_key(other) ==> after_change(
            state,
            kind,
            change,
        ).indices[other] == state.indices[other],
        kind == WatchKind::Removed || kind == WatchKind::RenamedAway ==> !after_change(
            state,
            kind,
            change,
        ).indices.contains_key(change.path),
        (kind == WatchKind::Created || kind == WatchKind::Other) && state.indices.contains_key(
            change.path,
        ) ==> after_change(state, kind, change).indices.contains_key(change.path)
            && after_change(state, kind, change).indices[change.path]
            == state.indices[change.path],
        kind == WatchKind::Other || !change.wanted ==> (after_change(
            state,
            kind,
            change,
        ).indices.contains_key(change.path) ==> state.indices.contains_key(change.path)),
{
}

/// The changes are those of the entries, in their order: each has the path of its
/// entry, and is wanted if and only if there is a file of an accepted name.
pub proof fn law_changes_are_those_of_the_entries(entries: Seq<DirEntry>, accepted: Seq<bool>)
    ensures
        changes_of(entries, accepted).len() == entries.len(),
        forall|i: int|
            #![trigger changes_of(entries, accepted)[i]]
            0 <= i < entries.len() ==> {
                &&& changes_of(entries, accepted)[i].path == entries[i].path@
                &&& changes_of(entries, accepted)[i].wanted <==> entries[i].is_file && accepted[i]
            },
{
}

/// When paths are removed or renamed away, each of them is forgotten and no other
/// is; nothing is started.
pub proof fn law_gone_paths_are_forgotten(
    state: Tracking,
    kind: WatchKind,
    changes: Seq<Change>,
    path: Seq<u8>,
)
    requires
        kind == WatchKind::Removed || kind == WatchKind::RenamedAway,
    ensures
        all_starts(state, kind, changes).len() == 0,
        after_changes(state, kind, changes).next == state.next,
        (exists|i: int| 0 <= i < changes.len() && (#[trigger] changes[i]).path == path)
            ==> !after_changes(state, kind, changes).indices.contains_key(path),
        (forall|i: int| 0 <= i < changes.len() ==> (#[trigger] changes[i]).path != path) ==> {
            &&& after_changes(state, kind, changes).indices.contains_key(path)
                <==> state.indices.contains_key(path)
            &&& state.indices.contains_key(path) ==> after_changes(
                state,
                kind,
                changes,
            ).indices[path] == state.indices[path]
        },
    decreases changes.len(),
{
    if changes.len() > 0 {
        let before = changes.drop_last();
        law_gone_paths_are_forgotten(state, kind, before, path);
        assert(forall|i: int| 0 <= i < before.len() ==> before[i] == changes[i]);
        assert(changes.last() == changes[changes.len() - 1]);
        if exists|i: int| 0 <= i < changes.len() && (#[trigger] changes[i]).path == path {
            let i = choose|i: int| 0 <= i < changes.len() && (#[trigger] changes[i]).path == path;
            if i < before.len() {
                assert(before[i].path == path);
            }
        }
        if forall|i: int| 0 <= i < changes.len() ==> (#[trigger] changes[i]).path != path {
            assert forall|i: int| 0 <= i < before.len() implies (#[trigger] before[i]).path
                != path by {
                assert(changes[i].path != path);
            }
        }
    }
}

/// When paths are created, each wanted one that is not tracked and has not come before
/// among them is started, and nothing else is; the indices count up by one from the
/// next one on.
pub proof fn law_created_files_are_started(state: Tracking, changes: Seq<Change>)
    ensures
        ({
            let given = all_starts(state, WatchKind::Created, changes);
            &&& forall|k: int|
                #![trigger given[k]]
                0 <= k < given.len() ==> {
                    &&& 0 <= given[k].0 < changes.len()
                    &&& given[k].1 == state.next + k
                    &&& changes[given[k].0].wanted
                    &&& !state.indices.contains_key(changes[given[k].0].path)
                    &&& !changes.take(given[k].0).contains(changes[given[k].0])
                    &&& after_changes(
                        state,
                        WatchKind::Created,
                        changes,
                    ).indices[changes[given[k].0].path] == given[k].1
                }
            &&& forall|k: int, l: int|
                0 <= k < l < given.len() ==> (#[trigger] given[k]).0 < (#[trigger] given[l]).0
            &&& forall|p: int|
                #![trigger changes[p]]
                0 <= p < changes.len() && changes[p].wanted && !state.indices.contains_key(
                    changes[p].path,
                ) && !changes.take(p).contains(changes[p]) ==> exists|k: int|
                    0 <= k < given.len() && (#[trigger] given[k]).0 == p
            &&& after_changes(state, WatchKind::Created, changes).next == state.next + given.len()
        }),
        forall|path: Seq<u8>| #[trigger]
            after_changes(state, WatchKind::Created, changes).indices.contains_key(path)
                <==> state.indices.contains_key(path) || changes.contains(
                Change { path, wanted: true },
            ),
        forall|path: Seq<u8>|
            state.indices.contains_key(path) ==> #[trigger] after_changes(
                state,
                WatchKind::Created,
                changes,
            ).indices[path] == state.indices[path],
    decreases changes.len(),
{
    let kind = WatchKind::Created;
    if changes.len() > 0 {
        let before = changes.drop_last();
        let last = changes.len() - 1;
        let change = changes.last();
        law_created_files_are_started(state, before);
        let old_given = all_starts(state, kind, before);
        let given = all_starts(state, kind, changes);
        let old_state = after_changes(state, kind, before);
        assert(changes.take(last) =~= before);
        assert(change.wanted ==> change == Change { path: change.path, wanted: true });
        assert(old_state.indices.contains_key(change.path) <==> state.indices.contains_key(
            change.path,
        ) || before.contains(Change { path: change.path, wanted: true }));
        assert forall|k: int| #![trigger given[k]] 0 <= k < given.len() implies {
            &&& 0 <= given[k].0 < changes.len()
            &&& given[k].1 == state.next + k
            &&& changes[given[k].0].wanted
            &&& !state.indices.contains_key(changes[given[k].0].path)
            &&& !changes.take(given[k].0).contains(changes[given[k].0])
            &&& after_changes(state, kind, changes).indices[changes[given[k].0].path]
                == given[k].1
        } by {
            if k < old_given.len() {
                let p = given[k].0;
                assert(given[k] == old_given[k]);
                assert(before.take(p) =~= changes.take(p));
                assert(before[p] == changes[p]);
                assert(before[p] == Change { path: before[p].path, wanted: true });
                assert(before.contains(before[p]));
                assert(old_state.indices.contains_key(before[p].path));
            }
        }
        assert forall|k: int, l: int| 0 <= k < l < given.len() implies (#[trigger] given[k]).0 < (
        #[trigger] given[l]).0 by {
            assert(given[k] == old_given[k]);
            if l < old_given.len() {
                assert(given[l] == old_given[l]);
            }
        }
        assert forall|p: int|
            #![trigger changes[p]]
            0 <= p < changes.len() && changes[p].wanted && !state.indices.contains_key(
                changes[p].path,
            ) && !changes.take(p).contains(changes[p]) implies exists|k: int|
            0 <= k < given.len() && (#[trigger] given[k]).0 == p by {
            if p < last {
                assert(before[p] == changes[p]);
                assert(before.take(p) =~= changes.take(p));
                let k = choose|k: int| 0 <= k < old_given.len() && (#[trigger] old_given[k]).0 == p;
                assert(given[k].0 == p);
            } else {
                assert(given[old_given.len() as int].0 == p);
            }
        }
        assert forall|path: Seq<u8>| #[trigger]
            after_changes(state, kind, changes).indices.contains_key(path)
                <==> state.indices.contains_key(path) || changes.contains(
                Change { path, wanted: true },
            ) by {
            let created = Change { path, wanted: true };
            assert(old_state.indices.contains_key(path) <==> state.indices.contains_key(path)
                || before.contains(created));
            if before.contains(created) {
                let i = choose|i: int| 0 <= i < before.len() && before[i] == created;
                assert(changes[i] == created);
            }
            if changes.contains(created) && created != change {
                let i = choose|i: int| 0 <= i < changes.len() && changes[i] == created;
                assert(before[i] == created);
            }
            assert(changes[last] == change);
        }
        assert forall|path: Seq<u8>|
            state.indices.contains_key(path) implies #[trigger] after_changes(
            state,
            kind,
            changes,
        ).indices[path] == state.indices[path] by {
            assert(old_state.indices.contains_key(path));
            assert(old_state.indices[path] == state.indices[path]);
        }
    }
}

/// Of entries that are created, those are started that are files of an accepted name,
/// are not tracked and have not come before among them, in their order and each with
/// an index of its own.
pub proof fn law_created_entries_are_started(
    state: Tracking,
    entries: Seq<DirEntry>,
    accepted: Seq<bool>,
    files: Seq<ColoredFile>,
)
    requires
        are_started(
            files,
            all_starts(state, WatchKind::Created, changes_of(entries, accepted)),
        ),
    ensures
        forall|k: int|
            #![trigger files[k]]
            0 <= k < files.len() ==> {
                &&& files[k].color_idx == state.next + k
                &&& files[k].entry < entries.len()
                &&& entries[files[k].entry as int].is_file && accepted[files[k].entry as int]
                &&& !state.indices.contains_key(entries[files[k].entry as int].path@)
            },
        forall|k: int, l: int|
            0 <= k < l < files.len() ==> (#[trigger] files[k]).entry < (#[trigger] files[l]).entry,
        forall|i: int|
            #![trigger entries[i]]
            0 <= i < entries.len() && entries[i].is_file && accepted[i]
                && !state.indices.contains_key(entries[i].path@) && (forall|j: int|
                0 <= j < i ==> (#[trigger] entries[j]).path@ != entries[i].path@) ==> exists|k: int|
                0 <= k < files.len() && (#[trigger] files[k]).entry == i,
{
    let changes = changes_of(entries, accepted);
    let given = all_starts(state, WatchKind::Created, changes);
    law_created_files_are_started(state, changes);
    assert forall|k: int, l: int| 0 <= k < l < files.len() implies (#[trigger] files[k]).entry < (
    #[trigger] files[l]).entry by {
        assert(given[k].0 < given[l].0);
    }
    assert forall|i: int|
        #![trigger entries[i]]
        0 <= i < entries.len() && entries[i].is_file && accepted[i] && !state.indices.contains_key(
            entries[i].path@,
        ) && (forall|j: int|
            0 <= j < i ==> (#[trigger] entries[j]).path@
                != entries[i].path@) implies exists|k: int|
        0 <= k < files.len() && (#[trigger] files[k]).entry == i by {
        assert(!changes.take(i).contains(changes[i])) by {
            if changes.take(i).contains(changes[i]) {
                let j = choose|j: int| 0 <= j < i && changes.take(i)[j] == changes[i];
                assert(changes[j].path == changes[i].path);
                assert(entries[j].path@ != entries[i].path@);
            }
        }
        let k = choose|k: int| 0 <= k < given.len() && (#[trigger] given[k]).0 == i;
        assert(files[k].entry == i);
    }
}

/// Nothing is started but what is created.
pub proof fn law_only_created_files_are_started(
    state: Tracking,
    kind: WatchKind,
    changes: Seq<Change>,
    files: Seq<ColoredFile>,
)
    requires
        kind != WatchKind::Created,
        are_started(files, all_starts(state, kind, changes)),
    ensures
        files.len() == 0,
    decreases changes.len(),
{
    if changes.len() > 0 {
        law_only_created_files_are_started(state, kind, changes.drop_last(), files);
    }
}

} // verus!
