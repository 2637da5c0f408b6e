//! The order in which a directory is listed: it plays no part in which files are
//! tailed, in what order, and in which color.

use crate::filter::{self, NameFilter};
use crate::order;
use crate::registry::Tracking;
use crate::startup::{self, DirEntry};
use vstd::prelude::*;

verus! {

/// What an entry of a directory says, wherever it stands in a listing.
pub struct Listed {
    /// The bytes that identify its path.
    pub path: Seq<u8>,
    /// Its name, where it is Unicode.
    pub name: Option<Seq<char>>,
    /// Whether it is a file.
    pub is_file: bool,
}

/// What an entry says.
pub open spec fn said_by(entry: DirEntry) -> Listed {
    Listed { path: entry.path@, name: entry.path.file_name(), is_file: entry.is_file }
}

/// `listing` holds an entry that says `said`.
pub open spec fn lists(listing: Seq<DirEntry>, said: Listed) -> bool {
    exists|i: int| 0 <= i < listing.len() && said_by(#[trigger] listing[i]) == said
}

/// The two listings hold the same entries, in whatever order.
pub open spec fn same_entries(a: Seq<DirEntry>, b: Seq<DirEntry>) -> bool {
    forall|said: Listed| #[trigger] lists(a, said) <==> lists(b, said)
}

/// Entry `i` is one to tail.
pub open spec fn is_wanted(listing: Seq<DirEntry>, accepted: Seq<bool>, i: int) -> bool {
    0 <= i < listing.len() && listing[i].is_file && accepted[i]
}

/// No two entries to tail have the same name.
pub open spec fn distinct_names(listing: Seq<DirEntry>, accepted: Seq<bool>) -> bool {
    forall|i: int, j: int|
        is_wanted(listing, accepted, i) && is_wanted(listing, accepted, j) && i != j
            ==> #[trigger] listing[i].path.file_name() != #[trigger] listing[j].path.file_name()
}

/// Entries of the same name get the same answer in both listings.
pub open spec fn same_answers(
    a: Seq<DirEntry>,
    accepted_a: Seq<bool>,
    b: Seq<DirEntry>,
    accepted_b: Seq<bool>,
) -> bool {
    forall|i: int, j: int|
        0 <= i < a.len() && 0 <= j < b.len() && a[i].path.file_name() == b[j].path.file_name()
            ==> #[trigger] accepted_a[i] == #[trigger] accepted_b[j]
}

/// Names that are equal in bytes are equal.
proof fn lemma_same_bytes_same_name(a: DirEntry, b: DirEntry)
    requires
        startup::name_bytes(a.path) == startup::name_bytes(b.path),
    ensures
        a.path.file_name() == b.path.file_name(),
{
    if let (Some(name_a), Some(name_b)) = (a.path.file_name(), b.path.file_name()) {
        vstd::utf8::encode_utf8_decode_utf8(name_a);
        vstd::utf8::encode_utf8_decode_utf8(name_b);
    }
}

/// No two places of a selection hold entries of the same name.
proof fn lemma_places_differ(
    listing: Seq<DirEntry>,
    accepted: Seq<bool>,
    chosen: Seq<usize>,
    p: int,
    q: int,
)
    requires
        distinct_names(listing, accepted),
        startup::is_selection(listing, accepted, chosen),
        0 <= p < q < chosen.len(),
    ensures
        listing[chosen[p] as int].path.file_name() != listing[chosen[q] as int].path.file_name(),
{
    let i = chosen[p] as int;
    let j = chosen[q] as int;
    assert(startup::named_before(listing, i, j));
    assert(is_wanted(listing, accepted, i) && is_wanted(listing, accepted, j));
    assert(i != j);
}

/// Where the selection from `b` holds what the selection from `a` holds at place
/// `p`.
proof fn lemma_chosen_in_both(
    a: Seq<DirEntry>,
    accepted_a: Seq<bool>,
    chosen_a: Seq<usize>,
    b: Seq<DirEntry>,
    accepted_b: Seq<bool>,
    chosen_b: Seq<usize>,
    p: int,
) -> (q: int)
    requires
        b.len() <= usize::MAX,
        same_entries(a, b),
        same_answers(a, accepted_a, b, accepted_b),
        startup::is_selection(a, accepted_a, chosen_a),
        startup::is_selection(b, accepted_b, chosen_b),
        0 <= p < chosen_a.len(),
    ensures
        0 <= q < chosen_b.len(),
        said_by(a[chosen_a[p] as int]) == said_by(b[chosen_b[q] as int]),
{
    let i = chosen_a[p] as int;
    let said = said_by(a[i]);
    assert(lists(a, said));
    assert(lists(b, said));
    let j = choose|j: int| 0 <= j < b.len() && said_by(#[trigger] b[j]) == said;
    assert(accepted_a[i] == accepted_b[j]);
    assert(chosen_b.contains(j as usize));
    choose|q: int| 0 <= q < chosen_b.len() && chosen_b[q] == j as usize
}

/// The selections from two listings of the same entries agree on their first `n`
/// places.
proof fn lemma_same_files_until(
    a: Seq<DirEntry>,
    accepted_a: Seq<bool>,
    chosen_a: Seq<usize>,
    b: Seq<DirEntry>,
    accepted_b: Seq<bool>,
    chosen_b: Seq<usize>,
    n: int,
)
    requires
        a.len() <= usize::MAX,
        b.len() <= usize::MAX,
        same_entries(a, b),
        same_answers(a, accepted_a, b, accepted_b),
        same_answers(b, accepted_b, a, accepted_a),
        distinct_names(a, accepted_a),
        distinct_names(b, accepted_b),
        startup::is_selection(a, accepted_a, chosen_a),
        startup::is_selection(b, accepted_b, chosen_b),
        0 <= n <= chosen_a.len(),
    ensures
        n <= chosen_b.len(),
        forall|p: int|
            0 <= p < n ==> said_by(a[#[trigger] chosen_a[p] as int]) == said_by(
                b[chosen_b[p] as int],
            ),
    decreases n,
{
    if n > 0 {
        let p = n - 1;
        lemma_same_files_until(a, accepted_a, chosen_a, b, accepted_b, chosen_b, p);
        let q = lemma_chosen_in_both(a, accepted_a, chosen_a, b, accepted_b, chosen_b, p);
        if q < p {
            assert(said_by(a[chosen_a[q] as int]) == said_by(b[chosen_b[q] as int]));
            lemma_places_differ(a, accepted_a, chosen_a, q, p);
        }
        if q > p {
            let r = lemma_chosen_in_both(b, accepted_b, chosen_b, a, accepted_a, chosen_a, p);
            if r < p {
                assert(said_by(a[chosen_a[r] as int]) == said_by(b[chosen_b[r] as int]));
                lemma_places_differ(b, accepted_b, chosen_b, r, p);
            } else if r == p {
                lemma_places_differ(b, accepted_b, chosen_b, p, q);
            } else {
                let i = chosen_a[p] as int;
                let j = chosen_a[r] as int;
                assert(startup::named_before(a, i, j));
                assert(startup::named_before(b, chosen_b[p] as int, chosen_b[q] as int));
                order::lemma_name_antisymmetric(
                    startup::name_bytes(a[i].path),
                    startup::name_bytes(a[j].path),
                );
                lemma_same_bytes_same_name(a[i], a[j]);
                lemma_places_differ(a, accepted_a, chosen_a, p, r);
            }
            assert(false);
        }
    }
}

/// How a directory is listed plays no part: two listings that hold the same
/// entries, with names that are told apart and answered alike, give the same paths
/// in the same order, and so each the same color index from the same registry.
pub proof fn law_order_of_listing_plays_no_part(
    a: Seq<DirEntry>,
    accepted_a: Seq<bool>,
    chosen_a: Seq<usize>,
    b: Seq<DirEntry>,
    accepted_b: Seq<bool>,
    chosen_b: Seq<usize>,
    state: Tracking,
)
    requires
        a.len() <= usize::MAX,
        b.len() <= usize::MAX,
        same_entries(a, b),
        same_answers(a, accepted_a, b, accepted_b),
        distinct_names(a, accepted_a),
        distinct_names(b, accepted_b),
        startup::is_selection(a, accepted_a, chosen_a),
        startup::is_selection(b, accepted_b, chosen_b),
    ensures
        startup::chosen_paths(a, chosen_a) == startup::chosen_paths(b, chosen_b),
        startup::indices_given(state, startup::chosen_paths(a, chosen_a))
            == startup::indices_given(state, startup::chosen_paths(b, chosen_b)),
{
    let n_a = chosen_a.len() as int;
    let n_b = chosen_b.len() as int;
    lemma_same_files_until(a, accepted_a, chosen_a, b, accepted_b, chosen_b, n_a);
    lemma_same_files_until(b, accepted_b, chosen_b, a, accepted_a, chosen_a, n_b);
    let paths_a = startup::chosen_paths(a, chosen_a);
    let paths_b = startup::chosen_paths(b, chosen_b);
    assert forall|p: int| 0 <= p < paths_a.len() implies paths_a[p] == paths_b[p] by {
        assert(said_by(a[chosen_a[p] as int]) == said_by(b[chosen_b[p] as int]));
    }
    assert(paths_a =~= paths_b);
}

/// A filter answers entries of the same name alike, in whatever listing they stand,
/// where no backslash is in the pattern or in a name.
pub proof fn law_same_name_same_answer(
    filter: &NameFilter,
    a: Seq<DirEntry>,
    accepted_a: Seq<bool>,
    b: Seq<DirEntry>,
    accepted_b: Seq<bool>,
)
    requires
        startup::are_answers(filter, a, accepted_a),
        startup::are_answers(filter, b, accepted_b),
        filter::portable(filter@),
        forall|i: int|
            0 <= i < a.len() ==> ((#[trigger] a[i]).path.file_name() matches Some(name)
                ==> filter::portable(name)),
    ensures
        same_answers(a, accepted_a, b, accepted_b),
{
    assert forall|i: int, j: int|
        0 <= i < a.len() && 0 <= j < b.len() && a[i].path.file_name()
            == b[j].path.file_name() implies #[trigger] accepted_a[i]
        == #[trigger] accepted_b[j] by {
        assert(filter.answers(a[i].path.file_name(), accepted_a[i]));
        assert(filter.answers(b[j].path.file_name(), accepted_b[j]));
        assert(a[i].path.file_name() matches Some(name) ==> filter::portable(name));
    }
}

} // verus!
