//! Stable sorting: the order in which items come when they are sorted by a key.

use vstd::prelude::*;

verus! {

/// A key that items can be sorted by.
pub trait SortKey: Sized {
    /// `self` does not come after `other`.
    spec fn at_most(&self, other: &Self) -> bool;

    /// Of any two keys one does not come after the other.
    proof fn total(a: &Self, b: &Self)
        ensures
            a.at_most(b) || b.at_most(a),
    ;

    /// The order carries over from one key to the next.
    proof fn transitive(a: &Self, b: &Self, c: &Self)
        requires
            a.at_most(b),
            b.at_most(c),
        ensures
            a.at_most(c),
    ;

    /// Whether `self` does not come after `other`.
    fn is_at_most(&self, other: &Self) -> (r: bool)
        ensures
            r == self.at_most(other),
    ;
}

/// Position `i` comes before position `j` in the stable order by `keys`: its key
/// is smaller, or as large and it stands first.
pub open spec fn comes_before<K: SortKey>(keys: Seq<K>, i: int, j: int) -> bool {
    &&& keys[i].at_most(&keys[j])
    &&& keys[j].at_most(&keys[i]) ==> i < j
}

/// The positions in `order` stand in the stable order by `keys`.
pub open spec fn in_order<K: SortKey>(keys: Seq<K>, order: Seq<usize>) -> bool {
    forall|p: int, q: int|
        0 <= p < q < order.len() ==> comes_before(
            keys,
            #[trigger] order[p] as int,
            #[trigger] order[q] as int,
        )
}

/// `order` holds as many positions as there are from `low` up to but not with
/// `high`, and all of them lie there.
pub open spec fn covers(order: Seq<usize>, low: int, high: int) -> bool {
    &&& order.len() == high - low
    &&& forall|p: int| 0 <= p < order.len() ==> low <= #[trigger] order[p] < high
}

/// `order` is the stable order by `keys`: every position once, sorted.
pub open spec fn is_stable_order<K: SortKey>(keys: Seq<K>, order: Seq<usize>) -> bool {
    covers(order, 0, keys.len() as int) && in_order(keys, order)
}

/// A stable order holds every position once.
pub proof fn law_every_position_once<K: SortKey>(keys: Seq<K>, order: Seq<usize>)
    requires
        is_stable_order(keys, order),
    ensures
        order.no_duplicates(),
        forall|i: usize| 0 <= i < keys.len() ==> #[trigger] order.contains(i),
{
    let n = keys.len() as int;
    assert(order.no_duplicates()) by {
        assert forall|p: int, q: int|
            0 <= p < order.len() && 0 <= q < order.len() && p != q implies order[p]
            != order[q] by {
            let (a, b) = if p < q {
                (p, q)
            } else {
                (q, p)
            };
            assert(comes_before(keys, order[a] as int, order[b] as int));
        }
    }
    let ints = order.map_values(|i: usize| i as int);
    assert(ints.no_duplicates());
    ints.unique_seq_to_set();
    let all = vstd::set_lib::set_int_range(0, n);
    vstd::set_lib::lemma_int_range(0, n);
    assert(ints.to_set().subset_of(all)) by {
        assert forall|i: int| #[trigger] ints.to_set().contains(i) implies all.contains(i) by {
            let p = choose|p: int| 0 <= p < ints.len() && ints[p] == i;
            assert(order[p] == i);
        }
    }
    vstd::set_lib::lemma_subset_equality(ints.to_set(), all);
    assert forall|i: usize| 0 <= i < keys.len() implies #[trigger] order.contains(i) by {
        assert(all.contains(i as int));
        assert(ints.contains(i as int));
        let p = choose|p: int| 0 <= p < ints.len() && ints[p] == i as int;
        assert(order[p] == i);
    }
}

/// There is one stable order only.
pub proof fn law_stable_order_is_unique<K: SortKey>(keys: Seq<K>, a: Seq<usize>, b: Seq<usize>)
    requires
        is_stable_order(keys, a),
        is_stable_order(keys, b),
    ensures
        a == b,
{
    law_every_position_once(keys, a);
    law_every_position_once(keys, b);
    assert forall|p: int| 0 <= p < a.len() implies a[p] == b[p] by {
        lemma_same_until(keys, a, b, p + 1);
    }
    assert(a =~= b);
}

/// Two stable orders agree on their first `n` positions.
proof fn lemma_same_until<K: SortKey>(keys: Seq<K>, a: Seq<usize>, b: Seq<usize>, n: int)
    requires
        is_stable_order(keys, a),
        is_stable_order(keys, b),
        0 <= n <= keys.len(),
    ensures
        forall|p: int| 0 <= p < n ==> a[p] == b[p],
    decreases n,
{
    if n > 0 {
        let p = n - 1;
        lemma_same_until(keys, a, b, p);
        law_every_position_once(keys, a);
        law_every_position_once(keys, b);
        if a[p] != b[p] {
            assert(b.contains(a[p]));
            assert(a.contains(b[p]));
            let q = choose|q: int| 0 <= q < b.len() && b[q] == a[p];
            let r = choose|r: int| 0 <= r < a.len() && a[r] == b[p];
            assert(q > p) by {
                if q < p {
                    assert(a[q] == b[q]);
                }
            }
            assert(r > p) by {
                if r < p {
                    assert(a[r] == b[r]);
                }
            }
            assert(comes_before(keys, b[p] as int, b[q] as int));
            assert(comes_before(keys, a[p] as int, a[r] as int));
        }
    }
}

/// The order among positions carries over from one to the next.
proof fn lemma_before_transitive<K: SortKey>(keys: Seq<K>, i: int, j: int, k: int)
    requires
        comes_before(keys, i, j),
        comes_before(keys, j, k),
    ensures
        comes_before(keys, i, k),
{
    K::transitive(&keys[i], &keys[j], &keys[k]);
    if keys[k].at_most(&keys[i]) {
        K::transitive(&keys[j], &keys[k], &keys[i]);
        K::transitive(&keys[k], &keys[i], &keys[j]);
    }
}

/// Merges two sorted lists of positions, the first of which holds the lower ones.
fn merge<K: SortKey>(
    keys: &Vec<K>,
    left: &Vec<usize>,
    right: &Vec<usize>,
    Ghost(low): Ghost<int>,
    Ghost(middle): Ghost<int>,
    Ghost(high): Ghost<int>,
) -> (merged: Vec<usize>)
    requires
        0 <= low <= middle <= high <= keys@.len(),
        covers(left@, low, middle),
        covers(right@, middle, high),
        in_order(keys@, left@),
        in_order(keys@, right@),
    ensures
        covers(merged@, low, high),
        in_order(keys@, merged@),
{
    let mut merged: Vec<usize> = Vec::new();
    let mut i: usize = 0;
    let mut j: usize = 0;
    while i < left.len() || j < right.len()
        invariant
            0 <= low <= middle <= high <= keys@.len(),
            covers(left@, low, middle),
            covers(right@, middle, high),
            in_order(keys@, left@),
            in_order(keys@, right@),
            i <= left@.len(),
            j <= right@.len(),
            merged@.len() == i + j,
            forall|p: int| 0 <= p < merged@.len() ==> low <= #[trigger] merged@[p] < high,
            in_order(keys@, merged@),
            forall|p: int, q: int|
                0 <= p < merged@.len() && i <= q < left@.len() ==> comes_before(
                    keys@,
                    #[trigger] merged@[p] as int,
                    #[trigger] left@[q] as int,
                ),
            forall|p: int, q: int|
                0 <= p < merged@.len() && j <= q < right@.len() ==> comes_before(
                    keys@,
                    #[trigger] merged@[p] as int,
                    #[trigger] right@[q] as int,
                ),
        decreases left@.len() - i + right@.len() - j,
    {
        let from_left: bool = if i == left.len() {
            false
        } else if j == right.len() {
            true
        } else {
            keys[left[i]].is_at_most(&keys[right[j]])
        };
        let ghost before = merged@;
        if from_left {
            let next: usize = left[i];
            proof {
                // Nothing that is still to come stands before `next`.
                assert forall|q: int| j <= q < right@.len() implies comes_before(
                    keys@,
                    next as int,
                    #[trigger] right@[q] as int,
                ) by {
                    assert(comes_before(keys@, next as int, right@[j as int] as int));
                    if q > j {
                        lemma_before_transitive(
                            keys@,
                            next as int,
                            right@[j as int] as int,
                            right@[q] as int,
                        );
                    }
                }
            }
            merged.push(next);
            i += 1;
        } else {
            let next: usize = right[j];
            proof {
                assert forall|q: int| i <= q < left@.len() implies comes_before(
                    keys@,
                    next as int,
                    #[trigger] left@[q] as int,
                ) by {
                    let first = left@[i as int] as int;
                    K::total(&keys@[first], &keys@[next as int]);
                    assert(comes_before(keys@, next as int, first));
                    if q > i {
                        lemma_before_transitive(keys@, next as int, first, left@[q] as int);
                    }
                }
            }
            merged.push(next);
            j += 1;
        }
        assert(forall|p: int| 0 <= p < before.len() ==> before[p] == merged@[p]);
    }
    merged
}

/// Sorts the positions from `low` up to but not with `high`.
fn sort_range<K: SortKey>(keys: &Vec<K>, low: usize, high: usize) -> (order: Vec<usize>)
    requires
        low <= high <= keys@.len(),
    ensures
        covers(order@, low as int, high as int),
        in_order(keys@, order@),
    decreases high - low,
{
    if high - low == 0 {
        return Vec::new();
    }
    if high - low == 1 {
        let mut order: Vec<usize> = Vec::new();
        order.push(low);
        return order;
    }
    let middle: usize = low + (high - low) / 2;
    let left: Vec<usize> = sort_range(keys, low, middle);
    let right: Vec<usize> = sort_range(keys, middle, high);
    merge(keys, &left, &right, Ghost(low as int), Ghost(middle as int), Ghost(high as int))
}

/// Finds the order in which the items with the given keys come when they are
/// sorted, items with equal keys staying in the order they have.
pub fn stable_order<K: SortKey>(keys: &Vec<K>) -> (order: Vec<usize>)
    ensures
        is_stable_order(keys@, order@),
{
    sort_range(keys, 0, keys.len())
}

/// `a` does not come after `b` when byte strings are compared byte by byte.
pub open spec fn bytes_at_most(a: Seq<u8>, b: Seq<u8>) -> bool
    decreases a.len(),
{
    if a.len() == 0 {
        true
    } else if b.len() == 0 {
        false
    } else if a[0] != b[0] {
        a[0] < b[0]
    } else {
        bytes_at_most(a.skip(1), b.skip(1))
    }
}

proof fn lemma_bytes_total(a: Seq<u8>, b: Seq<u8>)
    ensures
        bytes_at_most(a, b) || bytes_at_most(b, a),
    decreases a.len(),
{
    if a.len() > 0 && b.len() > 0 && a[0] == b[0] {
        lemma_bytes_total(a.skip(1), b.skip(1));
    }
}

proof fn lemma_bytes_transitive(a: Seq<u8>, b: Seq<u8>, c: Seq<u8>)
    requires
        bytes_at_most(a, b),
        bytes_at_most(b, c),
    ensures
        bytes_at_most(a, c),
    decreases a.len(),
{
    if a.len() > 0 && a[0] == b[0] && b[0] == c[0] {
        lemma_bytes_transitive(a.skip(1), b.skip(1), c.skip(1));
    }
}

proof fn lemma_bytes_antisymmetric(a: Seq<u8>, b: Seq<u8>)
    requires
        bytes_at_most(a, b),
        bytes_at_most(b, a),
    ensures
        a == b,
    decreases a.len(),
{
    if a.len() > 0 && b.len() > 0 {
        lemma_bytes_antisymmetric(a.skip(1), b.skip(1));
        assert(a =~= seq![a[0]] + a.skip(1));
        assert(b =~= seq![b[0]] + b.skip(1));
    }
}

/// Whether `a` does not come after `b`, byte by byte.
fn bytes_in_order(a: &Vec<u8>, b: &Vec<u8>) -> (r: bool)
    ensures
        r == bytes_at_most(a@, b@),
{
    let mut i: usize = 0;
    assert(a@.skip(0) =~= a@ && b@.skip(0) =~= b@);
    while i < a.len()
        invariant
            i <= a@.len(),
            i <= b@.len(),
            bytes_at_most(a@, b@) == bytes_at_most(a@.skip(i as int), b@.skip(i as int)),
        decreases a@.len() - i,
    {
        let ghost rest_a = a@.skip(i as int);
        let ghost rest_b = b@.skip(i as int);
        if i == b.len() {
            return false;
        }
        assert(rest_a[0] == a@[i as int] && rest_b[0] == b@[i as int]);
        if a[i] != b[i] {
            return a[i] < b[i];
        }
        assert(rest_a.skip(1) =~= a@.skip(i + 1));
        assert(rest_b.skip(1) =~= b@.skip(i + 1));
        i += 1;
    }
    true
}

/// A file name to sort by, in its bytes. No name comes before every name.
pub struct NameKey {
    /// The bytes of the name.
    pub bytes: Option<Vec<u8>>,
}

/// `a` does not come after `b` among optional names.
pub open spec fn name_at_most(a: Option<Seq<u8>>, b: Option<Seq<u8>>) -> bool {
    match (a, b) {
        (None, _) => true,
        (Some(_), None) => false,
        (Some(a), Some(b)) => bytes_at_most(a, b),
    }
}

/// Two optional names that do not come after each other are the same.
pub proof fn lemma_name_antisymmetric(a: Option<Seq<u8>>, b: Option<Seq<u8>>)
    requires
        name_at_most(a, b),
        name_at_most(b, a),
    ensures
        a == b,
{
    if let (Some(a), Some(b)) = (a, b) {
        lemma_bytes_antisymmetric(a, b);
    }
}

impl View for NameKey {
    type V = Option<Seq<u8>>;

    open spec fn view(&self) -> Option<Seq<u8>> {
        match self.bytes {
            Some(bytes) => Some(bytes@),
            None => None,
        }
    }
}

impl SortKey for NameKey {
    open spec fn at_most(&self, other: &NameKey) -> bool {
        name_at_most(self@, other@)
    }

    proof fn total(a: &NameKey, b: &NameKey) {
        if let (Some(a), Some(b)) = (a@, b@) {
            lemma_bytes_total(a, b);
        }
    }

    proof fn transitive(a: &NameKey, b: &NameKey, c: &NameKey) {
        if let (Some(a), Some(b), Some(c)) = (a@, b@, c@) {
            lemma_bytes_transitive(a, b, c);
        }
    }

    fn is_at_most(&self, other: &NameKey) -> (r: bool) {
        match (&self.bytes, &other.bytes) {
            (None, _) => true,
            (Some(_), None) => false,
            (Some(a), Some(b)) => bytes_in_order(a, b),
        }
    }
}

/// A time of modification to sort by, counted in nanoseconds. An unknown time
/// comes before every known one.
pub struct TimeKey {
    /// Nanoseconds from a fixed moment on.
    pub nanos: Option<i128>,
}

/// `a` is not later than `b` among optional times.
pub open spec fn time_at_most(a: Option<i128>, b: Option<i128>) -> bool {
    match (a, b) {
        (None, _) => true,
        (Some(_), None) => false,
        (Some(a), Some(b)) => a <= b,
    }
}

impl SortKey for TimeKey {
    open spec fn at_most(&self, other: &TimeKey) -> bool {
        time_at_most(self.nanos, other.nanos)
    }

    proof fn total(a: &TimeKey, b: &TimeKey) {
    }

    proof fn transitive(a: &TimeKey, b: &TimeKey, c: &TimeKey) {
    }

    fn is_at_most(&self, other: &TimeKey) -> (r: bool) {
        match (self.nanos, other.nanos) {
            (None, _) => true,
            (Some(_), None) => false,
            (Some(a), Some(b)) => a <= b,
        }
    }
}

/// Byte strings are ordered as words in a dictionary: `a` does not come after `b` if
/// and only if `b` begins with it, or it has the smaller byte where they first differ.
pub proof fn law_bytes_go_by_the_first_difference(a: Seq<u8>, b: Seq<u8>)
    ensures
        bytes_at_most(a, b) <==> a.is_prefix_of(b) || exists|i: int|
            0 <= i < a.len() && i < b.len() && a.take(i) == b.take(i) && #[trigger] a[i] < b[i],
    decreases a.len(),
{
    if a.len() == 0 {
        assert(a =~= b.subrange(0, 0));
    } else if b.len() == 0 {
    } else if a[0] != b[0] {
        assert(!a.is_prefix_of(b)) by {
            assert(b.subrange(0, 1)[0] == b[0]);
            if a.is_prefix_of(b) {
                assert(b.subrange(0, a.len() as int)[0] == b[0]);
            }
        }
        if a[0] < b[0] {
            assert(a.take(0) =~= b.take(0));
        } else {
            assert forall|i: int|
                0 <= i < a.len() && i < b.len() && a.take(i) == b.take(i) implies !(#[trigger] a[i]
                < b[i]) by {
                if i > 0 {
                    assert(a.take(i)[0] == a[0] && b.take(i)[0] == b[0]);
                }
            }
        }
    } else {
        let (rest_a, rest_b) = (a.skip(1), b.skip(1));
        law_bytes_go_by_the_first_difference(rest_a, rest_b);
        if a.is_prefix_of(b) {
            assert(rest_a =~= rest_b.subrange(0, rest_a.len() as int)) by {
                assert forall|i: int| 0 <= i < rest_a.len() implies rest_a[i] == rest_b[i] by {
                    assert(b.subrange(0, a.len() as int)[i + 1] == b[i + 1]);
                }
            }
        }
        if rest_a.is_prefix_of(rest_b) {
            assert(a =~= b.subrange(0, a.len() as int)) by {
                assert forall|i: int| 0 <= i < a.len() implies a[i] == b[i] by {
                    if i > 0 {
                        assert(rest_b.subrange(0, rest_a.len() as int)[i - 1] == rest_b[i - 1]);
                        assert(rest_a[i - 1] == rest_b[i - 1]);
                    }
                }
            }
        }
        if exists|i: int|
            0 <= i < a.len() && i < b.len() && a.take(i) == b.take(i) && #[trigger] a[i] < b[i] {
            let i = choose|i: int|
                0 <= i < a.len() && i < b.len() && a.take(i) == b.take(i) && #[trigger] a[i]
                    < b[i];
            assert(rest_a.take(i - 1) =~= a.take(i).skip(1));
            assert(rest_b.take(i - 1) =~= b.take(i).skip(1));
            assert(rest_a[i - 1] < rest_b[i - 1]);
        }
        if exists|i: int|
            0 <= i < rest_a.len() && i < rest_b.len() && rest_a.take(i) == rest_b.take(i)
                && #[trigger] rest_a[i] < rest_b[i] {
            let i = choose|i: int|
                0 <= i < rest_a.len() && i < rest_b.len() && rest_a.take(i) == rest_b.take(i)
                    && #[trigger] rest_a[i] < rest_b[i];
            assert(a.take(i + 1) =~= seq![a[0]] + rest_a.take(i));
            assert(b.take(i + 1) =~= seq![b[0]] + rest_b.take(i));
            assert(a[i + 1] < b[i + 1]);
        }
    }
}

/// Names are ordered by their bytes, and no name comes before every name.
pub proof fn law_names_go_by_their_bytes(a: NameKey, b: NameKey)
    ensures
        a.bytes is None ==> a.at_most(&b),
        a.bytes is Some && b.bytes is None ==> !a.at_most(&b),
        a.bytes is Some && b.bytes is Some ==> (a.at_most(&b) <==> a.bytes->0@.is_prefix_of(
            b.bytes->0@,
        ) || exists|i: int|
            0 <= i < a.bytes->0@.len() && i < b.bytes->0@.len() && a.bytes->0@.take(i)
                == b.bytes->0@.take(i) && #[trigger] a.bytes->0@[i] < b.bytes->0@[i]),
{
    if a.bytes is Some && b.bytes is Some {
        law_bytes_go_by_the_first_difference(a.bytes->0@, b.bytes->0@);
    }
}

/// Times are ordered to the nanosecond, and an unknown time comes before every known
/// one.
pub proof fn law_times_go_by_nanoseconds(a: TimeKey, b: TimeKey)
    ensures
        a.nanos is None ==> a.at_most(&b),
        a.nanos is Some && b.nanos is None ==> !a.at_most(&b),
        a.nanos is Some && b.nanos is Some ==> (a.at_most(&b) <==> a.nanos->0 <= b.nanos->0),
{
}

/// In a stable order every position stands once; of two positions the first has a key
/// that does not come after the other's, and is the lower one if neither key comes
/// after the other.
pub proof fn law_stable_order_sorts<K: SortKey>(keys: Seq<K>, order: Seq<usize>)
    requires
        is_stable_order(keys, order),
    ensures
        order.len() == keys.len(),
        order.no_duplicates(),
        forall|p: int| 0 <= p < order.len() ==> #[trigger] order[p] < keys.len(),
        forall|i: usize| i < keys.len() ==> #[trigger] order.contains(i),
        forall|p: int, q: int|
            0 <= p < q < order.len() ==> keys[#[trigger] order[p] as int].at_most(
                &keys[#[trigger] order[q] as int],
            ),
        forall|p: int, q: int|
            0 <= p < q < order.len() && keys[order[q] as int].at_most(&keys[order[p] as int])
                ==> #[trigger] order[p] < #[trigger] order[q],
{
    law_every_position_once(keys, order);
    assert forall|p: int, q: int| 0 <= p < q < order.len() implies comes_before(
        keys,
        #[trigger] order[p] as int,
        #[trigger] order[q] as int,
    ) by {}
}

} // verus!
