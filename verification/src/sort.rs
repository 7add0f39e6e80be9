//! Stable sorting by a key.

use vstd::prelude::*;

use crate::text;

verus! {

/// A key that values are sorted by.
pub trait SortKey: Sized {
    /// This key comes before the other one, or ranks equal with it.
    spec fn at_most(&self, other: &Self) -> bool;

    /// Of two keys one is at most the other.
    proof fn lemma_total(a: &Self, b: &Self)
        ensures
            a.at_most(b) || b.at_most(a),
    ;

    /// The order is transitive.
    proof fn lemma_transitive(a: &Self, b: &Self, c: &Self)
        requires
            a.at_most(b),
            b.at_most(c),
        ensures
            a.at_most(c),
    ;

    /// Decides the order of two keys.
    fn ranks_at_most(&self, other: &Self) -> (at_most: bool)
        ensures
            at_most == self.at_most(other),
    ;
}

impl SortKey for u64 {
    open spec fn at_most(&self, other: &Self) -> bool {
        *self <= *other
    }

    proof fn lemma_total(a: &Self, b: &Self) {
    }

    proof fn lemma_transitive(a: &Self, b: &Self, c: &Self) {
    }

    fn ranks_at_most(&self, other: &Self) -> (at_most: bool) {
        *self <= *other
    }
}

/// Three numbers, compared one after the other.
#[derive(Clone, Copy, Debug)]
pub struct Triple {
    pub first: u64,
    pub second: u32,
    pub third: u32,
}

impl SortKey for Triple {
    open spec fn at_most(&self, other: &Self) -> bool {
        ||| self.first < other.first
        ||| self.first == other.first && self.second < other.second
        ||| self.first == other.first && self.second == other.second && self.third <= other.third
    }

    proof fn lemma_total(a: &Self, b: &Self) {
    }

    proof fn lemma_transitive(a: &Self, b: &Self, c: &Self) {
    }

    fn ranks_at_most(&self, other: &Self) -> (at_most: bool) {
        self.first < other.first || (self.first == other.first && (self.second < other.second || (
        self.second == other.second && self.third <= other.third)))
    }
}

impl SortKey for Vec<char> {
    open spec fn at_most(&self, other: &Self) -> bool {
        text::text_le(self@, other@)
    }

    proof fn lemma_total(a: &Self, b: &Self) {
        text::lemma_text_le_total(a@, b@);
    }

    proof fn lemma_transitive(a: &Self, b: &Self, c: &Self) {
        text::lemma_text_le_transitive(a@, b@, c@);
    }

    fn ranks_at_most(&self, other: &Self) -> (at_most: bool) {
        text::chars_le(self.as_slice(), other.as_slice())
    }
}

/// The key at `a` ranks before the key at `b`, or equal with it, ascending or
/// descending.
pub open spec fn ranks<K: SortKey>(keys: Seq<K>, descending: bool, a: int, b: int) -> bool {
    if descending {
        keys[b].at_most(&keys[a])
    } else {
        keys[a].at_most(&keys[b])
    }
}

/// In a stable sort `a` goes before `b`: its key ranks before that of `b`, or
/// the keys rank equal and `a` is the earlier position.
pub open spec fn goes_before<K: SortKey>(keys: Seq<K>, descending: bool, a: int, b: int) -> bool {
    &&& ranks(keys, descending, a, b)
    &&& ranks(keys, descending, b, a) ==> a < b
}

/// Every position goes before all later ones in `order`.
pub open spec fn in_sorted_order<K: SortKey>(
    order: Seq<usize>,
    keys: Seq<K>,
    descending: bool,
) -> bool {
    forall|i: int, j: int|
        0 <= i < j < order.len() ==> goes_before(
            keys,
            descending,
            #[trigger] order[i] as int,
            #[trigger] order[j] as int,
        )
}

/// `order` lists each of the positions from `lo` up to `hi` once.
pub open spec fn lists_range(order: Seq<usize>, lo: int, hi: int) -> bool {
    &&& order.len() == hi - lo
    &&& order.no_duplicates()
    &&& forall|i: int| 0 <= i < order.len() ==> lo <= #[trigger] order[i] < hi
}

/// `order` is the stable sort of all positions by their keys.
pub open spec fn is_stable_sort<K: SortKey>(
    order: Seq<usize>,
    keys: Seq<K>,
    descending: bool,
) -> bool {
    lists_range(order, 0, keys.len() as int) && in_sorted_order(order, keys, descending)
}

proof fn lemma_goes_before_transitive<K: SortKey>(
    keys: Seq<K>,
    descending: bool,
    a: int,
    b: int,
    c: int,
)
    requires
        goes_before(keys, descending, a, b),
        goes_before(keys, descending, b, c),
    ensures
        goes_before(keys, descending, a, c),
{
    if descending {
        K::lemma_transitive(&keys[c], &keys[b], &keys[a]);
        if ranks(keys, descending, c, a) {
            K::lemma_transitive(&keys[b], &keys[a], &keys[c]);
            K::lemma_transitive(&keys[a], &keys[c], &keys[b]);
        }
    } else {
        K::lemma_transitive(&keys[a], &keys[b], &keys[c]);
        if ranks(keys, descending, c, a) {
            K::lemma_transitive(&keys[b], &keys[c], &keys[a]);
            K::lemma_transitive(&keys[c], &keys[a], &keys[b]);
        }
    }
}

/// Merges two sorted runs of neighbouring ranges.
fn merge<K: SortKey>(
    keys: &Vec<K>,
    descending: bool,
    left: &Vec<usize>,
    right: &Vec<usize>,
    Ghost(lo): Ghost<int>,
    Ghost(mid): Ghost<int>,
    Ghost(hi): Ghost<int>,
) -> (order: Vec<usize>)
    requires
        0 <= lo <= mid <= hi <= keys@.len(),
        lists_range(left@, lo, mid),
        lists_range(right@, mid, hi),
        in_sorted_order(left@, keys@, descending),
        in_sorted_order(right@, keys@, descending),
    ensures
        lists_range(order@, lo, hi),
        in_sorted_order(order@, keys@, descending),
{
    let mut order: Vec<usize> = Vec::new();
    let mut i: usize = 0;
    let mut j: usize = 0;
    while i < left.len() || j < right.len()
        invariant
            0 <= lo <= mid <= hi <= keys@.len(),
            lists_range(left@, lo, mid),
            lists_range(right@, mid, hi),
            in_sorted_order(left@, keys@, descending),
            in_sorted_order(right@, keys@, descending),
            i <= left@.len(),
            j <= right@.len(),
            order@.len() == i + j,
            in_sorted_order(order@, keys@, descending),
            forall|n: int| 0 <= n < order@.len() ==> lo <= #[trigger] order@[n] < hi,
            forall|n: int, m: int|
                0 <= n < order@.len() && i <= m < left@.len() ==> goes_before(
                    keys@,
                    descending,
                    #[trigger] order@[n] as int,
                    #[trigger] left@[m] as int,
                ),
            forall|n: int, m: int|
                0 <= n < order@.len() && j <= m < right@.len() ==> goes_before(
                    keys@,
                    descending,
                    #[trigger] order@[n] as int,
                    #[trigger] right@[m] as int,
                ),
        decreases left@.len() - i + right@.len() - j,
    {
        let from_left: bool = if j == right.len() {
            true
        } else if i == left.len() {
            false
        } else if descending {
            keys[right[j]].ranks_at_most(&keys[left[i]])
        } else {
            keys[left[i]].ranks_at_most(&keys[right[j]])
        };
        let ghost before = order@;
        if from_left {
            let next: usize = left[i];
            proof {
                assert forall|m: int| j <= m < right@.len() implies goes_before(
                    keys@,
                    descending,
                    next as int,
                    #[trigger] right@[m] as int,
                ) by {
                    assert(goes_before(keys@, descending, next as int, right@[j as int] as int));
                    if m > j {
                        lemma_goes_before_transitive(
                            keys@,
                            descending,
                            next as int,
                            right@[j as int] as int,
                            right@[m] as int,
                        );
                    }
                }
            }
            order.push(next);
            i += 1;
        } else {
            let next: usize = right[j];
            proof {
                assert forall|m: int| i <= m < left@.len() implies goes_before(
                    keys@,
                    descending,
                    next as int,
                    #[trigger] left@[m] as int,
                ) by {
                    K::lemma_total(&keys@[next as int], &keys@[left@[i as int] as int]);
                    assert(goes_before(keys@, descending, next as int, left@[i as int] as int));
                    if m > i {
                        lemma_goes_before_transitive(
                            keys@,
                            descending,
                            next as int,
                            left@[i as int] as int,
                            left@[m] as int,
                        );
                    }
                }
            }
            order.push(next);
            j += 1;
        }
        assert(order@.drop_last() =~= before);
    }
    proof {
        lemma_sorted_no_duplicates(order@, keys@, descending);
    }
    order
}

/// What is sorted this way repeats nothing.
proof fn lemma_sorted_no_duplicates<K: SortKey>(
    order: Seq<usize>,
    keys: Seq<K>,
    descending: bool,
)
    requires
        in_sorted_order(order, keys, descending),
    ensures
        order.no_duplicates(),
{
    assert forall|i: int, j: int|
        0 <= i < order.len() && 0 <= j < order.len() && i != j implies order[i] != order[j] by {
        if i < j {
            assert(goes_before(keys, descending, order[i] as int, order[j] as int));
        } else {
            assert(goes_before(keys, descending, order[j] as int, order[i] as int));
        }
    }
}

/// Sorts the positions from `lo` up to `hi`.
fn sort_range<K: SortKey>(keys: &Vec<K>, descending: bool, lo: usize, hi: usize) -> (order: Vec<
    usize,
>)
    requires
        lo <= hi <= keys@.len(),
    ensures
        lists_range(order@, lo as int, hi as int),
        in_sorted_order(order@, keys@, descending),
    decreases hi - lo,
{
    if hi - lo == 0 {
        Vec::new()
    } else if hi - lo == 1 {
        let mut order: Vec<usize> = Vec::new();
        order.push(lo);
        order
    } else {
        let mid: usize = lo + (hi - lo) / 2;
        let left = sort_range(keys, descending, lo, mid);
        let right = sort_range(keys, descending, mid, hi);
        merge(
            keys,
            descending,
            &left,
            &right,
            Ghost(lo as int),
            Ghost(mid as int),
            Ghost(hi as int),
        )
    }
}

/// The stable sort of all positions by their keys.
pub fn sorted_order<K: SortKey>(keys: &Vec<K>, descending: bool) -> (order: Vec<usize>)
    ensures
        is_stable_sort(order@, keys@, descending),
{
    sort_range(keys, descending, 0, keys.len())
}

/// The items at the given positions.
pub open spec fn at_positions<T>(items: Seq<T>, order: Seq<usize>) -> Seq<T> {
    order.map_values(|at: usize| items[at as int])
}

/// Brings the items into the given order.
pub fn reorder<T>(items: Vec<T>, order: &Vec<usize>) -> (sorted: Vec<T>)
    requires
        lists_range(order@, 0, items@.len() as int),
    ensures
        sorted@ == at_positions(items@, order@),
{
    let ghost all = items@;
    let mut items = items;
    let count: usize = items.len();
    // The slots hold the items back to front.
    let mut slots: Vec<Option<T>> = Vec::new();
    while items.len() > 0
        invariant
            items@.len() + slots@.len() == count,
            count == all.len(),
            items@ == all.take(items@.len() as int),
            forall|i: int|
                0 <= i < slots@.len() ==> #[trigger] slots@[i] == Some(all[count - 1 - i]),
        decreases items@.len(),
    {
        let item = items.pop();
        slots.push(item);
    }
    let mut sorted: Vec<T> = Vec::new();
    let mut i: usize = 0;
    while i < order.len()
        invariant
            i <= order@.len(),
            count == all.len(),
            slots@.len() == count,
            lists_range(order@, 0, count as int),
            sorted@.len() == i,
            forall|j: int| 0 <= j < i ==> #[trigger] sorted@[j] == all[order@[j] as int],
            forall|j: int|
                i <= j < order@.len() ==> #[trigger] slots@[count - 1 - order@[j]] == Some(
                    all[order@[j] as int],
                ),
        decreases order@.len() - i,
    {
        let at: usize = count - 1 - order[i];
        let ghost before = slots@;
        assert(before[count - 1 - order@[i as int]] == Some(all[order@[i as int] as int]));
        if let Some(item) = slots[at].take() {
            sorted.push(item);
        }
        proof {
            assert forall|j: int| i < j < order@.len() implies #[trigger] slots@[count - 1
                - order@[j]] == Some(all[order@[j] as int]) by {
                assert(order@[j] != order@[i as int]);
                assert(before[count - 1 - order@[j]] == Some(all[order@[j] as int]));
            }
        }
        i += 1;
    }
    assert(sorted@ =~= at_positions(all, order@));
    sorted
}

/// A stable sort of a sequence is unique.
pub proof fn stable_sort_is_unique<K: SortKey>(
    a: Seq<usize>,
    b: Seq<usize>,
    keys: Seq<K>,
    descending: bool,
)
    requires
        is_stable_sort(a, keys, descending),
        is_stable_sort(b, keys, descending),
    ensures
        a == b,
{
    assert forall|i: int| 0 <= i < a.len() implies a[i] == b[i] by {
        lemma_stable_prefix(a, b, keys, descending, i + 1);
        assert(a.take(i + 1)[i] == b.take(i + 1)[i]);
    }
    assert(a =~= b);
}

proof fn lemma_stable_prefix<K: SortKey>(
    a: Seq<usize>,
    b: Seq<usize>,
    keys: Seq<K>,
    descending: bool,
    n: int,
)
    requires
        is_stable_sort(a, keys, descending),
        is_stable_sort(b, keys, descending),
        0 <= n <= keys.len(),
    ensures
        a.take(n) == b.take(n),
    decreases n,
{
    if n > 0 {
        lemma_stable_prefix(a, b, keys, descending, n - 1);
        let at = n - 1;
        if a[at] != b[at] {
            // Each of the two must stand later in the other order.
            lemma_range_contains(b, keys.len() as int, a[at] as int);
            lemma_range_contains(a, keys.len() as int, b[at] as int);
            let later = choose|j: int| 0 <= j < b.len() && b[j] == a[at];
            let other = choose|j: int| 0 <= j < a.len() && a[j] == b[at];
            if later < at {
                assert(a.take(n - 1)[later] == b.take(n - 1)[later]);
                assert(a[later] == a[at]);
            }
            if other < at {
                assert(a.take(n - 1)[other] == b.take(n - 1)[other]);
                assert(b[other] == b[at]);
            }
            assert(goes_before(keys, descending, b[at] as int, b[later] as int));
            assert(goes_before(keys, descending, a[at] as int, a[other] as int));
        }
        assert(a.take(n) =~= a.take(n - 1).push(a[at]));
        assert(b.take(n) =~= b.take(n - 1).push(b[at]));
    }
}

/// A list of all positions holds each of them.
pub proof fn lemma_range_contains(order: Seq<usize>, n: int, at: int)
    requires
        lists_range(order, 0, n),
        0 <= at < n,
    ensures
        exists|i: int| 0 <= i < order.len() && order[i] == at,
{
    let numbers = order.map_values(|x: usize| x as int);
    let all = vstd::set_lib::set_int_range(0, n);
    vstd::set_lib::lemma_int_range(0, n);
    assert(numbers.no_duplicates()) by {
        assert forall|i: int, j: int|
            0 <= i < numbers.len() && 0 <= j < numbers.len() && i != j implies numbers[i]
            != numbers[j] by {
            assert(order[i] != order[j]);
        }
    }
    numbers.unique_seq_to_set();
    assert(numbers.to_set().subset_of(all)) by {
        assert forall|x: int| numbers.to_set().contains(x) implies all.contains(x) by {
            let i = choose|i: int| 0 <= i < numbers.len() && numbers[i] == x;
            assert(order[i] < n);
        }
    }
    vstd::set_lib::lemma_subset_equality(numbers.to_set(), all);
    assert(numbers.to_set().contains(at));
    let i = choose|i: int| 0 <= i < numbers.len() && numbers[i] == at;
    assert(order[i] == at);
}

/// Sorting only moves: each place holds the item of its position, and every item
/// is in some place.
pub proof fn sorting_only_moves<T>(items: Seq<T>, order: Seq<usize>, at: int)
    requires
        lists_range(order, 0, items.len() as int),
        0 <= at < items.len(),
    ensures
        at_positions(items, order).len() == items.len(),
        at_positions(items, order)[at] == items[order[at] as int],
        at_positions(items, order).contains(items[at]),
{
    lemma_range_contains(order, items.len() as int, at);
    let i = choose|i: int| 0 <= i < order.len() && order[i] == at;
    assert(at_positions(items, order)[i] == items[at]);
}

/// A sorted order ranks its keys, forwards or backwards, and keeps the order of
/// those that rank equal.
pub proof fn sorted_orders_rank_their_keys<K: SortKey>(
    order: Seq<usize>,
    keys: Seq<K>,
    descending: bool,
    i: int,
    j: int,
)
    requires
        is_stable_sort(order, keys, descending),
        0 <= i < j < order.len(),
    ensures
        order.len() == keys.len(),
        order[i] != order[j],
        !descending ==> keys[order[i] as int].at_most(&keys[order[j] as int]),
        descending ==> keys[order[j] as int].at_most(&keys[order[i] as int]),
        keys[order[i] as int].at_most(&keys[order[j] as int]) && keys[order[j] as int].at_most(
            &keys[order[i] as int],
        ) ==> order[i] < order[j],
{
    assert(goes_before(keys, descending, order[i] as int, order[j] as int));
}

} // verus!
