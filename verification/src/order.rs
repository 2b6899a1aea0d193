//! The order in which lists are served: rows are ranked by a key of a
//! number, two texts and an identity, compared in that sequence.
use vstd::prelude::*;
use vstd::seq_lib::seq_to_set_is_finite;
use vstd::set_lib::{lemma_int_range, lemma_subset_equality, set_int_range};
use crate::text::{
    chars_le, order_is_antisymmetric, order_is_total, order_is_transitive, text_le,
};

verus! {

/// What a row is ranked by, as mathematics.
pub struct RankKey {
    pub rank: int,
    pub first: Seq<char>,
    pub second: Seq<char>,
    pub id: int,
}

/// What a row is ranked by.
pub struct SortKey {
    pub rank: i128,
    pub first: Vec<char>,
    pub second: Vec<char>,
    pub id: i64,
}

impl View for SortKey {
    type V = RankKey;

    open spec fn view(&self) -> RankKey {
        RankKey { rank: self.rank as int, first: self.first@, second: self.second@, id: self.id as int }
    }
}

/// `a` is ranked before `b` or with it: by `rank`, then by `first`, then
/// by `second`, then by `id`.
pub open spec fn key_le(a: RankKey, b: RankKey) -> bool {
    if a.rank != b.rank {
        a.rank < b.rank
    } else if a.first != b.first {
        text_le(a.first, b.first)
    } else if a.second != b.second {
        text_le(a.second, b.second)
    } else {
        a.id <= b.id
    }
}

/// The keys of a list of rows, as mathematics.
pub open spec fn key_views(keys: Seq<SortKey>) -> Seq<RankKey> {
    Seq::new(keys.len(), |i: int| keys[i]@)
}

/// The rows from `offset` on, `size` of them at most.
pub open spec fn page_of<T>(rows: Seq<T>, offset: int, size: int) -> Seq<T> {
    if offset < 0 || size < 0 || offset >= rows.len() {
        Seq::<T>::empty()
    } else if offset + size >= rows.len() {
        rows.subrange(offset, rows.len() as int)
    } else {
        rows.subrange(offset, offset + size)
    }
}

/// The sequence `order` with the index `x` put behind the last index
/// whose key is at most the key of `x`.
pub open spec fn with_index(keys: Seq<RankKey>, order: Seq<int>, x: int) -> Seq<int>
    decreases order.len(),
{
    if order.len() == 0 {
        seq![x]
    } else if key_le(keys[order.last()], keys[x]) {
        order.push(x)
    } else {
        with_index(keys, order.drop_last(), x).push(order.last())
    }
}

/// The first `n` indices of `keys` arranged by ascending key; where two
/// keys are equal the smaller index comes first.
pub open spec fn ascending(keys: Seq<RankKey>, n: int) -> Seq<int>
    decreases n,
{
    if n <= 0 {
        Seq::<int>::empty()
    } else {
        with_index(keys, ascending(keys, n - 1), n - 1)
    }
}

/// The positions of a sequence of indices as mathematical integers.
pub open spec fn positions(order: Seq<usize>) -> Seq<int> {
    Seq::new(order.len(), |i: int| order[i] as int)
}

pub(crate) fn same_chars(a: &Vec<char>, b: &Vec<char>) -> (r: bool)
    ensures
        r == (a@ == b@),
{
    if a.len() != b.len() {
        return false;
    }
    let mut i: usize = 0;
    while i < a.len()
        invariant
            i <= a.len(),
            a.len() == b.len(),
            forall|j: int| 0 <= j < i ==> a@[j] == b@[j],
        decreases a.len() - i,
    {
        if a[i] != b[i] {
            return false;
        }
        i = i + 1;
    }
    assert(a@ =~= b@);
    true
}

/// Decides `key_le`.
pub fn key_at_most(a: &SortKey, b: &SortKey) -> (r: bool)
    ensures
        r == key_le(a@, b@),
{
    if a.rank != b.rank {
        a.rank < b.rank
    } else if !same_chars(&a.first, &b.first) {
        chars_le(&a.first, &b.first)
    } else if !same_chars(&a.second, &b.second) {
        chars_le(&a.second, &b.second)
    } else {
        a.id <= b.id
    }
}

proof fn with_index_is_insert(keys: Seq<RankKey>, order: Seq<int>, x: int, pos: int)
    requires
        0 <= pos <= order.len(),
        pos > 0 ==> key_le(keys[order[pos - 1]], keys[x]),
        forall|j: int| pos <= j < order.len() ==> !key_le(keys[#[trigger] order[j]], keys[x]),
    ensures
        with_index(keys, order, x) == order.insert(pos, x),
    decreases order.len(),
{
    if order.len() == 0 {
        assert(seq![x] =~= order.insert(pos, x));
    } else if pos == order.len() {
        assert(order.push(x) =~= order.insert(pos, x));
    } else {
        assert(!key_le(keys[order[order.len() - 1]], keys[x]));
        let rest = order.drop_last();
        assert forall|j: int| pos <= j < rest.len() implies !key_le(
            keys[#[trigger] rest[j]],
            keys[x],
        ) by {
            assert(rest[j] == order[j]);
        }
        with_index_is_insert(keys, rest, x, pos);
        assert(rest.insert(pos, x).push(order.last()) =~= order.insert(pos, x));
    }
}

/// Arranges the indices of `keys` by ascending key.
pub fn sort_order(keys: &Vec<SortKey>) -> (order: Vec<usize>)
    ensures
        positions(order@) == ascending(key_views(keys@), keys.len() as int),
        order.len() == keys.len(),
        forall|i: int| 0 <= i < order.len() ==> (#[trigger] order[i]) < keys.len(),
{
    let n = keys.len();
    let mut order: Vec<usize> = Vec::new();
    let mut x: usize = 0;
    assert(positions(order@) =~= ascending(key_views(keys@), 0));
    while x < n
        invariant
            x <= n,
            n == keys.len(),
            order.len() == x,
            positions(order@) == ascending(key_views(keys@), x as int),
            forall|i: int| 0 <= i < order.len() ==> (#[trigger] order[i]) < x,
        decreases n - x,
    {
        let mut pos: usize = order.len();
        while pos > 0 && !key_at_most(&keys[order[pos - 1]], &keys[x])
            invariant
                pos <= order.len(),
                x < n,
                n == keys.len(),
                forall|i: int| 0 <= i < order.len() ==> (#[trigger] order[i]) < x,
                forall|j: int|
                    pos <= j < order.len() ==> !key_le(
                        keys@[(#[trigger] order@[j]) as int]@,
                        keys@[x as int]@,
                    ),
            decreases pos,
        {
            pos = pos - 1;
        }
        proof {
            let before = positions(order@);
            let views = key_views(keys@);
            assert forall|j: int| pos <= j < before.len() implies !key_le(
                views[#[trigger] before[j]],
                views[x as int],
            ) by {
                assert(before[j] == order@[j] as int);
            }
            with_index_is_insert(views, before, x as int, pos as int);
            assert(positions(order@.insert(pos as int, x)) =~= before.insert(pos as int, x as int));
        }
        order.insert(pos, x);
        x = x + 1;
    }
    order
}

/// The indices of `keys` as they are served: by ascending key, or, where
/// `descending` is set, by descending key.
pub open spec fn arranged(keys: Seq<RankKey>, descending: bool) -> Seq<int> {
    let up = ascending(keys, keys.len() as int);
    if descending {
        Seq::new(up.len(), |k: int| up[up.len() - 1 - k])
    } else {
        up
    }
}

/// The order `ascending` holds each of the first `n` indices.
pub proof fn ascending_len(keys: Seq<RankKey>, n: int)
    requires
        0 <= n,
    ensures
        ascending(keys, n).len() == n,
    decreases n,
{
    if n > 0 {
        ascending_len(keys, n - 1);
        with_index_len(keys, ascending(keys, n - 1), n - 1);
    }
}

proof fn with_index_len(keys: Seq<RankKey>, order: Seq<int>, x: int)
    ensures
        with_index(keys, order, x).len() == order.len() + 1,
    decreases order.len(),
{
    if order.len() > 0 && !key_le(keys[order.last()], keys[x]) {
        with_index_len(keys, order.drop_last(), x);
    }
}

/// The indices of the rows of one page, out of the rows arranged by
/// their keys.
pub fn page_positions(keys: &Vec<SortKey>, descending: bool, offset: i128, size: i64) -> (page:
    Vec<usize>)
    ensures
        positions(page@) == page_of(arranged(key_views(keys@), descending), offset as int, size as int),
        forall|i: int| 0 <= i < page.len() ==> (#[trigger] page[i]) < keys.len(),
{
    let order = sort_order(keys);
    let n = order.len();
    let ghost all = arranged(key_views(keys@), descending);
    proof {
        ascending_len(key_views(keys@), n as int);
    }
    let mut page: Vec<usize> = Vec::new();
    if offset < 0 || size < 0 || offset >= n as i128 {
        assert(positions(page@) =~= page_of(all, offset as int, size as int));
        return page;
    }
    let start: usize = offset as usize;
    let end: usize = if size as i128 >= (n - start) as i128 { n } else { start + size as usize };
    let mut k: usize = start;
    while k < end
        invariant
            start <= k <= end <= n,
            n == order.len(),
            n == keys.len(),
            all == arranged(key_views(keys@), descending),
            all.len() == n,
            positions(order@) == ascending(key_views(keys@), n as int),
            forall|i: int| 0 <= i < order.len() ==> (#[trigger] order[i]) < keys.len(),
            positions(page@) == all.subrange(start as int, k as int),
            forall|i: int| 0 <= i < page.len() ==> (#[trigger] page[i]) < keys.len(),
        decreases end - k,
    {
        let at: usize = if descending { n - 1 - k } else { k };
        let ghost before = positions(page@);
        assert(positions(order@)[at as int] == order@[at as int] as int);
        page.push(order[at]);
        k = k + 1;
        assert(positions(page@) =~= before.push(order@[at as int] as int));
        assert(positions(page@) =~= all.subrange(start as int, k as int));
    }
    assert(positions(page@) =~= page_of(all, offset as int, size as int));
    page
}

/// Of two keys one is ranked before the other or with it.
pub proof fn keys_are_total(a: RankKey, b: RankKey)
    ensures
        key_le(a, b) || key_le(b, a),
{
    order_is_total(a.first, b.first, 0);
    order_is_total(a.second, b.second, 0);
}

/// The ranking of keys is transitive.
pub proof fn keys_are_transitive(a: RankKey, b: RankKey, c: RankKey)
    requires
        key_le(a, b),
        key_le(b, c),
    ensures
        key_le(a, c),
{
    if a.rank == b.rank && b.rank == c.rank {
        if a.first != b.first && b.first != c.first {
            order_is_transitive(a.first, b.first, c.first, 0);
            if a.first == c.first {
                order_is_antisymmetric(a.first, b.first, 0);
            }
        } else if a.first == b.first && b.first == c.first {
            if a.second != b.second && b.second != c.second {
                order_is_transitive(a.second, b.second, c.second, 0);
                if a.second == c.second {
                    order_is_antisymmetric(a.second, b.second, 0);
                }
            }
        }
    }
}

/// Two keys that are ranked with each other are the same key.
pub proof fn keys_are_antisymmetric(a: RankKey, b: RankKey)
    requires
        key_le(a, b),
        key_le(b, a),
    ensures
        a == b,
{
    if a.rank == b.rank {
        if a.first != b.first {
            order_is_antisymmetric(a.first, b.first, 0);
        } else if a.second != b.second {
            order_is_antisymmetric(a.second, b.second, 0);
        }
    }
}

/// Whether the indices of `order` stand by ascending key.
pub open spec fn in_key_order(keys: Seq<RankKey>, order: Seq<int>) -> bool {
    forall|i: int, j: int|
        0 <= i < j < order.len() ==> key_le(keys[#[trigger] order[i]], keys[#[trigger] order[j]])
}

/// Whether `order` holds each of the first `n` indices once and nothing
/// else.
pub open spec fn holds_each(order: Seq<int>, n: int) -> bool {
    &&& order.len() == n
    &&& order.no_duplicates()
    &&& forall|i: int| 0 <= i < order.len() ==> 0 <= #[trigger] order[i] < n
}

proof fn with_index_places(keys: Seq<RankKey>, order: Seq<int>, x: int) -> (pos: int)
    ensures
        0 <= pos <= order.len(),
        with_index(keys, order, x) == order.insert(pos, x),
        pos > 0 ==> key_le(keys[order[pos - 1]], keys[x]),
        forall|j: int| pos <= j < order.len() ==> !key_le(keys[#[trigger] order[j]], keys[x]),
    decreases order.len(),
{
    if order.len() == 0 {
        assert(seq![x] =~= order.insert(0, x));
        0
    } else if key_le(keys[order.last()], keys[x]) {
        assert(order.push(x) =~= order.insert(order.len() as int, x));
        order.len() as int
    } else {
        let rest = order.drop_last();
        let pos = with_index_places(keys, rest, x);
        assert(rest.insert(pos, x).push(order.last()) =~= order.insert(pos, x));
        assert forall|j: int| pos <= j < order.len() implies !key_le(
            keys[#[trigger] order[j]],
            keys[x],
        ) by {
            if j < rest.len() {
                assert(rest[j] == order[j]);
            }
        }
        if pos > 0 {
            assert(rest[pos - 1] == order[pos - 1]);
        }
        pos
    }
}

/// The order `ascending` is an arrangement of the first `n` indices, and
/// it stands by ascending key.
pub proof fn ascending_is_sorted(keys: Seq<RankKey>, n: int)
    requires
        0 <= n <= keys.len(),
    ensures
        holds_each(ascending(keys, n), n),
        in_key_order(keys, ascending(keys, n)),
    decreases n,
{
    if n > 0 {
        ascending_is_sorted(keys, n - 1);
        let before = ascending(keys, n - 1);
        let x = n - 1;
        let pos = with_index_places(keys, before, x);
        let after = before.insert(pos, x);
        assert forall|i: int, j: int| 0 <= i < after.len() && 0 <= j < after.len() && i != j implies after[i]
            != after[j] by {
            let bi = if i < pos { i } else { i - 1 };
            let bj = if j < pos { j } else { j - 1 };
            if i != pos && j != pos {
                assert(after[i] == before[bi] && after[j] == before[bj]);
            } else if i == pos {
                assert(after[j] == before[bj]);
            } else {
                assert(after[i] == before[bi]);
            }
        }
        assert forall|i: int| 0 <= i < after.len() implies 0 <= #[trigger] after[i] < n by {
            if i < pos {
                assert(after[i] == before[i]);
            } else if i > pos {
                assert(after[i] == before[i - 1]);
            }
        }
        assert forall|i: int, j: int| 0 <= i < j < after.len() implies key_le(
            keys[#[trigger] after[i]],
            keys[#[trigger] after[j]],
        ) by {
            if j < pos {
                assert(after[i] == before[i] && after[j] == before[j]);
            } else if j == pos {
                assert(after[i] == before[i]);
                if i < pos - 1 {
                    assert(key_le(keys[before[i]], keys[before[pos - 1]]));
                    keys_are_transitive(keys[before[i]], keys[before[pos - 1]], keys[x]);
                }
            } else if i == pos {
                assert(after[j] == before[j - 1]);
                assert(!key_le(keys[before[j - 1]], keys[x]));
                keys_are_total(keys[before[j - 1]], keys[x]);
            } else if i < pos {
                assert(after[i] == before[i] && after[j] == before[j - 1]);
            } else {
                assert(after[i] == before[i - 1] && after[j] == before[j - 1]);
            }
        }
    }
}

/// The order that lists are served in is an arrangement of all indices
/// of the keys: each row is served once.
pub proof fn arranged_holds_each(keys: Seq<RankKey>, descending: bool)
    ensures
        holds_each(arranged(keys, descending), keys.len() as int),
{
    ascending_is_sorted(keys, keys.len() as int);
    let up = ascending(keys, keys.len() as int);
    let served = arranged(keys, descending);
    if descending {
        assert forall|i: int, j: int| 0 <= i < served.len() && 0 <= j < served.len() && i != j implies served[i]
            != served[j] by {
            assert(served[i] == up[up.len() - 1 - i]);
            assert(served[j] == up[up.len() - 1 - j]);
        }
        assert forall|i: int| 0 <= i < served.len() implies 0 <= #[trigger] served[i] < keys.len() by {
            assert(served[i] == up[up.len() - 1 - i]);
        }
    }
}

/// In the order that lists are served in, a row that is served before
/// another is ranked with it or before it: after it where the order is
/// descending.
pub proof fn arranged_is_sorted(keys: Seq<RankKey>, descending: bool, i: int, j: int)
    requires
        0 <= i < j < keys.len(),
    ensures
        !descending ==> key_le(keys[arranged(keys, descending)[i]], keys[arranged(keys, descending)[j]]),
        descending ==> key_le(keys[arranged(keys, descending)[j]], keys[arranged(keys, descending)[i]]),
{
    ascending_is_sorted(keys, keys.len() as int);
    let up = ascending(keys, keys.len() as int);
    if descending {
        let a = up.len() - 1 - j;
        let b = up.len() - 1 - i;
        assert(key_le(keys[up[a]], keys[up[b]]));
    } else {
        assert(key_le(keys[up[i]], keys[up[j]]));
    }
}

/// No two of the keys are the same.
pub open spec fn keys_differ(keys: Seq<RankKey>) -> bool {
    forall|i: int, j: int| 0 <= i < j < keys.len() ==> keys[i] != keys[j]
}

/// An arrangement of the first `n` indices holds each of them somewhere.
pub proof fn place_of(order: Seq<int>, n: int, x: int) -> (p: int)
    requires
        holds_each(order, n),
        0 <= x < n,
    ensures
        0 <= p < n,
        order[p] == x,
{
    order.unique_seq_to_set();
    seq_to_set_is_finite(order);
    lemma_int_range(0, n);
    assert(order.to_set().subset_of(set_int_range(0, n))) by {
        assert forall|v: int| order.to_set().contains(v) implies set_int_range(0, n).contains(v) by {
            let k = choose|k: int| 0 <= k < order.len() && order[k] == v;
            assert(0 <= order[k] < n);
        }
    }
    lemma_subset_equality(order.to_set(), set_int_range(0, n));
    assert(set_int_range(0, n).contains(x));
    assert(order.to_set().contains(x));
    choose|k: int| 0 <= k < order.len() && order[k] == x
}

proof fn agree_up_to(keys: Seq<RankKey>, a: Seq<int>, b: Seq<int>, p: int)
    requires
        keys_differ(keys),
        holds_each(a, keys.len() as int),
        holds_each(b, keys.len() as int),
        in_key_order(keys, a),
        in_key_order(keys, b),
        0 <= p <= keys.len(),
    ensures
        forall|q: int| 0 <= q < p ==> a[q] == b[q],
    decreases p,
{
    if p > 0 {
        agree_up_to(keys, a, b, p - 1);
        let at = p - 1;
        let n = keys.len() as int;
        let x = a[at];
        let y = b[at];
        if x != y {
            let r = place_of(b, n, x);
            let s = place_of(a, n, y);
            if r < at {
                assert(a[r] == b[r]);
            }
            if s < at {
                assert(b[s] == a[s]);
            }
            assert(key_le(keys[b[at]], keys[b[r]]));
            assert(key_le(keys[a[at]], keys[a[s]]));
            keys_are_antisymmetric(keys[x], keys[y]);
        }
    }
}

/// Where no two keys are the same there is one arrangement of all
/// indices that stands by ascending key, and one that stands by
/// descending key: the one that lists are served in.
pub proof fn arrangement_is_unique(keys: Seq<RankKey>, descending: bool, other: Seq<int>)
    requires
        keys_differ(keys),
        holds_each(other, keys.len() as int),
        forall|i: int, j: int|
            0 <= i < j < other.len() ==> if descending {
                key_le(keys[#[trigger] other[j]], keys[#[trigger] other[i]])
            } else {
                key_le(keys[other[i]], keys[other[j]])
            },
    ensures
        other == arranged(keys, descending),
{
    let n = keys.len() as int;
    let up = ascending(keys, n);
    ascending_is_sorted(keys, n);
    if descending {
        let back = Seq::new(other.len(), |k: int| other[other.len() - 1 - k]);
        assert forall|i: int, j: int| 0 <= i < back.len() && 0 <= j < back.len() && i != j implies back[i]
            != back[j] by {
            assert(back[i] == other[n - 1 - i] && back[j] == other[n - 1 - j]);
        }
        assert forall|i: int| 0 <= i < back.len() implies 0 <= #[trigger] back[i] < n by {
            assert(back[i] == other[n - 1 - i]);
        }
        assert forall|i: int, j: int| 0 <= i < j < back.len() implies key_le(
            keys[#[trigger] back[i]],
            keys[#[trigger] back[j]],
        ) by {
            assert(back[i] == other[n - 1 - i] && back[j] == other[n - 1 - j]);
        }
        agree_up_to(keys, back, up, n);
        assert(back =~= up);
        assert forall|k: int| 0 <= k < n implies other[k] == arranged(keys, true)[k] by {
            assert(back[n - 1 - k] == other[k]);
        }
        assert(other =~= arranged(keys, true));
    } else {
        agree_up_to(keys, other, up, n);
        assert(other =~= up);
    }
}

} // verus!
