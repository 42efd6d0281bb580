//! Stable sorting by a weight and two labels, and the selection of the first few.
use vstd::prelude::*;
use crate::text::{
    at_most, text_le, text_order_is_antisymmetric, text_order_is_total, text_order_is_transitive,
};

verus! {

/// What an item is sorted by: a lesser weight comes first; of equal weights the label that comes
/// first in the order of texts; of equal labels the second label that does.
#[derive(Debug)]
pub struct SortKey {
    pub weight: i64,
    pub label: String,
    pub second: String,
}

/// What a sort key holds.
pub struct Rank {
    pub weight: int,
    pub label: Seq<char>,
    pub second: Seq<char>,
}

impl View for SortKey {
    type V = Rank;

    open spec fn view(&self) -> Rank {
        Rank { weight: self.weight as int, label: self.label@, second: self.second@ }
    }
}

/// The ranks that a list of sort keys holds.
pub open spec fn ranks(keys: Seq<SortKey>) -> Seq<Rank> {
    keys.map_values(|k: SortKey| k@)
}

/// Whether `a` comes before `b` or ties with it.
pub open spec fn rank_le(a: Rank, b: Rank) -> bool {
    if a.weight != b.weight {
        a.weight < b.weight
    } else if a.label != b.label {
        text_le(a.label, b.label)
    } else {
        text_le(a.second, b.second)
    }
}

/// Whether item `i` comes before item `j`: by its rank or, where the two tie, by standing first.
pub open spec fn comes_first(ranks: Seq<Rank>, i: int, j: int) -> bool {
    rank_le(ranks[i], ranks[j]) && (rank_le(ranks[j], ranks[i]) ==> i < j)
}

/// Whether `order` lists the positions of `ranks`, each once, those that come first before the
/// others.
pub open spec fn is_order(ranks: Seq<Rank>, order: Seq<int>) -> bool {
    &&& order.len() == ranks.len()
    &&& forall|k: int| 0 <= k < order.len() ==> 0 <= #[trigger] order[k] < ranks.len()
    &&& forall|k: int, l: int|
        0 <= k < l < order.len() ==> comes_first(ranks, #[trigger] order[k], #[trigger] order[l])
}

/// The positions of `ranks` in sorted order; those that tie stay in the order they stand in.
pub open spec fn order_of(ranks: Seq<Rank>) -> Seq<int> {
    choose|order: Seq<int>| is_order(ranks, order)
}

/// The items of `items` sorted by `ranks`.
pub open spec fn sorted<T>(items: Seq<T>, ranks: Seq<Rank>) -> Seq<T> {
    order_of(ranks).map_values(|i: int| items[i])
}

/// The first `limit` items of `items` sorted by `ranks`, or all where there are fewer.
pub open spec fn first_sorted<T>(items: Seq<T>, ranks: Seq<Rank>, limit: nat) -> Seq<T> {
    let all = sorted(items, ranks);
    if limit < all.len() {
        all.take(limit as int)
    } else {
        all
    }
}

proof fn lemma_rank_total(a: Rank, b: Rank)
    ensures
        rank_le(a, a),
        rank_le(a, b) || rank_le(b, a),
{
    text_order_is_total(a.label, b.label);
    text_order_is_total(a.second, b.second);
}

proof fn lemma_rank_transitive(a: Rank, b: Rank, c: Rank)
    requires
        rank_le(a, b),
        rank_le(b, c),
    ensures
        rank_le(a, c),
{
    if a.weight == b.weight && b.weight == c.weight {
        if a.label == b.label && b.label == c.label {
            text_order_is_transitive(a.second, b.second, c.second);
        } else if a.label != b.label && b.label != c.label {
            text_order_is_transitive(a.label, b.label, c.label);
            if a.label == c.label {
                text_order_is_antisymmetric(a.label, b.label);
            }
        }
    }
}

proof fn lemma_first_transitive(ranks: Seq<Rank>, i: int, j: int, k: int)
    requires
        comes_first(ranks, i, j),
        comes_first(ranks, j, k),
    ensures
        comes_first(ranks, i, k),
{
    lemma_rank_transitive(ranks[i], ranks[j], ranks[k]);
    if rank_le(ranks[k], ranks[i]) {
        lemma_rank_transitive(ranks[k], ranks[i], ranks[j]);
        lemma_rank_transitive(ranks[j], ranks[k], ranks[i]);
    }
}

/// Whether `part` lists each of the positions from `from` to `to` once, in sorted order.
spec fn is_part_order(ranks: Seq<Rank>, from: int, to: int, part: Seq<usize>) -> bool {
    &&& part.len() == to - from
    &&& forall|k: int| 0 <= k < part.len() ==> from <= #[trigger] part[k] < to
    &&& forall|k: int, l: int|
        0 <= k < l < part.len() ==> comes_first(
            ranks,
            #[trigger] part[k] as int,
            #[trigger] part[l] as int,
        )
}

/// Whether the key at `i` comes before the one at `j`.
fn is_first(keys: &Vec<SortKey>, i: usize, j: usize) -> (r: bool)
    requires
        i < keys@.len(),
        j < keys@.len(),
    ensures
        r == comes_first(ranks(keys@), i as int, j as int),
{
    let a = &keys[i];
    let b = &keys[j];
    if a.weight != b.weight {
        a.weight < b.weight
    } else {
        let same = a.label == b.label;
        let x = if same {
            a.second.as_str()
        } else {
            a.label.as_str()
        };
        let y = if same {
            b.second.as_str()
        } else {
            b.label.as_str()
        };
        at_most(x, y) && (i < j || !at_most(y, x))
    }
}

/// Merges two sorted neighbours into one.
fn merge(
    keys: &Vec<SortKey>,
    left: &Vec<usize>,
    right: &Vec<usize>,
    Ghost(from): Ghost<int>,
    Ghost(mid): Ghost<int>,
    Ghost(to): Ghost<int>,
) -> (out: Vec<usize>)
    requires
        0 <= from <= mid <= to <= keys@.len(),
        is_part_order(ranks(keys@), from, mid, left@),
        is_part_order(ranks(keys@), mid, to, right@),
    ensures
        is_part_order(ranks(keys@), from, to, out@),
{
    let ghost rs = ranks(keys@);
    let mut out: Vec<usize> = Vec::new();
    let mut i: usize = 0;
    let mut j: usize = 0;
    while i < left.len() || j < right.len()
        invariant
            rs == ranks(keys@),
            0 <= from <= mid <= to <= keys@.len(),
            is_part_order(rs, from, mid, left@),
            is_part_order(rs, mid, to, right@),
            i <= left@.len(),
            j <= right@.len(),
            out@.len() == i + j,
            forall|k: int| 0 <= k < out@.len() ==> from <= #[trigger] out@[k] < to,
            forall|k: int, l: int|
                0 <= k < l < out@.len() ==> comes_first(
                    rs,
                    #[trigger] out@[k] as int,
                    #[trigger] out@[l] as int,
                ),
            forall|k: int, l: int|
                0 <= k < out@.len() && i <= l < left@.len() ==> comes_first(
                    rs,
                    #[trigger] out@[k] as int,
                    #[trigger] left@[l] as int,
                ),
            forall|k: int, l: int|
                0 <= k < out@.len() && j <= l < right@.len() ==> comes_first(
                    rs,
                    #[trigger] out@[k] as int,
                    #[trigger] right@[l] as int,
                ),
        decreases left@.len() + right@.len() - i - j,
    {
        let take_left = j >= right.len() || (i < left.len() && is_first(keys, left[i], right[j]));
        if take_left {
            proof {
                assert forall|l: int| j <= l < right@.len() implies comes_first(
                    rs,
                    left@[i as int] as int,
                    #[trigger] right@[l] as int,
                ) by {
                    if l > j {
                        lemma_first_transitive(
                            rs,
                            left@[i as int] as int,
                            right@[j as int] as int,
                            right@[l] as int,
                        );
                    }
                }
            }
            out.push(left[i]);
            i += 1;
        } else {
            proof {
                assert forall|l: int| i <= l < left@.len() implies comes_first(
                    rs,
                    right@[j as int] as int,
                    #[trigger] left@[l] as int,
                ) by {
                    let x = left@[i as int] as int;
                    let y = right@[j as int] as int;
                    lemma_rank_total(rs[x], rs[y]);
                    if l > i {
                        lemma_first_transitive(rs, y, x, left@[l] as int);
                    }
                }
            }
            out.push(right[j]);
            j += 1;
        }
    }
    out
}

/// The positions from `from` to `to` in sorted order.
fn sort_part(keys: &Vec<SortKey>, from: usize, to: usize) -> (out: Vec<usize>)
    requires
        from <= to <= keys@.len(),
    ensures
        is_part_order(ranks(keys@), from as int, to as int, out@),
    decreases to - from,
{
    if to - from == 0 {
        Vec::new()
    } else if to - from == 1 {
        let mut out: Vec<usize> = Vec::new();
        out.push(from);
        out
    } else {
        let mid: usize = from + (to - from) / 2;
        let left = sort_part(keys, from, mid);
        let right = sort_part(keys, mid, to);
        merge(keys, &left, &right, Ghost(from as int), Ghost(mid as int), Ghost(to as int))
    }
}

/// A sorted order lists every position.
pub proof fn order_covers(ranks: Seq<Rank>, order: Seq<int>, i: int)
    requires
        is_order(ranks, order),
        0 <= i < ranks.len(),
    ensures
        order.contains(i),
{
    assert(order.no_duplicates());
    order.unique_seq_to_set();
    let all = vstd::set_lib::set_int_range(0, ranks.len() as int);
    vstd::set_lib::lemma_int_range(0, ranks.len() as int);
    vstd::set_lib::lemma_subset_equality(order.to_set(), all);
    assert(order.to_set().contains(i));
}

/// There is one sorted order only.
pub proof fn order_is_unique(ranks: Seq<Rank>, a: Seq<int>, b: Seq<int>)
    requires
        is_order(ranks, a),
        is_order(ranks, b),
    ensures
        a == b,
{
    assert forall|k: int| 0 <= k < a.len() implies a[k] == b[k] by {
        lemma_order_agrees(ranks, a, b, k);
    }
}

proof fn lemma_order_agrees(ranks: Seq<Rank>, a: Seq<int>, b: Seq<int>, k: int)
    requires
        is_order(ranks, a),
        is_order(ranks, b),
        0 <= k < a.len(),
    ensures
        forall|l: int| 0 <= l <= k ==> a[l] == b[l],
    decreases k,
{
    if k > 0 {
        lemma_order_agrees(ranks, a, b, k - 1);
    }
    if a[k] != b[k] {
        order_covers(ranks, a, b[k]);
        order_covers(ranks, b, a[k]);
        let l = choose|l: int| 0 <= l < a.len() && a[l] == b[k];
        let m = choose|m: int| 0 <= m < b.len() && b[m] == a[k];
        assert(l > k) by {
            if l < k {
                assert(b[l] == b[k]);
                assert(comes_first(ranks, b[l], b[k]));
            }
        }
        assert(m > k) by {
            if m < k {
                assert(a[m] == a[k]);
                assert(comes_first(ranks, a[m], a[k]));
            }
        }
        assert(comes_first(ranks, a[k], a[l]));
        assert(comes_first(ranks, b[k], b[m]));
    }
}

/// How many of the first positions of `order` come before `item` or tie with it.
spec fn slot_for(ranks: Seq<Rank>, order: Seq<int>, item: Rank) -> nat
    decreases order.len(),
{
    if order.len() == 0 || !rank_le(ranks[order[0]], item) {
        0
    } else {
        1 + slot_for(ranks, order.drop_first(), item)
    }
}

proof fn lemma_slot(ranks: Seq<Rank>, order: Seq<int>, item: Rank)
    ensures
        slot_for(ranks, order, item) <= order.len(),
        forall|k: int|
            0 <= k < slot_for(ranks, order, item) ==> rank_le(ranks[#[trigger] order[k]], item),
        slot_for(ranks, order, item) < order.len() ==> !rank_le(
            ranks[order[slot_for(ranks, order, item) as int]],
            item,
        ),
    decreases order.len(),
{
    if order.len() > 0 && rank_le(ranks[order[0]], item) {
        lemma_slot(ranks, order.drop_first(), item);
        assert forall|k: int| 0 <= k < slot_for(ranks, order, item) implies rank_le(
            ranks[#[trigger] order[k]],
            item,
        ) by {
            if k > 0 {
                assert(order[k] == order.drop_first()[k - 1]);
            }
        }
    }
}

/// Every list of ranks has a sorted order.
pub proof fn order_exists(ranks: Seq<Rank>)
    ensures
        is_order(ranks, order_of(ranks)),
    decreases ranks.len(),
{
    if ranks.len() == 0 {
        assert(is_order(ranks, Seq::<int>::empty()));
    } else {
        let short = ranks.drop_last();
        let n = short.len() as int;
        order_exists(short);
        let o = order_of(short);
        let p = slot_for(ranks, o, ranks[n]) as int;
        lemma_slot(ranks, o, ranks[n]);
        let full = o.insert(p, n);
        assert forall|k: int, l: int| 0 <= k < l < full.len() implies comes_first(
            ranks,
            #[trigger] full[k],
            #[trigger] full[l],
        ) by {
            let x = full[k];
            let y = full[l];
            if k != p && l != p {
                let k0 = if k < p { k } else { k - 1 };
                let l0 = if l < p { l } else { l - 1 };
                assert(comes_first(short, o[k0], o[l0]));
            } else if l == p {
                assert(rank_le(ranks[o[k]], ranks[n]));
            } else {
                let q = o[p];
                lemma_rank_total(ranks[n], ranks[q]);
                if l - 1 > p {
                    assert(comes_first(short, o[p], o[l - 1]));
                    lemma_rank_transitive(ranks[n], ranks[q], ranks[y]);
                    if rank_le(ranks[y], ranks[n]) {
                        lemma_rank_transitive(ranks[q], ranks[y], ranks[n]);
                    }
                }
            }
        }
        assert(is_order(ranks, full));
    }
}

/// Sorting keeps every item and adds none, puts no item before one that comes first, and repeats
/// none that was not repeated.
pub proof fn sorting_keeps_the_items<T>(items: Seq<T>, ranks: Seq<Rank>)
    requires
        items.len() == ranks.len(),
    ensures
        sorted(items, ranks).len() == items.len(),
        forall|x: T| sorted(items, ranks).contains(x) <==> items.contains(x),
        items.no_duplicates() ==> sorted(items, ranks).no_duplicates(),
{
    order_exists(ranks);
    let order = order_of(ranks);
    let all = sorted(items, ranks);
    assert forall|x: T| all.contains(x) <==> items.contains(x) by {
        if all.contains(x) {
            let k = choose|k: int| 0 <= k < all.len() && all[k] == x;
            assert(items[order[k]] == x);
        }
        if items.contains(x) {
            let i = choose|i: int| 0 <= i < items.len() && items[i] == x;
            order_covers(ranks, order, i);
            let k = choose|k: int| 0 <= k < order.len() && order[k] == i;
            assert(all[k] == x);
        }
    }
    if items.no_duplicates() {
        assert forall|k: int, l: int| 0 <= k < l < all.len() implies all[k] != all[l] by {
            assert(comes_first(ranks, order[k], order[l]));
            assert(order[k] != order[l]);
        }
    }
}

/// Ranks go by weight; where the weights are equal, by label; where these are equal, by the second
/// label.
pub proof fn ranks_go_by_weight_then_labels(a: Rank, b: Rank)
    ensures
        a.weight < b.weight ==> rank_le(a, b) && !rank_le(b, a),
        a.weight == b.weight && a.label != b.label ==> (rank_le(a, b) <==> text_le(
            a.label,
            b.label,
        )),
        a.weight == b.weight && a.label == b.label ==> (rank_le(a, b) <==> text_le(
            a.second,
            b.second,
        )),
{
}

/// An item that stands before another comes out before it, unless the other's rank comes first.
pub proof fn sorting_is_stable<T>(items: Seq<T>, ranks: Seq<Rank>, i: int, j: int)
    requires
        items.len() == ranks.len(),
        0 <= i < j < items.len(),
        rank_le(ranks[i], ranks[j]),
    ensures
        exists|k: int, l: int|
            0 <= k < l < items.len() && #[trigger] sorted(items, ranks)[k] == items[i]
                && #[trigger] sorted(items, ranks)[l] == items[j],
{
    order_exists(ranks);
    let order = order_of(ranks);
    order_covers(ranks, order, i);
    order_covers(ranks, order, j);
    let k = choose|k: int| 0 <= k < order.len() && order[k] == i;
    let l = choose|l: int| 0 <= l < order.len() && order[l] == j;
    if l < k {
        assert(comes_first(ranks, order[l], order[k]));
    }
    assert(k < l);
    assert(sorted(items, ranks)[k] == items[i] && sorted(items, ranks)[l] == items[j]);
}

/// Keeping the first few keeps as many as asked for, or all there are, from the front of the sorted
/// list.
pub proof fn the_first_few_are_the_front<T>(items: Seq<T>, ranks: Seq<Rank>, limit: nat)
    requires
        items.len() == ranks.len(),
    ensures
        first_sorted(items, ranks, limit).is_prefix_of(sorted(items, ranks)),
        first_sorted(items, ranks, limit).len() == if items.len() < limit {
            items.len()
        } else {
            limit
        },
{
    order_exists(ranks);
}

/// Of two items of a sorted list the first comes first by its rank, or they tie.
pub proof fn sorted_items_ascend<T>(items: Seq<T>, rank: spec_fn(T) -> Rank, k: int, l: int)
    requires
        0 <= k < l < items.len(),
    ensures
        rank_le(
            rank(sorted(items, items.map_values(rank))[k]),
            rank(sorted(items, items.map_values(rank))[l]),
        ),
{
    let ranks = items.map_values(rank);
    order_exists(ranks);
    let order = order_of(ranks);
    assert(comes_first(ranks, order[k], order[l]));
}

proof fn lemma_sorted_agree<T>(a: Seq<T>, b: Seq<T>, rank: spec_fn(T) -> Rank, k: int)
    requires
        a.len() == b.len(),
        a.no_duplicates(),
        b.no_duplicates(),
        forall|x: T| a.contains(x) <==> b.contains(x),
        forall|x: T, y: T|
            a.contains(x) && a.contains(y) && #[trigger] rank_le(rank(x), rank(y)) && rank_le(
                rank(y),
                rank(x),
            ) ==> x == y,
        forall|i: int, j: int|
            0 <= i < j < a.len() ==> rank_le(rank(#[trigger] a[i]), rank(#[trigger] a[j])),
        forall|i: int, j: int|
            0 <= i < j < b.len() ==> rank_le(rank(#[trigger] b[i]), rank(#[trigger] b[j])),
        0 <= k < a.len(),
    ensures
        forall|l: int| 0 <= l <= k ==> a[l] == b[l],
    decreases k,
{
    if k > 0 {
        lemma_sorted_agree(a, b, rank, k - 1);
    }
    if a[k] != b[k] {
        assert(a.contains(a[k]) && b.contains(b[k]));
        let l = choose|l: int| 0 <= l < a.len() && a[l] == b[k];
        let m = choose|m: int| 0 <= m < b.len() && b[m] == a[k];
        assert(l > k) by {
            if l < k {
                assert(b[l] == b[k]);
            }
        }
        assert(m > k) by {
            if m < k {
                assert(a[m] == a[k]);
            }
        }
        assert(rank_le(rank(a[k]), rank(a[l])));
        assert(rank_le(rank(b[k]), rank(b[m])));
    }
}

/// Where no two items tie, what comes out of sorting does not depend on the order the items stood
/// in.
pub proof fn sorting_forgets_the_order<T>(
    a: Seq<T>,
    b: Seq<T>,
    rank: spec_fn(T) -> Rank,
    limit: nat,
)
    requires
        a.no_duplicates(),
        b.no_duplicates(),
        forall|x: T| a.contains(x) <==> b.contains(x),
        forall|x: T, y: T|
            a.contains(x) && a.contains(y) && #[trigger] rank_le(rank(x), rank(y)) && rank_le(
                rank(y),
                rank(x),
            ) ==> x == y,
    ensures
        first_sorted(a, a.map_values(rank), limit) == first_sorted(b, b.map_values(rank), limit),
{
    let sa = sorted(a, a.map_values(rank));
    let sb = sorted(b, b.map_values(rank));
    sorting_keeps_the_items(a, a.map_values(rank));
    sorting_keeps_the_items(b, b.map_values(rank));
    assert(a.to_set() == b.to_set());
    a.unique_seq_to_set();
    b.unique_seq_to_set();
    assert forall|i: int, j: int| 0 <= i < j < sa.len() implies rank_le(
        rank(#[trigger] sa[i]),
        rank(#[trigger] sa[j]),
    ) by {
        sorted_items_ascend(a, rank, i, j);
    }
    assert forall|i: int, j: int| 0 <= i < j < sb.len() implies rank_le(
        rank(#[trigger] sb[i]),
        rank(#[trigger] sb[j]),
    ) by {
        sorted_items_ascend(b, rank, i, j);
    }
    assert forall|x: T| sa.contains(x) <==> sb.contains(x) by {
        assert(sa.contains(x) <==> a.contains(x));
        assert(sb.contains(x) <==> b.contains(x));
    }
    if sa.len() > 0 {
        lemma_sorted_agree(sa, sb, rank, sa.len() - 1);
    }
    assert(sa == sb);
}

/// Sorting and keeping the first few goes by the ranks alone: it may be done before or after each
/// item is replaced by `f` of it.
pub proof fn lemma_first_sorted_map<T, U>(
    items: Seq<T>,
    ranks: Seq<Rank>,
    limit: nat,
    f: spec_fn(T) -> U,
)
    requires
        items.len() == ranks.len(),
    ensures
        first_sorted(items, ranks, limit).map_values(f) == first_sorted(
            items.map_values(f),
            ranks,
            limit,
        ),
{
    order_exists(ranks);
}

/// Sorts `items` by `keys`, which stand in the same order, and keeps the first `limit`.
pub fn take_first<T>(items: Vec<T>, keys: &Vec<SortKey>, limit: usize) -> (out: Vec<T>)
    requires
        items@.len() == keys@.len(),
    ensures
        out@ == first_sorted(items@, ranks(keys@), limit as nat),
{
    let ghost all = items@;
    let ghost rs = ranks(keys@);
    let order = sort_part(keys, 0, keys.len());
    let ghost places = order@.map_values(|i: usize| i as int);
    proof {
        assert(is_order(rs, places));
        order_exists(rs);
        order_is_unique(rs, places, order_of(rs));
    }
    let mut slots: Vec<Option<T>> = Vec::new();
    for item in it: items
        invariant
            it.seq() == all,
            slots@.len() == it.index(),
            forall|i: int| 0 <= i < slots@.len() ==> #[trigger] slots@[i] == Some(all[i]),
    {
        slots.push(Some(item));
    }
    let count: usize = if limit < order.len() {
        limit
    } else {
        order.len()
    };
    let mut out: Vec<T> = Vec::new();
    let mut k: usize = 0;
    while k < count
        invariant
            k <= count <= order@.len() == slots@.len(),
            all.len() == slots@.len() == rs.len(),
            is_order(rs, places),
            forall|l: int| 0 <= l < order@.len() ==> #[trigger] order@[l] < slots@.len(),
            places == order@.map_values(|i: usize| i as int),
            out@ == places.map_values(|i: int| all[i]).take(k as int),
            forall|l: int|
                k <= l < order@.len() ==> slots@[#[trigger] order@[l] as int] == Some(
                    all[order@[l] as int],
                ),
        decreases count - k,
    {
        let place: usize = order[k];
        assert(places[k as int] == place);
        let got = slots[place].take();
        assert forall|l: int| k < l < order@.len() implies order@[l] != place by {
            assert(comes_first(rs, places[k as int], places[l]));
        }
        assert(places.map_values(|i: int| all[i]).take(k + 1) == places.map_values(
            |i: int| all[i],
        ).take(k as int).push(all[place as int]));
        if let Some(item) = got {
            out.push(item);
        }
        k += 1;
    }
    out
}

} // verus!
