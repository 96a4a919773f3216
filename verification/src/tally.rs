//! Counting how often each text occurs.
//!
//! A tally is a list of texts with their counts, each text once, in the order
//! in which the texts were first counted. Its model is a sequence of pairs of a
//! text and a count.

use vstd::hash_map::StringHashMap;
use vstd::prelude::*;
use vstd::relations::sorted_by;

verus! {

/// The model of a tally: texts with their counts.
pub type Counts = Seq<(Seq<char>, nat)>;

/// The index of the first pair of `counts` with the text `key`, at or after
/// `from`; `counts.len()` if there is none.
pub open spec fn key_index_from(counts: Counts, key: Seq<char>, from: int) -> int
    decreases counts.len() - from,
{
    if from < 0 || from >= counts.len() {
        counts.len() as int
    } else if counts[from].0 == key {
        from
    } else {
        key_index_from(counts, key, from + 1)
    }
}

/// The index of the first pair of `counts` with the text `key`, or
/// `counts.len()`.
pub open spec fn key_index(counts: Counts, key: Seq<char>) -> int {
    key_index_from(counts, key, 0)
}

/// Whether `counts` has a pair for `key`.
pub open spec fn has_key(counts: Counts, key: Seq<char>) -> bool {
    key_index(counts, key) < counts.len()
}

/// The count that `counts` holds for `key`: 0 where it holds none.
pub open spec fn count_of(counts: Counts, key: Seq<char>) -> nat {
    if has_key(counts, key) {
        counts[key_index(counts, key)].1
    } else {
        0
    }
}

/// `counts` after `key` was counted once more.
pub open spec fn one_more(counts: Counts, key: Seq<char>) -> Counts {
    let i = key_index(counts, key);
    if i < counts.len() {
        counts.update(i, (key, counts[i].1 + 1))
    } else {
        counts.push((key, 1))
    }
}

/// The tally of a sequence of texts: each counted in turn.
pub open spec fn tally_of(keys: Seq<Seq<char>>) -> Counts
    decreases keys.len(),
{
    if keys.len() == 0 {
        Seq::empty()
    } else {
        one_more(tally_of(keys.drop_last()), keys.last())
    }
}

/// The sum of all counts.
pub open spec fn total(counts: Counts) -> nat
    decreases counts.len(),
{
    if counts.len() == 0 {
        0
    } else {
        total(counts.drop_last()) + counts.last().1
    }
}

/// How often `key` occurs in `keys`.
pub open spec fn occurrences(keys: Seq<Seq<char>>, key: Seq<char>) -> nat
    decreases keys.len(),
{
    if keys.len() == 0 {
        0
    } else {
        occurrences(keys.drop_last(), key) + if keys.last() == key {
            1nat
        } else {
            0nat
        }
    }
}

/// No text stands twice in `counts`.
pub open spec fn distinct_keys(counts: Counts) -> bool {
    forall|i: int, j: int| 0 <= i < j < counts.len() ==> counts[i].0 != counts[j].0
}

/// `key_index_from` gives the first pair at or after `from` with the text.
pub proof fn lemma_key_index(counts: Counts, key: Seq<char>, from: int)
    requires
        0 <= from <= counts.len(),
    ensures
        from <= key_index_from(counts, key, from) <= counts.len(),
        key_index_from(counts, key, from) < counts.len() ==> counts[key_index_from(
            counts,
            key,
            from,
        )].0 == key,
        forall|i: int| from <= i < key_index_from(counts, key, from) ==> counts[i].0 != key,
    decreases counts.len() - from,
{
    if from < counts.len() && counts[from].0 != key {
        lemma_key_index(counts, key, from + 1);
    }
}

/// In a tally without repeated texts, the pair at `i` is the one found for its
/// text.
pub proof fn lemma_key_index_of_entry(counts: Counts, i: int)
    requires
        distinct_keys(counts),
        0 <= i < counts.len(),
    ensures
        key_index(counts, counts[i].0) == i,
        count_of(counts, counts[i].0) == counts[i].1,
{
    lemma_key_index(counts, counts[i].0, 0);
}

/// Counting a text changes its count by one and no other count.
pub proof fn lemma_one_more(counts: Counts, key: Seq<char>, other: Seq<char>)
    ensures
        count_of(one_more(counts, key), key) == count_of(counts, key) + 1,
        other != key ==> count_of(one_more(counts, key), other) == count_of(counts, other),
        has_key(one_more(counts, key), other) <==> other == key || has_key(counts, other),
        distinct_keys(counts) ==> distinct_keys(one_more(counts, key)),
        total(one_more(counts, key)) == total(counts) + 1,
        one_more(counts, key).len() == counts.len() + if has_key(counts, key) {
            0int
        } else {
            1int
        },
{
    let after = one_more(counts, key);
    let i = key_index(counts, key);
    lemma_key_index(counts, key, 0);
    lemma_key_index(counts, other, 0);
    lemma_key_index(after, key, 0);
    lemma_key_index(after, other, 0);
    lemma_total_one_more(counts, key);
    let j = key_index(after, key);
    assert(after[i].0 == key);
    if j < i {
        assert(counts[j].0 == after[j].0);
    }
    assert(j == i);
    if other != key {
        let a = key_index(counts, other);
        let b = key_index(after, other);
        if a < counts.len() {
            assert(after[a].0 == other);
        }
        if b < after.len() {
            assert(b < counts.len());
            assert(counts[b].0 == after[b].0);
        }
        if a < b && a < counts.len() {
            assert(after[a].0 == counts[a].0);
        }
        if b < a && b < counts.len() {
            assert(counts[b].0 == after[b].0);
        }
        assert(a < counts.len() ==> a == b);
        assert(a == counts.len() ==> b == after.len());
    }
    if distinct_keys(counts) {
        assert forall|a: int, b: int| 0 <= a < b < after.len() implies after[a].0 != after[b].0 by {
            if i < counts.len() {
                assert(after[a].0 == counts[a].0);
                assert(after[b].0 == counts[b].0);
            } else if b < counts.len() {
                assert(after[a].0 == counts[a].0);
                assert(after[b].0 == counts[b].0);
            } else {
                assert(after[a].0 == counts[a].0);
            }
        }
    }
}

proof fn lemma_total_update(counts: Counts, i: int, pair: (Seq<char>, nat))
    requires
        0 <= i < counts.len(),
    ensures
        total(counts.update(i, pair)) == total(counts) - counts[i].1 + pair.1,
    decreases counts.len(),
{
    let after = counts.update(i, pair);
    if i == counts.len() - 1 {
        assert(after.drop_last() == counts.drop_last());
    } else {
        assert(after.drop_last() == counts.drop_last().update(i, pair));
        lemma_total_update(counts.drop_last(), i, pair);
    }
}

proof fn lemma_total_one_more(counts: Counts, key: Seq<char>)
    ensures
        total(one_more(counts, key)) == total(counts) + 1,
{
    let i = key_index(counts, key);
    lemma_key_index(counts, key, 0);
    if i < counts.len() {
        lemma_total_update(counts, i, (key, counts[i].1 + 1));
    } else {
        assert(counts.push((key, 1)).drop_last() == counts);
    }
}

/// No count is larger than the sum of all counts.
pub proof fn lemma_count_within_total(counts: Counts, key: Seq<char>)
    ensures
        count_of(counts, key) <= total(counts),
{
    lemma_key_index(counts, key, 0);
    let i = key_index(counts, key);
    if i < counts.len() {
        lemma_total_update(counts, i, (key, 0nat));
    }
}

/// The tally of texts with one more text is the tally of the texts, with the
/// last text counted once more.
pub proof fn lemma_tally_of_push(keys: Seq<Seq<char>>, key: Seq<char>)
    ensures
        tally_of(keys.push(key)) == one_more(tally_of(keys), key),
{
    assert(keys.push(key).drop_last() == keys);
}

/// A tally of texts holds each text once, with the number of its occurrences;
/// it holds the texts that occur and no others; its counts add up to the
/// number of texts counted.
pub proof fn lemma_tally_of(keys: Seq<Seq<char>>, key: Seq<char>)
    ensures
        distinct_keys(tally_of(keys)),
        count_of(tally_of(keys), key) == occurrences(keys, key),
        has_key(tally_of(keys), key) <==> keys.contains(key),
        has_key(tally_of(keys), key) <==> occurrences(keys, key) > 0,
        total(tally_of(keys)) == keys.len(),
        tally_of(keys).len() <= keys.len(),
        occurrences(keys, key) <= keys.len(),
    decreases keys.len(),
{
    if keys.len() > 0 {
        let before = keys.drop_last();
        lemma_tally_of(before, key);
        lemma_one_more(tally_of(before), keys.last(), key);
        if keys.contains(key) {
            let i = choose|i: int| 0 <= i < keys.len() && keys[i] == key;
            if i < keys.len() - 1 {
                assert(before[i] == key);
            }
        }
        if before.contains(key) {
            let i = choose|i: int| 0 <= i < before.len() && before[i] == key;
            assert(keys[i] == key);
        }
        if keys.last() == key {
            assert(keys[keys.len() - 1] == key);
        }
    }
}

/// Every pair of a tally of texts has a text that occurs, with a count of at
/// least one.
pub proof fn lemma_tally_entries(keys: Seq<Seq<char>>, i: int)
    requires
        0 <= i < tally_of(keys).len(),
    ensures
        keys.contains(tally_of(keys)[i].0),
        tally_of(keys)[i].1 == occurrences(keys, tally_of(keys)[i].0),
        tally_of(keys)[i].1 >= 1,
{
    let counts = tally_of(keys);
    let key = counts[i].0;
    lemma_tally_of(keys, key);
    lemma_key_index_of_entry(counts, i);
}

/// The count at place `i` of `counts`; 0 where there is no such place.
pub open spec fn count_at_place(counts: Counts, i: int) -> nat {
    if 0 <= i < counts.len() {
        counts[i].1
    } else {
        0
    }
}

/// Whether the pair at place `a` of `counts` comes no later in the ranking
/// than the pair at place `b`: it has the larger count, or the same count and
/// no later place.
pub open spec fn ranks_first(counts: Counts, a: int, b: int) -> bool {
    count_at_place(counts, a) > count_at_place(counts, b) || (count_at_place(counts, a)
        == count_at_place(counts, b) && a <= b)
}

/// The order of the ranking of `counts`, as a relation between places.
pub open spec fn rank_relation(counts: Counts) -> spec_fn(int, int) -> bool {
    |a: int, b: int| ranks_first(counts, a, b)
}

/// The places from `lo` up to, but not including, `hi`.
pub open spec fn places(lo: int, hi: int) -> Seq<int> {
    Seq::new((hi - lo) as nat, |i: int| lo + i)
}

/// The places of `counts` in the order of the ranking: by falling count, and
/// by place among equal counts.
pub open spec fn rank_order(counts: Counts) -> Seq<int> {
    places(0, counts.len() as int).sort_by(rank_relation(counts))
}

/// The pairs of `counts` by falling count; pairs with the same count keep the
/// order that they have in `counts`.
pub open spec fn ranked(counts: Counts) -> Counts {
    rank_order(counts).map_values(|i: int| counts[i])
}

/// The counts of `ranking` never rise.
pub open spec fn falling(ranking: Counts) -> bool {
    forall|i: int, j: int| 0 <= i < j < ranking.len() ==> ranking[i].1 >= ranking[j].1
}

/// Whether the pair `a` stands before the pair `b` in the ranking of
/// `counts`: it has the larger count, or the same count and the earlier place
/// in `counts`.
pub open spec fn ranks_before(counts: Counts, a: (Seq<char>, nat), b: (Seq<char>, nat)) -> bool {
    a.1 > b.1 || (a.1 == b.1 && key_index(counts, a.0) < key_index(counts, b.0))
}

/// The order of a ranking is total.
pub proof fn lemma_rank_relation(counts: Counts)
    ensures
        vstd::relations::total_ordering(rank_relation(counts)),
{
    let r = rank_relation(counts);
    assert forall|x: int| #[trigger] r(x, x) by {}
    assert forall|x: int, y: int| #[trigger] r(x, y) && #[trigger] r(y, x) implies x == y by {}
    assert forall|x: int, y: int, z: int| #[trigger] r(x, y) && #[trigger] r(y, z) implies r(
        x,
        z,
    ) by {}
    assert forall|x: int, y: int| #[trigger] r(x, y) || #[trigger] r(y, x) by {}
}

/// The places from `lo` to `hi` hold each place once.
pub proof fn lemma_places(lo: int, hi: int)
    requires
        lo <= hi,
    ensures
        places(lo, hi).no_duplicates(),
        forall|x: int| places(lo, hi).contains(x) <==> lo <= x < hi,
{
    let p = places(lo, hi);
    assert forall|x: int| p.contains(x) <==> lo <= x < hi by {
        if lo <= x < hi {
            assert(p[x - lo] == x);
        }
    }
}

/// The order of a ranking holds every place of the tally once, and goes by
/// the order of the ranking.
pub proof fn lemma_rank_order(counts: Counts)
    ensures
        rank_order(counts).len() == counts.len(),
        rank_order(counts).no_duplicates(),
        forall|x: int| rank_order(counts).contains(x) <==> 0 <= x < counts.len(),
        forall|i: int|
            0 <= i < counts.len() ==> 0 <= (#[trigger] rank_order(counts)[i]) < counts.len(),
        forall|i: int, j: int|
            0 <= i < j < counts.len() ==> ranks_first(
                counts,
                #[trigger] rank_order(counts)[i],
                #[trigger] rank_order(counts)[j],
            ),
{
    let p = places(0, counts.len() as int);
    let order = rank_order(counts);
    let r = rank_relation(counts);
    lemma_rank_relation(counts);
    lemma_places(0, counts.len() as int);
    p.lemma_sort_by_ensures(r);
    p.to_multiset_ensures();
    order.to_multiset_ensures();
    p.lemma_multiset_has_no_duplicates();
    order.lemma_multiset_has_no_duplicates_conv();
    assert forall|x: int| order.contains(x) <==> 0 <= x < counts.len() by {
        assert(p.contains(x) <==> p.to_multiset().count(x) > 0);
        assert(order.contains(x) <==> order.to_multiset().count(x) > 0);
    }
    assert forall|i: int| 0 <= i < counts.len() implies 0 <= (#[trigger] order[i])
        < counts.len() by {
        assert(order.contains(order[i]));
    }
    assert forall|i: int, j: int| 0 <= i < j < counts.len() implies ranks_first(
        counts,
        #[trigger] order[i],
        #[trigger] order[j],
    ) by {
        assert(r(order[i], order[j]));
    }
}

/// A ranking holds the pairs of the tally that it was made of and no others,
/// as many as the tally, and its counts never rise.
pub proof fn lemma_ranked(counts: Counts)
    ensures
        falling(ranked(counts)),
        ranked(counts).len() == counts.len(),
        forall|i: int|
            0 <= i < ranked(counts).len() ==> counts.contains(#[trigger] ranked(counts)[i]),
        forall|i: int| 0 <= i < counts.len() ==> ranked(counts).contains(#[trigger] counts[i]),
{
    let order = rank_order(counts);
    let top = ranked(counts);
    lemma_rank_order(counts);
    assert forall|i: int, j: int| 0 <= i < j < top.len() implies top[i].1 >= top[j].1 by {
        assert(ranks_first(counts, order[i], order[j]));
    }
    assert forall|i: int| 0 <= i < top.len() implies counts.contains(#[trigger] top[i]) by {
        assert(counts[order[i]] == top[i]);
    }
    assert forall|i: int| 0 <= i < counts.len() implies top.contains(#[trigger] counts[i]) by {
        assert(order.contains(i));
        let k = choose|k: int| 0 <= k < order.len() && order[k] == i;
        assert(top[k] == counts[i]);
    }
}

/// The order of a ranking: of two pairs, the one with the larger count comes
/// first, and of two pairs with the same count, the one that comes first in
/// the tally. No text stands twice in the ranking.
pub proof fn lemma_ranked_order(counts: Counts)
    requires
        distinct_keys(counts),
    ensures
        forall|i: int, j: int|
            0 <= i < j < ranked(counts).len() ==> ranks_before(
                counts,
                #[trigger] ranked(counts)[i],
                #[trigger] ranked(counts)[j],
            ),
        distinct_keys(ranked(counts)),
{
    let order = rank_order(counts);
    let top = ranked(counts);
    lemma_rank_order(counts);
    assert forall|i: int, j: int| 0 <= i < j < top.len() implies ranks_before(
        counts,
        #[trigger] top[i],
        #[trigger] top[j],
    ) && top[i].0 != top[j].0 by {
        assert(ranks_first(counts, order[i], order[j]));
        assert(order[i] != order[j]);
        lemma_key_index_of_entry(counts, order[i]);
        lemma_key_index_of_entry(counts, order[j]);
    }
}

/// The place of the first `key` in `keys`, at or after `from`; `keys.len()`
/// if there is none.
pub open spec fn first_place_from(keys: Seq<Seq<char>>, key: Seq<char>, from: int) -> int
    decreases keys.len() - from,
{
    if from < 0 || from >= keys.len() {
        keys.len() as int
    } else if keys[from] == key {
        from
    } else {
        first_place_from(keys, key, from + 1)
    }
}

/// The place at which `key` first occurs in `keys`, or `keys.len()`.
pub open spec fn first_place(keys: Seq<Seq<char>>, key: Seq<char>) -> int {
    first_place_from(keys, key, 0)
}

/// `first_place_from` gives the first place at or after `from` that holds
/// the text.
pub proof fn lemma_first_place(keys: Seq<Seq<char>>, key: Seq<char>, from: int)
    requires
        0 <= from <= keys.len(),
    ensures
        from <= first_place_from(keys, key, from) <= keys.len(),
        first_place_from(keys, key, from) < keys.len() ==> keys[first_place_from(keys, key, from)]
            == key,
        forall|i: int| from <= i < first_place_from(keys, key, from) ==> keys[i] != key,
    decreases keys.len() - from,
{
    if from < keys.len() && keys[from] != key {
        lemma_first_place(keys, key, from + 1);
    }
}

/// A tally holds its texts in the order in which they first occur.
pub proof fn lemma_tally_order(keys: Seq<Seq<char>>, a: Seq<char>, b: Seq<char>)
    requires
        keys.contains(a),
        keys.contains(b),
    ensures
        key_index(tally_of(keys), a) < key_index(tally_of(keys), b) <==> first_place(keys, a)
            < first_place(keys, b),
    decreases keys.len(),
{
    let before = keys.drop_last();
    let last = keys.last();
    let n = keys.len() - 1;
    let old = tally_of(before);
    let now = tally_of(keys);
    lemma_tally_of(before, a);
    lemma_tally_of(before, b);
    lemma_tally_of(before, last);
    lemma_one_more_places(old, last, a);
    lemma_one_more_places(old, last, b);
    lemma_first_place(keys, a, 0);
    lemma_first_place(keys, b, 0);
    lemma_first_place(before, a, 0);
    lemma_first_place(before, b, 0);
    lemma_key_index(old, a, 0);
    lemma_key_index(old, b, 0);
    lemma_first_place_prefix(keys, a);
    lemma_first_place_prefix(keys, b);
    if before.contains(a) && before.contains(b) {
        lemma_tally_order(before, a, b);
    }
}

/// Counting a text leaves every text that is in the tally at its place, and
/// puts a new text behind them.
pub proof fn lemma_one_more_places(counts: Counts, key: Seq<char>, other: Seq<char>)
    ensures
        has_key(counts, other) ==> key_index(one_more(counts, key), other) == key_index(
            counts,
            other,
        ),
        !has_key(counts, other) && other == key ==> key_index(one_more(counts, key), other)
            == counts.len(),
{
    let after = one_more(counts, key);
    lemma_key_index(counts, key, 0);
    lemma_key_index(counts, other, 0);
    lemma_key_index(after, other, 0);
    let a = key_index(counts, other);
    let b = key_index(after, other);
    if a < counts.len() {
        assert(after[a].0 == other);
        if b < a {
            assert(counts[b].0 == after[b].0);
        }
    } else if other == key {
        assert(after[counts.len() as int].0 == key);
        if b < counts.len() {
            assert(counts[b].0 == after[b].0);
        }
    }
}

/// Where a text first occurs among all but the last of some texts, it first
/// occurs among all of them; where it does not occur there, it first occurs
/// at the last place or not at all.
pub proof fn lemma_first_place_prefix(keys: Seq<Seq<char>>, key: Seq<char>)
    requires
        keys.len() > 0,
    ensures
        keys.drop_last().contains(key) ==> first_place(keys, key) == first_place(
            keys.drop_last(),
            key,
        ) && first_place(keys, key) < keys.len() - 1,
        !keys.drop_last().contains(key) ==> first_place(keys, key) >= keys.len() - 1,
{
    let before = keys.drop_last();
    lemma_first_place(keys, key, 0);
    lemma_first_place(before, key, 0);
    let a = first_place(before, key);
    let b = first_place(keys, key);
    if before.contains(key) {
        let i = choose|i: int| 0 <= i < before.len() && before[i] == key;
        assert(a <= i);
        assert(keys[a] == before[a]);
        if b < a {
            assert(before[b] == keys[b]);
        }
    } else {
        if b < keys.len() - 1 {
            assert(before[b] == keys[b]);
            assert(before.contains(key));
        }
    }
}

/// `start` after each of `keys` was counted in turn.
pub open spec fn tally_onto(start: Counts, keys: Seq<Seq<char>>) -> Counts
    decreases keys.len(),
{
    if keys.len() == 0 {
        start
    } else {
        one_more(tally_onto(start, keys.drop_last()), keys.last())
    }
}

/// Counting texts onto a tally adds their number to the sum of its counts;
/// counting onto the empty tally is the tally of the texts.
pub proof fn lemma_tally_onto(start: Counts, keys: Seq<Seq<char>>)
    ensures
        total(tally_onto(start, keys)) == total(start) + keys.len(),
        start.len() == 0 ==> tally_onto(start, keys) == tally_of(keys),
    decreases keys.len(),
{
    if keys.len() > 0 {
        lemma_tally_onto(start, keys.drop_last());
        lemma_one_more(tally_onto(start, keys.drop_last()), keys.last(), keys.last());
    } else if start.len() == 0 {
        assert(start == Seq::<(Seq<char>, nat)>::empty());
    }
}

/// The model of a list of texts with their counts.
pub open spec fn counts_of_pairs(pairs: Seq<(String, usize)>) -> Counts {
    pairs.map_values(|p: (String, usize)| (p.0@, p.1 as nat))
}

/// Whether `index` says of every text where it stands in `counts`, and holds
/// no other text.
spec fn indexes(index: Map<Seq<char>, usize>, counts: Counts) -> bool {
    forall|key: Seq<char>|
        (index.contains_key(key) <==> (#[trigger] key_index(counts, key)) < counts.len()) && (
        index.contains_key(key) ==> index[key] as int == key_index(counts, key))
}

/// An index stays one when a text is counted: for a text that is new, with
/// its place added.
proof fn lemma_indexes_one_more(index: Map<Seq<char>, usize>, counts: Counts, key: Seq<char>)
    requires
        indexes(index, counts),
        counts.len() <= usize::MAX,
    ensures
        has_key(counts, key) ==> indexes(index, one_more(counts, key)),
        !has_key(counts, key) ==> indexes(
            index.insert(key, counts.len() as usize),
            one_more(counts, key),
        ),
{
    let after = one_more(counts, key);
    let grown = index.insert(key, counts.len() as usize);
    lemma_key_index(counts, key, 0);
    assert forall|other: Seq<char>|
        (if has_key(counts, key) {
            index
        } else {
            grown
        }).contains_key(other) <==> (#[trigger] key_index(after, other)) < after.len() by {
        lemma_one_more(counts, key, other);
        lemma_one_more_places(counts, key, other);
        lemma_key_index(after, other, 0);
        lemma_key_index(counts, other, 0);
        assert(index.contains_key(other) <==> key_index(counts, other) < counts.len());
    }
    assert forall|other: Seq<char>|
        (if has_key(counts, key) {
            index
        } else {
            grown
        }).contains_key(other) implies (if has_key(counts, key) {
        index
    } else {
        grown
    })[other] as int == #[trigger] key_index(after, other) by {
        lemma_one_more(counts, key, other);
        lemma_one_more_places(counts, key, other);
        lemma_key_index(counts, other, 0);
        assert(index.contains_key(other) <==> key_index(counts, other) < counts.len());
        assert(index.contains_key(other) ==> index[other] as int == key_index(counts, other));
    }
}

/// Texts with their counts, each text once, in the order of first counting.
pub struct Tally {
    entries: Vec<(String, usize)>,
    /// Where each text stands in `entries`.
    index: StringHashMap<usize>,
}

impl View for Tally {
    type V = Counts;

    closed spec fn view(&self) -> Counts {
        counts_of_pairs(self.entries@)
    }
}

impl Tally {
    #[verifier::type_invariant]
    spec fn indexed(self) -> bool {
        indexes(self.index@, counts_of_pairs(self.entries@))
    }

    /// The empty tally.
    pub fn new() -> (t: Tally)
        ensures
            t@ == Seq::<(Seq<char>, nat)>::empty(),
    {
        let t = Tally { entries: Vec::new(), index: StringHashMap::new() };
        assert(counts_of_pairs(t.entries@) == Seq::<(Seq<char>, nat)>::empty());
        t
    }

    /// Index of the pair for `key`, or the number of pairs.
    fn find(&self, key: &str) -> (i: usize)
        ensures
            i == key_index(self@, key@),
            i <= self.entries@.len(),
            self@.len() == self.entries@.len(),
    {
        proof {
            use_type_invariant(self);
            lemma_key_index(self@, key@, 0);
            assert(self@.len() == self.entries@.len());
            assert(self.index@.contains_key(key@) <==> key_index(self@, key@) < self@.len());
        }
        match self.index.get(key) {
            Some(i) => *i,
            None => self.entries.len(),
        }
    }

    /// Counts `key` once more.
    pub fn add(&mut self, key: String)
        requires
            count_of(old(self)@, key@) < usize::MAX,
        ensures
            final(self)@ == one_more(old(self)@, key@),
    {
        let i: usize = self.find(key.as_str());
        let ghost before = self@;
        proof {
            use_type_invariant(&*self);
        }
        let mut taken = Tally::new();
        std::mem::swap(&mut taken, self);
        let Tally { entries, index } = taken;
        let mut entries = entries;
        let mut index = index;
        let n: usize = entries.len();
        proof {
            assert(before.len() == n);
            lemma_indexes_one_more(index@, before, key@);
        }
        if i < n {
            let c: usize = entries[i].1;
            entries.set(i, (key, c + 1));
        } else {
            index.insert(key.clone(), i);
            entries.push((key, 1));
        }
        assert(counts_of_pairs(entries@) =~= one_more(before, key@));
        *self = Tally { entries, index };
    }

    /// The count of `key`: 0 if it was never counted.
    pub fn get(&self, key: &str) -> (c: usize)
        ensures
            c == count_of(self@, key@),
    {
        let i: usize = self.find(key);
        if i < self.entries.len() {
            self.entries[i].1
        } else {
            0
        }
    }

    /// Whether `key` was counted at least once.
    pub fn contains_key(&self, key: &str) -> (b: bool)
        ensures
            b == has_key(self@, key@),
    {
        let i: usize = self.find(key);
        i < self.entries.len()
    }

    /// The number of pairs.
    pub fn len(&self) -> (n: usize)
        ensures
            n == self@.len(),
    {
        self.entries.len()
    }

    /// Whether nothing was counted.
    pub fn is_empty(&self) -> (b: bool)
        ensures
            b == (self@.len() == 0),
    {
        self.entries.len() == 0
    }

    /// The text of the pair at `i`.
    pub fn key_at(&self, i: usize) -> (key: &String)
        requires
            i < self@.len(),
        ensures
            key@ == self@[i as int].0,
    {
        &self.entries[i].0
    }

    /// The count of the pair at `i`.
    pub fn count_at(&self, i: usize) -> (c: usize)
        requires
            i < self@.len(),
        ensures
            c == self@[i as int].1,
    {
        self.entries[i].1
    }
    /// The pairs, in the order of first counting.
    pub fn pairs(&self) -> (out: Vec<(String, usize)>)
        ensures
            counts_of_pairs(out@) == self@,
    {
        let mut out: Vec<(String, usize)> = Vec::new();
        let mut k: usize = 0;
        while k < self.entries.len()
            invariant
                k <= self.entries@.len(),
                counts_of_pairs(out@) == self@.take(k as int),
            decreases self.entries@.len() - k,
        {
            let pair = (self.entries[k].0.clone(), self.entries[k].1);
            proof {
                assert(counts_of_pairs(out@.push(pair)) == counts_of_pairs(out@).push(
                    (pair.0@, pair.1 as nat),
                ));
                assert(self@.take(k + 1) == self@.take(k as int).push(self@[k as int]));
            }
            out.push(pair);
            k += 1;
        }
        assert(self@.take(k as int) == self@);
        out
    }

    /// Whether the pair at place `a` comes no later in the ranking than the
    /// pair at place `b`.
    fn goes_first(&self, a: usize, b: usize) -> (first: bool)
        requires
            a < self@.len(),
            b < self@.len(),
        ensures
            first == ranks_first(self@, a as int, b as int),
    {
        let m: usize = self.entries[a].1;
        let n: usize = self.entries[b].1;
        m > n || (m == n && a <= b)
    }

    /// Merges two runs of places, each in the order of the ranking, into one.
    fn merge(&self, left: &Vec<usize>, right: &Vec<usize>) -> (out: Vec<usize>)
        requires
            forall|i: int| 0 <= i < left@.len() ==> (#[trigger] left@[i]) < self@.len(),
            forall|i: int| 0 <= i < right@.len() ==> (#[trigger] right@[i]) < self@.len(),
            sorted_by(as_places(left@), rank_relation(self@)),
            sorted_by(as_places(right@), rank_relation(self@)),
        ensures
            forall|i: int| 0 <= i < out@.len() ==> (#[trigger] out@[i]) < self@.len(),
            sorted_by(as_places(out@), rank_relation(self@)),
            as_places(out@).to_multiset() == as_places(left@).to_multiset().add(
                as_places(right@).to_multiset(),
            ),
    {
        let ghost r = rank_relation(self@);
        let ghost l = as_places(left@);
        let ghost rt = as_places(right@);
        let mut out: Vec<usize> = Vec::new();
        let mut i: usize = 0;
        let mut j: usize = 0;
        proof {
            lemma_rank_relation(self@);
            assert(l.take(0) == Seq::<int>::empty());
            assert(rt.take(0) == Seq::<int>::empty());
            assert(as_places(out@) == Seq::<int>::empty());
            Seq::<int>::empty().to_multiset_ensures();
            assert(Seq::<int>::empty().to_multiset() =~= Seq::<int>::empty().to_multiset().add(
                Seq::<int>::empty().to_multiset(),
            ));
        }
        while i < left.len() || j < right.len()
            invariant
                i <= left@.len(),
                j <= right@.len(),
                r == rank_relation(self@),
                l == as_places(left@),
                rt == as_places(right@),
                vstd::relations::total_ordering(r),
                forall|k: int| 0 <= k < left@.len() ==> (#[trigger] left@[k]) < self@.len(),
                forall|k: int| 0 <= k < right@.len() ==> (#[trigger] right@[k]) < self@.len(),
                forall|k: int| 0 <= k < out@.len() ==> (#[trigger] out@[k]) < self@.len(),
                sorted_by(l, r),
                sorted_by(rt, r),
                sorted_by(as_places(out@), r),
                forall|k: int|
                    0 <= k < out@.len() && i < left@.len() ==> r(
                        #[trigger] as_places(out@)[k],
                        l[i as int],
                    ),
                forall|k: int|
                    0 <= k < out@.len() && j < right@.len() ==> r(
                        #[trigger] as_places(out@)[k],
                        rt[j as int],
                    ),
                as_places(out@).to_multiset() == l.take(i as int).to_multiset().add(
                    rt.take(j as int).to_multiset(),
                ),
            decreases left@.len() - i + right@.len() - j,
        {
            let from_left: bool = if i == left.len() {
                false
            } else if j == right.len() {
                true
            } else {
                self.goes_first(left[i], right[j])
            };
            let ghost before = as_places(out@);
            if from_left {
                let x: usize = left[i];
                proof {
                    assert(l[i as int] == x as int);
                    assert(as_places(out@.push(x)) == before.push(x as int));
                    assert(l.take(i + 1) == l.take(i as int).push(x as int));
                    vstd::seq_lib::to_multiset_build(before, x as int);
                    vstd::seq_lib::to_multiset_build(l.take(i as int), x as int);
                    assert(before.push(x as int).to_multiset() =~= l.take(i + 1).to_multiset().add(
                        rt.take(j as int).to_multiset(),
                    ));
                    assert forall|a: int, b: int|
                        0 <= a < b < before.push(x as int).len() implies #[trigger] r(
                        before.push(x as int)[a],
                        before.push(x as int)[b],
                    ) by {
                        if b < before.len() {
                            assert(r(before[a], before[b]));
                        } else {
                            assert(r(before[a], l[i as int]));
                        }
                    }
                    assert forall|k: int|
                        0 <= k < before.push(x as int).len() && i + 1 < left@.len() implies r(
                        #[trigger] before.push(x as int)[k],
                        l[i + 1],
                    ) by {
                        assert(r(l[i as int], l[i + 1]));
                        if k < before.len() {
                            assert(r(before[k], l[i as int]));
                        }
                    }
                    assert forall|k: int|
                        0 <= k < before.push(x as int).len() && j < right@.len() implies r(
                        #[trigger] before.push(x as int)[k],
                        rt[j as int],
                    ) by {
                        if k < before.len() {
                            assert(r(before[k], rt[j as int]));
                        } else {
                            assert(r(l[i as int], rt[j as int]));
                        }
                    }
                }
                out.push(x);
                i += 1;
            } else {
                let x: usize = right[j];
                proof {
                    assert(rt[j as int] == x as int);
                    assert(as_places(out@.push(x)) == before.push(x as int));
                    assert(rt.take(j + 1) == rt.take(j as int).push(x as int));
                    vstd::seq_lib::to_multiset_build(before, x as int);
                    vstd::seq_lib::to_multiset_build(rt.take(j as int), x as int);
                    assert(before.push(x as int).to_multiset() =~= l.take(i as int).to_multiset().add(
                        rt.take(j + 1).to_multiset(),
                    ));
                    if i < left@.len() {
                        assert(!r(l[i as int], rt[j as int]));
                        assert(r(rt[j as int], l[i as int]));
                    }
                    assert forall|a: int, b: int|
                        0 <= a < b < before.push(x as int).len() implies #[trigger] r(
                        before.push(x as int)[a],
                        before.push(x as int)[b],
                    ) by {
                        if b < before.len() {
                            assert(r(before[a], before[b]));
                        } else {
                            assert(r(before[a], rt[j as int]));
                        }
                    }
                    assert forall|k: int|
                        0 <= k < before.push(x as int).len() && j + 1 < right@.len() implies r(
                        #[trigger] before.push(x as int)[k],
                        rt[j + 1],
                    ) by {
                        assert(r(rt[j as int], rt[j + 1]));
                        if k < before.len() {
                            assert(r(before[k], rt[j as int]));
                        }
                    }
                    assert forall|k: int|
                        0 <= k < before.push(x as int).len() && i < left@.len() implies r(
                        #[trigger] before.push(x as int)[k],
                        l[i as int],
                    ) by {
                        if k < before.len() {
                            assert(r(before[k], l[i as int]));
                        }
                    }
                }
                out.push(x);
                j += 1;
            }
        }
        proof {
            assert(l.take(i as int) == l);
            assert(rt.take(j as int) == rt);
        }
        out
    }

    /// The places from `lo` to `hi` in the order of the ranking.
    fn sort_places(&self, lo: usize, hi: usize) -> (out: Vec<usize>)
        requires
            lo <= hi <= self@.len(),
        ensures
            forall|i: int| 0 <= i < out@.len() ==> (#[trigger] out@[i]) < self@.len(),
            sorted_by(as_places(out@), rank_relation(self@)),
            as_places(out@).to_multiset() == places(lo as int, hi as int).to_multiset(),
        decreases hi - lo,
    {
        if hi - lo <= 1 {
            let mut out: Vec<usize> = Vec::new();
            if lo < hi {
                out.push(lo);
            }
            assert(as_places(out@) == places(lo as int, hi as int));
            return out;
        }
        let mid: usize = lo + (hi - lo) / 2;
        let left = self.sort_places(lo, mid);
        let right = self.sort_places(mid, hi);
        proof {
            assert(places(lo as int, mid as int) + places(mid as int, hi as int) == places(
                lo as int,
                hi as int,
            ));
            vstd::seq_lib::lemma_multiset_commutative(
                places(lo as int, mid as int),
                places(mid as int, hi as int),
            );
        }
        self.merge(&left, &right)
    }

    /// The pairs by falling count; pairs with the same count stay in the
    /// order of first counting.
    pub fn ranked(&self) -> (out: Vec<(String, usize)>)
        ensures
            counts_of_pairs(out@) == ranked(self@),
    {
        let order = self.sort_places(0, self.entries.len());
        proof {
            assert(self@.len() == self.entries@.len());
            lemma_rank_relation(self@);
            places(0, self@.len() as int).lemma_sort_by_ensures(rank_relation(self@));
            vstd::seq_lib::lemma_sorted_unique(
                as_places(order@),
                rank_order(self@),
                rank_relation(self@),
            );
            lemma_rank_order(self@);
        }
        let mut out: Vec<(String, usize)> = Vec::new();
        let mut k: usize = 0;
        while k < order.len()
            invariant
                k <= order.len(),
                self@.len() == self.entries@.len(),
                as_places(order@) == rank_order(self@),
                order@.len() == rank_order(self@).len(),
                forall|i: int| 0 <= i < order@.len() ==> (#[trigger] order@[i]) < self@.len(),
                counts_of_pairs(out@) == ranked(self@).take(k as int),
            decreases order.len() - k,
        {
            let place: usize = order[k];
            let pair = (self.entries[place].0.clone(), self.entries[place].1);
            proof {
                assert(as_places(order@)[k as int] == place as int);
                assert(counts_of_pairs(out@.push(pair)) == counts_of_pairs(out@).push(
                    (pair.0@, pair.1 as nat),
                ));
                assert(ranked(self@).take(k + 1) == ranked(self@).take(k as int).push(
                    ranked(self@)[k as int],
                ));
            }
            out.push(pair);
            k += 1;
        }
        assert(ranked(self@).take(k as int) == ranked(self@));
        out
    }
}

/// Places held in a vector, as places.
pub open spec fn as_places(held: Seq<usize>) -> Seq<int> {
    held.map_values(|i: usize| i as int)
}

} // verus!
