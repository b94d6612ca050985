//! The order in which rows are listed: bookmarks and snippets from the
//! greatest key down, tags by label.

use crate::models::Tag;
use crate::text::lemma_text_le_antisymmetric;
use crate::text::lemma_text_le_connected;
use crate::text::lemma_text_le_reflexive;
use crate::text::lemma_text_le_transitive;
use crate::text::text_at_most;
use crate::text::text_le;
use vstd::prelude::*;
use vstd::relations::*;
use vstd::seq_lib::*;

verus! {

/// A key with the position of its row: greater keys come first, and of
/// two rows with the same key the one at the later position.
pub open spec fn greatest_first() -> spec_fn((int, int), (int, int)) -> bool {
    |a: (int, int), b: (int, int)| a.0 > b.0 || (a.0 == b.0 && a.1 >= b.1)
}

/// A label with the position of its row: labels come in dictionary order,
/// and of two rows with the same label the one at the earlier position.
pub open spec fn by_label() -> spec_fn((Seq<char>, int), (Seq<char>, int)) -> bool {
    |a: (Seq<char>, int), b: (Seq<char>, int)|
        if a.0 == b.0 {
            a.1 <= b.1
        } else {
            text_le(a.0, b.0)
        }
}

/// Each key paired with its position.
pub open spec fn with_positions<K>(keys: Seq<K>) -> Seq<(K, int)> {
    Seq::new(keys.len(), |i: int| (keys[i], i))
}

/// The positions of `keys`, ordered from the greatest key down; equal keys
/// from the last position down.
pub open spec fn descending_order(keys: Seq<int>) -> Seq<int> {
    with_positions(keys).sort_by(greatest_first()).map_values(|p: (int, int)| p.1)
}

/// The positions of `labels`, ordered by label in dictionary order; equal
/// labels from the first position up.
pub open spec fn label_order(labels: Seq<Seq<char>>) -> Seq<int> {
    with_positions(labels).sort_by(by_label()).map_values(|p: (Seq<char>, int)| p.1)
}

/// A list of positions as integers.
pub open spec fn positions(order: Seq<usize>) -> Seq<int> {
    order.map_values(|i: usize| i as int)
}

/// The keys at the positions `order`, each with its position.
pub open spec fn picked<K>(keys: Seq<K>, order: Seq<usize>) -> Seq<(K, int)> {
    order.map_values(|i: usize| (keys[i as int], i as int))
}

/// The time stamps or ids of rows as integers.
pub open spec fn int_keys(keys: Seq<i64>) -> Seq<int> {
    keys.map_values(|k: i64| k as int)
}

/// The labels of a list of tags.
pub open spec fn labels_of_tags(tags: Seq<Tag>) -> Seq<Seq<char>> {
    tags.map_values(|t: Tag| t.tag@)
}

/// `greatest_first` is a total order.
pub proof fn lemma_greatest_first_total()
    ensures
        total_ordering(greatest_first()),
{
    let leq = greatest_first();
    assert(reflexive(leq));
    assert(antisymmetric(leq)) by {
        assert forall|x: (int, int), y: (int, int)| #[trigger] leq(x, y) && #[trigger] leq(y, x)
            implies x == y by {
            assert(x.0 == y.0 && x.1 == y.1);
        }
    }
    assert(transitive(leq));
    assert(strongly_connected(leq));
}

/// `by_label` is a total order.
pub proof fn lemma_by_label_total()
    ensures
        total_ordering(by_label()),
{
    let leq = by_label();
    assert(reflexive(leq));
    assert(antisymmetric(leq)) by {
        assert forall|x: (Seq<char>, int), y: (Seq<char>, int)| #[trigger]
            leq(x, y) && #[trigger] leq(y, x) implies x == y by {
            if x.0 != y.0 {
                lemma_text_le_antisymmetric(x.0, y.0);
            }
            assert(x.0 == y.0 && x.1 == y.1);
        }
    }
    assert(transitive(leq)) by {
        assert forall|x: (Seq<char>, int), y: (Seq<char>, int), z: (Seq<char>, int)| #[trigger]
            leq(x, y) && #[trigger] leq(y, z) implies leq(x, z) by {
            lemma_text_le_reflexive(x.0);
            lemma_text_le_reflexive(y.0);
            if text_le(x.0, y.0) && text_le(y.0, z.0) {
                lemma_text_le_transitive(x.0, y.0, z.0);
            }
            if x.0 == z.0 && x.0 != y.0 {
                lemma_text_le_antisymmetric(x.0, y.0);
            }
        }
    }
    assert(strongly_connected(leq)) by {
        assert forall|x: (Seq<char>, int), y: (Seq<char>, int)| #[trigger]
            leq(x, y) || #[trigger] leq(y, x) by {
            lemma_text_le_connected(x.0, y.0);
        }
    }
}

/// Putting `x` behind everything that comes at or before it, and in front
/// of what comes at or after it, keeps a list sorted.
pub proof fn lemma_insert_keeps_sorted<T>(s: Seq<T>, at: int, x: T, leq: spec_fn(T, T) -> bool)
    requires
        sorted_by(s, leq),
        transitive(leq),
        0 <= at <= s.len(),
        forall|q: int| 0 <= q < at ==> #[trigger] leq(s[q], x),
        at < s.len() ==> leq(x, s[at]),
    ensures
        sorted_by(s.insert(at, x), leq),
{
    let t = s.insert(at, x);
    assert forall|i: int, j: int| 0 <= i < j < t.len() implies #[trigger] leq(t[i], t[j]) by {
        if j < at {
            assert(leq(s[i], s[j]));
        } else if j == at {
            assert(leq(s[i], x));
        } else if i == at {
            if at < j - 1 {
                assert(leq(s[at], s[j - 1]));
            }
            assert(leq(x, s[j - 1]));
        } else if i < at {
            assert(leq(s[i], s[j - 1]));
        } else {
            assert(leq(s[i - 1], s[j - 1]));
        }
    }
}

/// A list that is sorted by a total order and holds what `all` holds is
/// `all` sorted.
pub proof fn lemma_sorted_is_the_sort<T>(s: Seq<T>, all: Seq<T>, leq: spec_fn(T, T) -> bool)
    requires
        sorted_by(s, leq),
        total_ordering(leq),
        s.to_multiset() == all.to_multiset(),
    ensures
        s == all.sort_by(leq),
{
    all.lemma_sort_by_ensures(leq);
    lemma_sorted_unique(s, all.sort_by(leq), leq);
}

/// Orders the positions of `keys` from the greatest key down. Rows with
/// equal keys are listed from the last one back to the first.
pub fn sort_descending(keys: &Vec<i64>) -> (order: Vec<usize>)
    ensures
        order@.len() == keys@.len(),
        forall|k: int| 0 <= k < order@.len() ==> order@[k] < keys@.len(),
        positions(order@) == descending_order(int_keys(keys@)),
{
    let ghost all = with_positions(int_keys(keys@));
    let ghost leq = greatest_first();
    let mut order: Vec<usize> = Vec::new();
    let mut n: usize = 0;
    proof {
        lemma_greatest_first_total();
        assert(picked(int_keys(keys@), order@) =~= all.take(0));
    }
    while n < keys.len()
        invariant
            n <= keys.len(),
            order@.len() == n,
            all == with_positions(int_keys(keys@)),
            leq == greatest_first(),
            total_ordering(leq),
            forall|k: int| 0 <= k < order@.len() ==> order@[k] < n,
            sorted_by(picked(int_keys(keys@), order@), leq),
            picked(int_keys(keys@), order@).to_multiset() == all.take(n as int).to_multiset(),
        decreases keys.len() - n,
    {
        let key = keys[n];
        let mut at: usize = 0;
        while at < order.len() && keys[order[at]] > key
            invariant
                at <= order@.len(),
                n < keys.len(),
                key == keys@[n as int],
                forall|k: int| 0 <= k < order@.len() ==> order@[k] < n,
                forall|q: int| 0 <= q < at ==> keys@[order@[q] as int] > key,
            decreases order.len() - at,
        {
            at = at + 1;
        }
        let ghost before = picked(int_keys(keys@), order@);
        let ghost x = (key as int, n as int);
        order.insert(at, n);
        proof {
            assert(picked(int_keys(keys@), order@) =~= before.insert(at as int, x));
            assert forall|q: int| 0 <= q < at implies #[trigger] leq(before[q], x) by {}
            lemma_insert_keeps_sorted(before, at as int, x, leq);
            to_multiset_insert(before, at as int, x);
            assert(all.take(n + 1) =~= all.take(n as int).push(x));
            to_multiset_build(all.take(n as int), x);
        }
        n = n + 1;
    }
    proof {
        assert(all.take(n as int) =~= all);
        let mine = picked(int_keys(keys@), order@);
        lemma_sorted_is_the_sort(mine, all, leq);
        assert(positions(order@) =~= mine.map_values(|p: (int, int)| p.1));
    }
    order
}

/// Orders the positions of `tags` by label, in dictionary order by code
/// point. Tags with the same label are listed from the first one on.
pub fn sort_by_label(tags: &Vec<Tag>) -> (order: Vec<usize>)
    ensures
        order@.len() == tags@.len(),
        forall|k: int| 0 <= k < order@.len() ==> order@[k] < tags@.len(),
        positions(order@) == label_order(labels_of_tags(tags@)),
{
    let ghost labels = labels_of_tags(tags@);
    let ghost all = with_positions(labels);
    let ghost leq = by_label();
    let mut order: Vec<usize> = Vec::new();
    let mut n: usize = 0;
    proof {
        lemma_by_label_total();
        assert(picked(labels, order@) =~= all.take(0));
    }
    while n < tags.len()
        invariant
            n <= tags.len(),
            order@.len() == n,
            labels == labels_of_tags(tags@),
            all == with_positions(labels),
            leq == by_label(),
            total_ordering(leq),
            forall|k: int| 0 <= k < order@.len() ==> order@[k] < n,
            sorted_by(picked(labels, order@), leq),
            picked(labels, order@).to_multiset() == all.take(n as int).to_multiset(),
        decreases tags.len() - n,
    {
        let mut at: usize = 0;
        while at < order.len() && text_at_most(tags[order[at]].tag.as_str(), tags[n].tag.as_str())
            invariant
                at <= order@.len(),
                n < tags.len(),
                labels == labels_of_tags(tags@),
                forall|k: int| 0 <= k < order@.len() ==> order@[k] < n,
                forall|q: int| 0 <= q < at ==> text_le(labels[order@[q] as int], labels[n as int]),
            decreases order.len() - at,
        {
            at = at + 1;
        }
        let ghost before = picked(labels, order@);
        let ghost x = (labels[n as int], n as int);
        order.insert(at, n);
        proof {
            assert(picked(labels, order@) =~= before.insert(at as int, x));
            assert forall|q: int| 0 <= q < at implies #[trigger] leq(before[q], x) by {}
            if at < before.len() {
                lemma_text_le_connected(before[at as int].0, x.0);
                lemma_text_le_reflexive(x.0);
            }
            lemma_insert_keeps_sorted(before, at as int, x, leq);
            to_multiset_insert(before, at as int, x);
            assert(all.take(n + 1) =~= all.take(n as int).push(x));
            to_multiset_build(all.take(n as int), x);
        }
        n = n + 1;
    }
    proof {
        assert(all.take(n as int) =~= all);
        let mine = picked(labels, order@);
        lemma_sorted_is_the_sort(mine, all, leq);
        assert(positions(order@) =~= mine.map_values(|p: (Seq<char>, int)| p.1));
    }
    order
}

} // verus!
