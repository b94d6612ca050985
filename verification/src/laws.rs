//! What holds of the archive whatever it holds.

use crate::fingerprint::url_fingerprint;
use crate::models::ItemKind;
use crate::models::LinkRow;
use crate::models::SnippetRow;
use crate::models::SnippetWithTagsRow;
use crate::models::TagGroup;
use crate::models::TagRow;
use crate::models::UrlRow;
use crate::models::UrlWithTagsRow;
use crate::order::by_label;
use crate::order::descending_order;
use crate::order::greatest_first;
use crate::order::label_order;
use crate::order::lemma_by_label_total;
use crate::order::lemma_greatest_first_total;
use crate::order::with_positions;
use crate::preserved::lemma_filter_members;
use crate::preserved::lemma_filter_pairwise;
use crate::preserved::lemma_tag_id;
use crate::preserved::lemma_url_id;
use crate::preserved::lemma_with_link_wf;
use crate::preserved::lemma_with_tag_wf;
use crate::preserved::lemma_with_url_wf;
use crate::preserved::lemma_without_snippet_wf;
use crate::preserved::lemma_without_url_wf;
use crate::relations::has_items;
use crate::state::snippet_stored;
use crate::state::url_stored;
use crate::text::nonempty;
use crate::state::tag_stored;
use crate::state::tag_used;
use crate::state::State;
use crate::relations::has_tags;
use crate::relations::linked;
use crate::relations::snippet_record;
use crate::relations::Relations;
use vstd::prelude::*;
use vstd::relations::*;
use vstd::seq_lib::*;

verus! {

/// Sorting keys with their positions loses no position and invents none:
/// the sorted list is as long as the list of keys, each of its entries is a
/// key with its position, and each position occurs in it.
pub proof fn lemma_sort_permutes<K>(keys: Seq<K>, leq: spec_fn((K, int), (K, int)) -> bool)
    requires
        total_ordering(leq),
    ensures
        with_positions(keys).sort_by(leq).len() == keys.len(),
        forall|k: int|
            #![trigger with_positions(keys).sort_by(leq)[k]]
            0 <= k < keys.len() ==> 0 <= with_positions(keys).sort_by(leq)[k].1 < keys.len()
                && with_positions(keys).sort_by(leq)[k].0 == keys[with_positions(keys).sort_by(
                leq,
            )[k].1],
        forall|i: int|
            0 <= i < keys.len() ==> #[trigger] with_positions(keys).sort_by(leq).contains(
                (keys[i], i),
            ),
{
    let all = with_positions(keys);
    let sorted = all.sort_by(leq);
    all.lemma_sort_by_ensures(leq);
    to_multiset_len(all);
    to_multiset_len(sorted);
    assert(sorted.len() == all.len());
    assert forall|k: int| #![trigger sorted[k]] 0 <= k < keys.len() implies 0 <= sorted[k].1
        < keys.len() && sorted[k].0 == keys[sorted[k].1] by {
        assert(sorted.contains(sorted[k]));
        to_multiset_contains(sorted, sorted[k]);
        to_multiset_contains(all, sorted[k]);
        assert(all.contains(sorted[k]));
        let i = choose|i: int| 0 <= i < all.len() && all[i] == sorted[k];
        assert(all[i] == (keys[i], i));
    }
    assert forall|i: int| 0 <= i < keys.len() implies #[trigger] sorted.contains((keys[i], i)) by {
        assert(all[i] == (keys[i], i));
        assert(all.contains(all[i]));
        to_multiset_contains(sorted, all[i]);
        to_multiset_contains(all, all[i]);
    }
}

/// The order from the greatest key down lists every position once: it is
/// as long as the list of keys, holds positions only, and holds each.
pub proof fn lemma_descending_order_permutes(keys: Seq<int>)
    ensures
        descending_order(keys).len() == keys.len(),
        forall|k: int|
            #![trigger descending_order(keys)[k]]
            0 <= k < keys.len() ==> 0 <= descending_order(keys)[k] < keys.len(),
        forall|i: int| 0 <= i < keys.len() ==> #[trigger] descending_order(keys).contains(i),
{
    lemma_greatest_first_total();
    lemma_sort_permutes(keys, greatest_first());
    let sorted = with_positions(keys).sort_by(greatest_first());
    let order = descending_order(keys);
    assert forall|k: int| #![trigger order[k]] 0 <= k < keys.len() implies 0 <= order[k]
        < keys.len() by {
        assert(order[k] == sorted[k].1);
    }
    assert forall|i: int| 0 <= i < keys.len() implies #[trigger] order.contains(i) by {
        assert(sorted.contains((keys[i], i)));
        let k = choose|k: int| 0 <= k < sorted.len() && sorted[k] == (keys[i], i);
        assert(order[k] == sorted[k].1);
    }
}

/// The order by label lists every position once: it is as long as the list
/// of labels, holds positions only, and holds each.
pub proof fn lemma_label_order_permutes(labels: Seq<Seq<char>>)
    ensures
        label_order(labels).len() == labels.len(),
        forall|k: int|
            #![trigger label_order(labels)[k]]
            0 <= k < labels.len() ==> 0 <= label_order(labels)[k] < labels.len(),
        forall|i: int| 0 <= i < labels.len() ==> #[trigger] label_order(labels).contains(i),
{
    lemma_by_label_total();
    lemma_sort_permutes(labels, by_label());
    let sorted = with_positions(labels).sort_by(by_label());
    let order = label_order(labels);
    assert forall|k: int| #![trigger order[k]] 0 <= k < labels.len() implies 0 <= order[k]
        < labels.len() by {
        assert(order[k] == sorted[k].1);
    }
    assert forall|i: int| 0 <= i < labels.len() implies #[trigger] order.contains(i) by {
        assert(sorted.contains((labels[i], i)));
        let k = choose|k: int| 0 <= k < sorted.len() && sorted[k] == (labels[i], i);
        assert(order[k] == sorted[k].1);
    }
}

/// What a selection followed by a mapping holds: the images of the
/// selected rows, and nothing else.
pub proof fn lemma_selected_images<A, B>(
    rows: Seq<A>,
    selected: spec_fn(A) -> bool,
    image: spec_fn(A) -> B,
    x: B,
)
    ensures
        rows.filter(selected).map_values(image).contains(x) <==> exists|i: int|
            #![trigger rows[i]]
            0 <= i < rows.len() && selected(rows[i]) && image(rows[i]) == x,
{
    let kept = rows.filter(selected);
    let images = kept.map_values(image);
    lemma_filter_members(rows, selected);
    if images.contains(x) {
        let k = choose|k: int| 0 <= k < images.len() && images[k] == x;
        assert(images[k] == image(kept[k]));
        let i = choose|i: int| #![trigger rows[i]] 0 <= i < rows.len() && rows[i] == kept[k];
        assert(selected(rows[i]) && image(rows[i]) == x);
    }
    if exists|i: int| #![trigger rows[i]] 0 <= i < rows.len() && selected(rows[i]) && image(rows[i]) == x {
        let i = choose|i: int|
            #![trigger rows[i]]
            0 <= i < rows.len() && selected(rows[i]) && image(rows[i]) == x;
        let k = choose|k: int| #![trigger kept[k]] 0 <= k < kept.len() && kept[k] == rows[i];
        assert(images[k] == x);
    }
}

/// A selection that every row passes keeps the table as it is.
pub proof fn lemma_filter_keeps_all<A>(rows: Seq<A>, selected: spec_fn(A) -> bool)
    requires
        forall|i: int| #![trigger rows[i]] 0 <= i < rows.len() ==> selected(rows[i]),
    ensures
        rows.filter(selected) == rows,
    decreases rows.len(),
{
    reveal(Seq::filter);
    if rows.len() > 0 {
        let front = rows.drop_last();
        assert forall|i: int| #![trigger front[i]] 0 <= i < front.len() implies selected(
            front[i],
        ) by {
            assert(front[i] == rows[i]);
        }
        lemma_filter_keeps_all(front, selected);
        assert(selected(rows[rows.len() - 1]));
        assert(front.push(rows.last()) =~= rows);
    } else {
        assert(rows.filter(selected) =~= rows);
    }
}

/// In a well-formed state no two bookmarks have the same URL.
pub proof fn lemma_urls_differ(s: State, i: int, j: int)
    requires
        s.wf(),
        0 <= i < s.tables.urls.len(),
        0 <= j < s.tables.urls.len(),
        s.tables.urls[i].url == s.tables.urls[j].url,
    ensures
        i == j,
{
    let urls = s.tables.urls;
    if i < j {
        assert(urls[i].url_hash != urls[j].url_hash);
    } else if j < i {
        assert(urls[j].url_hash != urls[i].url_hash);
    }
}

/// In a well-formed state no two snippets have the same id.
pub proof fn lemma_snippets_differ(s: State, i: int, j: int)
    requires
        s.wf(),
        0 <= i < s.tables.snippets.len(),
        0 <= j < s.tables.snippets.len(),
        s.tables.snippets[i].id == s.tables.snippets[j].id,
    ensures
        i == j,
{
    let rows = s.tables.snippets;
    if i < j {
        assert(rows[i].id != rows[j].id);
    } else if j < i {
        assert(rows[j].id != rows[i].id);
    }
}

/// Inserting a URL twice gives the same id both times and leaves exactly
/// one bookmark with the fingerprint of the URL: the second insertion
/// changes nothing. This is said of the states in which the first
/// insertion succeeds.
pub proof fn law_insert_url_twice(s: State, url: Seq<char>, first: int, second: int)
    requires
        s.wf(),
        s.insert_url_id(url) is Some,
    ensures
        ({
            let once = s.after_insert_url(url, first);
            let twice = once.after_insert_url(url, second);
            let urls = once.tables.urls;
            &&& once.insert_url_id(url) == s.insert_url_id(url)
            &&& twice == once
            &&& exists|i: int|
                #![trigger urls[i]]
                0 <= i < urls.len() && urls[i].url_hash == url_fingerprint(url) && urls[i].id
                    == s.insert_url_id(url).unwrap() && forall|j: int|
                    #![trigger urls[j]]
                    0 <= j < urls.len() && urls[j].url_hash == url_fingerprint(url) ==> j == i
        }),
{
    let hash = url_fingerprint(url);
    let once = s.after_insert_url(url, first);
    let urls = once.tables.urls;
    if s.tables.has_url(hash) {
        let i = choose|i: int|
            #![trigger s.tables.urls[i]]
            0 <= i < s.tables.urls.len() && s.tables.urls[i].url_hash == hash;
        lemma_url_id(s, i);
        assert forall|j: int| #![trigger urls[j]] 0 <= j < urls.len() && urls[j].url_hash
            == hash implies j == i by {
            if i < j {
                assert(urls[i].url_hash != urls[j].url_hash);
            } else if j < i {
                assert(urls[j].url_hash != urls[i].url_hash);
            }
        }
    } else {
        lemma_with_url_wf(s, url, first);
        let i = s.tables.urls.len() as int;
        assert(urls[i].url_hash == hash && urls[i].id == s.next_url_id);
        lemma_url_id(once, i);
        assert forall|j: int| #![trigger urls[j]] 0 <= j < urls.len() && urls[j].url_hash
            == hash implies j == i by {
            if j < i {
                assert(urls[j].url_hash != urls[i].url_hash);
            }
        }
    }
}

/// Associating a label with an item leaves the item with the tag of that
/// label, takes no tag from any item, and stores at most one tag more.
pub proof fn lemma_with_label_links(s: State, kind: ItemKind, item_id: int, label: Seq<char>)
    requires
        s.wf(),
        s.tables.known_items(kind).contains(item_id),
        label.len() > 0,
        s.can_resolve_tag(label),
    ensures
        ({
            let t = s.with_label(kind, item_id, label);
            &&& t.wf()
            &&& t.tables.has_tag(label)
            &&& t.tables.tags == s.with_tag(label).tables.tags
            &&& linked(t.tables.links(kind), item_id, t.tables.tag_id(label))
            &&& forall|other: ItemKind, x: int, y: int|
                linked(s.tables.links(other), x, y) ==> linked(t.tables.links(other), x, y)
            &&& forall|other: ItemKind|
                #![trigger t.tables.known_items(other)]
                t.tables.known_items(other) == s.tables.known_items(other)
        }),
{
    lemma_with_tag_wf(s, label);
    let stored = s.with_tag(label);
    let id = stored.tables.tag_id(label);
    lemma_with_link_wf(stored, kind, item_id, id);
    let t = stored.with_link(kind, item_id, id);
    assert forall|other: ItemKind, x: int, y: int| linked(s.tables.links(other), x, y) implies linked(
        t.tables.links(other),
        x,
        y,
    ) by {
        let links = s.tables.links(other);
        let k = choose|k: int|
            #![trigger links[k]]
            0 <= k < links.len() && links[k].item_id == x && links[k].tag_id == y;
        assert(t.tables.links(other)[k] == links[k]);
    }
}

/// Associating labels takes nothing away: every association that was
/// there is there afterwards, every tag that was stored is stored under the
/// id it had, and the state stays well formed.
pub proof fn lemma_associate_keeps(s: State, kind: ItemKind, item_id: int, labels: Seq<Seq<char>>)
    requires
        s.wf(),
        s.tables.known_items(kind).contains(item_id),
    ensures
        ({
            let t = s.associate(kind, item_id, labels);
            &&& t.wf()
            &&& t.tables.known_items(kind).contains(item_id)
            &&& forall|other: ItemKind, x: int, y: int|
                linked(s.tables.links(other), x, y) ==> linked(t.tables.links(other), x, y)
            &&& forall|label: Seq<char>|
                #![trigger s.tables.has_tag(label)]
                s.tables.has_tag(label) ==> t.tables.has_tag(label) && t.tables.tag_id(label)
                    == s.tables.tag_id(label)
        }),
    decreases labels.len(),
{
    if labels.len() == 0 {
    } else if labels[0].len() == 0 {
        lemma_associate_keeps(s, kind, item_id, labels.drop_first());
    } else if s.can_resolve_tag(labels[0]) {
        let next = s.with_label(kind, item_id, labels[0]);
        lemma_with_label_links(s, kind, item_id, labels[0]);
        lemma_with_tag_wf(s, labels[0]);
        assert forall|label: Seq<char>|
            #![trigger s.tables.has_tag(label)]
            s.tables.has_tag(label) implies next.tables.has_tag(label) && next.tables.tag_id(label)
            == s.tables.tag_id(label) by {
            let i = choose|i: int|
                #![trigger s.tables.tags[i]]
                0 <= i < s.tables.tags.len() && s.tables.tags[i].tag == label;
            lemma_tag_id(s, i);
            assert(next.tables.tags[i] == s.tables.tags[i]);
            lemma_tag_id(next, i);
        }
        lemma_associate_keeps(next, kind, item_id, labels.drop_first());
    }
}

/// A tag is shared: when a label is associated with two different items,
/// there is exactly one tag with this label afterwards, at most one tag was
/// stored for it, and each of the two items has an association of its own
/// with that tag.
pub proof fn law_tag_is_shared(
    s: State,
    kind_a: ItemKind,
    a: int,
    kind_b: ItemKind,
    b: int,
    label: Seq<char>,
)
    requires
        s.wf(),
        s.tables.known_items(kind_a).contains(a),
        s.tables.known_items(kind_b).contains(b),
        kind_a != kind_b || a != b,
        label.len() > 0,
        s.can_resolve_tag(label),
    ensures
        ({
            let t = s.associate(kind_a, a, seq![label]).associate(kind_b, b, seq![label]);
            let id = t.tables.tag_id(label);
            let tags = t.tables.tags;
            let links_a = t.tables.links(kind_a);
            let links_b = t.tables.links(kind_b);
            &&& t.wf()
            &&& tags.len() == s.tables.tags.len() + if s.tables.has_tag(label) {
                0int
            } else {
                1int
            }
            &&& exists|i: int|
                #![trigger tags[i]]
                0 <= i < tags.len() && tags[i] == (TagRow { id: id, tag: label }) && forall|j: int|
                    #![trigger tags[j]]
                    0 <= j < tags.len() && tags[j].tag == label ==> j == i
            &&& exists|k: int, l: int|
                #![trigger links_a[k], links_b[l]]
                0 <= k < links_a.len() && 0 <= l < links_b.len() && links_a[k] == (LinkRow {
                    item_id: a,
                    tag_id: id,
                }) && links_b[l] == (LinkRow { item_id: b, tag_id: id }) && (kind_a == kind_b ==> k
                    != l)
        }),
{
    reveal_with_fuel(State::associate, 3);
    let one = seq![label];
    assert(one.len() == 1 && one[0] == label);
    assert(one.drop_first() =~= Seq::<Seq<char>>::empty());
    let t1 = s.with_label(kind_a, a, label);
    assert(s.associate(kind_a, a, one) == t1);
    lemma_with_label_links(s, kind_a, a, label);
    lemma_with_tag_wf(s, label);
    assert(t1.tables.known_items(kind_b) == s.tables.known_items(kind_b));
    let t = t1.with_label(kind_b, b, label);
    assert(t1.associate(kind_b, b, one) == t);
    lemma_with_label_links(t1, kind_b, b, label);
    lemma_with_tag_wf(t1, label);
    let id = t.tables.tag_id(label);
    let tags = t.tables.tags;
    assert(tags == s.with_tag(label).tables.tags);
    let i = choose|i: int| #![trigger tags[i]] 0 <= i < tags.len() && tags[i].tag == label;
    lemma_tag_id(t, i);
    assert forall|j: int| #![trigger tags[j]] 0 <= j < tags.len() && tags[j].tag
        == label implies j == i by {
        if i < j {
            assert(tags[i].tag != tags[j].tag);
        } else if j < i {
            assert(tags[j].tag != tags[i].tag);
        }
    }
    assert(t1.tables.tag_id(label) == id) by {
        let i1 = choose|i1: int|
            #![trigger t1.tables.tags[i1]]
            0 <= i1 < t1.tables.tags.len() && t1.tables.tags[i1].tag == label;
        lemma_tag_id(t1, i1);
        assert(t1.tables.tags == tags);
    }
    let links_a = t.tables.links(kind_a);
    let links_b = t.tables.links(kind_b);
    assert(linked(links_a, a, id));
    assert(linked(links_b, b, id));
    let k = choose|k: int|
        #![trigger links_a[k]]
        0 <= k < links_a.len() && links_a[k].item_id == a && links_a[k].tag_id == id;
    let l = choose|l: int|
        #![trigger links_b[l]]
        0 <= l < links_b.len() && links_b[l].item_id == b && links_b[l].tag_id == id;
    assert(links_a[k] == (LinkRow { item_id: a, tag_id: id }));
    assert(links_b[l] == (LinkRow { item_id: b, tag_id: id }));
}

/// Associating a label again changes nothing: an item carries a tag once
/// however often the label is associated with it.
pub proof fn law_associate_again(s: State, kind: ItemKind, item_id: int, label: Seq<char>)
    requires
        s.wf(),
        s.tables.known_items(kind).contains(item_id),
        label.len() > 0,
        s.can_resolve_tag(label),
    ensures
        s.with_label(kind, item_id, label).with_label(kind, item_id, label) == s.with_label(
            kind,
            item_id,
            label,
        ),
{
    lemma_with_label_links(s, kind, item_id, label);
    let t = s.with_label(kind, item_id, label);
    lemma_with_tag_wf(t, label);
}

/// Associating labels associates each of them: when every label can be
/// had, the item afterwards carries the tag of every label of the list that
/// is not empty.
pub proof fn law_associate_links_every_label(
    s: State,
    kind: ItemKind,
    item_id: int,
    labels: Seq<Seq<char>>,
    k: int,
)
    requires
        s.wf(),
        s.tables.known_items(kind).contains(item_id),
        s.can_associate(kind, item_id, labels),
        0 <= k < labels.len(),
        labels[k].len() > 0,
    ensures
        s.associate(kind, item_id, labels).tables.has_tag(labels[k]),
        linked(
            s.associate(kind, item_id, labels).tables.links(kind),
            item_id,
            s.associate(kind, item_id, labels).tables.tag_id(labels[k]),
        ),
    decreases labels.len(),
{
    let rest = labels.drop_first();
    if labels[0].len() == 0 {
        assert(rest[k - 1] == labels[k]);
        law_associate_links_every_label(s, kind, item_id, rest, k - 1);
    } else {
        let next = s.with_label(kind, item_id, labels[0]);
        lemma_with_label_links(s, kind, item_id, labels[0]);
        if k == 0 {
            lemma_associate_keeps(next, kind, item_id, rest);
        } else {
            assert(rest[k - 1] == labels[k]);
            law_associate_links_every_label(next, kind, item_id, rest, k - 1);
        }
    }
}

/// Empty labels count for nothing: associating a list of labels is
/// associating the labels of the list that are not empty.
pub proof fn law_empty_labels_are_ignored(
    s: State,
    kind: ItemKind,
    item_id: int,
    labels: Seq<Seq<char>>,
)
    ensures
        s.associate(kind, item_id, labels) == s.associate(kind, item_id, nonempty(labels)),
        s.can_associate(kind, item_id, labels) == s.can_associate(
            kind,
            item_id,
            nonempty(labels),
        ),
    decreases labels.len(),
{
    let filled = |label: Seq<char>| label.len() > 0;
    if labels.len() == 0 {
        labels.lemma_filter_len(filled);
        assert(nonempty(labels) =~= labels);
    } else {
        let rest = labels.drop_first();
        rest.lemma_filter_prepend(labels[0], filled);
        assert(seq![labels[0]] + rest =~= labels);
        if labels[0].len() == 0 {
            assert(nonempty(labels) == nonempty(rest));
            law_empty_labels_are_ignored(s, kind, item_id, rest);
        } else {
            let kept = nonempty(labels);
            assert(kept == seq![labels[0]] + nonempty(rest));
            assert(kept[0] == labels[0]);
            assert(kept.drop_first() =~= nonempty(rest));
            if s.can_resolve_tag(labels[0]) {
                law_empty_labels_are_ignored(
                    s.with_label(kind, item_id, labels[0]),
                    kind,
                    item_id,
                    rest,
                );
            }
        }
    }
}

/// The associations without those of one item: that item has none left,
/// and any other item has the ones it had.
pub proof fn lemma_links_without_item(links: Seq<LinkRow>, id: int, other: int, tag_id: int)
    ensures
        !has_tags(links.filter(|l: LinkRow| l.item_id != id), id),
        linked(links.filter(|l: LinkRow| l.item_id != id), other, tag_id) <==> other != id
            && linked(links, other, tag_id),
{
    let keep = |l: LinkRow| l.item_id != id;
    let left = links.filter(keep);
    lemma_filter_members(links, keep);
    if has_tags(left, id) {
        let k = choose|k: int| #![trigger left[k]] 0 <= k < left.len() && left[k].item_id == id;
        assert(keep(left[k]));
    }
    if linked(left, other, tag_id) {
        let k = choose|k: int|
            #![trigger left[k]]
            0 <= k < left.len() && left[k].item_id == other && left[k].tag_id == tag_id;
        assert(keep(left[k]));
        let at = choose|at: int| #![trigger links[at]] 0 <= at < links.len() && links[at] == left[k];
        assert(links[at].item_id == other && links[at].tag_id == tag_id);
    }
    if other != id && linked(links, other, tag_id) {
        let at = choose|at: int|
            #![trigger links[at]]
            0 <= at < links.len() && links[at].item_id == other && links[at].tag_id == tag_id;
        assert(keep(links[at]));
        let k = choose|k: int| #![trigger left[k]] 0 <= k < left.len() && left[k] == links[at];
        assert(left[k].item_id == other && left[k].tag_id == tag_id);
    }
}

/// Deleting a bookmark takes its associations and no others: afterwards
/// the bookmark carries no tag, every other bookmark carries the tags it
/// carried, and the snippets and the tags are as they were.
pub proof fn law_delete_url_unlinks(s: State, id: int, other: int, tag_id: int)
    ensures
        !has_tags(s.without_url(id).tables.url_tags, id),
        linked(s.without_url(id).tables.url_tags, other, tag_id) <==> other != id && linked(
            s.tables.url_tags,
            other,
            tag_id,
        ),
        s.without_url(id).tables.snippets == s.tables.snippets,
        s.without_url(id).tables.snippet_tags == s.tables.snippet_tags,
        s.without_url(id).tables.tags == s.tables.tags,
{
    let keep = |l: LinkRow| l.item_id != id;
    lemma_links_without_item(s.tables.url_tags, id, other, tag_id);
}

/// Deleting a snippet takes its associations and no others: afterwards the
/// snippet carries no tag, every other snippet carries the tags it carried,
/// and the bookmarks and the tags are as they were.
pub proof fn law_delete_snippet_unlinks(s: State, id: int, other: int, tag_id: int)
    ensures
        !has_tags(s.without_snippet(id).tables.snippet_tags, id),
        linked(s.without_snippet(id).tables.snippet_tags, other, tag_id) <==> other != id
            && linked(s.tables.snippet_tags, other, tag_id),
        s.without_snippet(id).tables.urls == s.tables.urls,
        s.without_snippet(id).tables.url_tags == s.tables.url_tags,
        s.without_snippet(id).tables.tags == s.tables.tags,
{
    lemma_links_without_item(s.tables.snippet_tags, id, other, tag_id);
}

/// Deleting a bookmark that is not stored changes nothing.
pub proof fn lemma_delete_url_missing(s: State, id: int)
    requires
        s.wf(),
        !s.tables.known_urls().contains(id),
    ensures
        s.without_url(id) == s,
{
    let urls = s.tables.urls;
    let links = s.tables.url_tags;
    assert forall|i: int| #![trigger urls[i]] 0 <= i < urls.len() implies urls[i].id != id by {
        if urls[i].id == id {
            assert(url_stored(urls, id));
        }
    }
    assert forall|k: int| #![trigger links[k]] 0 <= k < links.len() implies links[k].item_id
        != id by {
        assert(s.tables.known_urls().contains(links[k].item_id));
    }
    lemma_filter_keeps_all(urls, |u: UrlRow| u.id != id);
    lemma_filter_keeps_all(links, |l: LinkRow| l.item_id != id);
}

/// Deleting a snippet that is not stored changes nothing.
pub proof fn lemma_delete_snippet_missing(s: State, id: int)
    requires
        s.wf(),
        !s.tables.known_snippets().contains(id),
    ensures
        s.without_snippet(id) == s,
{
    let rows = s.tables.snippets;
    let links = s.tables.snippet_tags;
    assert forall|i: int| #![trigger rows[i]] 0 <= i < rows.len() implies rows[i].id != id by {
        if rows[i].id == id {
            assert(snippet_stored(rows, id));
        }
    }
    assert forall|k: int| #![trigger links[k]] 0 <= k < links.len() implies links[k].item_id
        != id by {
        assert(s.tables.known_snippets().contains(links[k].item_id));
    }
    lemma_filter_keeps_all(rows, |r: SnippetRow| r.id != id);
    lemma_filter_keeps_all(links, |l: LinkRow| l.item_id != id);
}

/// Deleting what is not stored changes nothing: a deletion by an id that no
/// bookmark has, or no snippet, leaves a well-formed state as it is, and
/// so does a second deletion by the same id.
pub proof fn law_delete_missing(s: State, id: int)
    requires
        s.wf(),
    ensures
        !s.tables.known_urls().contains(id) ==> s.without_url(id) == s,
        !s.tables.known_snippets().contains(id) ==> s.without_snippet(id) == s,
        s.without_url(id).without_url(id) == s.without_url(id),
        s.without_snippet(id).without_snippet(id) == s.without_snippet(id),
{
    if !s.tables.known_urls().contains(id) {
        lemma_delete_url_missing(s, id);
    }
    if !s.tables.known_snippets().contains(id) {
        lemma_delete_snippet_missing(s, id);
    }
    lemma_without_url_wf(s, id);
    lemma_delete_url_missing(s.without_url(id), id);
    lemma_without_snippet_wf(s, id);
    lemma_delete_snippet_missing(s.without_snippet(id), id);
}

/// The sweep is exact: of the tags that are stored, those that some item of
/// either kind carries stay as they are, and the others are gone. Nothing
/// else changes.
pub proof fn law_sweep_is_exact(s: State, i: int)
    requires
        s.wf(),
        0 <= i < s.tables.tags.len(),
    ensures
        s.without_unused_tags().tables.tags.contains(s.tables.tags[i]) <==> s.tables.tag_in_use(
            s.tables.tags[i].id,
        ),
        s.without_unused_tags().tables.known_tags().contains(s.tables.tags[i].id)
            <==> s.tables.tag_in_use(s.tables.tags[i].id),
        s.without_unused_tags().tables.urls == s.tables.urls,
        s.without_unused_tags().tables.snippets == s.tables.snippets,
        s.without_unused_tags().tables.url_tags == s.tables.url_tags,
        s.without_unused_tags().tables.snippet_tags == s.tables.snippet_tags,
{
    let tags = s.tables.tags;
    let in_use = |t: TagRow| tag_used(s.tables.url_tags, s.tables.snippet_tags, t.id);
    let left = tags.filter(in_use);
    lemma_filter_members(tags, in_use);
    if s.tables.tag_in_use(tags[i].id) {
        assert(in_use(tags[i]));
        let k = choose|k: int| #![trigger left[k]] 0 <= k < left.len() && left[k] == tags[i];
        assert(left.contains(tags[i]));
        assert(tag_stored(left, tags[i].id));
    }
    if left.contains(tags[i]) {
        let k = choose|k: int| 0 <= k < left.len() && left[k] == tags[i];
        assert(in_use(left[k]));
    }
    if tag_stored(left, tags[i].id) {
        let k = choose|k: int| #![trigger left[k]] 0 <= k < left.len() && left[k].id == tags[i].id;
        assert(in_use(left[k]));
    }
}

/// The sweep can be repeated: a second sweep changes nothing.
pub proof fn law_sweep_twice(s: State)
    ensures
        s.without_unused_tags().without_unused_tags() == s.without_unused_tags(),
{
    let in_use = |t: TagRow| tag_used(s.tables.url_tags, s.tables.snippet_tags, t.id);
    let left = s.tables.tags.filter(in_use);
    lemma_filter_members(s.tables.tags, in_use);
    lemma_filter_keeps_all(left, in_use);
}

/// Whether some item other than `id` carries the tag `tag_id` in `links`.
pub open spec fn carried_by_another(links: Seq<LinkRow>, id: int, tag_id: int) -> bool {
    exists|k: int|
        #![trigger links[k]]
        0 <= k < links.len() && links[k].item_id != id && links[k].tag_id == tag_id
}

/// The associations without those of one item name a tag if and only if
/// another item carried it.
pub proof fn lemma_items_without_item(links: Seq<LinkRow>, id: int, tag_id: int)
    ensures
        has_items(links.filter(|l: LinkRow| l.item_id != id), tag_id) <==> carried_by_another(
            links,
            id,
            tag_id,
        ),
{
    let keep = |l: LinkRow| l.item_id != id;
    let left = links.filter(keep);
    lemma_filter_members(links, keep);
    if has_items(left, tag_id) {
        let k = choose|k: int| #![trigger left[k]] 0 <= k < left.len() && left[k].tag_id == tag_id;
        assert(keep(left[k]));
        let at = choose|at: int| #![trigger links[at]] 0 <= at < links.len() && links[at] == left[k];
        assert(links[at].item_id != id && links[at].tag_id == tag_id);
    }
    if carried_by_another(links, id, tag_id) {
        let at = choose|at: int|
            #![trigger links[at]]
            0 <= at < links.len() && links[at].item_id != id && links[at].tag_id == tag_id;
        assert(keep(links[at]));
        let k = choose|k: int| #![trigger left[k]] 0 <= k < left.len() && left[k] == links[at];
        assert(left[k].tag_id == tag_id);
    }
}

/// The sweep after the deletion of a bookmark: a tag is gone if the
/// bookmark was the last item that carried it, and stays as it is if
/// another bookmark or any snippet carries it.
pub proof fn law_sweep_after_delete_url(s: State, id: int, i: int)
    requires
        s.wf(),
        0 <= i < s.tables.tags.len(),
    ensures
        s.without_url(id).without_unused_tags().tables.tags.contains(s.tables.tags[i])
            <==> carried_by_another(s.tables.url_tags, id, s.tables.tags[i].id) || has_items(
            s.tables.snippet_tags,
            s.tables.tags[i].id,
        ),
{
    lemma_without_url_wf(s, id);
    law_sweep_is_exact(s.without_url(id), i);
    lemma_items_without_item(s.tables.url_tags, id, s.tables.tags[i].id);
}

/// The sweep after the deletion of a snippet: a tag is gone if the snippet
/// was the last item that carried it, and stays as it is if another snippet
/// or any bookmark carries it.
pub proof fn law_sweep_after_delete_snippet(s: State, id: int, i: int)
    requires
        s.wf(),
        0 <= i < s.tables.tags.len(),
    ensures
        s.without_snippet(id).without_unused_tags().tables.tags.contains(s.tables.tags[i])
            <==> has_items(s.tables.url_tags, s.tables.tags[i].id) || carried_by_another(
            s.tables.snippet_tags,
            id,
            s.tables.tags[i].id,
        ),
{
    lemma_without_snippet_wf(s, id);
    law_sweep_is_exact(s.without_snippet(id), i);
    lemma_items_without_item(s.tables.snippet_tags, id, s.tables.tags[i].id);
}

/// No label is dropped and none is invented: the grouped view has one
/// group for each stored tag behind the group of the untagged items, the
/// label of each of these groups is the label of a stored tag and is not
/// empty, and each stored tag has its group among them.
pub proof fn law_every_tag_has_a_group(s: State)
    requires
        s.wf(),
    ensures
        s.tables.tags_with_urls_and_snippets().len() == s.tables.tags.len() + 1,
        s.tables.tags_with_urls_and_snippets()[0] == s.tables.untagged_group(),
        s.tables.tags_with_urls_and_snippets()[0].tag.len() == 0,
        forall|g: int|
            #![trigger s.tables.tags_with_urls_and_snippets()[g]]
            1 <= g < s.tables.tags_with_urls_and_snippets().len()
                ==> s.tables.tags_with_urls_and_snippets()[g].tag.len() > 0 && s.tables.has_tag(
                s.tables.tags_with_urls_and_snippets()[g].tag,
            ),
        forall|i: int|
            #![trigger s.tables.tags[i]]
            0 <= i < s.tables.tags.len() ==> s.tables.tags_with_urls_and_snippets().drop_first().contains(
                s.tables.tag_group(s.tables.tags[i]),
            ),
{
    let r = s.tables;
    let view = r.tags_with_urls_and_snippets();
    let groups = r.tag_groups();
    let tags = r.tags;
    let order = label_order(r.tag_labels());
    lemma_label_order_permutes(r.tag_labels());
    assert(groups.len() == tags.len());
    assert(view.drop_first() =~= groups);
    assert forall|g: int| #![trigger view[g]] 1 <= g < view.len() implies view[g].tag.len() > 0
        && r.has_tag(view[g].tag) by {
        assert(view[g] == groups[g - 1]);
        let i = order[g - 1];
        assert(groups[g - 1] == r.tag_group(tags[i]));
        assert(tags[i].tag.len() > 0);
        assert(r.has_tag(tags[i].tag));
    }
    assert forall|i: int| #![trigger tags[i]] 0 <= i < tags.len() implies groups.contains(
        r.tag_group(tags[i]),
    ) by {
        assert(r.tag_labels()[i] == tags[i].tag);
        assert(order.contains(i));
        let k = choose|k: int| 0 <= k < order.len() && order[k] == i;
        assert(groups[k] == r.tag_group(tags[order[k]]));
    }
}

/// A tagged bookmark is listed under each of its tags: where a bookmark
/// carries a tag, the group of that tag is in the grouped view and holds
/// the URL of the bookmark.
pub proof fn law_tagged_bookmarks_are_grouped(s: State, i: int, j: int)
    requires
        s.wf(),
        0 <= i < s.tables.urls.len(),
        0 <= j < s.tables.tags.len(),
        linked(s.tables.url_tags, s.tables.urls[i].id, s.tables.tags[j].id),
    ensures
        ({
            let view = s.tables.tags_with_urls_and_snippets();
            exists|g: int|
                #![trigger view[g]]
                1 <= g < view.len() && view[g].tag == s.tables.tags[j].tag && view[g].urls.contains(
                    s.tables.urls[i].url,
                )
        }),
{
    let r = s.tables;
    let view = r.tags_with_urls_and_snippets();
    law_every_tag_has_a_group(s);
    let groups = view.drop_first();
    assert(groups.contains(r.tag_group(r.tags[j])));
    let k = choose|k: int| 0 <= k < groups.len() && groups[k] == r.tag_group(r.tags[j]);
    assert(view[k + 1] == groups[k]);
    lemma_selected_images(
        r.urls,
        |u: UrlRow| linked(r.url_tags, u.id, r.tags[j].id),
        |u: UrlRow| u.url,
        r.urls[i].url,
    );
}

/// The group of the untagged items is complete and exact for bookmarks: a
/// bookmark that carries no tag has its URL in the first group of the
/// grouped view and in no other group, and the URL of a bookmark that
/// carries a tag is not in the first group.
pub proof fn law_untagged_bookmarks(s: State, i: int)
    requires
        s.wf(),
        0 <= i < s.tables.urls.len(),
    ensures
        ({
            let view = s.tables.tags_with_urls_and_snippets();
            let row = s.tables.urls[i];
            &&& view.len() == s.tables.tags.len() + 1
            &&& view[0].tag.len() == 0
            &&& !has_tags(s.tables.url_tags, row.id) ==> view[0].urls.contains(row.url) && forall|
                g: int,
            |
                #![trigger view[g]]
                1 <= g < view.len() ==> !view[g].urls.contains(row.url)
            &&& has_tags(s.tables.url_tags, row.id) ==> !view[0].urls.contains(row.url)
        }),
{
    let r = s.tables;
    let view = r.tags_with_urls_and_snippets();
    let row = r.urls[i];
    let links = r.url_tags;
    lemma_label_order_permutes(r.tag_labels());
    lemma_selected_images(r.urls, |u: UrlRow| !has_tags(links, u.id), |u: UrlRow| u.url, row.url);
    if view[0].urls.contains(row.url) {
        let at = choose|at: int|
            #![trigger r.urls[at]]
            0 <= at < r.urls.len() && !has_tags(links, r.urls[at].id) && r.urls[at].url == row.url;
        lemma_urls_differ(s, i, at);
    }
    if !has_tags(links, row.id) {
        assert forall|g: int| #![trigger view[g]] 1 <= g < view.len() implies !view[g].urls.contains(
            row.url,
        ) by {
            let tag = r.tags[label_order(r.tag_labels())[g - 1]];
            assert(view[g] == r.tag_groups()[g - 1]);
            assert(view[g] == r.tag_group(tag));
            lemma_selected_images(
                r.urls,
                |u: UrlRow| linked(links, u.id, tag.id),
                |u: UrlRow| u.url,
                row.url,
            );
            if view[g].urls.contains(row.url) {
                let at = choose|at: int|
                    #![trigger r.urls[at]]
                    0 <= at < r.urls.len() && linked(links, r.urls[at].id, tag.id)
                        && r.urls[at].url == row.url;
                lemma_urls_differ(s, i, at);
                let k = choose|k: int|
                    #![trigger links[k]]
                    0 <= k < links.len() && links[k].item_id == row.id && links[k].tag_id
                        == tag.id;
                assert(has_tags(links, row.id));
            }
        }
    }
}

/// The group of the untagged items is complete and exact for snippets: a
/// snippet that carries no tag has its record in the first group of the
/// grouped view and in no other group, and the record of a snippet that
/// carries a tag is not in the first group.
pub proof fn law_untagged_snippets(s: State, i: int)
    requires
        s.wf(),
        0 <= i < s.tables.snippets.len(),
    ensures
        ({
            let view = s.tables.tags_with_urls_and_snippets();
            let row = s.tables.snippets[i];
            let record = snippet_record(s.tables.tags, s.tables.snippet_tags, row);
            &&& !has_tags(s.tables.snippet_tags, row.id) ==> view[0].snippets.contains(record)
                && forall|g: int|
                #![trigger view[g]]
                1 <= g < view.len() ==> !view[g].snippets.contains(record)
            &&& has_tags(s.tables.snippet_tags, row.id) ==> !view[0].snippets.contains(record)
        }),
{
    let r = s.tables;
    let view = r.tags_with_urls_and_snippets();
    let row = r.snippets[i];
    let links = r.snippet_tags;
    let record = snippet_record(r.tags, links, row);
    let image = |x: SnippetRow| snippet_record(r.tags, links, x);
    lemma_label_order_permutes(r.tag_labels());
    lemma_selected_images(r.snippets, |x: SnippetRow| !has_tags(links, x.id), image, record);
    if view[0].snippets.contains(record) {
        let at = choose|at: int|
            #![trigger r.snippets[at]]
            0 <= at < r.snippets.len() && !has_tags(links, r.snippets[at].id) && image(
                r.snippets[at],
            ) == record;
        lemma_snippets_differ(s, i, at);
    }
    if !has_tags(links, row.id) {
        assert forall|g: int|
            #![trigger view[g]]
            1 <= g < view.len() implies !view[g].snippets.contains(record) by {
            let tag = r.tags[label_order(r.tag_labels())[g - 1]];
            assert(view[g] == r.tag_groups()[g - 1]);
            assert(view[g] == r.tag_group(tag));
            lemma_selected_images(
                r.snippets,
                |x: SnippetRow| linked(links, x.id, tag.id),
                image,
                record,
            );
            if view[g].snippets.contains(record) {
                let at = choose|at: int|
                    #![trigger r.snippets[at]]
                    0 <= at < r.snippets.len() && linked(links, r.snippets[at].id, tag.id)
                        && image(r.snippets[at]) == record;
                lemma_snippets_differ(s, i, at);
                let k = choose|k: int|
                    #![trigger links[k]]
                    0 <= k < links.len() && links[k].item_id == row.id && links[k].tag_id
                        == tag.id;
                assert(has_tags(links, row.id));
            }
        }
    }
}

/// A selection followed by a mapping lists nothing twice where the images
/// of every row and each later row of the table differ.
pub proof fn lemma_selected_images_differ<A, B>(
    rows: Seq<A>,
    selected: spec_fn(A) -> bool,
    image: spec_fn(A) -> B,
)
    requires
        forall|i: int, j: int|
            #![trigger rows[i], rows[j]]
            0 <= i < j < rows.len() ==> image(rows[i]) != image(rows[j]),
    ensures
        rows.filter(selected).map_values(image).no_duplicates(),
{
    let kept = rows.filter(selected);
    let images = kept.map_values(image);
    lemma_filter_pairwise(rows, selected, |a: A, b: A| image(a) != image(b));
    assert forall|i: int, j: int| 0 <= i < images.len() && 0 <= j < images.len() && i
        != j implies images[i] != images[j] by {
        if i < j {
            assert(image(kept[i]) != image(kept[j]));
        } else {
            assert(image(kept[j]) != image(kept[i]));
        }
    }
}

/// Every list of the views names an item once: in a well-formed state no
/// group of the grouped view holds a URL twice or two snippets with the
/// same record, and no bookmark and no snippet is listed with a label
/// twice.
pub proof fn law_nothing_is_listed_twice(s: State, g: int, i: int, j: int)
    requires
        s.wf(),
        0 <= g < s.tables.tags_with_urls_and_snippets().len(),
        0 <= i < s.tables.urls.len(),
        0 <= j < s.tables.snippets.len(),
    ensures
        s.tables.tags_with_urls_and_snippets()[g].urls.no_duplicates(),
        s.tables.tags_with_urls_and_snippets()[g].snippets.no_duplicates(),
        s.tables.url_entry(s.tables.urls[i]).tags.no_duplicates(),
        snippet_record(s.tables.tags, s.tables.snippet_tags, s.tables.snippets[j]).tags.no_duplicates(),
{
    let r = s.tables;
    let view = r.tags_with_urls_and_snippets();
    let record = |x: SnippetRow| snippet_record(r.tags, r.snippet_tags, x);
    assert forall|a: int, b: int|
        #![trigger r.urls[a], r.urls[b]]
        0 <= a < b < r.urls.len() implies r.urls[a].url != r.urls[b].url by {
        if r.urls[a].url == r.urls[b].url {
            lemma_urls_differ(s, a, b);
        }
    }
    assert forall|a: int, b: int|
        #![trigger r.snippets[a], r.snippets[b]]
        0 <= a < b < r.snippets.len() implies record(r.snippets[a]) != record(r.snippets[b]) by {
        assert(record(r.snippets[a]).id != record(r.snippets[b]).id);
    }
    if g == 0 {
        lemma_selected_images_differ(
            r.urls,
            |u: UrlRow| !has_tags(r.url_tags, u.id),
            |u: UrlRow| u.url,
        );
        lemma_selected_images_differ(
            r.snippets,
            |x: SnippetRow| !has_tags(r.snippet_tags, x.id),
            record,
        );
    } else {
        let tag = r.tags[label_order(r.tag_labels())[g - 1]];
        assert(view[g] == r.tag_groups()[g - 1]);
        assert(view[g] == r.tag_group(tag));
        lemma_selected_images_differ(
            r.urls,
            |u: UrlRow| linked(r.url_tags, u.id, tag.id),
            |u: UrlRow| u.url,
        );
        lemma_selected_images_differ(
            r.snippets,
            |x: SnippetRow| linked(r.snippet_tags, x.id, tag.id),
            record,
        );
    }
    lemma_selected_images_differ(
        r.tags,
        |t: TagRow| linked(r.url_tags, r.urls[i].id, t.id),
        |t: TagRow| t.tag,
    );
    lemma_selected_images_differ(
        r.tags,
        |t: TagRow| linked(r.snippet_tags, r.snippets[j].id, t.id),
        |t: TagRow| t.tag,
    );
}

/// The pairs of a URL and a label that a list of bookmarks with tags holds.
pub open spec fn pairs_by_url(entries: Seq<UrlWithTagsRow>) -> Set<(Seq<char>, Seq<char>)> {
    Set::new(
        |p: (Seq<char>, Seq<char>)|
            exists|i: int|
                #![trigger entries[i]]
                0 <= i < entries.len() && entries[i].url == p.0 && entries[i].tags.contains(p.1),
    )
}

/// The pairs of a URL and a label that a list of tag groups holds.
pub open spec fn pairs_by_tag(groups: Seq<TagGroup>) -> Set<(Seq<char>, Seq<char>)> {
    Set::new(
        |p: (Seq<char>, Seq<char>)|
            exists|g: int|
                #![trigger groups[g]]
                0 <= g < groups.len() && groups[g].tag == p.1 && groups[g].urls.contains(p.0),
    )
}

/// The pairs of a URL and a label that the tables associate: a bookmark
/// with this URL carries a tag with this label.
pub open spec fn pairs_associated(r: Relations) -> Set<(Seq<char>, Seq<char>)> {
    Set::new(
        |p: (Seq<char>, Seq<char>)|
            exists|i: int, j: int|
                #![trigger r.urls[i], r.tags[j]]
                0 <= i < r.urls.len() && 0 <= j < r.tags.len() && r.urls[i].url == p.0
                    && r.tags[j].tag == p.1 && linked(r.url_tags, r.urls[i].id, r.tags[j].id),
    )
}

/// The list of bookmarks with their tags holds the pairs that the tables
/// associate.
pub proof fn lemma_pairs_by_url(r: Relations)
    ensures
        pairs_by_url(r.urls_with_tags()) == pairs_associated(r),
{
    let entries = r.urls_with_tags();
    let order = descending_order(r.url_times());
    lemma_descending_order_permutes(r.url_times());
    assert forall|p: (Seq<char>, Seq<char>)| pairs_by_url(entries).contains(p)
        == pairs_associated(r).contains(p) by {
        if pairs_by_url(entries).contains(p) {
            let k = choose|k: int|
                #![trigger entries[k]]
                0 <= k < entries.len() && entries[k].url == p.0 && entries[k].tags.contains(p.1);
            let i = order[k];
            assert(entries[k] == r.url_entry(r.urls[i]));
            lemma_selected_images(
                r.tags,
                |t: TagRow| linked(r.url_tags, r.urls[i].id, t.id),
                |t: TagRow| t.tag,
                p.1,
            );
            let j = choose|j: int|
                #![trigger r.tags[j]]
                0 <= j < r.tags.len() && linked(r.url_tags, r.urls[i].id, r.tags[j].id)
                    && r.tags[j].tag == p.1;
            assert(r.urls[i].url == p.0 && r.tags[j].tag == p.1);
            assert(pairs_associated(r).contains(p));
        }
        if pairs_associated(r).contains(p) {
            let (i, j) = choose|i: int, j: int|
                #![trigger r.urls[i], r.tags[j]]
                0 <= i < r.urls.len() && 0 <= j < r.tags.len() && r.urls[i].url == p.0
                    && r.tags[j].tag == p.1 && linked(r.url_tags, r.urls[i].id, r.tags[j].id);
            assert(r.url_times()[i] == r.urls[i].datetime);
            assert(order.contains(i));
            let k = choose|k: int| 0 <= k < order.len() && order[k] == i;
            assert(entries[k] == r.url_entry(r.urls[i]));
            lemma_selected_images(
                r.tags,
                |t: TagRow| linked(r.url_tags, r.urls[i].id, t.id),
                |t: TagRow| t.tag,
                p.1,
            );
            assert(entries[k].tags.contains(p.1));
            assert(pairs_by_url(entries).contains(p));
        }
    }
    assert(pairs_by_url(entries) =~= pairs_associated(r));
}

/// The list of tag groups holds the pairs that the tables associate.
pub proof fn lemma_pairs_by_tag(r: Relations)
    ensures
        pairs_by_tag(r.tag_groups()) == pairs_associated(r),
{
    let groups = r.tag_groups();
    let order = label_order(r.tag_labels());
    lemma_label_order_permutes(r.tag_labels());
    assert forall|p: (Seq<char>, Seq<char>)| pairs_by_tag(groups).contains(p)
        == pairs_associated(r).contains(p) by {
        if pairs_by_tag(groups).contains(p) {
            let g = choose|g: int|
                #![trigger groups[g]]
                0 <= g < groups.len() && groups[g].tag == p.1 && groups[g].urls.contains(p.0);
            let j = order[g];
            assert(groups[g] == r.tag_group(r.tags[j]));
            lemma_selected_images(
                r.urls,
                |u: UrlRow| linked(r.url_tags, u.id, r.tags[j].id),
                |u: UrlRow| u.url,
                p.0,
            );
            let i = choose|i: int|
                #![trigger r.urls[i]]
                0 <= i < r.urls.len() && linked(r.url_tags, r.urls[i].id, r.tags[j].id)
                    && r.urls[i].url == p.0;
            assert(r.urls[i].url == p.0 && r.tags[j].tag == p.1);
            assert(pairs_associated(r).contains(p));
        }
        if pairs_associated(r).contains(p) {
            let (i, j) = choose|i: int, j: int|
                #![trigger r.urls[i], r.tags[j]]
                0 <= i < r.urls.len() && 0 <= j < r.tags.len() && r.urls[i].url == p.0
                    && r.tags[j].tag == p.1 && linked(r.url_tags, r.urls[i].id, r.tags[j].id);
            assert(r.tag_labels()[j] == r.tags[j].tag);
            assert(order.contains(j));
            let g = choose|g: int| 0 <= g < order.len() && order[g] == j;
            assert(groups[g] == r.tag_group(r.tags[j]));
            lemma_selected_images(
                r.urls,
                |u: UrlRow| linked(r.url_tags, u.id, r.tags[j].id),
                |u: UrlRow| u.url,
                p.0,
            );
            assert(groups[g].urls.contains(p.0));
            assert(pairs_by_tag(groups).contains(p));
        }
    }
    assert(pairs_by_tag(groups) =~= pairs_associated(r));
}

/// The two views agree: the pairs of a URL and a label that can be read
/// off the list of bookmarks with their tags are the pairs that can be read
/// off the groups of the tags, which are the grouped view without its first
/// group, the one of the untagged items. This holds of any tables.
pub proof fn law_views_agree(r: Relations)
    ensures
        pairs_by_url(r.urls_with_tags()) == pairs_by_tag(
            r.tags_with_urls_and_snippets().drop_first(),
        ),
{
    lemma_pairs_by_url(r);
    lemma_pairs_by_tag(r);
    assert(r.tags_with_urls_and_snippets().drop_first() =~= r.tag_groups());
}

/// The pairs of a snippet id and a label that a list of snippets with tags
/// holds.
pub open spec fn snippet_pairs_by_record(records: Seq<SnippetWithTagsRow>) -> Set<
    (int, Seq<char>),
> {
    Set::new(
        |p: (int, Seq<char>)|
            exists|i: int|
                #![trigger records[i]]
                0 <= i < records.len() && records[i].id == p.0 && records[i].tags.contains(p.1),
    )
}

/// The pairs of a snippet id and a label that a list of tag groups holds.
pub open spec fn snippet_pairs_by_tag(groups: Seq<TagGroup>) -> Set<(int, Seq<char>)> {
    Set::new(
        |p: (int, Seq<char>)|
            exists|g: int, k: int|
                #![trigger groups[g].snippets[k]]
                0 <= g < groups.len() && 0 <= k < groups[g].snippets.len() && groups[g].tag == p.1
                    && groups[g].snippets[k].id == p.0,
    )
}

/// The pairs of a snippet id and a label that the tables associate: a
/// snippet with this id carries a tag with this label.
pub open spec fn snippet_pairs_associated(r: Relations) -> Set<(int, Seq<char>)> {
    Set::new(
        |p: (int, Seq<char>)|
            exists|i: int, j: int|
                #![trigger r.snippets[i], r.tags[j]]
                0 <= i < r.snippets.len() && 0 <= j < r.tags.len() && r.snippets[i].id == p.0
                    && r.tags[j].tag == p.1 && linked(
                    r.snippet_tags,
                    r.snippets[i].id,
                    r.tags[j].id,
                ),
    )
}

/// The list of snippets with their tags holds the pairs that the tables
/// associate.
pub proof fn lemma_snippet_pairs_by_record(r: Relations)
    ensures
        snippet_pairs_by_record(r.snippets_with_tags()) == snippet_pairs_associated(r),
{
    let records = r.snippets_with_tags();
    let order = descending_order(r.snippet_ids());
    lemma_descending_order_permutes(r.snippet_ids());
    assert forall|p: (int, Seq<char>)| snippet_pairs_by_record(records).contains(p)
        == snippet_pairs_associated(r).contains(p) by {
        if snippet_pairs_by_record(records).contains(p) {
            let k = choose|k: int|
                #![trigger records[k]]
                0 <= k < records.len() && records[k].id == p.0 && records[k].tags.contains(p.1);
            let i = order[k];
            assert(records[k] == snippet_record(r.tags, r.snippet_tags, r.snippets[i]));
            lemma_selected_images(
                r.tags,
                |t: TagRow| linked(r.snippet_tags, r.snippets[i].id, t.id),
                |t: TagRow| t.tag,
                p.1,
            );
            let j = choose|j: int|
                #![trigger r.tags[j]]
                0 <= j < r.tags.len() && linked(r.snippet_tags, r.snippets[i].id, r.tags[j].id)
                    && r.tags[j].tag == p.1;
            assert(r.snippets[i].id == p.0 && r.tags[j].tag == p.1);
            assert(snippet_pairs_associated(r).contains(p));
        }
        if snippet_pairs_associated(r).contains(p) {
            let (i, j) = choose|i: int, j: int|
                #![trigger r.snippets[i], r.tags[j]]
                0 <= i < r.snippets.len() && 0 <= j < r.tags.len() && r.snippets[i].id == p.0
                    && r.tags[j].tag == p.1 && linked(
                    r.snippet_tags,
                    r.snippets[i].id,
                    r.tags[j].id,
                );
            assert(r.snippet_ids()[i] == r.snippets[i].id);
            assert(order.contains(i));
            let k = choose|k: int| 0 <= k < order.len() && order[k] == i;
            assert(records[k] == snippet_record(r.tags, r.snippet_tags, r.snippets[i]));
            lemma_selected_images(
                r.tags,
                |t: TagRow| linked(r.snippet_tags, r.snippets[i].id, t.id),
                |t: TagRow| t.tag,
                p.1,
            );
            assert(records[k].tags.contains(p.1));
            assert(snippet_pairs_by_record(records).contains(p));
        }
    }
    assert(snippet_pairs_by_record(records) =~= snippet_pairs_associated(r));
}

/// The list of tag groups holds the pairs of a snippet and a label that
/// the tables associate.
pub proof fn lemma_snippet_pairs_by_tag(r: Relations)
    ensures
        snippet_pairs_by_tag(r.tag_groups()) == snippet_pairs_associated(r),
{
    let groups = r.tag_groups();
    let order = label_order(r.tag_labels());
    lemma_label_order_permutes(r.tag_labels());
    assert forall|p: (int, Seq<char>)| snippet_pairs_by_tag(groups).contains(p)
        == snippet_pairs_associated(r).contains(p) by {
        if snippet_pairs_by_tag(groups).contains(p) {
            let (g, k) = choose|g: int, k: int|
                #![trigger groups[g].snippets[k]]
                0 <= g < groups.len() && 0 <= k < groups[g].snippets.len() && groups[g].tag == p.1
                    && groups[g].snippets[k].id == p.0;
            let j = order[g];
            assert(groups[g] == r.tag_group(r.tags[j]));
            let record = groups[g].snippets[k];
            assert(groups[g].snippets.contains(record));
            lemma_selected_images(
                r.snippets,
                |x: SnippetRow| linked(r.snippet_tags, x.id, r.tags[j].id),
                |x: SnippetRow| snippet_record(r.tags, r.snippet_tags, x),
                record,
            );
            let i = choose|i: int|
                #![trigger r.snippets[i]]
                0 <= i < r.snippets.len() && linked(r.snippet_tags, r.snippets[i].id, r.tags[j].id)
                    && snippet_record(r.tags, r.snippet_tags, r.snippets[i]) == record;
            assert(r.snippets[i].id == p.0 && r.tags[j].tag == p.1);
            assert(snippet_pairs_associated(r).contains(p));
        }
        if snippet_pairs_associated(r).contains(p) {
            let (i, j) = choose|i: int, j: int|
                #![trigger r.snippets[i], r.tags[j]]
                0 <= i < r.snippets.len() && 0 <= j < r.tags.len() && r.snippets[i].id == p.0
                    && r.tags[j].tag == p.1 && linked(
                    r.snippet_tags,
                    r.snippets[i].id,
                    r.tags[j].id,
                );
            assert(r.tag_labels()[j] == r.tags[j].tag);
            assert(order.contains(j));
            let g = choose|g: int| 0 <= g < order.len() && order[g] == j;
            assert(groups[g] == r.tag_group(r.tags[j]));
            let record = snippet_record(r.tags, r.snippet_tags, r.snippets[i]);
            lemma_selected_images(
                r.snippets,
                |x: SnippetRow| linked(r.snippet_tags, x.id, r.tags[j].id),
                |x: SnippetRow| snippet_record(r.tags, r.snippet_tags, x),
                record,
            );
            assert(groups[g].snippets.contains(record));
            let k = choose|k: int|
                0 <= k < groups[g].snippets.len() && groups[g].snippets[k] == record;
            assert(groups[g].snippets[k].id == p.0);
            assert(snippet_pairs_by_tag(groups).contains(p));
        }
    }
    assert(snippet_pairs_by_tag(groups) =~= snippet_pairs_associated(r));
}

/// The views agree on the snippets too: the pairs of a snippet and a label
/// that can be read off the list of snippets with their tags are the pairs
/// that can be read off the groups of the tags. This holds of any tables.
pub proof fn law_snippet_views_agree(r: Relations)
    ensures
        snippet_pairs_by_record(r.snippets_with_tags()) == snippet_pairs_by_tag(
            r.tags_with_urls_and_snippets().drop_first(),
        ),
{
    lemma_snippet_pairs_by_record(r);
    lemma_snippet_pairs_by_tag(r);
    assert(r.tags_with_urls_and_snippets().drop_first() =~= r.tag_groups());
}

} // verus!
