//! Every operation keeps what holds of every state.

use crate::fingerprint::url_fingerprint;
use crate::models::ItemKind;
use crate::models::LinkRow;
use crate::models::SnippetRow;
use crate::models::TagRow;
use crate::models::UrlRow;
use crate::relations::linked;
use crate::relations::Relations;
use crate::state::hash_stored_as;
use crate::state::id_limit;
use crate::state::label_stored_as;
use crate::state::links_ok;
use crate::state::snippet_stored;
use crate::state::snippets_ok;
use crate::state::tag_stored;
use crate::state::tag_used;
use crate::state::tags_ok;
use crate::state::url_stored;
use crate::state::urls_ok;
use crate::state::State;
use vstd::prelude::*;

verus! {

/// What a selection keeps: each row that is kept is a selected row of the
/// table, and each selected row of the table is kept.
pub proof fn lemma_filter_members<A>(rows: Seq<A>, selected: spec_fn(A) -> bool)
    ensures
        forall|k: int|
            #![trigger rows.filter(selected)[k]]
            0 <= k < rows.filter(selected).len() ==> selected(rows.filter(selected)[k]) && exists|
                i: int,
            |
                #![trigger rows[i]]
                0 <= i < rows.len() && rows[i] == rows.filter(selected)[k],
        forall|i: int|
            #![trigger rows[i]]
            0 <= i < rows.len() && selected(rows[i]) ==> exists|k: int|
                #![trigger rows.filter(selected)[k]]
                0 <= k < rows.filter(selected).len() && rows.filter(selected)[k] == rows[i],
{
    let kept = rows.filter(selected);
    assert forall|k: int| #![trigger kept[k]] 0 <= k < kept.len() implies selected(kept[k])
        && exists|i: int| #![trigger rows[i]] 0 <= i < rows.len() && rows[i] == kept[k] by {
        rows.lemma_filter_pred(selected, k);
        assert(kept.contains(kept[k]));
        rows.lemma_filter_contains_rev(selected, kept[k]);
    }
    assert forall|i: int| #![trigger rows[i]] 0 <= i < rows.len() && selected(rows[i]) implies exists|
        k: int,
    |
        #![trigger kept[k]]
        0 <= k < kept.len() && kept[k] == rows[i] by {
        rows.lemma_filter_contains(selected, i);
    }
}

/// A selection keeps the order of the rows: what holds of every row and
/// each later row of the table holds of every kept row and each later kept
/// row.
pub proof fn lemma_filter_pairwise<A>(
    rows: Seq<A>,
    selected: spec_fn(A) -> bool,
    apart: spec_fn(A, A) -> bool,
)
    requires
        forall|i: int, j: int|
            #![trigger rows[i], rows[j]]
            0 <= i < j < rows.len() ==> apart(rows[i], rows[j]),
    ensures
        forall|i: int, j: int|
            #![trigger rows.filter(selected)[i], rows.filter(selected)[j]]
            0 <= i < j < rows.filter(selected).len() ==> apart(
                rows.filter(selected)[i],
                rows.filter(selected)[j],
            ),
    decreases rows.len(),
{
    reveal(Seq::filter);
    if rows.len() > 0 {
        let front = rows.drop_last();
        let kept = rows.filter(selected);
        assert forall|i: int, j: int| #![trigger front[i], front[j]] 0 <= i < j < front.len() implies apart(
            front[i],
            front[j],
        ) by {
            assert(front[i] == rows[i] && front[j] == rows[j]);
        }
        lemma_filter_pairwise(front, selected, apart);
        lemma_filter_members(front, selected);
        assert forall|i: int, j: int| #![trigger kept[i], kept[j]] 0 <= i < j < kept.len() implies apart(
            kept[i],
            kept[j],
        ) by {
            let front_kept = front.filter(selected);
            if j < front_kept.len() {
                assert(kept[i] == front_kept[i] && kept[j] == front_kept[j]);
            } else {
                assert(kept[j] == rows.last());
                assert(kept[i] == front_kept[i]);
                let at = choose|at: int|
                    #![trigger front[at]]
                    0 <= at < front.len() && front[at] == front_kept[i];
                assert(front[at] == rows[at]);
                assert(apart(rows[at], rows[rows.len() - 1]));
            }
        }
    }
}

/// In a well-formed state a bookmark is found under its fingerprint.
pub proof fn lemma_url_id(s: State, i: int)
    requires
        s.wf(),
        0 <= i < s.tables.urls.len(),
    ensures
        s.tables.has_url(s.tables.urls[i].url_hash),
        s.tables.url_id(s.tables.urls[i].url_hash) == s.tables.urls[i].id,
        s.tables.known_urls().contains(s.tables.urls[i].id),
{
    let urls = s.tables.urls;
    let hash = urls[i].url_hash;
    assert(hash_stored_as(urls, hash, urls[i].id));
    let id = s.tables.url_id(hash);
    assert(hash_stored_as(urls, hash, id));
    let j = choose|j: int|
        #![trigger urls[j]]
        0 <= j < urls.len() && urls[j].url_hash == hash && urls[j].id == id;
    assert(i == j) by {
        if i < j {
            assert(urls[i].url_hash != urls[j].url_hash);
        } else if j < i {
            assert(urls[j].url_hash != urls[i].url_hash);
        }
    }
}

/// In a well-formed state a tag is found under its label.
pub proof fn lemma_tag_id(s: State, i: int)
    requires
        s.wf(),
        0 <= i < s.tables.tags.len(),
    ensures
        s.tables.has_tag(s.tables.tags[i].tag),
        s.tables.tag_id(s.tables.tags[i].tag) == s.tables.tags[i].id,
        s.tables.known_tags().contains(s.tables.tags[i].id),
{
    let tags = s.tables.tags;
    let label = tags[i].tag;
    assert(label_stored_as(tags, label, tags[i].id));
    let id = s.tables.tag_id(label);
    assert(label_stored_as(tags, label, id));
    let j = choose|j: int|
        #![trigger tags[j]]
        0 <= j < tags.len() && tags[j].tag == label && tags[j].id == id;
    assert(i == j) by {
        if i < j {
            assert(tags[i].tag != tags[j].tag);
        } else if j < i {
            assert(tags[j].tag != tags[i].tag);
        }
    }
}

/// Associations that join known items and known tags still do so when more
/// items and more tags are known.
pub proof fn lemma_links_ok_grows(
    links: Seq<LinkRow>,
    items: Set<int>,
    tags: Set<int>,
    more_items: Set<int>,
    more_tags: Set<int>,
)
    requires
        links_ok(links, items, tags),
        forall|id: int| items.contains(id) ==> more_items.contains(id),
        forall|id: int| tags.contains(id) ==> more_tags.contains(id),
    ensures
        links_ok(links, more_items, more_tags),
{
}

/// A table with one bookmark more knows the ids it knew, and the new one.
pub proof fn lemma_more_urls(tables: Relations, row: UrlRow)
    ensures
        forall|id: int|
            tables.known_urls().contains(id) ==> (Relations {
                urls: tables.urls.push(row),
                ..tables
            }).known_urls().contains(id),
        (Relations { urls: tables.urls.push(row), ..tables }).known_urls().contains(row.id),
{
    let more = tables.urls.push(row);
    assert forall|id: int| url_stored(tables.urls, id) implies url_stored(more, id) by {
        let i = choose|i: int|
            #![trigger tables.urls[i]]
            0 <= i < tables.urls.len() && tables.urls[i].id == id;
        assert(more[i].id == id);
    }
    assert(more[tables.urls.len() as int] == row);
}

/// A table with one snippet more knows the ids it knew, and the new one.
pub proof fn lemma_more_snippets(tables: Relations, row: SnippetRow)
    ensures
        forall|id: int|
            tables.known_snippets().contains(id) ==> (Relations {
                snippets: tables.snippets.push(row),
                ..tables
            }).known_snippets().contains(id),
        (Relations { snippets: tables.snippets.push(row), ..tables }).known_snippets().contains(
            row.id,
        ),
{
    let more = tables.snippets.push(row);
    assert forall|id: int| snippet_stored(tables.snippets, id) implies snippet_stored(more, id) by {
        let i = choose|i: int|
            #![trigger tables.snippets[i]]
            0 <= i < tables.snippets.len() && tables.snippets[i].id == id;
        assert(more[i].id == id);
    }
    assert(more[tables.snippets.len() as int] == row);
}

/// A table with one tag more knows the ids it knew, and the new one.
pub proof fn lemma_more_tags(tables: Relations, row: TagRow)
    ensures
        forall|id: int|
            tables.known_tags().contains(id) ==> (Relations {
                tags: tables.tags.push(row),
                ..tables
            }).known_tags().contains(id),
        (Relations { tags: tables.tags.push(row), ..tables }).known_tags().contains(row.id),
{
    let more = tables.tags.push(row);
    assert forall|id: int| tag_stored(tables.tags, id) implies tag_stored(more, id) by {
        let i = choose|i: int|
            #![trigger tables.tags[i]]
            0 <= i < tables.tags.len() && tables.tags[i].id == id;
        assert(more[i].id == id);
    }
    assert(more[tables.tags.len() as int] == row);
}

/// The empty archive is well formed.
pub proof fn lemma_empty_wf(first_id: int)
    requires
        1 <= first_id <= id_limit(),
    ensures
        State::empty_from(first_id).wf(),
{
}

/// Storing a new bookmark keeps the state well formed.
pub proof fn lemma_with_url_wf(s: State, url: Seq<char>, now: int)
    requires
        s.wf(),
        !s.tables.has_url(url_fingerprint(url)),
        s.next_url_id < id_limit(),
    ensures
        s.with_url(url, now).wf(),
        s.with_url(url, now).tables.known_urls().contains(s.next_url_id),
{
    let t = s.with_url(url, now);
    let row = UrlRow {
        id: s.next_url_id,
        datetime: now,
        url: url,
        url_hash: url_fingerprint(url),
    };
    let old_urls = s.tables.urls;
    let urls = t.tables.urls;
    let n = old_urls.len() as int;
    assert(urls == old_urls.push(row));
    assert forall|i: int| #![trigger urls[i]] 0 <= i < urls.len() implies 1 <= urls[i].id
        < t.next_url_id && urls[i].url_hash == url_fingerprint(urls[i].url) by {
        if i < n {
            assert(urls[i] == old_urls[i]);
        }
    }
    assert forall|i: int, j: int| #![trigger urls[i], urls[j]] 0 <= i < j < urls.len() implies urls[i].id
        != urls[j].id && urls[i].url_hash != urls[j].url_hash by {
        assert(urls[i] == old_urls[i]);
        if j < n {
            assert(urls[j] == old_urls[j]);
        }
    }
    lemma_more_urls(s.tables, row);
    lemma_links_ok_grows(
        s.tables.url_tags,
        s.tables.known_urls(),
        s.tables.known_tags(),
        t.tables.known_urls(),
        t.tables.known_tags(),
    );
}

/// Storing a new snippet keeps the state well formed.
pub proof fn lemma_with_snippet_wf(s: State, url: Seq<char>, snippet: Seq<char>, now: int)
    requires
        s.wf(),
        s.next_snippet_id < id_limit(),
    ensures
        s.with_snippet(url, snippet, now).wf(),
        s.with_snippet(url, snippet, now).tables.known_snippets().contains(s.next_snippet_id),
{
    let t = s.with_snippet(url, snippet, now);
    let row = SnippetRow { id: s.next_snippet_id, url: url, snippet: snippet, created_at: now };
    let old_rows = s.tables.snippets;
    let rows = t.tables.snippets;
    let n = old_rows.len() as int;
    assert(rows == old_rows.push(row));
    assert forall|i: int| #![trigger rows[i]] 0 <= i < rows.len() implies 1 <= rows[i].id
        < t.next_snippet_id by {
        if i < n {
            assert(rows[i] == old_rows[i]);
        }
    }
    assert forall|i: int, j: int| #![trigger rows[i], rows[j]] 0 <= i < j < rows.len() implies rows[i].id
        != rows[j].id by {
        assert(rows[i] == old_rows[i]);
        if j < n {
            assert(rows[j] == old_rows[j]);
        }
    }
    lemma_more_snippets(s.tables, row);
    lemma_links_ok_grows(
        s.tables.snippet_tags,
        s.tables.known_snippets(),
        s.tables.known_tags(),
        t.tables.known_snippets(),
        t.tables.known_tags(),
    );
}

/// Resolving a label keeps the state well formed, keeps every item, and
/// leaves the label stored under the id that `tag_id` gives.
pub proof fn lemma_with_tag_wf(s: State, label: Seq<char>)
    requires
        s.wf(),
        label.len() > 0,
        s.can_resolve_tag(label),
    ensures
        s.with_tag(label).wf(),
        s.with_tag(label).tables.has_tag(label),
        s.with_tag(label).tables.known_tags().contains(s.with_tag(label).tables.tag_id(label)),
        s.tables.has_tag(label) ==> s.with_tag(label) == s,
        !s.tables.has_tag(label) ==> s.with_tag(label).tables.tag_id(label) == s.next_tag_id,
        s.with_tag(label).tables.urls == s.tables.urls,
        s.with_tag(label).tables.snippets == s.tables.snippets,
        s.with_tag(label).tables.url_tags == s.tables.url_tags,
        s.with_tag(label).tables.snippet_tags == s.tables.snippet_tags,
{
    let t = s.with_tag(label);
    if s.tables.has_tag(label) {
        let i = choose|i: int|
            #![trigger s.tables.tags[i]]
            0 <= i < s.tables.tags.len() && s.tables.tags[i].tag == label;
        lemma_tag_id(s, i);
    } else {
        let row = TagRow { id: s.next_tag_id, tag: label };
        let old_tags = s.tables.tags;
        let tags = t.tables.tags;
        let n = old_tags.len() as int;
        assert(tags == old_tags.push(row));
        assert forall|i: int| #![trigger tags[i]] 0 <= i < tags.len() implies 1 <= tags[i].id
            < t.next_tag_id && tags[i].tag.len() > 0 by {
            if i < n {
                assert(tags[i] == old_tags[i]);
            }
        }
        assert forall|i: int, j: int| #![trigger tags[i], tags[j]] 0 <= i < j < tags.len() implies tags[i].id
            != tags[j].id && tags[i].tag != tags[j].tag by {
            assert(tags[i] == old_tags[i]);
            if j < n {
                assert(tags[j] == old_tags[j]);
            }
        }
        lemma_more_tags(s.tables, row);
        lemma_links_ok_grows(
            s.tables.url_tags,
            s.tables.known_urls(),
            s.tables.known_tags(),
            t.tables.known_urls(),
            t.tables.known_tags(),
        );
        lemma_links_ok_grows(
            s.tables.snippet_tags,
            s.tables.known_snippets(),
            s.tables.known_tags(),
            t.tables.known_snippets(),
            t.tables.known_tags(),
        );
        assert(t.wf());
        assert(tags[n] == row);
        lemma_tag_id(t, n);
    }
}

/// Associating a stored item with a stored tag keeps the state well formed
/// and changes no table of rows.
pub proof fn lemma_with_link_wf(s: State, kind: ItemKind, item_id: int, tag_id: int)
    requires
        s.wf(),
        s.tables.known_items(kind).contains(item_id),
        s.tables.known_tags().contains(tag_id),
    ensures
        s.with_link(kind, item_id, tag_id).wf(),
        linked(s.with_link(kind, item_id, tag_id).tables.links(kind), item_id, tag_id),
        s.with_link(kind, item_id, tag_id).tables.urls == s.tables.urls,
        s.with_link(kind, item_id, tag_id).tables.snippets == s.tables.snippets,
        s.with_link(kind, item_id, tag_id).tables.tags == s.tables.tags,
{
    let t = s.with_link(kind, item_id, tag_id);
    let row = LinkRow { item_id: item_id, tag_id: tag_id };
    if !linked(s.tables.links(kind), item_id, tag_id) {
        let old_links = s.tables.links(kind);
        let links = t.tables.links(kind);
        let n = old_links.len() as int;
        assert(links == old_links.push(row));
        assert(links[n] == row);
        assert(links_ok(links, s.tables.known_items(kind), s.tables.known_tags())) by {
            assert(links_ok(old_links, s.tables.known_items(kind), s.tables.known_tags()));
            assert forall|k: int| #![trigger links[k]] 0 <= k < links.len() implies s.tables.known_items(
                kind,
            ).contains(links[k].item_id) && s.tables.known_tags().contains(links[k].tag_id) by {
                if k < n {
                    assert(links[k] == old_links[k]);
                }
            }
            assert forall|k: int, l: int| #![trigger links[k], links[l]] 0 <= k < l < links.len() implies links[k]
                != links[l] by {
                assert(links[k] == old_links[k]);
                if l < n {
                    assert(links[l] == old_links[l]);
                }
            }
        }
    }
}

/// Associating one label with a stored item keeps the state well formed
/// and keeps every item.
pub proof fn lemma_with_label_wf(s: State, kind: ItemKind, item_id: int, label: Seq<char>)
    requires
        s.wf(),
        s.tables.known_items(kind).contains(item_id),
        label.len() > 0,
        s.can_resolve_tag(label),
    ensures
        s.with_label(kind, item_id, label).wf(),
        s.with_label(kind, item_id, label).tables.urls == s.tables.urls,
        s.with_label(kind, item_id, label).tables.snippets == s.tables.snippets,
{
    lemma_with_tag_wf(s, label);
    let stored = s.with_tag(label);
    lemma_with_link_wf(stored, kind, item_id, stored.tables.tag_id(label));
}

/// Associations without those of one item, over a table of items without
/// that item, still join known items and known tags.
pub proof fn lemma_links_ok_without_item(
    links: Seq<LinkRow>,
    items: Set<int>,
    tags: Set<int>,
    id: int,
    items_left: Set<int>,
)
    requires
        links_ok(links, items, tags),
        forall|other: int| items.contains(other) && other != id ==> items_left.contains(other),
    ensures
        links_ok(links.filter(|l: LinkRow| l.item_id != id), items_left, tags),
{
    let keep = |l: LinkRow| l.item_id != id;
    let left = links.filter(keep);
    lemma_filter_members(links, keep);
    lemma_filter_pairwise(links, keep, |a: LinkRow, b: LinkRow| a != b);
    assert forall|k: int| #![trigger left[k]] 0 <= k < left.len() implies items_left.contains(
        left[k].item_id,
    ) && tags.contains(left[k].tag_id) by {
        let at = choose|at: int|
            #![trigger links[at]]
            0 <= at < links.len() && links[at] == left[k];
        assert(keep(left[k]));
    }
}

/// Deleting a bookmark keeps the state well formed.
pub proof fn lemma_without_url_wf(s: State, id: int)
    requires
        s.wf(),
    ensures
        s.without_url(id).wf(),
        !s.without_url(id).tables.known_urls().contains(id),
{
    let t = s.without_url(id);
    let keep = |u: UrlRow| u.id != id;
    let urls = s.tables.urls;
    let left = urls.filter(keep);
    lemma_filter_members(urls, keep);
    lemma_filter_pairwise(urls, keep, |a: UrlRow, b: UrlRow| a.id != b.id && a.url_hash != b.url_hash);
    assert(urls_ok(left, t.next_url_id)) by {
        assert forall|i: int| #![trigger left[i]] 0 <= i < left.len() implies 1 <= left[i].id
            < t.next_url_id && left[i].url_hash == url_fingerprint(left[i].url) by {
            let at = choose|at: int|
                #![trigger urls[at]]
                0 <= at < urls.len() && urls[at] == left[i];
        }
    }
    assert forall|other: int|
        s.tables.known_urls().contains(other) && other != id implies t.tables.known_urls().contains(
        other,
    ) by {
        let i = choose|i: int| #![trigger urls[i]] 0 <= i < urls.len() && urls[i].id == other;
        assert(keep(urls[i]));
        let k = choose|k: int| #![trigger left[k]] 0 <= k < left.len() && left[k] == urls[i];
        assert(left[k].id == other);
    }
    lemma_links_ok_without_item(
        s.tables.url_tags,
        s.tables.known_urls(),
        s.tables.known_tags(),
        id,
        t.tables.known_urls(),
    );
    if t.tables.known_urls().contains(id) {
        let k = choose|k: int| #![trigger left[k]] 0 <= k < left.len() && left[k].id == id;
        assert(keep(left[k]));
    }
}

/// Deleting a snippet keeps the state well formed.
pub proof fn lemma_without_snippet_wf(s: State, id: int)
    requires
        s.wf(),
    ensures
        s.without_snippet(id).wf(),
        !s.without_snippet(id).tables.known_snippets().contains(id),
{
    let t = s.without_snippet(id);
    let keep = |r: SnippetRow| r.id != id;
    let rows = s.tables.snippets;
    let left = rows.filter(keep);
    lemma_filter_members(rows, keep);
    lemma_filter_pairwise(rows, keep, |a: SnippetRow, b: SnippetRow| a.id != b.id);
    assert(snippets_ok(left, t.next_snippet_id)) by {
        assert forall|i: int| #![trigger left[i]] 0 <= i < left.len() implies 1 <= left[i].id
            < t.next_snippet_id by {
            let at = choose|at: int|
                #![trigger rows[at]]
                0 <= at < rows.len() && rows[at] == left[i];
        }
    }
    assert forall|other: int|
        s.tables.known_snippets().contains(other) && other
            != id implies t.tables.known_snippets().contains(other) by {
        let i = choose|i: int| #![trigger rows[i]] 0 <= i < rows.len() && rows[i].id == other;
        assert(keep(rows[i]));
        let k = choose|k: int| #![trigger left[k]] 0 <= k < left.len() && left[k] == rows[i];
        assert(left[k].id == other);
    }
    lemma_links_ok_without_item(
        s.tables.snippet_tags,
        s.tables.known_snippets(),
        s.tables.known_tags(),
        id,
        t.tables.known_snippets(),
    );
    if t.tables.known_snippets().contains(id) {
        let k = choose|k: int| #![trigger left[k]] 0 <= k < left.len() && left[k].id == id;
        assert(keep(left[k]));
    }
}

/// Associations join known tags still when the tags that none of them
/// names are gone.
pub proof fn lemma_links_ok_tags_in_use(
    links: Seq<LinkRow>,
    items: Set<int>,
    tags: Set<int>,
    tags_left: Set<int>,
)
    requires
        links_ok(links, items, tags),
        forall|k: int| #![trigger links[k]] 0 <= k < links.len() ==> tags_left.contains(links[k].tag_id),
    ensures
        links_ok(links, items, tags_left),
{
}

/// Removing the tags that no item carries keeps the state well formed.
pub proof fn lemma_without_unused_tags_wf(s: State)
    requires
        s.wf(),
    ensures
        s.without_unused_tags().wf(),
{
    let t = s.without_unused_tags();
    let in_use = |t: TagRow| tag_used(s.tables.url_tags, s.tables.snippet_tags, t.id);
    let tags = s.tables.tags;
    let left = tags.filter(in_use);
    lemma_filter_members(tags, in_use);
    lemma_filter_pairwise(tags, in_use, |a: TagRow, b: TagRow| a.id != b.id && a.tag != b.tag);
    assert(tags_ok(left, t.next_tag_id)) by {
        assert forall|i: int| #![trigger left[i]] 0 <= i < left.len() implies 1 <= left[i].id
            < t.next_tag_id && left[i].tag.len() > 0 by {
            let at = choose|at: int|
                #![trigger tags[at]]
                0 <= at < tags.len() && tags[at] == left[i];
        }
    }
    assert forall|id: int|
        s.tables.known_tags().contains(id) && s.tables.tag_in_use(
            id,
        ) implies t.tables.known_tags().contains(id) by {
        let i = choose|i: int| #![trigger tags[i]] 0 <= i < tags.len() && tags[i].id == id;
        assert(in_use(tags[i]));
        let k = choose|k: int| #![trigger left[k]] 0 <= k < left.len() && left[k] == tags[i];
        assert(left[k].id == id);
    }
    lemma_links_ok_tags_in_use(
        s.tables.url_tags,
        s.tables.known_urls(),
        s.tables.known_tags(),
        t.tables.known_tags(),
    );
    lemma_links_ok_tags_in_use(
        s.tables.snippet_tags,
        s.tables.known_snippets(),
        s.tables.known_tags(),
        t.tables.known_tags(),
    );
}

} // verus!
