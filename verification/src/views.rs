//! The views of the archive: lists of bookmarks and snippets, and the
//! grouping of both by tag.

use crate::models::link_rows;
use crate::models::snippet_records;
use crate::models::snippet_rows;
use crate::models::tag_groups;
use crate::models::tag_rows;
use crate::models::url_entries;
use crate::models::url_rows;
use crate::models::Snippet;
use crate::models::SnippetRow;
use crate::models::SnippetWithTags;
use crate::models::Tag;
use crate::models::TagLink;
use crate::models::TagRow;
use crate::models::TagWithUrlsAndSnippets;
use crate::models::Url;
use crate::models::UrlRow;
use crate::models::UrlWithTags;
use crate::order::descending_order;
use crate::order::int_keys;
use crate::order::label_order;
use crate::order::labels_of_tags;
use crate::order::positions;
use crate::order::sort_by_label;
use crate::order::sort_descending;
use crate::relations::has_tags;
use crate::relations::labels_linked;
use crate::relations::lemma_select_none;
use crate::relations::lemma_select_step;
use crate::relations::linked;
use crate::relations::snippet_record;
use crate::relations::snippets_linked;
use crate::relations::snippets_unlinked;
use crate::relations::urls_linked;
use crate::relations::urls_unlinked;
use crate::relations::Tables;
use crate::text::display_url;
use vstd::prelude::*;

verus! {

/// Tells whether `links` associates the item `item_id` with the tag `tag_id`.
pub fn is_linked(links: &Vec<TagLink>, item_id: i32, tag_id: i32) -> (found: bool)
    ensures
        found == linked(link_rows(links@), item_id as int, tag_id as int),
{
    let mut k: usize = 0;
    while k < links.len()
        invariant
            k <= links.len(),
            forall|j: int|
                0 <= j < k ==> !(#[trigger] link_rows(links@)[j].item_id == item_id
                    && link_rows(links@)[j].tag_id == tag_id),
        decreases links.len() - k,
    {
        if links[k].item_id == item_id && links[k].tag_id == tag_id {
            assert(link_rows(links@)[k as int] == links@[k as int]@);
            return true;
        }
        assert(link_rows(links@)[k as int] == links@[k as int]@);
        k = k + 1;
    }
    false
}

/// Tells whether `links` associates the item `item_id` with any tag.
pub fn is_tagged(links: &Vec<TagLink>, item_id: i32) -> (found: bool)
    ensures
        found == has_tags(link_rows(links@), item_id as int),
{
    let mut k: usize = 0;
    while k < links.len()
        invariant
            k <= links.len(),
            forall|j: int| 0 <= j < k ==> #[trigger] link_rows(links@)[j].item_id != item_id,
        decreases links.len() - k,
    {
        assert(link_rows(links@)[k as int] == links@[k as int]@);
        if links[k].item_id == item_id {
            return true;
        }
        k = k + 1;
    }
    false
}

/// Collects the labels of the tags of the item `item_id`, in the order of
/// the tag table.
pub fn labels_of_item(tags: &Vec<Tag>, links: &Vec<TagLink>, item_id: i32) -> (labels: Vec<
    String,
>)
    ensures
        labels.deep_view() == labels_linked(tag_rows(tags@), link_rows(links@), item_id as int),
{
    let ghost rows = tag_rows(tags@);
    let ghost selected = |t: TagRow| linked(link_rows(links@), item_id as int, t.id);
    let ghost image = |t: TagRow| t.tag;
    let mut labels: Vec<String> = Vec::new();
    let mut i: usize = 0;
    proof {
        lemma_select_none(rows, selected, image);
        assert(labels.deep_view() =~= Seq::<Seq<char>>::empty());
    }
    while i < tags.len()
        invariant
            i <= tags.len(),
            rows == tag_rows(tags@),
            selected == |t: TagRow| linked(link_rows(links@), item_id as int, t.id),
            image == |t: TagRow| t.tag,
            labels.deep_view() == rows.take(i as int).filter(selected).map_values(image),
        decreases tags.len() - i,
    {
        let ghost before = labels.deep_view();
        proof {
            lemma_select_step(rows, i as int, selected, image);
        }
        if is_linked(links, item_id, tags[i].id) {
            labels.push(tags[i].tag.clone());
            assert(labels.deep_view() =~= before.push(rows[i as int].tag));
        }
        i = i + 1;
    }
    assert(rows.take(i as int) =~= rows);
    labels
}

/// Builds the record of a snippet: the snippet with the labels of its tags.
pub fn record_of(tags: &Vec<Tag>, links: &Vec<TagLink>, row: &Snippet) -> (record:
    SnippetWithTags)
    ensures
        record@ == snippet_record(tag_rows(tags@), link_rows(links@), row@),
{
    SnippetWithTags {
        id: row.id,
        snippet: row.snippet.clone(),
        url: row.url.clone(),
        tags: labels_of_item(tags, links, row.id),
    }
}

/// Collects the URLs of the bookmarks that carry the tag `tag_id`, in the
/// order of the bookmark table.
pub fn urls_of_tag(urls: &Vec<Url>, links: &Vec<TagLink>, tag_id: i32) -> (found: Vec<String>)
    ensures
        found.deep_view() == urls_linked(url_rows(urls@), link_rows(links@), tag_id as int),
{
    let ghost rows = url_rows(urls@);
    let ghost selected = |u: UrlRow| linked(link_rows(links@), u.id, tag_id as int);
    let ghost image = |u: UrlRow| u.url;
    let mut found: Vec<String> = Vec::new();
    let mut i: usize = 0;
    proof {
        lemma_select_none(rows, selected, image);
        assert(found.deep_view() =~= Seq::<Seq<char>>::empty());
    }
    while i < urls.len()
        invariant
            i <= urls.len(),
            rows == url_rows(urls@),
            selected == |u: UrlRow| linked(link_rows(links@), u.id, tag_id as int),
            image == |u: UrlRow| u.url,
            found.deep_view() == rows.take(i as int).filter(selected).map_values(image),
        decreases urls.len() - i,
    {
        let ghost before = found.deep_view();
        proof {
            lemma_select_step(rows, i as int, selected, image);
        }
        if is_linked(links, urls[i].id, tag_id) {
            found.push(urls[i].url.clone());
            assert(found.deep_view() =~= before.push(rows[i as int].url));
        }
        i = i + 1;
    }
    assert(rows.take(i as int) =~= rows);
    found
}

/// Collects the URLs of the bookmarks that carry no tag.
pub fn untagged_urls(urls: &Vec<Url>, links: &Vec<TagLink>) -> (found: Vec<String>)
    ensures
        found.deep_view() == urls_unlinked(url_rows(urls@), link_rows(links@)),
{
    let ghost rows = url_rows(urls@);
    let ghost selected = |u: UrlRow| !has_tags(link_rows(links@), u.id);
    let ghost image = |u: UrlRow| u.url;
    let mut found: Vec<String> = Vec::new();
    let mut i: usize = 0;
    proof {
        lemma_select_none(rows, selected, image);
        assert(found.deep_view() =~= Seq::<Seq<char>>::empty());
    }
    while i < urls.len()
        invariant
            i <= urls.len(),
            rows == url_rows(urls@),
            selected == |u: UrlRow| !has_tags(link_rows(links@), u.id),
            image == |u: UrlRow| u.url,
            found.deep_view() == rows.take(i as int).filter(selected).map_values(image),
        decreases urls.len() - i,
    {
        let ghost before = found.deep_view();
        proof {
            lemma_select_step(rows, i as int, selected, image);
        }
        if !is_tagged(links, urls[i].id) {
            found.push(urls[i].url.clone());
            assert(found.deep_view() =~= before.push(rows[i as int].url));
        }
        i = i + 1;
    }
    assert(rows.take(i as int) =~= rows);
    found
}

/// Collects the records of the snippets that carry the tag `tag_id`, in the
/// order of the snippet table.
pub fn snippets_of_tag(
    snippets: &Vec<Snippet>,
    tags: &Vec<Tag>,
    links: &Vec<TagLink>,
    tag_id: i32,
) -> (found: Vec<SnippetWithTags>)
    ensures
        snippet_records(found@) == snippets_linked(
            snippet_rows(snippets@),
            tag_rows(tags@),
            link_rows(links@),
            tag_id as int,
        ),
{
    let ghost rows = snippet_rows(snippets@);
    let ghost selected = |s: SnippetRow| linked(link_rows(links@), s.id, tag_id as int);
    let ghost image = |s: SnippetRow| snippet_record(tag_rows(tags@), link_rows(links@), s);
    let mut found: Vec<SnippetWithTags> = Vec::new();
    let mut i: usize = 0;
    proof {
        lemma_select_none(rows, selected, image);
        assert(snippet_records(found@) =~= Seq::empty());
    }
    while i < snippets.len()
        invariant
            i <= snippets.len(),
            rows == snippet_rows(snippets@),
            selected == |s: SnippetRow| linked(link_rows(links@), s.id, tag_id as int),
            image == |s: SnippetRow| snippet_record(tag_rows(tags@), link_rows(links@), s),
            snippet_records(found@) == rows.take(i as int).filter(selected).map_values(image),
        decreases snippets.len() - i,
    {
        let ghost before = snippet_records(found@);
        proof {
            lemma_select_step(rows, i as int, selected, image);
        }
        if is_linked(links, snippets[i].id, tag_id) {
            let record = record_of(tags, links, &snippets[i]);
            found.push(record);
            assert(snippet_records(found@) =~= before.push(image(rows[i as int])));
        }
        i = i + 1;
    }
    assert(rows.take(i as int) =~= rows);
    found
}

/// Collects the records of the snippets that carry no tag.
pub fn untagged_snippets(snippets: &Vec<Snippet>, tags: &Vec<Tag>, links: &Vec<TagLink>) -> (found:
    Vec<SnippetWithTags>)
    ensures
        snippet_records(found@) == snippets_unlinked(
            snippet_rows(snippets@),
            tag_rows(tags@),
            link_rows(links@),
        ),
{
    let ghost rows = snippet_rows(snippets@);
    let ghost selected = |s: SnippetRow| !has_tags(link_rows(links@), s.id);
    let ghost image = |s: SnippetRow| snippet_record(tag_rows(tags@), link_rows(links@), s);
    let mut found: Vec<SnippetWithTags> = Vec::new();
    let mut i: usize = 0;
    proof {
        lemma_select_none(rows, selected, image);
        assert(snippet_records(found@) =~= Seq::empty());
    }
    while i < snippets.len()
        invariant
            i <= snippets.len(),
            rows == snippet_rows(snippets@),
            selected == |s: SnippetRow| !has_tags(link_rows(links@), s.id),
            image == |s: SnippetRow| snippet_record(tag_rows(tags@), link_rows(links@), s),
            snippet_records(found@) == rows.take(i as int).filter(selected).map_values(image),
        decreases snippets.len() - i,
    {
        let ghost before = snippet_records(found@);
        proof {
            lemma_select_step(rows, i as int, selected, image);
        }
        if !is_tagged(links, snippets[i].id) {
            let record = record_of(tags, links, &snippets[i]);
            found.push(record);
            assert(snippet_records(found@) =~= before.push(image(rows[i as int])));
        }
        i = i + 1;
    }
    assert(rows.take(i as int) =~= rows);
    found
}

/// Groups the archive by tag. The first group has the empty label and
/// holds what carries no tag: the URLs of the bookmarks without a tag and
/// the snippets without a tag. It is there even when it holds nothing. Then
/// comes one group for each tag, with the URLs of its bookmarks and with its
/// snippets, the tags in dictionary order of their labels.
pub fn get_tags_with_urls_and_snippets(tables: &Tables) -> (groups: Vec<TagWithUrlsAndSnippets>)
    ensures
        tag_groups(groups@) == tables@.tags_with_urls_and_snippets(),
{
    let mut groups: Vec<TagWithUrlsAndSnippets> = Vec::new();
    let untagged = TagWithUrlsAndSnippets {
        tag: String::new(),
        urls: untagged_urls(&tables.urls, &tables.url_tags),
        snippets: untagged_snippets(&tables.snippets, &tables.tags, &tables.snippet_tags),
    };
    groups.push(untagged);
    let order = sort_by_label(&tables.tags);
    let mut k: usize = 0;
    proof {
        assert(tables@.tag_labels() =~= labels_of_tags(tables.tags@));
        assert(tag_groups(groups@) =~= seq![tables@.untagged_group()] + tables@.tag_groups().take(
            0,
        ));
    }
    while k < order.len()
        invariant
            k <= order@.len(),
            order@.len() == tables.tags@.len(),
            forall|j: int| 0 <= j < order@.len() ==> order@[j] < tables.tags@.len(),
            positions(order@) == label_order(tables@.tag_labels()),
            tag_groups(groups@) == seq![tables@.untagged_group()] + tables@.tag_groups().take(
                k as int,
            ),
        decreases order.len() - k,
    {
        let tag = &tables.tags[order[k]];
        let group = TagWithUrlsAndSnippets {
            tag: tag.tag.clone(),
            urls: urls_of_tag(&tables.urls, &tables.url_tags, tag.id),
            snippets: snippets_of_tag(
                &tables.snippets,
                &tables.tags,
                &tables.snippet_tags,
                tag.id,
            ),
        };
        let ghost before = tag_groups(groups@);
        groups.push(group);
        proof {
            let all = tables@.tag_groups();
            assert(positions(order@)[k as int] == order@[k as int]);
            assert(all[k as int] == tables@.tag_group(tables@.tags[order@[k as int] as int]));
            assert(tables@.tags[order@[k as int] as int] == tag@);
            assert(all.take(k + 1) =~= all.take(k as int).push(all[k as int]));
            assert(tag_groups(groups@) =~= before.push(group@));
        }
        k = k + 1;
    }
    assert(tables@.tag_groups().take(k as int) =~= tables@.tag_groups());
    groups
}

/// Lists every snippet with the labels of its tags, from the greatest id
/// down.
pub fn get_snippets_with_tags(tables: &Tables) -> (records: Vec<SnippetWithTags>)
    ensures
        snippet_records(records@) == tables@.snippets_with_tags(),
{
    let mut keys: Vec<i64> = Vec::new();
    let mut i: usize = 0;
    while i < tables.snippets.len()
        invariant
            i <= tables.snippets@.len(),
            int_keys(keys@) == tables@.snippet_ids().take(i as int),
        decreases tables.snippets.len() - i,
    {
        let ghost before = int_keys(keys@);
        keys.push(tables.snippets[i].id as i64);
        assert(int_keys(keys@) =~= before.push(tables@.snippets[i as int].id));
        assert(tables@.snippet_ids().take(i + 1) =~= tables@.snippet_ids().take(i as int).push(
            tables@.snippets[i as int].id,
        ));
        i = i + 1;
    }
    assert(tables@.snippet_ids().take(i as int) =~= tables@.snippet_ids());
    let order = sort_descending(&keys);
    let mut records: Vec<SnippetWithTags> = Vec::new();
    let mut k: usize = 0;
    assert(snippet_records(records@) =~= tables@.snippets_with_tags().take(0));
    while k < order.len()
        invariant
            k <= order@.len(),
            order@.len() == tables.snippets@.len(),
            forall|j: int| 0 <= j < order@.len() ==> order@[j] < tables.snippets@.len(),
            positions(order@) == descending_order(tables@.snippet_ids()),
            snippet_records(records@) == tables@.snippets_with_tags().take(k as int),
        decreases order.len() - k,
    {
        let ghost before = snippet_records(records@);
        let record = record_of(&tables.tags, &tables.snippet_tags, &tables.snippets[order[k]]);
        records.push(record);
        proof {
            let all = tables@.snippets_with_tags();
            assert(positions(order@)[k as int] == order@[k as int]);
            assert(all.take(k + 1) =~= all.take(k as int).push(all[k as int]));
            assert(snippet_records(records@) =~= before.push(record@));
        }
        k = k + 1;
    }
    assert(tables@.snippets_with_tags().take(k as int) =~= tables@.snippets_with_tags());
    records
}

/// The times at which the bookmarks were created, in table order.
fn url_times(tables: &Tables) -> (keys: Vec<i64>)
    ensures
        int_keys(keys@) == tables@.url_times(),
{
    let mut keys: Vec<i64> = Vec::new();
    let mut i: usize = 0;
    while i < tables.urls.len()
        invariant
            i <= tables.urls@.len(),
            int_keys(keys@) == tables@.url_times().take(i as int),
        decreases tables.urls.len() - i,
    {
        let ghost before = int_keys(keys@);
        keys.push(tables.urls[i].datetime);
        assert(int_keys(keys@) =~= before.push(tables@.urls[i as int].datetime));
        assert(tables@.url_times().take(i + 1) =~= tables@.url_times().take(i as int).push(
            tables@.urls[i as int].datetime,
        ));
        i = i + 1;
    }
    assert(tables@.url_times().take(i as int) =~= tables@.url_times());
    keys
}

/// Lists all bookmarks, newest first. Bookmarks created at the same time
/// are listed from the one stored last to the one stored first.
pub fn get_all_urls(tables: &Tables) -> (urls: Vec<Url>)
    ensures
        url_rows(urls@) == tables@.all_urls(),
{
    let keys = url_times(tables);
    let order = sort_descending(&keys);
    let mut urls: Vec<Url> = Vec::new();
    let mut k: usize = 0;
    assert(url_rows(urls@) =~= tables@.all_urls().take(0));
    while k < order.len()
        invariant
            k <= order@.len(),
            order@.len() == tables.urls@.len(),
            forall|j: int| 0 <= j < order@.len() ==> order@[j] < tables.urls@.len(),
            positions(order@) == descending_order(tables@.url_times()),
            url_rows(urls@) == tables@.all_urls().take(k as int),
        decreases order.len() - k,
    {
        let ghost before = url_rows(urls@);
        let row = &tables.urls[order[k]];
        let copy = Url {
            id: row.id,
            datetime: row.datetime,
            url: row.url.clone(),
            url_hash: row.url_hash.clone(),
        };
        urls.push(copy);
        proof {
            let all = tables@.all_urls();
            assert(positions(order@)[k as int] == order@[k as int]);
            assert(all.take(k + 1) =~= all.take(k as int).push(all[k as int]));
            assert(url_rows(urls@) =~= before.push(copy@));
        }
        k = k + 1;
    }
    assert(tables@.all_urls().take(k as int) =~= tables@.all_urls());
    urls
}

/// Lists every bookmark with the labels of its tags and with its URL in
/// display form, newest first. A bookmark without tags has an empty list.
pub fn get_urls_with_tags(tables: &Tables) -> (entries: Vec<UrlWithTags>)
    ensures
        url_entries(entries@) == tables@.urls_with_tags(),
{
    let keys = url_times(tables);
    let order = sort_descending(&keys);
    let mut entries: Vec<UrlWithTags> = Vec::new();
    let mut k: usize = 0;
    assert(url_entries(entries@) =~= tables@.urls_with_tags().take(0));
    while k < order.len()
        invariant
            k <= order@.len(),
            order@.len() == tables.urls@.len(),
            forall|j: int| 0 <= j < order@.len() ==> order@[j] < tables.urls@.len(),
            positions(order@) == descending_order(tables@.url_times()),
            url_entries(entries@) == tables@.urls_with_tags().take(k as int),
        decreases order.len() - k,
    {
        let ghost before = url_entries(entries@);
        let row = &tables.urls[order[k]];
        let entry = UrlWithTags {
            url: row.url.clone(),
            tags: labels_of_item(&tables.tags, &tables.url_tags, row.id),
            display_url: display_url(row.url.as_str()),
        };
        entries.push(entry);
        proof {
            let all = tables@.urls_with_tags();
            assert(positions(order@)[k as int] == order@[k as int]);
            assert(all.take(k + 1) =~= all.take(k as int).push(all[k as int]));
            assert(url_entries(entries@) =~= before.push(entry@));
        }
        k = k + 1;
    }
    assert(tables@.urls_with_tags().take(k as int) =~= tables@.urls_with_tags());
    entries
}

} // verus!
