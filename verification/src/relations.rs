//! The five relations of the archive and the views that are read off them.

use crate::models::link_rows;
use crate::models::snippet_rows;
use crate::models::tag_rows;
use crate::models::url_rows;
use crate::models::LinkRow;
use crate::models::Snippet;
use crate::models::SnippetRow;
use crate::models::SnippetWithTagsRow;
use crate::models::Tag;
use crate::models::TagGroup;
use crate::models::TagLink;
use crate::models::TagRow;
use crate::models::Url;
use crate::models::UrlRow;
use crate::models::UrlWithTagsRow;
use crate::order::descending_order;
use crate::order::label_order;
use crate::text::display_form;
use vstd::prelude::*;

verus! {

/// The contents of the archive as contracts see them: bookmarks, snippets
/// and tags in the order in which they were stored, and the associations of
/// bookmarks and of snippets with tags.
pub struct Relations {
    pub urls: Seq<UrlRow>,
    pub snippets: Seq<SnippetRow>,
    pub tags: Seq<TagRow>,
    pub url_tags: Seq<LinkRow>,
    pub snippet_tags: Seq<LinkRow>,
}

/// The contents of the archive: five tables of rows.
#[derive(Debug)]
pub struct Tables {
    pub urls: Vec<Url>,
    pub snippets: Vec<Snippet>,
    pub tags: Vec<Tag>,
    pub url_tags: Vec<TagLink>,
    pub snippet_tags: Vec<TagLink>,
}

impl View for Tables {
    type V = Relations;

    open spec fn view(&self) -> Relations {
        Relations {
            urls: url_rows(self.urls@),
            snippets: snippet_rows(self.snippets@),
            tags: tag_rows(self.tags@),
            url_tags: link_rows(self.url_tags@),
            snippet_tags: link_rows(self.snippet_tags@),
        }
    }
}

/// Whether `links` associates the item `item_id` with the tag `tag_id`.
pub open spec fn linked(links: Seq<LinkRow>, item_id: int, tag_id: int) -> bool {
    exists|k: int|
        #![trigger links[k]]
        0 <= k < links.len() && links[k].item_id == item_id && links[k].tag_id == tag_id
}

/// Whether `links` associates the item `item_id` with any tag.
pub open spec fn has_tags(links: Seq<LinkRow>, item_id: int) -> bool {
    exists|k: int| #![trigger links[k]] 0 <= k < links.len() && links[k].item_id == item_id
}

/// Whether `links` associates any item with the tag `tag_id`.
pub open spec fn has_items(links: Seq<LinkRow>, tag_id: int) -> bool {
    exists|k: int| #![trigger links[k]] 0 <= k < links.len() && links[k].tag_id == tag_id
}

/// The labels of the tags that `links` associates with the item `item_id`,
/// in the order of the tag table.
pub open spec fn labels_linked(tags: Seq<TagRow>, links: Seq<LinkRow>, item_id: int) -> Seq<
    Seq<char>,
> {
    tags.filter(|t: TagRow| linked(links, item_id, t.id)).map_values(|t: TagRow| t.tag)
}

/// The URLs of the bookmarks that `links` associates with the tag `tag_id`,
/// in the order of the bookmark table.
pub open spec fn urls_linked(urls: Seq<UrlRow>, links: Seq<LinkRow>, tag_id: int) -> Seq<
    Seq<char>,
> {
    urls.filter(|u: UrlRow| linked(links, u.id, tag_id)).map_values(|u: UrlRow| u.url)
}

/// The URLs of the bookmarks that `links` associates with no tag.
pub open spec fn urls_unlinked(urls: Seq<UrlRow>, links: Seq<LinkRow>) -> Seq<Seq<char>> {
    urls.filter(|u: UrlRow| !has_tags(links, u.id)).map_values(|u: UrlRow| u.url)
}

/// A snippet with the labels of its tags.
pub open spec fn snippet_record(tags: Seq<TagRow>, links: Seq<LinkRow>, row: SnippetRow)
    -> SnippetWithTagsRow {
    SnippetWithTagsRow {
        id: row.id,
        snippet: row.snippet,
        url: row.url,
        tags: labels_linked(tags, links, row.id),
    }
}

/// The snippets that `links` associates with the tag `tag_id`, in the order
/// of the snippet table.
pub open spec fn snippets_linked(
    snippets: Seq<SnippetRow>,
    tags: Seq<TagRow>,
    links: Seq<LinkRow>,
    tag_id: int,
) -> Seq<SnippetWithTagsRow> {
    snippets.filter(|s: SnippetRow| linked(links, s.id, tag_id)).map_values(
        |s: SnippetRow| snippet_record(tags, links, s),
    )
}

/// The snippets that `links` associates with no tag.
pub open spec fn snippets_unlinked(
    snippets: Seq<SnippetRow>,
    tags: Seq<TagRow>,
    links: Seq<LinkRow>,
) -> Seq<SnippetWithTagsRow> {
    snippets.filter(|s: SnippetRow| !has_tags(links, s.id)).map_values(
        |s: SnippetRow| snippet_record(tags, links, s),
    )
}

impl Relations {
    /// The archive that holds nothing.
    pub open spec fn empty() -> Relations {
        Relations {
            urls: Seq::empty(),
            snippets: Seq::empty(),
            tags: Seq::empty(),
            url_tags: Seq::empty(),
            snippet_tags: Seq::empty(),
        }
    }

    /// The times at which the bookmarks were created, in table order.
    pub open spec fn url_times(self) -> Seq<int> {
        self.urls.map_values(|u: UrlRow| u.datetime)
    }

    /// The ids of the snippets, in table order.
    pub open spec fn snippet_ids(self) -> Seq<int> {
        self.snippets.map_values(|s: SnippetRow| s.id)
    }

    /// The labels of the tags, in table order.
    pub open spec fn tag_labels(self) -> Seq<Seq<char>> {
        self.tags.map_values(|t: TagRow| t.tag)
    }

    /// All bookmarks, newest first. Bookmarks created at the same time are
    /// listed from the one stored last to the one stored first.
    pub open spec fn all_urls(self) -> Seq<UrlRow> {
        descending_order(self.url_times()).map_values(|i: int| self.urls[i])
    }

    /// A bookmark with the labels of its tags and its display form.
    pub open spec fn url_entry(self, row: UrlRow) -> UrlWithTagsRow {
        UrlWithTagsRow {
            url: row.url,
            tags: labels_linked(self.tags, self.url_tags, row.id),
            display_url: display_form(row.url),
        }
    }

    /// Every bookmark with the labels of its tags, newest first.
    pub open spec fn urls_with_tags(self) -> Seq<UrlWithTagsRow> {
        descending_order(self.url_times()).map_values(|i: int| self.url_entry(self.urls[i]))
    }

    /// Every snippet with the labels of its tags, from the greatest id down.
    pub open spec fn snippets_with_tags(self) -> Seq<SnippetWithTagsRow> {
        descending_order(self.snippet_ids()).map_values(
            |i: int| snippet_record(self.tags, self.snippet_tags, self.snippets[i]),
        )
    }

    /// The group of a tag: the URLs of its bookmarks, and its snippets.
    pub open spec fn tag_group(self, tag: TagRow) -> TagGroup {
        TagGroup {
            tag: tag.tag,
            urls: urls_linked(self.urls, self.url_tags, tag.id),
            snippets: snippets_linked(self.snippets, self.tags, self.snippet_tags, tag.id),
        }
    }

    /// The group of what has no tag. Its label is empty. It holds the
    /// bookmarks without an association in the bookmark relation and the
    /// snippets without one in the snippet relation.
    pub open spec fn untagged_group(self) -> TagGroup {
        TagGroup {
            tag: Seq::empty(),
            urls: urls_unlinked(self.urls, self.url_tags),
            snippets: snippets_unlinked(self.snippets, self.tags, self.snippet_tags),
        }
    }

    /// The groups of all tags, ordered by label.
    pub open spec fn tag_groups(self) -> Seq<TagGroup> {
        label_order(self.tag_labels()).map_values(|i: int| self.tag_group(self.tags[i]))
    }

    /// The group of the untagged items, then the group of each tag, the tags
    /// ordered by label.
    pub open spec fn tags_with_urls_and_snippets(self) -> Seq<TagGroup> {
        seq![self.untagged_group()] + self.tag_groups()
    }
}

/// Selecting from one row more, then mapping, adds the image of that row
/// if it is selected and nothing otherwise.
pub proof fn lemma_select_step<A, B>(
    rows: Seq<A>,
    i: int,
    selected: spec_fn(A) -> bool,
    image: spec_fn(A) -> B,
)
    requires
        0 <= i < rows.len(),
    ensures
        rows.take(i + 1).filter(selected).map_values(image) == if selected(rows[i]) {
            rows.take(i).filter(selected).map_values(image).push(image(rows[i]))
        } else {
            rows.take(i).filter(selected).map_values(image)
        },
{
    let before = rows.take(i);
    assert(rows.take(i + 1) =~= before.push(rows[i]));
    before.lemma_filter_push(rows[i], selected);
    if selected(rows[i]) {
        assert(before.filter(selected).push(rows[i]).map_values(image) =~= before.filter(
            selected,
        ).map_values(image).push(image(rows[i])));
    }
}

/// Nothing is selected from no rows.
pub proof fn lemma_select_none<A, B>(
    rows: Seq<A>,
    selected: spec_fn(A) -> bool,
    image: spec_fn(A) -> B,
)
    ensures
        rows.take(0).filter(selected).map_values(image) == Seq::<B>::empty(),
{
    rows.take(0).lemma_filter_len(selected);
    assert(rows.take(0).filter(selected).map_values(image) =~= Seq::<B>::empty());
}

} // verus!
