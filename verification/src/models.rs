//! The records of the archive, and the mathematical rows that stand for
//! them in contracts.

use vstd::prelude::*;

verus! {

/// A stored bookmark as contracts see it.
pub struct UrlRow {
    pub id: int,
    pub datetime: int,
    pub url: Seq<char>,
    pub url_hash: Seq<char>,
}

/// A stored snippet as contracts see it.
pub struct SnippetRow {
    pub id: int,
    pub url: Seq<char>,
    pub snippet: Seq<char>,
    pub created_at: int,
}

/// A stored tag as contracts see it.
pub struct TagRow {
    pub id: int,
    pub tag: Seq<char>,
}

/// An association of an item with a tag as contracts see it.
pub struct LinkRow {
    pub item_id: int,
    pub tag_id: int,
}

/// A bookmark with its tags as contracts see it.
pub struct UrlWithTagsRow {
    pub url: Seq<char>,
    pub tags: Seq<Seq<char>>,
    pub display_url: Seq<char>,
}

/// A snippet with its tags as contracts see it.
pub struct SnippetWithTagsRow {
    pub id: int,
    pub snippet: Seq<char>,
    pub url: Seq<char>,
    pub tags: Seq<Seq<char>>,
}

/// A tag with its bookmarks and snippets as contracts see it.
pub struct TagGroup {
    pub tag: Seq<char>,
    pub urls: Seq<Seq<char>>,
    pub snippets: Seq<SnippetWithTagsRow>,
}

/// A stored bookmark. `datetime` is the time of creation in microseconds
/// since the Unix epoch; `url_hash` is the fingerprint of `url`.
#[derive(Debug)]
pub struct Url {
    pub id: i32,
    pub datetime: i64,
    pub url: String,
    pub url_hash: String,
}

/// A stored snippet: a text taken from `url`. `created_at` is the time of
/// creation in microseconds since the Unix epoch.
#[derive(Debug)]
pub struct Snippet {
    pub id: i32,
    pub url: String,
    pub snippet: String,
    pub created_at: i64,
}

/// A stored tag.
#[derive(Debug)]
pub struct Tag {
    pub id: i32,
    pub tag: String,
}

/// One association of an item with a tag.
#[derive(Debug, Clone, Copy, PartialEq, Eq)]
pub struct TagLink {
    pub item_id: i32,
    pub tag_id: i32,
}

/// The two kinds of item that carry tags.
#[derive(Debug, Clone, Copy, PartialEq, Eq)]
pub enum ItemKind {
    Bookmark,
    Snippet,
}

/// A bookmark with the labels of its tags and the URL as it is shown.
#[derive(Debug)]
pub struct UrlWithTags {
    pub url: String,
    pub tags: Vec<String>,
    pub display_url: String,
}

/// A snippet with the labels of its tags.
#[derive(Debug, Clone)]
pub struct SnippetWithTags {
    pub id: i32,
    pub snippet: String,
    pub url: String,
    pub tags: Vec<String>,
}

/// A tag with the URLs of its bookmarks and with its snippets. The group
/// with the empty label holds the items that have no tag.
#[derive(Debug, Clone)]
pub struct TagWithUrlsAndSnippets {
    pub tag: String,
    pub urls: Vec<String>,
    pub snippets: Vec<SnippetWithTags>,
}

/// A request to tag a URL: `tags` is a comma-separated list of labels.
#[derive(Debug)]
pub struct UrlTags {
    pub url: String,
    pub tags: String,
}

/// A request to save a URL.
#[derive(Debug)]
pub struct NewUrl {
    pub url: String,
}

/// A request to save a snippet: `tags` is a comma-separated list of labels.
#[derive(Debug)]
pub struct NewSnippet {
    pub url: String,
    pub snippet: String,
    pub tags: String,
}

/// A request to delete the snippet with this id.
#[derive(Debug)]
pub struct DeleteSnippet {
    pub id: i32,
}

/// A request to delete the bookmark of this URL.
#[derive(Debug)]
pub struct DeleteUrlByUrl {
    pub url: String,
}

impl View for Url {
    type V = UrlRow;

    open spec fn view(&self) -> UrlRow {
        UrlRow {
            id: self.id as int,
            datetime: self.datetime as int,
            url: self.url@,
            url_hash: self.url_hash@,
        }
    }
}

impl View for Snippet {
    type V = SnippetRow;

    open spec fn view(&self) -> SnippetRow {
        SnippetRow {
            id: self.id as int,
            url: self.url@,
            snippet: self.snippet@,
            created_at: self.created_at as int,
        }
    }
}

impl View for Tag {
    type V = TagRow;

    open spec fn view(&self) -> TagRow {
        TagRow { id: self.id as int, tag: self.tag@ }
    }
}

impl View for TagLink {
    type V = LinkRow;

    open spec fn view(&self) -> LinkRow {
        LinkRow { item_id: self.item_id as int, tag_id: self.tag_id as int }
    }
}

impl View for UrlWithTags {
    type V = UrlWithTagsRow;

    open spec fn view(&self) -> UrlWithTagsRow {
        UrlWithTagsRow {
            url: self.url@,
            tags: self.tags.deep_view(),
            display_url: self.display_url@,
        }
    }
}

impl View for SnippetWithTags {
    type V = SnippetWithTagsRow;

    open spec fn view(&self) -> SnippetWithTagsRow {
        SnippetWithTagsRow {
            id: self.id as int,
            snippet: self.snippet@,
            url: self.url@,
            tags: self.tags.deep_view(),
        }
    }
}

impl View for TagWithUrlsAndSnippets {
    type V = TagGroup;

    open spec fn view(&self) -> TagGroup {
        TagGroup {
            tag: self.tag@,
            urls: self.urls.deep_view(),
            snippets: snippet_records(self.snippets@),
        }
    }
}

/// The rows that a list of bookmarks stands for.
pub open spec fn url_rows(urls: Seq<Url>) -> Seq<UrlRow> {
    urls.map_values(|u: Url| u@)
}

/// The rows that a list of snippets stands for.
pub open spec fn snippet_rows(snippets: Seq<Snippet>) -> Seq<SnippetRow> {
    snippets.map_values(|s: Snippet| s@)
}

/// The rows that a list of tags stands for.
pub open spec fn tag_rows(tags: Seq<Tag>) -> Seq<TagRow> {
    tags.map_values(|t: Tag| t@)
}

/// The rows that a list of associations stands for.
pub open spec fn link_rows(links: Seq<TagLink>) -> Seq<LinkRow> {
    links.map_values(|l: TagLink| l@)
}

/// The rows that a list of bookmarks with tags stands for.
pub open spec fn url_entries(entries: Seq<UrlWithTags>) -> Seq<UrlWithTagsRow> {
    entries.map_values(|e: UrlWithTags| e@)
}

/// The rows that a list of snippets with tags stands for.
pub open spec fn snippet_records(records: Seq<SnippetWithTags>) -> Seq<SnippetWithTagsRow> {
    records.map_values(|r: SnippetWithTags| r@)
}

/// The rows that a list of tag groups stands for.
pub open spec fn tag_groups(groups: Seq<TagWithUrlsAndSnippets>) -> Seq<TagGroup> {
    groups.map_values(|g: TagWithUrlsAndSnippets| g@)
}

} // verus!
