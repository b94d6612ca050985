//! The state of the archive as contracts see it: what holds of every state,
//! and what each operation makes of a state.

use crate::fingerprint::url_fingerprint;
use crate::models::ItemKind;
use crate::models::LinkRow;
use crate::models::SnippetRow;
use crate::models::TagRow;
use crate::models::UrlRow;
use crate::relations::has_items;
use crate::relations::linked;
use crate::relations::Relations;
use vstd::prelude::*;

verus! {

/// Ids are positive and stay below this bound.
pub open spec fn id_limit() -> int {
    0x7fff_ffff
}

/// The tables of the archive together with the next id of each kind of row.
/// An id that was given out once is never given out again.
pub struct State {
    pub tables: Relations,
    pub next_url_id: int,
    pub next_snippet_id: int,
    pub next_tag_id: int,
}

/// Whether a bookmark with this id is among `urls`.
pub open spec fn url_stored(urls: Seq<UrlRow>, id: int) -> bool {
    exists|i: int| #![trigger urls[i]] 0 <= i < urls.len() && urls[i].id == id
}

/// Whether a bookmark with this fingerprint is among `urls`.
pub open spec fn hash_stored(urls: Seq<UrlRow>, hash: Seq<char>) -> bool {
    exists|i: int| #![trigger urls[i]] 0 <= i < urls.len() && urls[i].url_hash == hash
}

/// Whether `urls` holds the bookmark with this fingerprint under this id.
pub open spec fn hash_stored_as(urls: Seq<UrlRow>, hash: Seq<char>, id: int) -> bool {
    exists|i: int|
        #![trigger urls[i]]
        0 <= i < urls.len() && urls[i].url_hash == hash && urls[i].id == id
}

/// Whether a snippet with this id is among `snippets`.
pub open spec fn snippet_stored(snippets: Seq<SnippetRow>, id: int) -> bool {
    exists|i: int| #![trigger snippets[i]] 0 <= i < snippets.len() && snippets[i].id == id
}

/// Whether a tag with this id is among `tags`.
pub open spec fn tag_stored(tags: Seq<TagRow>, id: int) -> bool {
    exists|i: int| #![trigger tags[i]] 0 <= i < tags.len() && tags[i].id == id
}

/// Whether a tag with this label is among `tags`.
pub open spec fn label_stored(tags: Seq<TagRow>, label: Seq<char>) -> bool {
    exists|i: int| #![trigger tags[i]] 0 <= i < tags.len() && tags[i].tag == label
}

/// Whether `tags` holds the tag with this label under this id.
pub open spec fn label_stored_as(tags: Seq<TagRow>, label: Seq<char>, id: int) -> bool {
    exists|i: int|
        #![trigger tags[i]]
        0 <= i < tags.len() && tags[i].tag == label && tags[i].id == id
}

/// Whether one of the two relations associates an item with the tag
/// `tag_id`.
pub open spec fn tag_used(url_tags: Seq<LinkRow>, snippet_tags: Seq<LinkRow>, tag_id: int) -> bool {
    has_items(url_tags, tag_id) || has_items(snippet_tags, tag_id)
}

/// Every bookmark has an id of its own between 1 and `next`, and a
/// fingerprint of its own, which is that of its URL.
pub open spec fn urls_ok(urls: Seq<UrlRow>, next: int) -> bool {
    &&& forall|i: int|
        #![trigger urls[i]]
        0 <= i < urls.len() ==> 1 <= urls[i].id < next && urls[i].url_hash == url_fingerprint(
            urls[i].url,
        )
    &&& forall|i: int, j: int|
        #![trigger urls[i], urls[j]]
        0 <= i < j < urls.len() ==> urls[i].id != urls[j].id && urls[i].url_hash
            != urls[j].url_hash
}

/// Every snippet has an id of its own between 1 and `next`.
pub open spec fn snippets_ok(snippets: Seq<SnippetRow>, next: int) -> bool {
    &&& forall|i: int| #![trigger snippets[i]] 0 <= i < snippets.len() ==> 1 <= snippets[i].id < next
    &&& forall|i: int, j: int|
        #![trigger snippets[i], snippets[j]]
        0 <= i < j < snippets.len() ==> snippets[i].id != snippets[j].id
}

/// Every tag has an id of its own between 1 and `next`, and a label of its
/// own, which is not empty.
pub open spec fn tags_ok(tags: Seq<TagRow>, next: int) -> bool {
    &&& forall|i: int|
        #![trigger tags[i]]
        0 <= i < tags.len() ==> 1 <= tags[i].id < next && tags[i].tag.len() > 0
    &&& forall|i: int, j: int|
        #![trigger tags[i], tags[j]]
        0 <= i < j < tags.len() ==> tags[i].id != tags[j].id && tags[i].tag != tags[j].tag
}

/// Every association joins one of `items` and one of `tags`, and no
/// association stands twice.
pub open spec fn links_ok(links: Seq<LinkRow>, items: Set<int>, tags: Set<int>) -> bool {
    &&& forall|k: int|
        #![trigger links[k]]
        0 <= k < links.len() ==> items.contains(links[k].item_id) && tags.contains(links[k].tag_id)
    &&& forall|k: int, l: int|
        #![trigger links[k], links[l]]
        0 <= k < l < links.len() ==> links[k] != links[l]
}

impl Relations {
    /// Whether a bookmark with this fingerprint is stored.
    pub open spec fn has_url(self, hash: Seq<char>) -> bool {
        hash_stored(self.urls, hash)
    }

    /// The id of the bookmark with this fingerprint. In a well-formed state
    /// there is at most one such bookmark.
    pub open spec fn url_id(self, hash: Seq<char>) -> int {
        choose|id: int| hash_stored_as(self.urls, hash, id)
    }

    /// Whether a tag with this label is stored.
    pub open spec fn has_tag(self, label: Seq<char>) -> bool {
        label_stored(self.tags, label)
    }

    /// The id of the tag with this label. In a well-formed state there is
    /// at most one such tag.
    pub open spec fn tag_id(self, label: Seq<char>) -> int {
        choose|id: int| label_stored_as(self.tags, label, id)
    }

    /// The ids of the stored bookmarks.
    pub open spec fn known_urls(self) -> Set<int> {
        Set::new(|id: int| url_stored(self.urls, id))
    }

    /// The ids of the stored snippets.
    pub open spec fn known_snippets(self) -> Set<int> {
        Set::new(|id: int| snippet_stored(self.snippets, id))
    }

    /// The ids of the stored tags.
    pub open spec fn known_tags(self) -> Set<int> {
        Set::new(|id: int| tag_stored(self.tags, id))
    }

    /// The ids of the stored items of one kind.
    pub open spec fn known_items(self, kind: ItemKind) -> Set<int> {
        match kind {
            ItemKind::Bookmark => self.known_urls(),
            ItemKind::Snippet => self.known_snippets(),
        }
    }

    /// The associations of the items of one kind.
    pub open spec fn links(self, kind: ItemKind) -> Seq<LinkRow> {
        match kind {
            ItemKind::Bookmark => self.url_tags,
            ItemKind::Snippet => self.snippet_tags,
        }
    }

    /// Whether any item of either kind carries the tag `tag_id`.
    pub open spec fn tag_in_use(self, tag_id: int) -> bool {
        tag_used(self.url_tags, self.snippet_tags, tag_id)
    }
}

impl State {
    /// The archive that holds nothing and has given out no id.
    pub open spec fn empty() -> State {
        State::empty_from(1)
    }

    /// The archive that holds nothing and gives out `first_id` and what
    /// follows it.
    pub open spec fn empty_from(first_id: int) -> State {
        State {
            tables: Relations::empty(),
            next_url_id: first_id,
            next_snippet_id: first_id,
            next_tag_id: first_id,
        }
    }

    /// What holds of every state of the archive.
    pub open spec fn wf(self) -> bool {
        &&& 1 <= self.next_url_id <= id_limit()
        &&& 1 <= self.next_snippet_id <= id_limit()
        &&& 1 <= self.next_tag_id <= id_limit()
        &&& urls_ok(self.tables.urls, self.next_url_id)
        &&& snippets_ok(self.tables.snippets, self.next_snippet_id)
        &&& tags_ok(self.tables.tags, self.next_tag_id)
        &&& links_ok(self.tables.url_tags, self.tables.known_urls(), self.tables.known_tags())
        &&& links_ok(
            self.tables.snippet_tags,
            self.tables.known_snippets(),
            self.tables.known_tags(),
        )
    }

    /// The state with one bookmark more, stored under the next id.
    pub open spec fn with_url(self, url: Seq<char>, now: int) -> State {
        State {
            tables: Relations {
                urls: self.tables.urls.push(
                    UrlRow {
                        id: self.next_url_id,
                        datetime: now,
                        url: url,
                        url_hash: url_fingerprint(url),
                    },
                ),
                ..self.tables
            },
            next_url_id: self.next_url_id + 1,
            ..self
        }
    }

    /// The id under which `url` is stored once it has been inserted: the id
    /// that it has, or the next id. There is none if the URL is new and the
    /// ids have run out.
    pub open spec fn insert_url_id(self, url: Seq<char>) -> Option<int> {
        if self.tables.has_url(url_fingerprint(url)) {
            Some(self.tables.url_id(url_fingerprint(url)))
        } else if self.next_url_id < id_limit() {
            Some(self.next_url_id)
        } else {
            None
        }
    }

    /// The state after `url` has been inserted at time `now`: unchanged if
    /// the URL is stored already or the ids have run out.
    pub open spec fn after_insert_url(self, url: Seq<char>, now: int) -> State {
        if !self.tables.has_url(url_fingerprint(url)) && self.next_url_id < id_limit() {
            self.with_url(url, now)
        } else {
            self
        }
    }

    /// The state with one snippet more, stored under the next id.
    pub open spec fn with_snippet(self, url: Seq<char>, snippet: Seq<char>, now: int) -> State {
        State {
            tables: Relations {
                snippets: self.tables.snippets.push(
                    SnippetRow {
                        id: self.next_snippet_id,
                        url: url,
                        snippet: snippet,
                        created_at: now,
                    },
                ),
                ..self.tables
            },
            next_snippet_id: self.next_snippet_id + 1,
            ..self
        }
    }

    /// Whether the tag `label` can be had: it is stored, or there is an id
    /// left for it.
    pub open spec fn can_resolve_tag(self, label: Seq<char>) -> bool {
        self.tables.has_tag(label) || self.next_tag_id < id_limit()
    }

    /// The state in which the tag `label` is stored: unchanged if it was
    /// stored already, else with one tag more under the next id.
    pub open spec fn with_tag(self, label: Seq<char>) -> State {
        if self.tables.has_tag(label) {
            self
        } else {
            State {
                tables: Relations {
                    tags: self.tables.tags.push(TagRow { id: self.next_tag_id, tag: label }),
                    ..self.tables
                },
                next_tag_id: self.next_tag_id + 1,
                ..self
            }
        }
    }

    /// The state in which the item carries the tag `tag_id`: unchanged if it
    /// did already, else with one association more.
    pub open spec fn with_link(self, kind: ItemKind, item_id: int, tag_id: int) -> State {
        if linked(self.tables.links(kind), item_id, tag_id) {
            self
        } else {
            let row = LinkRow { item_id: item_id, tag_id: tag_id };
            match kind {
                ItemKind::Bookmark => State {
                    tables: Relations { url_tags: self.tables.url_tags.push(row), ..self.tables },
                    ..self
                },
                ItemKind::Snippet => State {
                    tables: Relations {
                        snippet_tags: self.tables.snippet_tags.push(row),
                        ..self.tables
                    },
                    ..self
                },
            }
        }
    }

    /// The state in which the tag `label` is stored and the item carries it.
    pub open spec fn with_label(self, kind: ItemKind, item_id: int, label: Seq<char>) -> State {
        let stored = self.with_tag(label);
        stored.with_link(kind, item_id, stored.tables.tag_id(label))
    }

    /// The state after the labels have been associated with the item one by
    /// one. An empty label is passed over. The first label that cannot be
    /// had ends the work: what was associated before it stays.
    pub open spec fn associate(self, kind: ItemKind, item_id: int, labels: Seq<Seq<char>>) -> State
        decreases labels.len(),
    {
        if labels.len() == 0 {
            self
        } else if labels[0].len() == 0 {
            self.associate(kind, item_id, labels.drop_first())
        } else if !self.can_resolve_tag(labels[0]) {
            self
        } else {
            self.with_label(kind, item_id, labels[0]).associate(
                kind,
                item_id,
                labels.drop_first(),
            )
        }
    }

    /// Whether every label that is not empty can be had when the labels are
    /// associated with the item one by one.
    pub open spec fn can_associate(self, kind: ItemKind, item_id: int, labels: Seq<Seq<char>>)
        -> bool
        decreases labels.len(),
    {
        if labels.len() == 0 {
            true
        } else if labels[0].len() == 0 {
            self.can_associate(kind, item_id, labels.drop_first())
        } else if !self.can_resolve_tag(labels[0]) {
            false
        } else {
            self.with_label(kind, item_id, labels[0]).can_associate(
                kind,
                item_id,
                labels.drop_first(),
            )
        }
    }

    /// The state after the labels have been associated with the item:
    /// unchanged if no item of this kind with this id is stored.
    pub open spec fn after_associate(self, kind: ItemKind, item_id: int, labels: Seq<Seq<char>>)
        -> State {
        if self.tables.known_items(kind).contains(item_id) {
            self.associate(kind, item_id, labels)
        } else {
            self
        }
    }

    /// Whether tagging `url` with `labels` succeeds: there is nothing to do,
    /// or the URL and each label that is not empty can be had.
    pub open spec fn can_insert_tags(self, url: Seq<char>, labels: Seq<Seq<char>>, now: int)
        -> bool {
        labels.len() == 0 || (self.insert_url_id(url) is Some && self.after_insert_url(
            url,
            now,
        ).can_associate(ItemKind::Bookmark, self.insert_url_id(url).unwrap(), labels))
    }

    /// The state after `url` has been tagged with `labels`. With no labels
    /// nothing happens. Otherwise the URL is inserted and the labels are
    /// associated with it as far as they can be had.
    pub open spec fn after_insert_tags(self, url: Seq<char>, labels: Seq<Seq<char>>, now: int)
        -> State {
        if labels.len() == 0 || self.insert_url_id(url) is None {
            self
        } else {
            self.after_insert_url(url, now).associate(
                ItemKind::Bookmark,
                self.insert_url_id(url).unwrap(),
                labels,
            )
        }
    }

    /// Whether inserting a snippet with `labels` succeeds: there is an id
    /// left for it and each label that is not empty can be had.
    pub open spec fn can_insert_snippet(
        self,
        url: Seq<char>,
        snippet: Seq<char>,
        labels: Seq<Seq<char>>,
        now: int,
    ) -> bool {
        self.next_snippet_id < id_limit() && self.with_snippet(url, snippet, now).can_associate(
            ItemKind::Snippet,
            self.next_snippet_id,
            labels,
        )
    }

    /// The state after a snippet has been inserted with `labels`: unchanged
    /// if the ids have run out, else with the snippet and with the labels as
    /// far as they can be had.
    pub open spec fn after_insert_snippet(
        self,
        url: Seq<char>,
        snippet: Seq<char>,
        labels: Seq<Seq<char>>,
        now: int,
    ) -> State {
        if self.next_snippet_id < id_limit() {
            self.with_snippet(url, snippet, now).associate(
                ItemKind::Snippet,
                self.next_snippet_id,
                labels,
            )
        } else {
            self
        }
    }

    /// The state without the bookmark `id` and without its associations.
    pub open spec fn without_url(self, id: int) -> State {
        State {
            tables: Relations {
                urls: self.tables.urls.filter(|u: UrlRow| u.id != id),
                url_tags: self.tables.url_tags.filter(|l: LinkRow| l.item_id != id),
                ..self.tables
            },
            ..self
        }
    }

    /// The state after the bookmark of `url` has been deleted: unchanged if
    /// the URL is not stored.
    pub open spec fn after_delete_url_by_url(self, url: Seq<char>) -> State {
        if self.tables.has_url(url_fingerprint(url)) {
            self.without_url(self.tables.url_id(url_fingerprint(url)))
        } else {
            self
        }
    }

    /// The state without the snippet `id` and without its associations.
    pub open spec fn without_snippet(self, id: int) -> State {
        State {
            tables: Relations {
                snippets: self.tables.snippets.filter(|s: SnippetRow| s.id != id),
                snippet_tags: self.tables.snippet_tags.filter(|l: LinkRow| l.item_id != id),
                ..self.tables
            },
            ..self
        }
    }

    /// The state without the tags that no item carries.
    pub open spec fn without_unused_tags(self) -> State {
        State {
            tables: Relations {
                tags: self.tables.tags.filter(
                    |t: TagRow| tag_used(self.tables.url_tags, self.tables.snippet_tags, t.id),
                ),
                ..self.tables
            },
            ..self
        }
    }
}

} // verus!
