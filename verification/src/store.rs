//! The archive in memory: five tables, the next id of each kind of row, and
//! the operations that change them.

use crate::fingerprint::calculate_url_hash;
use crate::models::link_rows;
use crate::models::snippet_rows;
use crate::models::tag_rows;
use crate::models::url_rows;
use crate::models::ItemKind;
use crate::models::LinkRow;
use crate::models::Snippet;
use crate::models::SnippetRow;
use crate::models::Tag;
use crate::models::TagLink;
use crate::models::TagRow;
use crate::models::Url;
use crate::models::UrlRow;
use crate::preserved::lemma_empty_wf;
use crate::preserved::lemma_tag_id;
use crate::preserved::lemma_url_id;
use crate::preserved::lemma_with_label_wf;
use crate::preserved::lemma_with_link_wf;
use crate::preserved::lemma_with_snippet_wf;
use crate::preserved::lemma_with_tag_wf;
use crate::preserved::lemma_with_url_wf;
use crate::preserved::lemma_without_snippet_wf;
use crate::preserved::lemma_without_unused_tags_wf;
use crate::preserved::lemma_without_url_wf;
use crate::relations::has_items;
use crate::relations::Tables;
use crate::state::hash_stored;
use crate::state::label_stored;
use crate::state::snippet_stored;
use crate::state::url_stored;
use crate::state::tag_used;
use crate::state::State;
use crate::text::texts;
use crate::views::is_linked;
use vstd::prelude::*;

verus! {

/// Why an operation on the archive failed.
#[derive(Debug, Clone, Copy, PartialEq, Eq)]
pub enum StoreError {
    /// A new row was needed and no id was left for it.
    IdsExhausted,
    /// Labels were to be associated with an item that is not stored.
    NoSuchItem,
}

/// The archive. Its fields are private and only the operations of this
/// module change them, each of which keeps the state well formed (see
/// `State::wf`): every store that a caller can hold is well formed.
#[derive(Debug)]
pub struct Store {
    tables: Tables,
    next_url_id: i32,
    next_snippet_id: i32,
    next_tag_id: i32,
}

impl View for Store {
    type V = State;

    closed spec fn view(&self) -> State {
        State {
            tables: self.tables@,
            next_url_id: self.next_url_id as int,
            next_snippet_id: self.next_snippet_id as int,
            next_tag_id: self.next_tag_id as int,
        }
    }
}

impl Store {
    /// An empty archive. Its ids start at 1.
    pub fn new() -> (store: Store)
        ensures
            store@ == State::empty(),
            store@.wf(),
    {
        Store::starting_at(1)
    }

    /// An empty archive whose ids start at `first_id`, or at 1 if `first_id`
    /// is less.
    pub fn starting_at(first_id: i32) -> (store: Store)
        ensures
            store@ == State::empty_from(
                if first_id < 1 {
                    1
                } else {
                    first_id as int
                },
            ),
            store@.wf(),
    {
        let first: i32 = if first_id < 1 {
            1
        } else {
            first_id
        };
        let store = Store {
            tables: Tables {
                urls: Vec::new(),
                snippets: Vec::new(),
                tags: Vec::new(),
                url_tags: Vec::new(),
                snippet_tags: Vec::new(),
            },
            next_url_id: first,
            next_snippet_id: first,
            next_tag_id: first,
        };
        proof {
            lemma_empty_wf(first as int);
            assert(store@.tables.urls =~= Seq::empty());
            assert(store@.tables.snippets =~= Seq::empty());
            assert(store@.tables.tags =~= Seq::empty());
            assert(store@.tables.url_tags =~= Seq::empty());
            assert(store@.tables.snippet_tags =~= Seq::empty());
        }
        store
    }

    /// The tables of the archive, for the views.
    pub fn tables(&self) -> (tables: &Tables)
        ensures
            tables@ == self@.tables,
    {
        &self.tables
    }
}

/// One more row of a table goes through a selection: it is kept or it is
/// dropped, and what is behind it stays to be looked at.
proof fn lemma_retain_step<A>(
    now: Seq<A>,
    next: Seq<A>,
    all: Seq<A>,
    i: int,
    j: int,
    keep: spec_fn(A) -> bool,
)
    requires
        0 <= i < now.len(),
        0 <= j < all.len(),
        now.take(i) == all.take(j).filter(keep),
        now.skip(i) == all.skip(j),
        next == if keep(now[i]) {
            now
        } else {
            now.remove(i)
        },
    ensures
        keep(now[i]) ==> next.take(i + 1) == all.take(j + 1).filter(keep) && next.skip(i + 1)
            == all.skip(j + 1),
        !keep(now[i]) ==> next.take(i) == all.take(j + 1).filter(keep) && next.skip(i) == all.skip(
            j + 1,
        ),
{
    assert(now[i] == now.skip(i)[0]);
    assert(all[j] == all.skip(j)[0]);
    assert(all.take(j + 1) =~= all.take(j).push(all[j]));
    all.take(j).lemma_filter_push(all[j], keep);
    assert(all.skip(j + 1) =~= all.skip(j).drop_first());
    if keep(now[i]) {
        assert(next.take(i + 1) =~= now.take(i).push(now[i]));
        assert(next.skip(i + 1) =~= now.skip(i).drop_first());
    } else {
        assert(next.take(i) =~= now.take(i));
        assert(next.skip(i) =~= now.skip(i).drop_first());
    }
}

/// Finds the bookmark with the fingerprint `hash`.
fn find_url(urls: &Vec<Url>, hash: &String) -> (found: Option<usize>)
    ensures
        match found {
            Some(i) => i < urls@.len() && urls@[i as int].url_hash@ == hash@,
            None => !hash_stored(url_rows(urls@), hash@),
        },
{
    let mut i: usize = 0;
    while i < urls.len()
        invariant
            i <= urls@.len(),
            forall|k: int| 0 <= k < i ==> (#[trigger] url_rows(urls@)[k]).url_hash != hash@,
        decreases urls.len() - i,
    {
        assert(url_rows(urls@)[i as int] == urls@[i as int]@);
        if urls[i].url_hash == *hash {
            return Some(i);
        }
        i = i + 1;
    }
    None
}

/// Finds the tag with the label `label`.
fn find_tag(tags: &Vec<Tag>, label: &String) -> (found: Option<usize>)
    ensures
        match found {
            Some(i) => i < tags@.len() && tags@[i as int].tag@ == label@,
            None => !label_stored(tag_rows(tags@), label@),
        },
{
    let mut i: usize = 0;
    while i < tags.len()
        invariant
            i <= tags@.len(),
            forall|k: int| 0 <= k < i ==> (#[trigger] tag_rows(tags@)[k]).tag != label@,
        decreases tags.len() - i,
    {
        assert(tag_rows(tags@)[i as int] == tags@[i as int]@);
        if tags[i].tag == *label {
            return Some(i);
        }
        i = i + 1;
    }
    None
}

/// Tells whether `links` associates any item with the tag `tag_id`.
fn is_used(links: &Vec<TagLink>, tag_id: i32) -> (found: bool)
    ensures
        found == has_items(link_rows(links@), tag_id as int),
{
    let mut k: usize = 0;
    while k < links.len()
        invariant
            k <= links.len(),
            forall|j: int| 0 <= j < k ==> (#[trigger] link_rows(links@)[j]).tag_id != tag_id,
        decreases links.len() - k,
    {
        assert(link_rows(links@)[k as int] == links@[k as int]@);
        if links[k].tag_id == tag_id {
            return true;
        }
        k = k + 1;
    }
    false
}

/// Inserts a URL and gives the id of its bookmark. The URL is looked up by
/// its fingerprint. If a bookmark with that fingerprint is stored, its id
/// is the result and nothing changes: a URL is stored once however often it
/// is inserted, and the second insertion is no error. Otherwise the URL is
/// stored with the time `now` under the next id; this fails, and changes
/// nothing, when the ids have run out.
pub fn insert_url(store: &mut Store, url: &str, now: i64) -> (result: Result<i32, StoreError>)
    requires
        old(store)@.wf(),
    ensures
        final(store)@.wf(),
        final(store)@ == old(store)@.after_insert_url(url@, now as int),
        match result {
            Ok(id) => old(store)@.insert_url_id(url@) == Some(id as int)
                && final(store)@.tables.known_urls().contains(id as int),
            Err(e) => e == StoreError::IdsExhausted && old(store)@.insert_url_id(url@) is None,
        },
{
    let hash = calculate_url_hash(url);
    match find_url(&store.tables.urls, &hash) {
        Some(i) => {
            proof {
                assert(url_rows(store.tables.urls@)[i as int] == store.tables.urls@[i as int]@);
                lemma_url_id(store@, i as int);
            }
            Ok(store.tables.urls[i].id)
        },
        None => {
            if store.next_url_id < i32::MAX {
                let id = store.next_url_id;
                let ghost before = store@;
                let row = Url { id: id, datetime: now, url: url.to_owned(), url_hash: hash };
                store.tables.urls.push(row);
                store.next_url_id = id + 1;
                proof {
                    lemma_with_url_wf(before, url@, now as int);
                    assert(store@.tables.urls =~= before.with_url(url@, now as int).tables.urls);
                }
                Ok(id)
            } else {
                Err(StoreError::IdsExhausted)
            }
        },
    }
}

/// Gives the id of the tag `tag`, storing the tag first if it is new. This
/// fails, and changes nothing, when the tag is new and the ids have run out.
fn get_or_create_tag(store: &mut Store, tag: &str) -> (result: Result<i32, StoreError>)
    requires
        old(store)@.wf(),
        tag@.len() > 0,
    ensures
        final(store)@.wf(),
        match result {
            Ok(id) => old(store)@.can_resolve_tag(tag@) && final(store)@ == old(store)@.with_tag(
                tag@,
            ) && id as int == final(store)@.tables.tag_id(tag@),
            Err(e) => e == StoreError::IdsExhausted && !old(store)@.can_resolve_tag(tag@)
                && final(store)@ == old(store)@,
        },
{
    let label = tag.to_owned();
    proof {
        if old(store)@.can_resolve_tag(tag@) {
            lemma_with_tag_wf(old(store)@, tag@);
        }
    }
    match find_tag(&store.tables.tags, &label) {
        Some(i) => {
            proof {
                assert(tag_rows(store.tables.tags@)[i as int] == store.tables.tags@[i as int]@);
                lemma_tag_id(store@, i as int);
            }
            Ok(store.tables.tags[i].id)
        },
        None => {
            if store.next_tag_id < i32::MAX {
                let id = store.next_tag_id;
                let ghost before = store@;
                store.tables.tags.push(Tag { id: id, tag: label });
                store.next_tag_id = id + 1;
                proof {
                    assert(store@.tables.tags =~= before.with_tag(tag@).tables.tags);
                }
                Ok(id)
            } else {
                Err(StoreError::IdsExhausted)
            }
        },
    }
}

/// Associates the item `target_id` with the tag `tag_id`, unless it carries
/// the tag already.
fn link_to_tag(store: &mut Store, tag_id: i32, target_id: i32, kind: ItemKind)
    requires
        old(store)@.wf(),
        old(store)@.tables.known_items(kind).contains(target_id as int),
        old(store)@.tables.known_tags().contains(tag_id as int),
    ensures
        final(store)@.wf(),
        final(store)@ == old(store)@.with_link(kind, target_id as int, tag_id as int),
{
    let ghost before = store@;
    proof {
        lemma_with_link_wf(before, kind, target_id as int, tag_id as int);
    }
    let link = TagLink { item_id: target_id, tag_id: tag_id };
    match kind {
        ItemKind::Bookmark => {
            if !is_linked(&store.tables.url_tags, target_id, tag_id) {
                store.tables.url_tags.push(link);
                proof {
                    assert(store@.tables.url_tags =~= before.with_link(
                        kind,
                        target_id as int,
                        tag_id as int,
                    ).tables.url_tags);
                }
            }
        },
        ItemKind::Snippet => {
            if !is_linked(&store.tables.snippet_tags, target_id, tag_id) {
                store.tables.snippet_tags.push(link);
                proof {
                    assert(store@.tables.snippet_tags =~= before.with_link(
                        kind,
                        target_id as int,
                        tag_id as int,
                    ).tables.snippet_tags);
                }
            }
        },
    }
}

/// Associates the labels with the item, one by one. An empty label is
/// passed over. The first label that cannot be had ends the work with an
/// error; what was associated before it stays.
fn associate_stored(store: &mut Store, kind: ItemKind, item_id: i32, labels: &[&str]) -> (result: Result<
    (),
    StoreError,
>)
    requires
        old(store)@.wf(),
        old(store)@.tables.known_items(kind).contains(item_id as int),
    ensures
        final(store)@.wf(),
        final(store)@ == old(store)@.associate(kind, item_id as int, texts(labels@)),
        match result {
            Ok(done) => old(store)@.can_associate(kind, item_id as int, texts(labels@)),
            Err(e) => e == StoreError::IdsExhausted && !old(store)@.can_associate(
                kind,
                item_id as int,
                texts(labels@),
            ),
        },
{
    let ghost all = texts(labels@);
    let ghost start = store@;
    let mut i: usize = 0;
    assert(all.skip(0) =~= all);
    while i < labels.len()
        invariant
            i <= labels@.len(),
            all == texts(labels@),
            start == old(store)@,
            store@.wf(),
            store@.tables.known_items(kind).contains(item_id as int),
            start.associate(kind, item_id as int, all) == store@.associate(
                kind,
                item_id as int,
                all.skip(i as int),
            ),
            start.can_associate(kind, item_id as int, all) == store@.can_associate(
                kind,
                item_id as int,
                all.skip(i as int),
            ),
        decreases labels.len() - i,
    {
        let label: &str = labels[i];
        let ghost before = store@;
        proof {
            assert(all.skip(i as int)[0] == label@);
            assert(all.skip(i as int).drop_first() =~= all.skip(i + 1));
        }
        if !label.is_empty() {
            match get_or_create_tag(store, label) {
                Ok(tag_id) => {
                    proof {
                        lemma_with_tag_wf(before, label@);
                    }
                    link_to_tag(store, tag_id, item_id, kind);
                    proof {
                        lemma_with_label_wf(before, kind, item_id as int, label@);
                    }
                },
                Err(e) => {
                    proof {
                        let rest = all.skip(i as int);
                        assert(rest[0].len() > 0 && !before.can_resolve_tag(rest[0]));
                        assert(before.associate(kind, item_id as int, rest) == before);
                        assert(!before.can_associate(kind, item_id as int, rest));
                    }
                    return Err(e);
                },
            }
        }
        i = i + 1;
    }
    Ok(())
}

/// Tells whether an item of this kind with this id is stored.
pub fn is_stored(tables: &Tables, kind: ItemKind, id: i32) -> (found: bool)
    ensures
        found == tables@.known_items(kind).contains(id as int),
{
    match kind {
        ItemKind::Bookmark => {
            let mut i: usize = 0;
            while i < tables.urls.len()
                invariant
                    kind == ItemKind::Bookmark,
                    i <= tables.urls@.len(),
                    forall|k: int| 0 <= k < i ==> (#[trigger] tables@.urls[k]).id != id,
                decreases tables.urls.len() - i,
            {
                assert(tables@.urls[i as int] == tables.urls@[i as int]@);
                if tables.urls[i].id == id {
                    assert(url_stored(tables@.urls, id as int));
                    return true;
                }
                i = i + 1;
            }
            false
        },
        ItemKind::Snippet => {
            let mut i: usize = 0;
            while i < tables.snippets.len()
                invariant
                    kind == ItemKind::Snippet,
                    i <= tables.snippets@.len(),
                    forall|k: int| 0 <= k < i ==> (#[trigger] tables@.snippets[k]).id != id,
                decreases tables.snippets.len() - i,
            {
                assert(tables@.snippets[i as int] == tables.snippets@[i as int]@);
                if tables.snippets[i].id == id {
                    assert(snippet_stored(tables@.snippets, id as int));
                    return true;
                }
                i = i + 1;
            }
            false
        },
    }
}

/// Associates labels with a stored item. For each label that is not empty
/// the tag is stored, if it is new, and the item is made to carry it, if it
/// does not yet: a label that is named again changes nothing. With no
/// labels nothing happens. Where the item is not stored nothing happens and
/// the result is an error. The first tag for which no id is left ends the
/// work with an error; what was associated before it stays.
pub fn associate(store: &mut Store, kind: ItemKind, item_id: i32, labels: &[&str]) -> (result:
    Result<(), StoreError>)
    requires
        old(store)@.wf(),
    ensures
        final(store)@.wf(),
        final(store)@ == old(store)@.after_associate(kind, item_id as int, texts(labels@)),
        match result {
            Ok(done) => old(store)@.tables.known_items(kind).contains(item_id as int)
                && old(store)@.can_associate(kind, item_id as int, texts(labels@)),
            Err(e) => if old(store)@.tables.known_items(kind).contains(item_id as int) {
                e == StoreError::IdsExhausted && !old(store)@.can_associate(
                    kind,
                    item_id as int,
                    texts(labels@),
                )
            } else {
                e == StoreError::NoSuchItem
            },
        },
{
    if is_stored(&store.tables, kind, item_id) {
        associate_stored(store, kind, item_id, labels)
    } else {
        Err(StoreError::NoSuchItem)
    }
}

/// Tags a URL. With no labels nothing happens, and the URL is not stored.
/// Otherwise the URL is inserted, if it is new, and each label that is not
/// empty is associated with its bookmark: the tag is stored if it is new,
/// and the bookmark carries it once however often it is named. The first
/// row for which no id is left ends the work with an error; what was stored
/// before it stays.
pub fn insert_tags(store: &mut Store, url: &str, tags: &[&str], now: i64) -> (result: Result<
    (),
    StoreError,
>)
    requires
        old(store)@.wf(),
    ensures
        final(store)@.wf(),
        final(store)@ == old(store)@.after_insert_tags(url@, texts(tags@), now as int),
        match result {
            Ok(done) => old(store)@.can_insert_tags(url@, texts(tags@), now as int),
            Err(e) => e == StoreError::IdsExhausted && !old(store)@.can_insert_tags(
                url@,
                texts(tags@),
                now as int,
            ),
        },
{
    if tags.len() == 0 {
        return Ok(());
    }
    match insert_url(store, url, now) {
        Ok(url_id) => associate_stored(store, ItemKind::Bookmark, url_id, tags),
        Err(e) => Err(e),
    }
}

/// Stores a snippet under the next id and associates each label that is
/// not empty with it. Two snippets with the same text are two snippets.
/// The result is the id of the snippet. When no id is left for the snippet
/// nothing changes; when none is left for a tag, the snippet and what was
/// associated before that tag stay, and the result is an error.
pub fn insert_snippet(store: &mut Store, url: &str, snippet: &str, tags: &[&str], now: i64) -> (result:
    Result<i32, StoreError>)
    requires
        old(store)@.wf(),
    ensures
        final(store)@.wf(),
        final(store)@ == old(store)@.after_insert_snippet(
            url@,
            snippet@,
            texts(tags@),
            now as int,
        ),
        match result {
            Ok(id) => id as int == old(store)@.next_snippet_id && old(store)@.can_insert_snippet(
                url@,
                snippet@,
                texts(tags@),
                now as int,
            ),
            Err(e) => e == StoreError::IdsExhausted && !old(store)@.can_insert_snippet(
                url@,
                snippet@,
                texts(tags@),
                now as int,
            ),
        },
{
    if store.next_snippet_id >= i32::MAX {
        return Err(StoreError::IdsExhausted);
    }
    let id = store.next_snippet_id;
    let ghost before = store@;
    let row = Snippet { id: id, url: url.to_owned(), snippet: snippet.to_owned(), created_at: now };
    store.tables.snippets.push(row);
    store.next_snippet_id = id + 1;
    proof {
        lemma_with_snippet_wf(before, url@, snippet@, now as int);
        assert(store@.tables.snippets =~= before.with_snippet(
            url@,
            snippet@,
            now as int,
        ).tables.snippets);
    }
    match associate_stored(store, ItemKind::Snippet, id, tags) {
        Ok(done) => Ok(id),
        Err(e) => Err(e),
    }
}

/// Removes the associations of the item `item_id` from `links`.
fn drop_links_of(links: &mut Vec<TagLink>, item_id: i32)
    ensures
        link_rows(final(links)@) == link_rows(old(links)@).filter(
            |l: LinkRow| l.item_id != item_id as int,
        ),
{
    let ghost all = link_rows(links@);
    let ghost keep = |l: LinkRow| l.item_id != item_id as int;
    let ghost mut j: int = 0;
    let mut i: usize = 0;
    proof {
        all.take(0).lemma_filter_len(keep);
        assert(link_rows(links@).take(0) =~= all.take(0).filter(keep));
        assert(link_rows(links@).skip(0) =~= all.skip(0));
    }
    while i < links.len()
        invariant
            i <= links@.len(),
            0 <= j <= all.len(),
            links@.len() - i == all.len() - j,
            keep == |l: LinkRow| l.item_id != item_id as int,
            link_rows(links@).take(i as int) == all.take(j).filter(keep),
            link_rows(links@).skip(i as int) == all.skip(j),
        decreases links.len() - i,
    {
        let ghost now = link_rows(links@);
        assert(now[i as int] == links@[i as int]@);
        if links[i].item_id != item_id {
            proof {
                lemma_retain_step(now, now, all, i as int, j, keep);
            }
            i = i + 1;
        } else {
            links.remove(i);
            proof {
                assert(link_rows(links@) =~= now.remove(i as int));
                lemma_retain_step(now, link_rows(links@), all, i as int, j, keep);
            }
        }
        proof {
            j = j + 1;
        }
    }
    proof {
        assert(link_rows(links@).take(i as int) =~= link_rows(links@));
        assert(all.take(j) =~= all);
    }
}

/// Removes the bookmark `id` from `urls`.
fn drop_url(urls: &mut Vec<Url>, id: i32)
    ensures
        url_rows(final(urls)@) == url_rows(old(urls)@).filter(|u: UrlRow| u.id != id as int),
{
    let ghost all = url_rows(urls@);
    let ghost keep = |u: UrlRow| u.id != id as int;
    let ghost mut j: int = 0;
    let mut i: usize = 0;
    proof {
        all.take(0).lemma_filter_len(keep);
        assert(url_rows(urls@).take(0) =~= all.take(0).filter(keep));
        assert(url_rows(urls@).skip(0) =~= all.skip(0));
    }
    while i < urls.len()
        invariant
            i <= urls@.len(),
            0 <= j <= all.len(),
            urls@.len() - i == all.len() - j,
            keep == |u: UrlRow| u.id != id as int,
            url_rows(urls@).take(i as int) == all.take(j).filter(keep),
            url_rows(urls@).skip(i as int) == all.skip(j),
        decreases urls.len() - i,
    {
        let ghost now = url_rows(urls@);
        assert(now[i as int] == urls@[i as int]@);
        if urls[i].id != id {
            proof {
                lemma_retain_step(now, now, all, i as int, j, keep);
            }
            i = i + 1;
        } else {
            urls.remove(i);
            proof {
                assert(url_rows(urls@) =~= now.remove(i as int));
                lemma_retain_step(now, url_rows(urls@), all, i as int, j, keep);
            }
        }
        proof {
            j = j + 1;
        }
    }
    proof {
        assert(url_rows(urls@).take(i as int) =~= url_rows(urls@));
        assert(all.take(j) =~= all);
    }
}

/// Removes the snippet `id` from `snippets`.
fn drop_snippet(snippets: &mut Vec<Snippet>, id: i32)
    ensures
        snippet_rows(final(snippets)@) == snippet_rows(old(snippets)@).filter(
            |s: SnippetRow| s.id != id as int,
        ),
{
    let ghost all = snippet_rows(snippets@);
    let ghost keep = |s: SnippetRow| s.id != id as int;
    let ghost mut j: int = 0;
    let mut i: usize = 0;
    proof {
        all.take(0).lemma_filter_len(keep);
        assert(snippet_rows(snippets@).take(0) =~= all.take(0).filter(keep));
        assert(snippet_rows(snippets@).skip(0) =~= all.skip(0));
    }
    while i < snippets.len()
        invariant
            i <= snippets@.len(),
            0 <= j <= all.len(),
            snippets@.len() - i == all.len() - j,
            keep == |s: SnippetRow| s.id != id as int,
            snippet_rows(snippets@).take(i as int) == all.take(j).filter(keep),
            snippet_rows(snippets@).skip(i as int) == all.skip(j),
        decreases snippets.len() - i,
    {
        let ghost now = snippet_rows(snippets@);
        assert(now[i as int] == snippets@[i as int]@);
        if snippets[i].id != id {
            proof {
                lemma_retain_step(now, now, all, i as int, j, keep);
            }
            i = i + 1;
        } else {
            snippets.remove(i);
            proof {
                assert(snippet_rows(snippets@) =~= now.remove(i as int));
                lemma_retain_step(now, snippet_rows(snippets@), all, i as int, j, keep);
            }
        }
        proof {
            j = j + 1;
        }
    }
    proof {
        assert(snippet_rows(snippets@).take(i as int) =~= snippet_rows(snippets@));
        assert(all.take(j) =~= all);
    }
}

/// Removes from `tags` the tags that neither relation names.
fn drop_unused_tags(tags: &mut Vec<Tag>, url_tags: &Vec<TagLink>, snippet_tags: &Vec<TagLink>)
    ensures
        tag_rows(final(tags)@) == tag_rows(old(tags)@).filter(
            |t: TagRow| tag_used(link_rows(url_tags@), link_rows(snippet_tags@), t.id),
        ),
{
    let ghost all = tag_rows(tags@);
    let ghost keep = |t: TagRow| tag_used(link_rows(url_tags@), link_rows(snippet_tags@), t.id);
    let ghost mut j: int = 0;
    let mut i: usize = 0;
    proof {
        all.take(0).lemma_filter_len(keep);
        assert(tag_rows(tags@).take(0) =~= all.take(0).filter(keep));
        assert(tag_rows(tags@).skip(0) =~= all.skip(0));
    }
    while i < tags.len()
        invariant
            i <= tags@.len(),
            0 <= j <= all.len(),
            tags@.len() - i == all.len() - j,
            keep == |t: TagRow| tag_used(link_rows(url_tags@), link_rows(snippet_tags@), t.id),
            tag_rows(tags@).take(i as int) == all.take(j).filter(keep),
            tag_rows(tags@).skip(i as int) == all.skip(j),
        decreases tags.len() - i,
    {
        let ghost now = tag_rows(tags@);
        assert(now[i as int] == tags@[i as int]@);
        if is_used(url_tags, tags[i].id) || is_used(snippet_tags, tags[i].id) {
            proof {
                lemma_retain_step(now, now, all, i as int, j, keep);
            }
            i = i + 1;
        } else {
            tags.remove(i);
            proof {
                assert(tag_rows(tags@) =~= now.remove(i as int));
                lemma_retain_step(now, tag_rows(tags@), all, i as int, j, keep);
            }
        }
        proof {
            j = j + 1;
        }
    }
    proof {
        assert(tag_rows(tags@).take(i as int) =~= tag_rows(tags@));
        assert(all.take(j) =~= all);
    }
}

/// Deletes the bookmark with the id `id` and its associations. Its tags
/// stay, used or not. Where no bookmark has this id nothing is deleted.
pub fn delete_url(store: &mut Store, id: i32)
    requires
        old(store)@.wf(),
    ensures
        final(store)@.wf(),
        final(store)@ == old(store)@.without_url(id as int),
{
    proof {
        lemma_without_url_wf(store@, id as int);
    }
    drop_links_of(&mut store.tables.url_tags, id);
    drop_url(&mut store.tables.urls, id);
}

/// Deletes the bookmark of `url`, found by the fingerprint of the URL, and
/// its associations. Its tags stay, used or not. Where the URL is not
/// stored nothing changes.
pub fn delete_url_by_url(store: &mut Store, url: &str)
    requires
        old(store)@.wf(),
    ensures
        final(store)@.wf(),
        final(store)@ == old(store)@.after_delete_url_by_url(url@),
{
    let hash = calculate_url_hash(url);
    match find_url(&store.tables.urls, &hash) {
        Some(i) => {
            proof {
                assert(url_rows(store.tables.urls@)[i as int] == store.tables.urls@[i as int]@);
                lemma_url_id(store@, i as int);
            }
            let id = store.tables.urls[i].id;
            delete_url(store, id);
        },
        None => {},
    }
}

/// Deletes the snippet with the id `snippet_id` and its associations. Its
/// tags stay, used or not. Where no snippet has this id nothing is deleted.
pub fn delete_snippet(store: &mut Store, snippet_id: i32)
    requires
        old(store)@.wf(),
    ensures
        final(store)@.wf(),
        final(store)@ == old(store)@.without_snippet(snippet_id as int),
{
    proof {
        lemma_without_snippet_wf(store@, snippet_id as int);
    }
    drop_links_of(&mut store.tables.snippet_tags, snippet_id);
    drop_snippet(&mut store.tables.snippets, snippet_id);
}

/// Deletes every tag that no bookmark and no snippet carries. A tag that
/// any item of either kind carries stays.
pub fn remove_unused_tags(store: &mut Store)
    requires
        old(store)@.wf(),
    ensures
        final(store)@.wf(),
        final(store)@ == old(store)@.without_unused_tags(),
{
    proof {
        lemma_without_unused_tags_wf(store@);
    }
    drop_unused_tags(&mut store.tables.tags, &store.tables.url_tags, &store.tables.snippet_tags);
}

} // verus!
