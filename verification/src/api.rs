//! The requests that the archive serves.

use crate::models::snippet_records;
use crate::models::DeleteSnippet;
use crate::models::DeleteUrlByUrl;
use crate::models::NewSnippet;
use crate::models::NewUrl;
use crate::models::SnippetWithTags;
use crate::models::SnippetWithTagsRow;
use crate::models::UrlTags;
use crate::relations::Tables;
use crate::sanitize::sanitize_snippets;
use crate::sanitize::sanitized_record;
use crate::store::delete_url;
use crate::store::delete_url_by_url;
use crate::store::insert_url;
use crate::store::remove_unused_tags;
use crate::store::Store;
use crate::store::StoreError;
use crate::text::as_slices;
use crate::text::split_tags;
use crate::text::tag_labels;
use crate::views::get_snippets_with_tags;
use vstd::prelude::*;

verus! {

/// Saves a URL and gives the id of its bookmark: the id that the URL has
/// already, or a new one.
pub fn insert_record(store: &mut Store, request: &NewUrl, now: i64) -> (result: Result<
    i32,
    StoreError,
>)
    requires
        old(store)@.wf(),
    ensures
        final(store)@.wf(),
        final(store)@ == old(store)@.after_insert_url(request.url@, now as int),
        match result {
            Ok(id) => old(store)@.insert_url_id(request.url@) == Some(id as int),
            Err(e) => e == StoreError::IdsExhausted && old(store)@.insert_url_id(request.url@)
                is None,
        },
{
    insert_url(store, request.url.as_str(), now)
}

/// Tags a URL with the labels that the comma-separated list of the request
/// names. The URL is saved if it is new, also when every label is empty.
pub fn insert_tags(store: &mut Store, request: &UrlTags, now: i64) -> (result: Result<
    (),
    StoreError,
>)
    requires
        old(store)@.wf(),
    ensures
        final(store)@.wf(),
        final(store)@ == old(store)@.after_insert_tags(
            request.url@,
            tag_labels(request.tags@),
            now as int,
        ),
        match result {
            Ok(done) => old(store)@.can_insert_tags(
                request.url@,
                tag_labels(request.tags@),
                now as int,
            ),
            Err(e) => e == StoreError::IdsExhausted && !old(store)@.can_insert_tags(
                request.url@,
                tag_labels(request.tags@),
                now as int,
            ),
        },
{
    let labels = split_tags(request.tags.as_str());
    let slices = as_slices(&labels);
    crate::store::insert_tags(store, request.url.as_str(), slices.as_slice(), now)
}

/// Saves a snippet with the labels that the comma-separated list of the
/// request names, and gives the id of the snippet.
pub fn insert_snippet(store: &mut Store, request: &NewSnippet, now: i64) -> (result: Result<
    i32,
    StoreError,
>)
    requires
        old(store)@.wf(),
    ensures
        final(store)@.wf(),
        final(store)@ == old(store)@.after_insert_snippet(
            request.url@,
            request.snippet@,
            tag_labels(request.tags@),
            now as int,
        ),
        match result {
            Ok(id) => id as int == old(store)@.next_snippet_id && old(store)@.can_insert_snippet(
                request.url@,
                request.snippet@,
                tag_labels(request.tags@),
                now as int,
            ),
            Err(e) => e == StoreError::IdsExhausted && !old(store)@.can_insert_snippet(
                request.url@,
                request.snippet@,
                tag_labels(request.tags@),
                now as int,
            ),
        },
{
    let labels = split_tags(request.tags.as_str());
    let slices = as_slices(&labels);
    crate::store::insert_snippet(
        store,
        request.url.as_str(),
        request.snippet.as_str(),
        slices.as_slice(),
        now,
    )
}

/// Deletes the bookmark of a URL, then the tags that nothing carries any
/// more.
pub fn delete_record_by_url(store: &mut Store, request: &DeleteUrlByUrl)
    requires
        old(store)@.wf(),
    ensures
        final(store)@.wf(),
        final(store)@ == old(store)@.after_delete_url_by_url(request.url@).without_unused_tags(),
{
    delete_url_by_url(store, request.url.as_str());
    remove_unused_tags(store);
}

/// Deletes the bookmark with the given id, then the tags that nothing
/// carries any more.
pub fn delete_record(store: &mut Store, id: i32)
    requires
        old(store)@.wf(),
    ensures
        final(store)@.wf(),
        final(store)@ == old(store)@.without_url(id as int).without_unused_tags(),
{
    delete_url(store, id);
    remove_unused_tags(store);
}

/// Deletes a snippet, then the tags that nothing carries any more.
pub fn delete_snippet(store: &mut Store, request: &DeleteSnippet)
    requires
        old(store)@.wf(),
    ensures
        final(store)@.wf(),
        final(store)@ == old(store)@.without_snippet(request.id as int).without_unused_tags(),
{
    crate::store::delete_snippet(store, request.id);
    remove_unused_tags(store);
}

/// Lists every snippet with its tags, from the greatest id down, each text
/// sanitized for display.
pub fn snippets_page(tables: &Tables) -> (records: Vec<SnippetWithTags>)
    ensures
        snippet_records(records@) == tables@.snippets_with_tags().map_values(
            |record: SnippetWithTagsRow| sanitized_record(record),
        ),
{
    let records = get_snippets_with_tags(tables);
    sanitize_snippets(&records)
}

} // verus!
