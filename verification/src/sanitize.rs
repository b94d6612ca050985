//! Cleaning of the texts that are shown as HTML.

use crate::models::snippet_records;
use crate::models::SnippetWithTags;
use crate::models::SnippetWithTagsRow;
use crate::text::texts;
use vstd::prelude::*;
use vstd::string::*;

verus! {

/// The sanitized form of the HTML fragment `input` as the `ammonia` crate
/// computes it when `tags` and `attributes` are allowed besides what it
/// allows by itself.
pub uninterp spec fn cleaned_html(
    input: Seq<char>,
    tags: Seq<Seq<char>>,
    attributes: Seq<Seq<char>>,
) -> Seq<char>;

/// Calls `ammonia::Builder::default`, `add_tags`, `add_generic_attributes`
/// and `clean`, and renders the document that comes back. Trusted: the
/// result depends on the three arguments alone. The tags `script` and
/// `style` and the attribute `rel` are left out because the builder's
/// settings forbid them: `clean` panics when one of them is allowed.
#[verifier::external_body]
fn clean_html(input: &str, tags: &[&str], attributes: &[&str]) -> (clean: String)
    requires
        !texts(tags@).contains("script"@),
        !texts(tags@).contains("style"@),
        !texts(attributes@).contains("rel"@),
    ensures
        clean@ == cleaned_html(input@, texts(tags@), texts(attributes@)),
{
    ammonia::Builder::default()
        .add_tags(tags.iter().copied())
        .add_generic_attributes(attributes.iter().copied())
        .clean(input)
        .to_string()
}

/// The tags that may stand in a text besides those that are allowed anyway.
pub open spec fn allowed_tags() -> Seq<Seq<char>> {
    seq!["b"@, "i"@, "em"@, "strong"@, "a"@]
}

/// The attributes that any tag may carry besides those that are allowed
/// anyway.
pub open spec fn allowed_attributes() -> Seq<Seq<char>> {
    seq!["href"@, "title"@]
}

/// The sanitized form of a text.
pub open spec fn sanitized(input: Seq<char>) -> Seq<char> {
    cleaned_html(input, allowed_tags(), allowed_attributes())
}

/// The record of a snippet with every text of it sanitized.
pub open spec fn sanitized_record(record: SnippetWithTagsRow) -> SnippetWithTagsRow {
    SnippetWithTagsRow {
        id: record.id,
        snippet: sanitized(record.snippet),
        url: sanitized(record.url),
        tags: record.tags.map_values(|tag: Seq<char>| sanitized(tag)),
    }
}

/// Sanitizes a text that is shown as HTML. The tags `b`, `i`, `em`,
/// `strong` and `a` and the attributes `href` and `title` are allowed
/// besides what the sanitizer allows by itself.
pub fn sanitize_with_allowed_tags(input: &str) -> (clean: String)
    ensures
        clean@ == sanitized(input@),
{
    let mut tags: Vec<&str> = Vec::new();
    tags.push("b");
    tags.push("i");
    tags.push("em");
    tags.push("strong");
    tags.push("a");
    let mut attributes: Vec<&str> = Vec::new();
    attributes.push("href");
    attributes.push("title");
    proof {
        reveal_strlit("b");
        reveal_strlit("i");
        reveal_strlit("em");
        reveal_strlit("strong");
        reveal_strlit("a");
        reveal_strlit("href");
        reveal_strlit("title");
        reveal_strlit("script");
        reveal_strlit("style");
        reveal_strlit("rel");
        let names = texts(tags@);
        let keys = texts(attributes@);
        assert(names =~= allowed_tags());
        assert(keys =~= allowed_attributes());
        assert("b"@.len() == 1 && "i"@.len() == 1 && "em"@.len() == 2 && "a"@.len() == 1);
        assert("strong"@[1] == 't' && "script"@[1] == 'c');
        assert("script"@.len() == 6 && "style"@.len() == 5 && "strong"@.len() == 6);
        assert("rel"@.len() == 3 && "href"@.len() == 4 && "title"@.len() == 5);
        assert forall|k: int| 0 <= k < names.len() implies names[k] != "script"@ && names[k]
            != "style"@ by {
            if k == 0 {
                assert(names[k] == "b"@);
            } else if k == 1 {
                assert(names[k] == "i"@);
            } else if k == 2 {
                assert(names[k] == "em"@);
            } else if k == 3 {
                assert(names[k] == "strong"@);
            } else {
                assert(names[k] == "a"@);
            }
        }
        assert forall|k: int| 0 <= k < keys.len() implies keys[k] != "rel"@ by {
            if k == 0 {
                assert(keys[k] == "href"@);
            } else {
                assert(keys[k] == "title"@);
            }
        }
    }
    clean_html(input, tags.as_slice(), attributes.as_slice())
}

/// Sanitizes the text, the URL and every label of a snippet.
pub fn sanitize_snippet(record: &SnippetWithTags) -> (clean: SnippetWithTags)
    ensures
        clean@ == sanitized_record(record@),
{
    let mut tags: Vec<String> = Vec::new();
    let mut i: usize = 0;
    assert(tags.deep_view() =~= record.tags.deep_view().take(0).map_values(
        |tag: Seq<char>| sanitized(tag),
    ));
    while i < record.tags.len()
        invariant
            i <= record.tags@.len(),
            tags.deep_view() == record.tags.deep_view().take(i as int).map_values(
                |tag: Seq<char>| sanitized(tag),
            ),
        decreases record.tags.len() - i,
    {
        let ghost before = tags.deep_view();
        let clean = sanitize_with_allowed_tags(record.tags[i].as_str());
        tags.push(clean);
        proof {
            let all = record.tags.deep_view();
            assert(all[i as int] == record.tags@[i as int]@);
            assert(all.take(i + 1) =~= all.take(i as int).push(all[i as int]));
            assert(tags.deep_view() =~= before.push(sanitized(all[i as int])));
            assert(tags.deep_view() =~= all.take(i + 1).map_values(
                |tag: Seq<char>| sanitized(tag),
            ));
        }
        i = i + 1;
    }
    assert(record.tags.deep_view().take(i as int) =~= record.tags.deep_view());
    SnippetWithTags {
        id: record.id,
        snippet: sanitize_with_allowed_tags(record.snippet.as_str()),
        url: sanitize_with_allowed_tags(record.url.as_str()),
        tags: tags,
    }
}

/// Sanitizes every snippet of a list, keeping the order of the list.
pub fn sanitize_snippets(records: &Vec<SnippetWithTags>) -> (clean: Vec<SnippetWithTags>)
    ensures
        snippet_records(clean@) == snippet_records(records@).map_values(
            |record: SnippetWithTagsRow| sanitized_record(record),
        ),
{
    let mut clean: Vec<SnippetWithTags> = Vec::new();
    let mut i: usize = 0;
    assert(snippet_records(clean@) =~= snippet_records(records@).take(0).map_values(
        |record: SnippetWithTagsRow| sanitized_record(record),
    ));
    while i < records.len()
        invariant
            i <= records@.len(),
            snippet_records(clean@) == snippet_records(records@).take(i as int).map_values(
                |record: SnippetWithTagsRow| sanitized_record(record),
            ),
        decreases records.len() - i,
    {
        let ghost before = snippet_records(clean@);
        let record = sanitize_snippet(&records[i]);
        clean.push(record);
        proof {
            let all = snippet_records(records@);
            assert(all.take(i + 1) =~= all.take(i as int).push(all[i as int]));
            assert(snippet_records(clean@) =~= before.push(sanitized_record(all[i as int])));
            assert(snippet_records(clean@) =~= all.take(i + 1).map_values(
                |record: SnippetWithTagsRow| sanitized_record(record),
            ));
        }
        i = i + 1;
    }
    assert(snippet_records(records@).take(i as int) =~= snippet_records(records@));
    clean
}

} // verus!
