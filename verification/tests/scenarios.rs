use read_it_later::api;
use read_it_later::fingerprint::calculate_url_hash;
use read_it_later::models::DeleteSnippet;
use read_it_later::models::DeleteUrlByUrl;
use read_it_later::models::ItemKind;
use read_it_later::models::NewSnippet;
use read_it_later::models::NewUrl;
use read_it_later::models::TagLink;
use read_it_later::models::UrlTags;
use read_it_later::store::associate;
use read_it_later::store::delete_snippet;
use read_it_later::store::delete_url;
use read_it_later::store::delete_url_by_url;
use read_it_later::store::insert_snippet;
use read_it_later::store::insert_tags;
use read_it_later::store::insert_url;
use read_it_later::store::is_stored;
use read_it_later::store::remove_unused_tags;
use read_it_later::store::Store;
use read_it_later::store::StoreError;
use read_it_later::views::get_all_urls;
use read_it_later::views::get_snippets_with_tags;
use read_it_later::views::get_tags_with_urls_and_snippets;
use read_it_later::views::get_urls_with_tags;
use read_it_later::views::is_linked;
use read_it_later::views::is_tagged;

fn labels_of_groups(db: &Store) -> Vec<String> {
    get_tags_with_urls_and_snippets(db.tables())
        .into_iter()
        .map(|group| group.tag)
        .collect()
}

#[test]
fn query_is_cut_from_the_display_url_and_a_second_insert_changes_nothing() {
    let mut db = Store::new();
    let url = "https://ex.com/a?x=1";

    let first = insert_url(&mut db, url, 10).unwrap();
    let entries = get_urls_with_tags(db.tables());
    assert_eq!(entries.len(), 1);
    assert_eq!(entries[0].url, url);
    assert_eq!(entries[0].display_url, "https://ex.com/a");
    assert!(entries[0].tags.is_empty());

    let second = insert_url(&mut db, url, 20).unwrap();
    assert_eq!(first, second);
    let rows = get_all_urls(db.tables());
    assert_eq!(rows.len(), 1);
    assert_eq!(rows[0].id, first);
    assert_eq!(rows[0].datetime, 10);
    assert_eq!(rows[0].url_hash, calculate_url_hash(url));
}

#[test]
fn snippet_with_two_tags_is_listed_under_both_and_not_as_untagged() {
    let mut db = Store::new();
    let request = NewSnippet {
        url: "https://ex.com".to_string(),
        snippet: "a text".to_string(),
        tags: "foo, bar".to_string(),
    };
    let id = api::insert_snippet(&mut db, &request, 1).unwrap();

    let groups = get_tags_with_urls_and_snippets(db.tables());
    assert_eq!(groups.len(), 3);
    assert_eq!(groups[0].tag, "");
    assert!(groups[0].snippets.is_empty());
    assert!(groups[0].urls.is_empty());
    assert_eq!(groups[1].tag, "bar");
    assert_eq!(groups[2].tag, "foo");
    for group in &groups[1..] {
        assert!(group.urls.is_empty());
        assert_eq!(group.snippets.len(), 1);
        assert_eq!(group.snippets[0].id, id);
        assert_eq!(group.snippets[0].snippet, "a text");
        assert_eq!(group.snippets[0].url, "https://ex.com");
        assert_eq!(group.snippets[0].tags, vec!["foo", "bar"]);
    }
}

#[test]
fn untagged_bookmark_is_in_the_first_group_until_it_is_deleted() {
    let mut db = Store::new();
    let url = "https://ex.com/plain";
    insert_url(&mut db, url, 1).unwrap();

    let groups = get_tags_with_urls_and_snippets(db.tables());
    assert_eq!(groups.len(), 1);
    assert_eq!(groups[0].tag, "");
    assert_eq!(groups[0].urls, vec![url]);

    delete_url_by_url(&mut db, url);
    let groups = get_tags_with_urls_and_snippets(db.tables());
    assert_eq!(groups.len(), 1);
    assert!(groups[0].urls.is_empty());
    assert_eq!(db.tables().urls.len(), 0);
}

#[test]
fn shared_tag_outlives_the_bookmark_while_a_snippet_carries_it() {
    let mut db = Store::new();
    let url = "https://ex.com/shared";
    insert_tags(&mut db, url, &["shared"], 1).unwrap();
    let snippet_id = insert_snippet(&mut db, url, "kept", &["shared"], 2).unwrap();
    assert_eq!(db.tables().tags.len(), 1);

    let request = DeleteUrlByUrl { url: url.to_string() };
    api::delete_record_by_url(&mut db, &request);

    assert_eq!(db.tables().tags.len(), 1);
    assert_eq!(db.tables().tags[0].tag, "shared");
    let groups = get_tags_with_urls_and_snippets(db.tables());
    assert_eq!(groups.len(), 2);
    assert_eq!(groups[1].tag, "shared");
    assert!(groups[1].urls.is_empty());
    assert_eq!(groups[1].snippets.len(), 1);
    assert_eq!(groups[1].snippets[0].id, snippet_id);

    api::delete_snippet(&mut db, &DeleteSnippet { id: snippet_id });
    assert!(db.tables().tags.is_empty());
    assert_eq!(labels_of_groups(&db), vec![""]);
}

#[test]
fn one_tag_row_and_two_associations_for_a_label_on_two_items() {
    let mut db = Store::new();
    let first = insert_url(&mut db, "https://a.example", 1).unwrap();
    let second = insert_url(&mut db, "https://b.example", 2).unwrap();
    insert_tags(&mut db, "https://a.example", &["t"], 3).unwrap();
    insert_tags(&mut db, "https://b.example", &["t"], 4).unwrap();

    assert_eq!(db.tables().tags.len(), 1);
    let tag_id = db.tables().tags[0].id;
    assert_eq!(
        db.tables().url_tags,
        vec![
            TagLink { item_id: first, tag_id },
            TagLink { item_id: second, tag_id }
        ]
    );
    assert!(is_linked(&db.tables().url_tags, first, tag_id));
    assert!(!is_linked(&db.tables().url_tags, first, tag_id + 1));
    assert!(is_tagged(&db.tables().url_tags, second));
    assert!(!is_tagged(&db.tables().snippet_tags, second));
}

#[test]
fn a_label_named_twice_is_associated_once_and_empty_labels_are_passed_over() {
    let mut db = Store::new();
    insert_tags(&mut db, "https://a.example", &["x", "", "x", "y", ""], 1).unwrap();
    insert_tags(&mut db, "https://a.example", &["y", "x"], 2).unwrap();

    assert_eq!(db.tables().urls.len(), 1);
    assert_eq!(db.tables().tags.len(), 2);
    assert_eq!(db.tables().url_tags.len(), 2);
    assert_eq!(get_urls_with_tags(db.tables())[0].tags, vec!["x", "y"]);
    assert_eq!(labels_of_groups(&db), vec!["", "x", "y"]);
}

#[test]
fn no_labels_means_that_nothing_is_stored() {
    let mut db = Store::new();
    insert_tags(&mut db, "https://a.example", &[], 1).unwrap();
    assert!(db.tables().urls.is_empty());

    insert_tags(&mut db, "https://a.example", &[""], 1).unwrap();
    assert_eq!(db.tables().urls.len(), 1);
    assert!(db.tables().tags.is_empty());
    assert!(db.tables().url_tags.is_empty());
}

#[test]
fn sweep_removes_unused_tags_only_and_can_be_repeated() {
    let mut db = Store::new();
    insert_tags(&mut db, "https://a.example", &["only-url", "both"], 1).unwrap();
    let snippet_id = insert_snippet(&mut db, "src", "text", &["both", "only-snippet"], 2).unwrap();

    remove_unused_tags(&mut db);
    assert_eq!(db.tables().tags.len(), 3);

    delete_url_by_url(&mut db, "https://a.example");
    assert_eq!(db.tables().tags.len(), 3);
    assert!(db.tables().url_tags.is_empty());
    remove_unused_tags(&mut db);
    let left: Vec<&str> = db.tables().tags.iter().map(|t| t.tag.as_str()).collect();
    assert_eq!(left, vec!["both", "only-snippet"]);
    remove_unused_tags(&mut db);
    assert_eq!(db.tables().tags.len(), 2);

    delete_snippet(&mut db, snippet_id);
    remove_unused_tags(&mut db);
    assert!(db.tables().tags.is_empty());
    assert!(db.tables().snippet_tags.is_empty());
}

#[test]
fn deleting_what_is_not_there_changes_nothing() {
    let mut db = Store::new();
    let id = insert_url(&mut db, "https://a.example", 1).unwrap();
    insert_tags(&mut db, "https://a.example", &["t"], 1).unwrap();

    delete_url_by_url(&mut db, "https://other.example");
    delete_url(&mut db, id + 1);
    delete_snippet(&mut db, 1);
    assert_eq!(db.tables().urls.len(), 1);
    assert_eq!(db.tables().url_tags.len(), 1);

    delete_url(&mut db, id);
    delete_url(&mut db, id);
    assert!(db.tables().urls.is_empty());
    assert!(db.tables().url_tags.is_empty());
    assert_eq!(db.tables().tags.len(), 1);
}

#[test]
fn ids_are_not_given_out_again() {
    let mut db = Store::new();
    let first = insert_url(&mut db, "https://a.example", 1).unwrap();
    assert_eq!(first, 1);
    delete_url(&mut db, first);
    let second = insert_url(&mut db, "https://a.example", 2).unwrap();
    assert_eq!(second, 2);

    let s1 = insert_snippet(&mut db, "u", "one", &[], 1).unwrap();
    let s2 = insert_snippet(&mut db, "u", "one", &[], 1).unwrap();
    assert_eq!((s1, s2), (1, 2));
    assert_eq!(db.tables().snippets.len(), 2);
}

#[test]
fn bookmarks_are_listed_newest_first() {
    let mut db = Store::new();
    insert_url(&mut db, "https://old.example", 100).unwrap();
    insert_url(&mut db, "https://new.example", 300).unwrap();
    insert_url(&mut db, "https://mid.example", 200).unwrap();
    insert_url(&mut db, "https://mid2.example", 200).unwrap();

    let urls: Vec<String> = get_all_urls(db.tables()).into_iter().map(|u| u.url).collect();
    assert_eq!(
        urls,
        vec![
            "https://new.example",
            "https://mid2.example",
            "https://mid.example",
            "https://old.example"
        ]
    );
    let entries: Vec<String> = get_urls_with_tags(db.tables()).into_iter().map(|u| u.url).collect();
    assert_eq!(entries, urls);
}

#[test]
fn snippets_are_listed_from_the_greatest_id_down() {
    let mut db = Store::new();
    insert_snippet(&mut db, "u", "first", &[], 5).unwrap();
    insert_snippet(&mut db, "u", "second", &["t"], 1).unwrap();
    insert_snippet(&mut db, "u", "third", &[], 3).unwrap();

    let ids: Vec<i32> = get_snippets_with_tags(db.tables()).iter().map(|s| s.id).collect();
    assert_eq!(ids, vec![3, 2, 1]);
    let groups = get_tags_with_urls_and_snippets(db.tables());
    let untagged: Vec<i32> = groups[0].snippets.iter().map(|s| s.id).collect();
    assert_eq!(untagged, vec![1, 3]);
}

#[test]
fn groups_are_ordered_by_label_in_code_point_order() {
    let mut db = Store::new();
    insert_tags(&mut db, "https://a.example", &["b", "ab", "B", "a", "\u{e9}", "abc"], 1).unwrap();
    assert_eq!(labels_of_groups(&db), vec!["", "B", "a", "ab", "abc", "b", "\u{e9}"]);
}

#[test]
fn views_hold_the_same_pairs() {
    let mut db = Store::new();
    insert_tags(&mut db, "https://a.example", &["x", "y"], 1).unwrap();
    insert_tags(&mut db, "https://b.example", &["y"], 2).unwrap();
    insert_url(&mut db, "https://c.example", 3).unwrap();
    insert_snippet(&mut db, "https://a.example", "s", &["z"], 4).unwrap();

    let mut by_url: Vec<(String, String)> = Vec::new();
    for entry in get_urls_with_tags(db.tables()) {
        for tag in entry.tags {
            by_url.push((entry.url.clone(), tag));
        }
    }
    let mut by_tag: Vec<(String, String)> = Vec::new();
    for group in get_tags_with_urls_and_snippets(db.tables()).into_iter().skip(1) {
        for url in group.urls {
            by_tag.push((url, group.tag.clone()));
        }
    }
    by_url.sort();
    by_tag.sort();
    assert_eq!(by_url, by_tag);
    assert_eq!(by_url.len(), 3);
}

#[test]
fn untagged_items_are_in_the_first_group_and_nowhere_else() {
    let mut db = Store::new();
    insert_tags(&mut db, "https://tagged.example", &["t"], 1).unwrap();
    insert_url(&mut db, "https://plain.example", 2).unwrap();
    let tagged = insert_snippet(&mut db, "u", "tagged", &["t"], 3).unwrap();
    let plain = insert_snippet(&mut db, "u", "plain", &[], 4).unwrap();

    let groups = get_tags_with_urls_and_snippets(db.tables());
    assert_eq!(groups[0].urls, vec!["https://plain.example"]);
    assert_eq!(groups[0].snippets.len(), 1);
    assert_eq!(groups[0].snippets[0].id, plain);
    assert!(groups[0].snippets[0].tags.is_empty());
    assert_eq!(groups[1].urls, vec!["https://tagged.example"]);
    assert_eq!(groups[1].snippets.len(), 1);
    assert_eq!(groups[1].snippets[0].id, tagged);
}

#[test]
fn no_id_left_for_a_bookmark() {
    let mut db = Store::starting_at(i32::MAX - 1);
    assert_eq!(insert_url(&mut db, "https://a.example", 1), Ok(i32::MAX - 1));
    assert_eq!(insert_url(&mut db, "https://b.example", 2), Err(StoreError::IdsExhausted));
    assert_eq!(insert_url(&mut db, "https://a.example", 3), Ok(i32::MAX - 1));
    assert_eq!(db.tables().urls.len(), 1);
    assert_eq!(
        insert_tags(&mut db, "https://b.example", &["t"], 4),
        Err(StoreError::IdsExhausted)
    );
    assert!(db.tables().tags.is_empty());
}

#[test]
fn no_id_left_for_a_snippet() {
    let mut db = Store::starting_at(i32::MAX);
    assert_eq!(insert_snippet(&mut db, "u", "s", &["t"], 1), Err(StoreError::IdsExhausted));
    assert!(db.tables().snippets.is_empty());
    assert!(db.tables().tags.is_empty());
}

#[test]
fn no_id_left_for_a_tag_keeps_what_was_stored_before() {
    let mut db = Store::starting_at(i32::MAX - 1);
    let result = insert_tags(&mut db, "https://a.example", &["one", "two", "three"], 1);
    assert_eq!(result, Err(StoreError::IdsExhausted));
    assert_eq!(db.tables().urls.len(), 1);
    assert_eq!(db.tables().tags.len(), 1);
    assert_eq!(db.tables().tags[0].tag, "one");
    assert_eq!(db.tables().url_tags.len(), 1);

    assert_eq!(insert_tags(&mut db, "https://a.example", &["one", ""], 2), Ok(()));

    let result = insert_snippet(&mut db, "u", "s", &["one", "two"], 3);
    assert_eq!(result, Err(StoreError::IdsExhausted));
    assert_eq!(db.tables().snippets.len(), 1);
    assert_eq!(db.tables().snippet_tags.len(), 1);
}

#[test]
fn a_store_does_not_start_below_one() {
    let mut db = Store::starting_at(-5);
    assert_eq!(insert_url(&mut db, "https://a.example", 1), Ok(1));
    let mut other = Store::starting_at(7);
    assert_eq!(insert_snippet(&mut other, "u", "s", &["t"], 1), Ok(7));
    assert_eq!(other.tables().tags[0].id, 7);
}

#[test]
fn requests_are_served() {
    let mut db = Store::new();
    let id = api::insert_record(&mut db, &NewUrl { url: "https://a.example?q".to_string() }, 1).unwrap();
    assert_eq!(id, 1);

    let tagging = UrlTags { url: "https://a.example?q".to_string(), tags: " red ,, blue".to_string() };
    api::insert_tags(&mut db, &tagging, 2).unwrap();
    let entries = get_urls_with_tags(db.tables());
    assert_eq!(entries.len(), 1);
    assert_eq!(entries[0].tags, vec!["red", "blue"]);
    assert_eq!(entries[0].display_url, "https://a.example");

    let untagged = UrlTags { url: "https://b.example".to_string(), tags: "".to_string() };
    api::insert_tags(&mut db, &untagged, 3).unwrap();
    assert_eq!(db.tables().urls.len(), 2);
    assert_eq!(db.tables().tags.len(), 2);

    api::delete_record_by_url(&mut db, &DeleteUrlByUrl { url: "https://a.example?q".to_string() });
    assert_eq!(db.tables().urls.len(), 1);
    assert!(db.tables().tags.is_empty());
}

#[test]
fn labels_are_associated_with_a_stored_item_only() {
    let mut db = Store::new();
    let url_id = insert_url(&mut db, "https://a.example", 1).unwrap();
    let snippet_id = insert_snippet(&mut db, "u", "s", &[], 2).unwrap();
    assert!(is_stored(db.tables(), ItemKind::Bookmark, url_id));
    assert!(is_stored(db.tables(), ItemKind::Snippet, snippet_id));
    assert!(!is_stored(db.tables(), ItemKind::Bookmark, url_id + 1));
    assert!(!is_stored(db.tables(), ItemKind::Snippet, snippet_id + 1));

    assert_eq!(associate(&mut db, ItemKind::Bookmark, url_id, &["t", "", "u"]), Ok(()));
    assert_eq!(associate(&mut db, ItemKind::Snippet, snippet_id, &["u"]), Ok(()));
    assert_eq!(associate(&mut db, ItemKind::Snippet, snippet_id, &[]), Ok(()));
    assert_eq!(
        associate(&mut db, ItemKind::Snippet, snippet_id + 1, &["v"]),
        Err(StoreError::NoSuchItem)
    );
    assert_eq!(
        associate(&mut db, ItemKind::Bookmark, url_id + 1, &[]),
        Err(StoreError::NoSuchItem)
    );

    assert_eq!(db.tables().tags.len(), 2);
    assert_eq!(db.tables().url_tags.len(), 2);
    assert_eq!(db.tables().snippet_tags.len(), 1);
    assert_eq!(labels_of_groups(&db), vec!["", "t", "u"]);
    let groups = get_tags_with_urls_and_snippets(db.tables());
    assert_eq!(groups[2].urls, vec!["https://a.example"]);
    assert_eq!(groups[2].snippets.len(), 1);
    assert_eq!(groups[2].snippets[0].tags, vec!["u"]);
}

#[test]
fn a_bookmark_and_a_snippet_with_the_same_id_are_two_items() {
    let mut db = Store::new();
    let url_id = insert_url(&mut db, "https://a.example", 1).unwrap();
    let snippet_id = insert_snippet(&mut db, "u", "s", &["t"], 2).unwrap();
    assert_eq!(url_id, snippet_id);

    let groups = get_tags_with_urls_and_snippets(db.tables());
    assert_eq!(groups[0].urls, vec!["https://a.example"]);
    assert!(groups[0].snippets.is_empty());
    assert!(groups[1].urls.is_empty());
    assert_eq!(groups[1].snippets.len(), 1);

    delete_url(&mut db, url_id);
    assert_eq!(db.tables().snippets.len(), 1);
    assert_eq!(db.tables().snippet_tags.len(), 1);
}

#[test]
fn a_bookmark_is_deleted_by_id_with_the_tags_that_only_it_carried() {
    let mut db = Store::new();
    insert_tags(&mut db, "https://a.example", &["mine", "ours"], 1).unwrap();
    insert_tags(&mut db, "https://b.example", &["ours"], 2).unwrap();
    let id = db.tables().urls[0].id;

    api::delete_record(&mut db, id);
    assert_eq!(db.tables().urls.len(), 1);
    assert_eq!(labels_of_groups(&db), vec!["", "ours"]);

    api::delete_record(&mut db, id);
    assert_eq!(db.tables().urls.len(), 1);
    assert_eq!(db.tables().tags.len(), 1);
}
