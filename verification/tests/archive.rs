use read_it_later::store::delete_snippet;
use read_it_later::store::delete_url_by_url;
use read_it_later::store::insert_snippet;
use read_it_later::store::insert_tags;
use read_it_later::store::insert_url;
use read_it_later::store::remove_unused_tags;
use read_it_later::store::Store;
use read_it_later::views::get_all_urls;
use read_it_later::views::get_snippets_with_tags;
use read_it_later::views::get_tags_with_urls_and_snippets;
use read_it_later::views::get_urls_with_tags;

fn setup_test_db() -> Store {
    Store::new()
}

#[test]
fn test_insert_url() {
    let mut db = setup_test_db();
    let url = "https://example.com";

    let url_id = insert_url(&mut db, url, 1).unwrap();
    assert!(url_id > 0);

    let inserted_url = db
        .tables()
        .urls
        .iter()
        .find(|row| row.id == url_id)
        .expect("the inserted row");
    assert_eq!(inserted_url.url, url);
}

#[test]
fn test_insert_snippet() {
    let mut db = setup_test_db();
    let url = "https://example.com";
    let snippet = "This is a test snippet.";
    let tags = vec!["tag1", "tag2"];

    let snippet_id = insert_snippet(&mut db, url, snippet, &tags, 1).unwrap();
    assert!(snippet_id > 0);

    let inserted_snippet = db
        .tables()
        .snippets
        .iter()
        .find(|row| row.id == snippet_id)
        .expect("the inserted row");
    assert_eq!(inserted_snippet.url, url);
    assert_eq!(inserted_snippet.snippet, snippet);

    let stored_tags = get_snippets_with_tags(db.tables())
        .into_iter()
        .find(|record| record.id == snippet_id)
        .expect("the inserted record")
        .tags;
    assert_eq!(stored_tags, tags);
}

#[test]
fn test_get_snippets_with_tags() {
    let mut db = setup_test_db();
    let url = "https://example.com";
    let snippet = "This is a test snippet.";
    let tags = vec!["tag1", "tag2"];

    insert_snippet(&mut db, url, snippet, &tags, 1).unwrap();

    let snippets = get_snippets_with_tags(db.tables());
    assert_eq!(snippets.len(), 1);

    let retrieved_snippet = &snippets[0];
    assert_eq!(retrieved_snippet.url, url);
    assert_eq!(retrieved_snippet.snippet, snippet);
    assert_eq!(retrieved_snippet.tags, tags);
}

#[test]
fn test_get_all_urls() {
    let mut db = setup_test_db();

    let url1 = "https://example1.com";
    let url2 = "https://example2.com";

    insert_url(&mut db, url1, 1).unwrap();
    insert_url(&mut db, url2, 2).unwrap();

    let urls = get_all_urls(db.tables());
    assert_eq!(urls.len(), 2);
    assert!(urls.iter().any(|u| u.url == url1));
    assert!(urls.iter().any(|u| u.url == url2));
}

#[test]
fn test_get_urls_with_tags() {
    let mut db = setup_test_db();

    let url = "https://example.com";
    let tags = vec!["tag1", "tag2"];
    insert_tags(&mut db, url, &tags, 1).unwrap();

    let urls_with_tags = get_urls_with_tags(db.tables());
    assert_eq!(urls_with_tags.len(), 1);
    let retrieved = &urls_with_tags[0];
    assert_eq!(retrieved.url, url);
    assert_eq!(retrieved.tags, tags);
}

#[test]
fn test_delete_url_by_url() {
    let mut db = setup_test_db();

    let url = "https://example.com";
    insert_url(&mut db, url, 1).unwrap();
    delete_url_by_url(&mut db, url);

    let urls = get_all_urls(db.tables());
    assert!(urls.is_empty());
}

#[test]
fn test_insert_tags() {
    let mut db = setup_test_db();

    let url = "https://example.com";
    let tags = vec!["tag1", "tag2"];
    insert_tags(&mut db, url, &tags, 1).unwrap();

    let urls_with_tags = get_urls_with_tags(db.tables());
    assert_eq!(urls_with_tags.len(), 1);
    assert_eq!(urls_with_tags[0].tags, tags);
}

#[test]
fn test_remove_unused_tags() {
    let mut db = setup_test_db();

    let url = "https://example.com";
    let tags = vec!["tag1", "tag2"];
    insert_tags(&mut db, url, &tags, 1).unwrap();
    delete_url_by_url(&mut db, url);
    remove_unused_tags(&mut db);

    let remaining_tags: Vec<String> = db.tables().tags.iter().map(|t| t.tag.clone()).collect();
    assert!(remaining_tags.is_empty());
}

#[test]
fn test_delete_snippet() {
    let mut db = setup_test_db();

    let url = "https://example.com";
    let snippet = "This is a test snippet.";
    let tags = vec!["tag1", "tag2"];
    let snippet_id = insert_snippet(&mut db, url, snippet, &tags, 1).unwrap();

    delete_snippet(&mut db, snippet_id);
    let snippets = get_snippets_with_tags(db.tables());
    assert!(snippets.is_empty());
}

#[test]
fn test_get_tags_with_urls_and_snippets() {
    let mut db = setup_test_db();

    let url1 = "https://example1.com";
    let url2 = "https://example2.com";
    let untagged_url = "https://untagged.com";
    let snippet1 = "Test snippet content 1.";
    let snippet2 = "Test snippet content 2.";
    let snippet3 = "Test snippet content 3.";
    let untagged_snippet = "Untagged snippet content.";

    let tags_url1 = vec!["tag1", "tag2"];
    let tags_url2 = vec!["tag2", "tag3"];
    let tags_snippet1 = vec!["tag1", "tag4"];
    let tags_snippet2 = vec!["tag2", "tag3"];
    let tags_snippet3 = vec!["tag4"];

    insert_tags(&mut db, url1, &tags_url1, 1).unwrap();
    insert_tags(&mut db, url2, &tags_url2, 2).unwrap();

    insert_snippet(&mut db, url1, snippet1, &tags_snippet1, 3).unwrap();
    insert_snippet(&mut db, url1, snippet2, &tags_snippet2, 4).unwrap();
    insert_snippet(&mut db, url2, snippet3, &tags_snippet3, 5).unwrap();

    insert_url(&mut db, untagged_url, 6).unwrap();
    insert_snippet(&mut db, untagged_url, untagged_snippet, &[], 7).unwrap();

    let tags_with_urls_and_snippets = get_tags_with_urls_and_snippets(db.tables());

    println!("Tags with URLs and snippets: {:?}", tags_with_urls_and_snippets);

    let untagged_group = tags_with_urls_and_snippets
        .iter()
        .find(|group| group.tag.is_empty())
        .expect("Untagged group not found!");
    assert!(
        untagged_group.urls.contains(&untagged_url.to_string()),
        "Untagged URL not found in the untagged group"
    );
    assert!(
        untagged_group
            .snippets
            .iter()
            .any(|snippet| snippet.snippet == untagged_snippet),
        "Untagged snippet not found in the untagged group"
    );

    for tag_group in tags_with_urls_and_snippets {
        match tag_group.tag.as_str() {
            "tag1" => {
                assert!(tag_group.urls.contains(&url1.to_string()));
                assert!(tag_group.snippets.iter().any(|s| s.snippet == snippet1));
            }
            "tag2" => {
                assert!(tag_group.urls.contains(&url1.to_string()));
                assert!(tag_group.urls.contains(&url2.to_string()));
                assert!(tag_group.snippets.iter().any(|s| s.snippet == snippet2));
            }
            "tag3" => {
                assert!(tag_group.urls.contains(&url2.to_string()));
                assert!(tag_group.snippets.iter().any(|s| s.snippet == snippet2));
            }
            "tag4" => {
                assert!(tag_group.snippets.iter().any(|s| s.snippet == snippet1));
                assert!(tag_group.snippets.iter().any(|s| s.snippet == snippet3));
            }
            _ => {}
        }
    }
}

#[test]
fn test_untagged_urls_are_included() {
    let mut db = setup_test_db();

    let tagged_url = "https://tagged-url.com";
    let untagged_url = "https://untagged-url.com";

    let snippet_for_untagged = "Snippet for untagged URL.";

    let tags = vec!["example-tag"];
    insert_tags(&mut db, tagged_url, &tags, 1).unwrap();

    insert_url(&mut db, untagged_url, 2).unwrap();

    insert_snippet(&mut db, untagged_url, snippet_for_untagged, &[], 3).unwrap();

    let tags_with_urls_and_snippets = get_tags_with_urls_and_snippets(db.tables());

    println!("Tags with URLs and snippets: {:?}", tags_with_urls_and_snippets);

    let untagged_group = tags_with_urls_and_snippets
        .iter()
        .find(|group| group.tag.is_empty())
        .expect("No untagged group found!");

    assert!(
        untagged_group.urls.contains(&untagged_url.to_string()),
        "Untagged URL not found in the untagged group"
    );

    assert!(
        untagged_group
            .snippets
            .iter()
            .any(|snippet| snippet.snippet == snippet_for_untagged),
        "Snippet for untagged URL not found in the untagged group"
    );

    let tagged_group = tags_with_urls_and_snippets
        .iter()
        .find(|group| group.tag == "example-tag")
        .expect("Tagged group not found!");

    assert!(
        tagged_group.urls.contains(&tagged_url.to_string()),
        "Tagged URL not found in the tagged group"
    );
}
