use read_it_later::text::as_slices;
use read_it_later::api::snippets_page;
use read_it_later::fingerprint::calculate_url_hash;
use read_it_later::fingerprint::to_lower_hex;
use read_it_later::models::SnippetWithTags;
use read_it_later::order::sort_by_label;
use read_it_later::order::sort_descending;
use read_it_later::models::Tag;
use read_it_later::sanitize::sanitize_snippet;
use read_it_later::sanitize::sanitize_snippets;
use read_it_later::sanitize::sanitize_with_allowed_tags;
use read_it_later::store::insert_snippet;
use read_it_later::store::Store;
use read_it_later::text::chars_of;
use read_it_later::text::display_url;
use read_it_later::text::find_from;
use read_it_later::text::is_space;
use read_it_later::text::nonempty_labels;
use read_it_later::text::split_tags;
use read_it_later::text::text_at_most;
use read_it_later::text::trim_bounds;

#[test]
fn fingerprint_is_the_sha256_digest_in_lower_case_hexadecimal() {
    assert_eq!(
        calculate_url_hash("hello world"),
        "b94d27b9934d3e08a52e52d7da7dabfac484efe37a5380ee9088f7ace2efcde9"
    );
    assert_eq!(
        calculate_url_hash(""),
        "e3b0c44298fc1c149afbf4c8996fb92427ae41e4649b934ca495991b7852b855"
    );
    assert_eq!(
        calculate_url_hash("abc"),
        "ba7816bf8f01cfea414140de5dae2223b00361a396177a9cb410ff61f20015ad"
    );
    assert_eq!(calculate_url_hash("https://example.com").len(), 64);
    assert_ne!(calculate_url_hash("https://example.com"), calculate_url_hash("https://example.com/"));
}

#[test]
fn bytes_are_rendered_with_two_digits_each() {
    assert_eq!(to_lower_hex(&vec![]), "");
    assert_eq!(to_lower_hex(&vec![0x00, 0x0f, 0xa5, 0xff, 0x10]), "000fa5ff10");
}

#[test]
fn display_url_is_cut_before_the_first_question_mark() {
    assert_eq!(display_url("https://ex.com/a?x=1"), "https://ex.com/a");
    assert_eq!(display_url("https://ex.com/a"), "https://ex.com/a");
    assert_eq!(display_url("https://ex.com/a?x=1?y=2"), "https://ex.com/a");
    assert_eq!(display_url("?x"), "");
    assert_eq!(display_url(""), "");
    assert_eq!(display_url("https://ex.com/\u{e9}\u{1f600}?q"), "https://ex.com/\u{e9}\u{1f600}");
}

#[test]
fn a_tag_list_is_split_at_commas_and_trimmed() {
    assert_eq!(split_tags("foo, bar"), vec!["foo", "bar"]);
    assert_eq!(split_tags(""), vec![""]);
    assert_eq!(split_tags(","), vec!["", ""]);
    assert_eq!(split_tags("  a b  ,\tc\n,, d,"), vec!["a b", "c", "", "d", ""]);
    assert_eq!(split_tags("\u{a0}x\u{3000},\u{2003}\u{e9}t\u{e9} "), vec!["x", "\u{e9}t\u{e9}"]);
    assert_eq!(split_tags("   "), vec![""]);
}

#[test]
fn white_space_is_what_unicode_calls_white_space() {
    for c in ['\t', '\n', '\u{b}', '\u{c}', '\r', ' ', '\u{85}', '\u{a0}', '\u{1680}', '\u{2000}',
        '\u{200a}', '\u{2028}', '\u{2029}', '\u{202f}', '\u{205f}', '\u{3000}']
    {
        assert!(is_space(c));
    }
    for c in ['a', '0', '\u{8}', '\u{e}', '\u{200b}', '\u{feff}', '\u{180e}', '_'] {
        assert!(!is_space(c));
    }
    let mut code = 0u32;
    while code < 0x3100 {
        if let Some(c) = char::from_u32(code) {
            assert_eq!(is_space(c), c.is_whitespace());
        }
        code += 1;
    }
}

#[test]
fn bounds_of_a_trimmed_piece() {
    let chars = chars_of(" ab , c ");
    assert_eq!(chars.len(), 8);
    assert_eq!(trim_bounds(&chars, 0, 4), (1, 3));
    assert_eq!(trim_bounds(&chars, 5, 8), (6, 7));
    assert_eq!(trim_bounds(&chars, 3, 4), (4, 4));
    assert_eq!(find_from(&chars, 0, ','), 4);
    assert_eq!(find_from(&chars, 5, ','), 8);
    assert_eq!(find_from(&chars, 4, ','), 4);
}

#[test]
fn texts_are_ordered_by_code_point() {
    assert!(text_at_most("", ""));
    assert!(text_at_most("", "a"));
    assert!(!text_at_most("a", ""));
    assert!(text_at_most("a", "a"));
    assert!(text_at_most("a", "ab"));
    assert!(!text_at_most("ab", "a"));
    assert!(text_at_most("B", "a"));
    assert!(!text_at_most("a", "B"));
    assert!(text_at_most("z", "\u{e9}"));
    assert!(text_at_most("\u{ffff}", "\u{10000}"));
    for (a, b) in [("tag1", "tag2"), ("x", "x"), ("\u{e9}", "e"), ("ab", "b")] {
        assert_eq!(text_at_most(a, b), a <= b);
    }
}

#[test]
fn positions_are_ordered_from_the_greatest_key_down() {
    assert_eq!(sort_descending(&vec![]), Vec::<usize>::new());
    assert_eq!(sort_descending(&vec![5, -1, 9, 5, i64::MIN, i64::MAX]), vec![5, 2, 3, 0, 1, 4]);
}

#[test]
fn positions_are_ordered_by_label() {
    let tags: Vec<Tag> = ["b", "a", "c", "a", ""]
        .iter()
        .enumerate()
        .map(|(i, label)| Tag { id: i as i32 + 1, tag: label.to_string() })
        .collect();
    assert_eq!(sort_by_label(&tags), vec![4, 1, 3, 0, 2]);
}

#[test]
fn strings_are_borrowed_in_order() {
    let labels = vec!["x".to_string(), "".to_string(), "y z".to_string()];
    assert_eq!(as_slices(&labels), vec!["x", "", "y z"]);
}

#[test]
fn scripts_are_removed_and_allowed_tags_stay() {
    assert_eq!(
        sanitize_with_allowed_tags("<script>alert(1)</script><b>bold</b> <i>it</i>"),
        "<b>bold</b> <i>it</i>"
    );
    assert_eq!(sanitize_with_allowed_tags("plain text"), "plain text");
    assert_eq!(sanitize_with_allowed_tags("a < b"), "a &lt; b");
    assert_eq!(
        sanitize_with_allowed_tags("<em onclick=\"x()\">e</em><strong>s</strong><blink>k</blink>"),
        "<em>e</em><strong>s</strong>k"
    );
    assert_eq!(
        sanitize_with_allowed_tags("<a href=\"https://ex.com\" title=\"t\" onclick=\"x()\">l</a>"),
        "<a href=\"https://ex.com\" title=\"t\" rel=\"noopener noreferrer\">l</a>"
    );
    assert_eq!(sanitize_with_allowed_tags("<a href=\"javascript:x()\">l</a>"), "<a rel=\"noopener noreferrer\">l</a>");
}

#[test]
fn every_text_of_a_snippet_is_sanitized() {
    let record = SnippetWithTags {
        id: 7,
        snippet: "<b>s</b><script>x</script>".to_string(),
        url: "https://ex.com/?a=1&b=2".to_string(),
        tags: vec!["<i>t</i>".to_string(), "<style>p{}</style>u".to_string()],
    };
    let clean = sanitize_snippet(&record);
    assert_eq!(clean.id, 7);
    assert_eq!(clean.snippet, "<b>s</b>");
    assert_eq!(clean.url, "https://ex.com/?a=1&amp;b=2");
    assert_eq!(clean.tags, vec!["<i>t</i>", "u"]);

    let all = sanitize_snippets(&vec![record]);
    assert_eq!(all.len(), 1);
    assert_eq!(all[0].snippet, "<b>s</b>");
}

#[test]
fn the_snippet_page_lists_sanitized_snippets() {
    let mut db = Store::new();
    insert_snippet(&mut db, "u1", "<script>x</script>one", &["t"], 1).unwrap();
    insert_snippet(&mut db, "u2", "two", &[], 2).unwrap();
    let page = snippets_page(db.tables());
    assert_eq!(page.len(), 2);
    assert_eq!(page[0].snippet, "two");
    assert_eq!(page[1].snippet, "one");
    assert_eq!(page[1].tags, vec!["t"]);
}

#[test]
fn empty_labels_are_left_out() {
    assert_eq!(nonempty_labels(&["a", "", "b", "", ""]), vec!["a", "b"]);
    assert_eq!(nonempty_labels(&[""]), Vec::<&str>::new());
    assert_eq!(nonempty_labels(&[]), Vec::<&str>::new());
    assert_eq!(nonempty_labels(&[" "]), vec![" "]);
}

#[test]
fn splitting_and_cutting_agree_with_the_standard_library() {
    let inputs = [
        "",
        ",",
        "a",
        "a,b",
        " a , b ",
        ",,",
        "a,,b",
        "\u{2003}x y\u{a0},\t\n",
        "tag1, tag2,tag3 ,",
        "caf\u{e9}, na\u{ef}ve",
        "?",
        "a?b?c",
        "https://ex.com/p?q=1,2",
    ];
    for input in inputs {
        let expected: Vec<String> = input.split(',').map(|piece| piece.trim().to_string()).collect();
        assert_eq!(split_tags(input), expected);
        let cut = input.split('?').next().unwrap_or(input).to_string();
        assert_eq!(display_url(input), cut);
    }
}
