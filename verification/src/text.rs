//! Text handling: white space, splitting a tag list, the display form of a
//! URL, and the order in which labels are listed.

use vstd::prelude::*;
use vstd::string::*;

verus! {

/// Whether `c` has the Unicode property White_Space.
pub open spec fn is_white_space(c: char) -> bool {
    let u = c as u32;
    (0x09 <= u <= 0x0d) || u == 0x20 || u == 0x85 || u == 0xa0 || u == 0x1680 || (0x2000 <= u
        <= 0x200a) || u == 0x2028 || u == 0x2029 || u == 0x202f || u == 0x205f || u == 0x3000
}

/// `text` without its leading white space.
pub open spec fn trim_start(text: Seq<char>) -> Seq<char>
    decreases text.len(),
{
    if text.len() > 0 && is_white_space(text[0]) {
        trim_start(text.drop_first())
    } else {
        text
    }
}

/// `text` without its trailing white space.
pub open spec fn trim_end(text: Seq<char>) -> Seq<char>
    decreases text.len(),
{
    if text.len() > 0 && is_white_space(text.last()) {
        trim_end(text.drop_last())
    } else {
        text
    }
}

/// `text` without the white space around it.
pub open spec fn trimmed(text: Seq<char>) -> Seq<char> {
    trim_end(trim_start(text))
}

/// The position of the first `c` in `text`, or the length of `text` if it
/// holds none.
pub open spec fn first_index_of(text: Seq<char>, c: char) -> int
    decreases text.len(),
{
    if text.len() == 0 || text[0] == c {
        0
    } else {
        1 + first_index_of(text.drop_first(), c)
    }
}

/// The pieces of `text` between occurrences of `separator`. There is always
/// at least one piece; a piece may be empty.
pub open spec fn split_on(text: Seq<char>, separator: char) -> Seq<Seq<char>>
    decreases text.len(),
{
    let cut = first_index_of(text, separator);
    if 0 <= cut < text.len() {
        seq![text.take(cut)] + split_on(text.skip(cut + 1), separator)
    } else {
        seq![text]
    }
}

/// The labels that a comma-separated tag list names: its pieces, each
/// without the white space around it.
pub open spec fn tag_labels(tags: Seq<char>) -> Seq<Seq<char>> {
    split_on(tags, ',').map_values(|piece: Seq<char>| trimmed(piece))
}

/// The texts of a list of string slices.
pub open spec fn texts(items: Seq<&str>) -> Seq<Seq<char>> {
    items.map_values(|item: &str| item@)
}

/// The labels of a list that are not empty, in the order of the list.
pub open spec fn nonempty(labels: Seq<Seq<char>>) -> Seq<Seq<char>> {
    labels.filter(|label: Seq<char>| label.len() > 0)
}

/// A URL as it is shown: without its query, that is cut before the first `?`.
pub open spec fn display_form(url: Seq<char>) -> Seq<char> {
    url.take(first_index_of(url, '?'))
}

/// Dictionary order of texts by code point: `a` is `b` or comes before it.
pub open spec fn text_le(a: Seq<char>, b: Seq<char>) -> bool
    decreases a.len(),
{
    if a.len() == 0 {
        true
    } else if b.len() == 0 {
        false
    } else if a[0] == b[0] {
        text_le(a.drop_first(), b.drop_first())
    } else {
        a[0] < b[0]
    }
}

/// `first_index_of` stays within the text, passes over no `c`, and stops on one.
pub proof fn lemma_first_index_of(text: Seq<char>, c: char)
    ensures
        0 <= first_index_of(text, c) <= text.len(),
        forall|i: int| 0 <= i < first_index_of(text, c) ==> text[i] != c,
        first_index_of(text, c) < text.len() ==> text[first_index_of(text, c)] == c,
    decreases text.len(),
{
    if text.len() == 0 || text[0] == c {
    } else {
        let rest = text.drop_first();
        lemma_first_index_of(rest, c);
        assert forall|i: int| 0 <= i < first_index_of(text, c) implies text[i] != c by {
            if i > 0 {
                assert(text[i] == rest[i - 1]);
            }
        }
        assert(first_index_of(rest, c) < rest.len() ==> rest[first_index_of(rest, c)]
            == text[first_index_of(text, c)]);
    }
}

/// A position that passes over no `c` and stops on one, or at the end, is
/// the first index of `c`.
pub proof fn lemma_first_index_of_is(text: Seq<char>, c: char, at: int)
    requires
        0 <= at <= text.len(),
        forall|i: int| 0 <= i < at ==> text[i] != c,
        at < text.len() ==> text[at] == c,
    ensures
        first_index_of(text, c) == at,
{
    lemma_first_index_of(text, c);
}

/// The text order is reflexive.
pub proof fn lemma_text_le_reflexive(a: Seq<char>)
    ensures
        text_le(a, a),
    decreases a.len(),
{
    if a.len() > 0 {
        lemma_text_le_reflexive(a.drop_first());
    }
}

/// Two texts that each come at or before the other are the same text.
pub proof fn lemma_text_le_antisymmetric(a: Seq<char>, b: Seq<char>)
    requires
        text_le(a, b),
        text_le(b, a),
    ensures
        a == b,
    decreases a.len(),
{
    if a.len() == 0 || b.len() == 0 {
        assert(a =~= b);
    } else {
        lemma_text_le_antisymmetric(a.drop_first(), b.drop_first());
        assert(a =~= seq![a[0]] + a.drop_first());
        assert(b =~= seq![b[0]] + b.drop_first());
    }
}

/// The text order is transitive.
pub proof fn lemma_text_le_transitive(a: Seq<char>, b: Seq<char>, c: Seq<char>)
    requires
        text_le(a, b),
        text_le(b, c),
    ensures
        text_le(a, c),
    decreases a.len(),
{
    if a.len() > 0 && b.len() > 0 && c.len() > 0 && a[0] == b[0] && b[0] == c[0] {
        lemma_text_le_transitive(a.drop_first(), b.drop_first(), c.drop_first());
    }
}

/// Of two texts, one comes at or before the other.
pub proof fn lemma_text_le_connected(a: Seq<char>, b: Seq<char>)
    ensures
        text_le(a, b) || text_le(b, a),
    decreases a.len(),
{
    if a.len() > 0 && b.len() > 0 {
        if a[0] == b[0] {
            lemma_text_le_connected(a.drop_first(), b.drop_first());
        }
    }
}

/// The characters of `text`, in order.
pub fn chars_of(text: &str) -> (chars: Vec<char>)
    ensures
        chars@ == text@,
{
    let mut chars: Vec<char> = Vec::new();
    for c in it: text.chars()
        invariant
            it.seq() == text@,
            chars@ == text@.take(it.index() as int),
    {
        chars.push(c);
    }
    assert(chars@ =~= text@);
    chars
}

/// Tells whether `c` is white space.
pub fn is_space(c: char) -> (space: bool)
    ensures
        space == is_white_space(c),
{
    let u: u32 = c as u32;
    (0x09 <= u && u <= 0x0d) || u == 0x20 || u == 0x85 || u == 0xa0 || u == 0x1680 || (0x2000
        <= u && u <= 0x200a) || u == 0x2028 || u == 0x2029 || u == 0x202f || u == 0x205f || u
        == 0x3000
}

/// Tells whether `a` is `b` or comes before it in dictionary order.
pub fn text_at_most(a: &str, b: &str) -> (le: bool)
    ensures
        le == text_le(a@, b@),
{
    let left = chars_of(a);
    let right = chars_of(b);
    let mut i: usize = 0;
    assert(left@.skip(0) =~= left@ && right@.skip(0) =~= right@);
    while i < left.len() && i < right.len() && left[i] == right[i]
        invariant
            i <= left.len(),
            i <= right.len(),
            text_le(left@, right@) == text_le(left@.skip(i as int), right@.skip(i as int)),
        decreases left.len() - i,
    {
        assert(left@.skip(i as int).drop_first() =~= left@.skip(i + 1));
        assert(right@.skip(i as int).drop_first() =~= right@.skip(i + 1));
        i = i + 1;
    }
    if i == left.len() {
        true
    } else if i == right.len() {
        false
    } else {
        left[i] < right[i]
    }
}

/// Finds the first `c` at or after position `from`; gives the length of
/// `chars` if there is none.
pub fn find_from(chars: &Vec<char>, from: usize, c: char) -> (at: usize)
    requires
        from <= chars.len(),
    ensures
        from <= at <= chars.len(),
        at == from + first_index_of(chars@.skip(from as int), c),
{
    let mut at: usize = from;
    while at < chars.len() && chars[at] != c
        invariant
            from <= at <= chars.len(),
            forall|i: int| from <= i < at ==> chars@[i] != c,
        decreases chars.len() - at,
    {
        at = at + 1;
    }
    proof {
        lemma_first_index_of_is(chars@.skip(from as int), c, at - from);
    }
    at
}

/// Strips the query from a URL: the result is the URL up to its first `?`,
/// or the whole URL if it has none.
pub fn display_url(url: &str) -> (shown: String)
    ensures
        shown@ == display_form(url@),
{
    let chars = chars_of(url);
    let cut = find_from(&chars, 0, '?');
    assert(chars@.skip(0) =~= chars@);
    assert(url@.take(cut as int) =~= url@.subrange(0, cut as int));
    url.substring_char(0, cut).to_owned()
}

/// Removes the white space around `chars[from..to]` and gives the bounds of
/// what is left.
pub fn trim_bounds(chars: &Vec<char>, from: usize, to: usize) -> (bounds: (usize, usize))
    requires
        from <= to <= chars.len(),
    ensures
        from <= bounds.0 <= bounds.1 <= to,
        chars@.subrange(bounds.0 as int, bounds.1 as int) == trimmed(
            chars@.subrange(from as int, to as int),
        ),
{
    let mut start: usize = from;
    while start < to && is_space(chars[start])
        invariant
            from <= start <= to <= chars.len(),
            trim_start(chars@.subrange(from as int, to as int)) == trim_start(
                chars@.subrange(start as int, to as int),
            ),
        decreases to - start,
    {
        assert(chars@.subrange(start as int, to as int).drop_first() =~= chars@.subrange(
            start + 1,
            to as int,
        ));
        start = start + 1;
    }
    assert(trim_start(chars@.subrange(start as int, to as int)) == chars@.subrange(
        start as int,
        to as int,
    ));
    let mut end: usize = to;
    while start < end && is_space(chars[end - 1])
        invariant
            start <= end <= to <= chars.len(),
            trim_end(chars@.subrange(start as int, to as int)) == trim_end(
                chars@.subrange(start as int, end as int),
            ),
        decreases end - start,
    {
        assert(chars@.subrange(start as int, end as int).drop_last() =~= chars@.subrange(
            start as int,
            end - 1,
        ));
        end = end - 1;
    }
    (start, end)
}

/// Splits a comma-separated tag list into its labels. Each label is a piece
/// of the list without the white space around it; empty labels are kept, so
/// the result has one label more than the list has commas.
pub fn split_tags(tags: &str) -> (labels: Vec<String>)
    ensures
        labels.deep_view() == tag_labels(tags@),
{
    let chars = chars_of(tags);
    let mut labels: Vec<String> = Vec::new();
    let mut from: usize = 0;
    assert(chars@.skip(0) =~= chars@);
    assert(labels.deep_view() =~= Seq::<Seq<char>>::empty());
    loop
        invariant
            from <= chars.len(),
            chars@ == tags@,
            tag_labels(tags@) == labels.deep_view() + tag_labels(chars@.skip(from as int)),
        decreases chars.len() - from,
    {
        let rest = Ghost(chars@.skip(from as int));
        let cut = find_from(&chars, from, ',');
        let (start, end) = trim_bounds(&chars, from, cut);
        let label: String = tags.substring_char(start, end).to_owned();
        let ghost before = labels.deep_view();
        labels.push(label);
        proof {
            lemma_first_index_of(rest@, ',');
            assert(rest@.take(cut - from) =~= chars@.subrange(from as int, cut as int));
            assert(labels.deep_view() =~= before.push(trimmed(rest@.take(cut - from))));
            let pieces = split_on(rest@, ',');
            let trim = |piece: Seq<char>| trimmed(piece);
            if cut < chars.len() {
                assert(rest@.skip(cut - from + 1) =~= chars@.skip(cut + 1));
                let more = split_on(chars@.skip(cut + 1), ',');
                assert(pieces == seq![rest@.take(cut - from)] + more);
                assert(pieces.map_values(trim) =~= seq![trimmed(rest@.take(cut - from))]
                    + more.map_values(trim));
            } else {
                assert(rest@.take(cut - from) =~= rest@);
                assert(pieces == seq![rest@]);
                assert(pieces.map_values(trim) =~= seq![trimmed(rest@)]);
            }
        }
        if cut >= chars.len() {
            assert(labels.deep_view() =~= tag_labels(tags@));
            return labels;
        }
        from = cut + 1;
    }
}

/// Picks the labels that are stored as tags: those that are not empty, in
/// the order of the list.
pub fn nonempty_labels<'a>(labels: &[&'a str]) -> (kept: Vec<&'a str>)
    ensures
        texts(kept@) == nonempty(texts(labels@)),
{
    let ghost all = texts(labels@);
    let ghost filled = |label: Seq<char>| label.len() > 0;
    let mut kept: Vec<&'a str> = Vec::new();
    let mut i: usize = 0;
    proof {
        all.take(0).lemma_filter_len(filled);
        assert(texts(kept@) =~= all.take(0).filter(filled));
    }
    while i < labels.len()
        invariant
            i <= labels@.len(),
            all == texts(labels@),
            filled == |label: Seq<char>| label.len() > 0,
            texts(kept@) == all.take(i as int).filter(filled),
        decreases labels.len() - i,
    {
        let ghost before = texts(kept@);
        proof {
            assert(all.take(i + 1) =~= all.take(i as int).push(all[i as int]));
            all.take(i as int).lemma_filter_push(all[i as int], filled);
        }
        if !labels[i].is_empty() {
            kept.push(labels[i]);
            assert(texts(kept@) =~= before.push(all[i as int]));
        }
        i = i + 1;
    }
    assert(all.take(i as int) =~= all);
    kept
}

/// Borrows the texts of a list of strings.
pub fn as_slices(labels: &Vec<String>) -> (slices: Vec<&str>)
    ensures
        texts(slices@) == labels.deep_view(),
{
    let mut slices: Vec<&str> = Vec::new();
    let mut i: usize = 0;
    assert(texts(slices@) =~= labels.deep_view().take(0));
    while i < labels.len()
        invariant
            i <= labels@.len(),
            texts(slices@) == labels.deep_view().take(i as int),
        decreases labels.len() - i,
    {
        let ghost before = texts(slices@);
        slices.push(labels[i].as_str());
        proof {
            let all = labels.deep_view();
            assert(all[i as int] == labels@[i as int]@);
            assert(texts(slices@) =~= before.push(all[i as int]));
            assert(all.take(i + 1) =~= all.take(i as int).push(all[i as int]));
        }
        i = i + 1;
    }
    assert(labels.deep_view().take(i as int) =~= labels.deep_view());
    slices
}

} // verus!
