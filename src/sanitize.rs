use vstd::prelude::*;

verus! {

/// The index of the first `>` at or after `i`, or `s.len()` if there is none.
pub open spec fn close_after(s: Seq<char>, i: int) -> int
    decreases s.len() - i,
{
    if i >= s.len() {
        s.len() as int
    } else if s[i] == '>' {
        i
    } else {
        close_after(s, i + 1)
    }
}

proof fn lemma_close_after_bounds(s: Seq<char>, i: int)
    requires
        0 <= i <= s.len(),
    ensures
        i <= close_after(s, i) <= s.len(),
        close_after(s, i) < s.len() ==> s[close_after(s, i)] == '>',
        forall|j: int| i <= j < close_after(s, i) ==> s[j] != '>',
    decreases s.len() - i,
{
    if i < s.len() && s[i] != '>' {
        lemma_close_after_bounds(s, i + 1);
    }
}

/// `s` with every tag removed, scanning from the left: a `<` that has a `>`
/// somewhere after it starts a tag that ends at the first such `>`; a `<` with
/// no `>` after it is kept as ordinary text.
pub open spec fn strip_tags(s: Seq<char>) -> Seq<char>
    decreases s.len(),
    via strip_tags_decreases
{
    if s.len() == 0 {
        Seq::<char>::empty()
    } else if s[0] == '<' && close_after(s, 1) < s.len() {
        strip_tags(s.subrange(close_after(s, 1) + 1, s.len() as int))
    } else {
        seq![s[0]] + strip_tags(s.subrange(1, s.len() as int))
    }
}

#[via_fn]
proof fn strip_tags_decreases(s: Seq<char>) {
    if s.len() > 0 {
        lemma_close_after_bounds(s, 1);
    }
}

/// Whether `s` holds a tag: a `<` with a `>` somewhere after it.
pub open spec fn contains_tag(s: Seq<char>) -> bool {
    exists|i: int, j: int| 0 <= i < j < s.len() && s[i] == '<' && s[j] == '>'
}

/// What html_escape's entity decoder makes of a text that holds an `&`.
pub uninterp spec fn html_decoded(s: Seq<char>) -> Seq<char>;

/// Entity decoding: a text without `&` holds no entity and stays as it is.
pub open spec fn decoded_text(s: Seq<char>) -> Seq<char> {
    if s.contains('&') {
        html_decoded(s)
    } else {
        s
    }
}

/// The display form of a raw text: tags removed first, then entities decoded.
pub open spec fn sanitized(s: Seq<char>) -> Seq<char> {
    decoded_text(strip_tags(s))
}

/// Relies on regex's `replace_all` with the pattern `<[^>]*>` and an empty
/// replacement: leftmost non-overlapping matches, each running from a `<` to
/// the first `>` after it, are removed.
#[verifier::external_body]
fn remove_tag_spans(text: &str) -> (r: String)
    ensures
        r@ == strip_tags(text@),
{
    let re = regex::Regex::new(r"<[^>]*>").unwrap();
    re.replace_all(text, "").into_owned()
}

/// Relies on html_escape::decode_html_entities: named and numeric references
/// are decoded, and a text in which no `&` occurs is returned unchanged.
#[verifier::external_body]
fn decode_entities(text: &str) -> (r: String)
    ensures
        text@.contains('&') ==> r@ == html_decoded(text@),
        !text@.contains('&') ==> r@ == text@,
{
    html_escape::decode_html_entities(text).into_owned()
}

/// Removes markup tags from `text`, then decodes its HTML entities.
pub fn remove_html_tags(text: &str) -> (r: String)
    ensures
        r@ == sanitized(text@),
{
    let without_tags = remove_tag_spans(text);
    decode_entities(without_tags.as_str())
}

proof fn lemma_strip_keeps_chars(s: Seq<char>, c: char)
    requires
        !s.contains(c),
    ensures
        !strip_tags(s).contains(c),
    decreases s.len(),
{
    if s.len() > 0 {
        lemma_close_after_bounds(s, 1);
        if s[0] == '<' && close_after(s, 1) < s.len() {
            let rest = s.subrange(close_after(s, 1) + 1, s.len() as int);
            assert forall|k: int| 0 <= k < rest.len() implies rest[k] != c by {
                assert(rest[k] == s[k + close_after(s, 1) + 1]);
            }
            lemma_strip_keeps_chars(rest, c);
        } else {
            let rest = s.subrange(1, s.len() as int);
            assert forall|k: int| 0 <= k < rest.len() implies rest[k] != c by {
                assert(rest[k] == s[k + 1]);
            }
            lemma_strip_keeps_chars(rest, c);
            let r = strip_tags(s);
            assert(r == seq![s[0]] + strip_tags(rest));
            assert forall|k: int| 0 <= k < r.len() implies r[k] != c by {
                if k > 0 {
                    assert(r[k] == strip_tags(rest)[k - 1]);
                }
            }
        }
    }
}

/// Removing tags leaves no tag behind, whatever the text.
pub proof fn lemma_strip_leaves_no_tag(s: Seq<char>)
    ensures
        !contains_tag(strip_tags(s)),
    decreases s.len(),
{
    if s.len() > 0 {
        lemma_close_after_bounds(s, 1);
        if s[0] == '<' && close_after(s, 1) < s.len() {
            lemma_strip_leaves_no_tag(s.subrange(close_after(s, 1) + 1, s.len() as int));
        } else {
            let rest = s.subrange(1, s.len() as int);
            lemma_strip_leaves_no_tag(rest);
            let tail = strip_tags(rest);
            let r = strip_tags(s);
            assert(r == seq![s[0]] + tail);
            if s[0] == '<' {
                assert forall|k: int| 0 <= k < rest.len() implies rest[k] != '>' by {
                    assert(rest[k] == s[k + 1]);
                }
                lemma_strip_keeps_chars(rest, '>');
            }
            assert forall|i: int, j: int|
                0 <= i < j < r.len() && r[i] == '<' implies r[j] != '>' by {
                assert(r[j] == tail[j - 1]);
                if i > 0 {
                    assert(r[i] == tail[i - 1]);
                } else {
                    assert(!tail.contains('>'));
                }
            }
        }
    }
}

proof fn lemma_strip_without_tag(s: Seq<char>)
    requires
        !contains_tag(s),
    ensures
        strip_tags(s) == s,
    decreases s.len(),
{
    if s.len() > 0 {
        lemma_close_after_bounds(s, 1);
        let rest = s.subrange(1, s.len() as int);
        if s[0] == '<' {
            assert(close_after(s, 1) == s.len()) by {
                if close_after(s, 1) < s.len() {
                    assert(s[close_after(s, 1)] == '>');
                }
            }
        }
        assert(!contains_tag(rest)) by {
            if contains_tag(rest) {
                let (i, j) = choose|i: int, j: int|
                    0 <= i < j < rest.len() && rest[i] == '<' && rest[j] == '>';
                assert(s[i + 1] == '<' && s[j + 1] == '>');
            }
        }
        lemma_strip_without_tag(rest);
        assert(seq![s[0]] + rest == s);
    }
}

/// Sanitising leaves no tag in the text, provided no entity outside the tags
/// could decode to a `<` or `>`, that is, no `&` survives the removal of tags.
pub proof fn lemma_sanitize_leaves_no_tag(s: Seq<char>)
    requires
        !strip_tags(s).contains('&'),
    ensures
        !contains_tag(sanitized(s)),
{
    lemma_strip_leaves_no_tag(s);
}

/// Sanitising its own output changes nothing, provided no `&` survives the
/// removal of tags (else decoding may expose a new entity or tag).
pub proof fn lemma_sanitize_idempotent(s: Seq<char>)
    requires
        !strip_tags(s).contains('&'),
    ensures
        sanitized(sanitized(s)) == sanitized(s),
{
    lemma_strip_leaves_no_tag(s);
    lemma_strip_without_tag(strip_tags(s));
}

} // verus!
