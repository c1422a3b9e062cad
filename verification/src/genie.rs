//! Genie provider: track model, scraping the search page, and turning the timed
//! lyrics answer into LRC and plain text.
use vstd::prelude::*;

use std::collections::BTreeMap;
use vstd::std_specs::btree::spec_btree_map_iter;
use vstd::std_specs::iter::IteratorSpec;

use crate::provider_util::{
    centis_of, duration_ms_from_chars, duration_ms_of, lrc_stamp, push_lrc_stamp, TimestampRounding,
};
use crate::text::{
    ascii_lower, ascii_lowercase, chars_of, collapse_spaces, eq_ignore_ascii_case, eq_ignore_case_chars, join,
    join_chars, collapse_whitespace, extend_chars, find, find_chars,
    find_from, parse_u64, parse_u64_chars, replace_all, replace_chars, rfind, rfind_chars,
    slice_chars, split_on, split_on_chars, split_whitespace, string_of, to_ascii_lower, trim,
    trim_bounds, trim_chars, trim_start, views, words,
};

verus! {

/// A Genie search hit.
#[derive(Clone, Debug)]
pub struct GenieTrack {
    pub track_id: u64,
    pub track_name: String,
    pub artist_name: String,
    pub duration_ms: Option<u64>,
}

/// Lyrics found for a Genie track.
#[derive(Clone, Debug)]
pub struct GenieLyricsResult {
    pub track_id: u64,
    pub track_name: String,
    pub artist_name: String,
    pub duration_ms: Option<u64>,
    pub lrc: Option<String>,
    pub text: Option<String>,
}

/// Why a Genie lookup gave no lyrics.
#[derive(Debug)]
pub enum GenieError {
    NotFound,
    NotAvailable,
    Ratelimit,
    Provider(String),
}

impl GenieError {
    /// The message shown for this error.
    pub fn message(&self) -> (r: String)
        ensures
            r@ == match self {
                GenieError::NotFound => "No matching Genie tracks found."@,
                GenieError::NotAvailable => "No Genie lyrics are available for this track."@,
                GenieError::Ratelimit => "Genie rate limit reached."@,
                GenieError::Provider(detail) => "Genie request failed: "@ + detail@,
            },
    {
        match self {
            GenieError::NotFound => String::from_str("No matching Genie tracks found."),
            GenieError::NotAvailable => String::from_str("No Genie lyrics are available for this track."),
            GenieError::Ratelimit => String::from_str("Genie rate limit reached."),
            GenieError::Provider(detail) => {
                let mut m = String::from_str("Genie request failed: ");
                m.append(detail.as_str());
                m
            },
        }
    }
}

/// The error for a failed search status: 404 is no match, 429 a rate limit, anything
/// else a provider error that quotes the status.
pub fn map_search_status(status: u16, status_text: &str) -> (r: GenieError)
    ensures
        status == 404 ==> r is NotFound,
        status == 429 ==> r is Ratelimit,
        status != 404 && status != 429 ==> (r matches GenieError::Provider(d) && d@
            == "search returned "@ + status_text@),
{
    if status == 404 {
        GenieError::NotFound
    } else if status == 429 {
        GenieError::Ratelimit
    } else {
        let mut m = String::from_str("search returned ");
        m.append(status_text);
        GenieError::Provider(m)
    }
}

/// The error for a failed lyrics status: 404 is no lyrics, 429 a rate limit, anything
/// else a provider error that quotes the status.
pub fn map_lyrics_status(status: u16, status_text: &str) -> (r: GenieError)
    ensures
        status == 404 ==> r is NotAvailable,
        status == 429 ==> r is Ratelimit,
        status != 404 && status != 429 ==> (r matches GenieError::Provider(d) && d@
            == "lyrics lookup returned "@ + status_text@),
{
    if status == 404 {
        GenieError::NotAvailable
    } else if status == 429 {
        GenieError::Ratelimit
    } else {
        let mut m = String::from_str("lyrics lookup returned ");
        m.append(status_text);
        GenieError::Provider(m)
    }
}

/// The Genie search query: the trimmed title and artist that are not empty, joined by a
/// space.
pub fn build_search_query(title: &str, artist: &str) -> (r: String)
    ensures
        r@ == crate::bugs::search_query_of(title@, artist@),
{
    crate::bugs::build_search_query(title, artist)
}

/// The text between the first `start` in `h` and the next `end` after it.
pub open spec fn capture(h: Seq<char>, start: Seq<char>, end: Seq<char>) -> Option<Seq<char>> {
    match find(h, start) {
        None => None,
        Some(i) => {
            let rest = h.skip(i + start.len());
            match find(rest, end) {
                None => None,
                Some(j) => Some(rest.take(j)),
            }
        },
    }
}

/// The text between the first `start` in `h` and the next `end` after it.
pub fn capture_between(h: &[char], start: &[char], end: &[char]) -> (r: Option<Vec<char>>)
    ensures
        match r {
            Some(v) => capture(h@, start@, end@) == Some(v@),
            None => capture(h@, start@, end@) is None,
        },
{
    match find_chars(h, start, 0) {
        None => None,
        Some(i) => {
            let rest = slice_chars(h, i + start.len(), h.len());
            assert(rest@ =~= h@.skip(i + start@.len()));
            match find_chars(rest.as_slice(), end, 0) {
                None => None,
                Some(j) => {
                    let v = slice_chars(rest.as_slice(), 0, j);
                    assert(v@ =~= rest@.take(j as int));
                    Some(v)
                },
            }
        },
    }
}

/// Markup tags (from `<` to `>`) removed.
pub open spec fn tags_stripped(s: Seq<char>, inside: bool) -> Seq<char>
    decreases s.len(),
{
    if s.len() == 0 {
        seq![]
    } else if s[0] == '<' {
        tags_stripped(s.drop_first(), true)
    } else if s[0] == '>' {
        tags_stripped(s.drop_first(), false)
    } else if !inside {
        seq![s[0]] + tags_stripped(s.drop_first(), inside)
    } else {
        tags_stripped(s.drop_first(), inside)
    }
}

/// Removes markup tags: every character from a `<` up to the next `>`.
pub fn strip_tags(value: &[char]) -> (r: Vec<char>)
    ensures
        r@ == tags_stripped(value@, false),
{
    let mut r: Vec<char> = Vec::new();
    let mut inside = false;
    let mut i: usize = 0;
    assert(value@.skip(0) =~= value@);
    while i < value.len()
        invariant
            i <= value.len(),
            tags_stripped(value@, false) == r@ + tags_stripped(value@.skip(i as int), inside),
        decreases value.len() - i,
    {
        let c = value[i];
        assert(value@.skip(i as int).drop_first() =~= value@.skip(i + 1));
        if c == '<' {
            inside = true;
        } else if c == '>' {
            inside = false;
        } else if !inside {
            let ghost before = r@;
            r.push(c);
            assert(before + (seq![c] + tags_stripped(value@.skip(i + 1), inside)) =~= r@
                + tags_stripped(value@.skip(i + 1), inside));
        }
        i += 1;
    }
    assert(r@ + tags_stripped(value@.skip(i as int), inside) =~= r@);
    r
}

/// A class list names `icon` or a class starting with `icon-`.
pub open spec fn names_have_icon(names: Seq<Seq<char>>) -> bool {
    exists|i: int|
        0 <= i < names.len() && (names[i] == seq!['i', 'c', 'o', 'n'] || crate::text::starts_with(
            names[i],
            seq!['i', 'c', 'o', 'n', '-'],
        ))
}

/// An opening tag's `class` attribute (the first `class` in it, then optional spaces,
/// `=`, optional spaces, and a quoted value) names an icon class.
pub open spec fn icon_class(tag: Seq<char>) -> bool {
    match find(tag, seq!['c', 'l', 'a', 's', 's']) {
        None => false,
        Some(ci) => {
            let after_name = trim_start(tag.skip(ci + 5));
            if after_name.len() == 0 || after_name[0] != '=' {
                false
            } else {
                let after_eq = trim_start(after_name.drop_first());
                if after_eq.len() == 0 || (after_eq[0] != '"' && after_eq[0] != '\'') {
                    false
                } else {
                    match find(after_eq.drop_first(), seq![after_eq[0]]) {
                        None => false,
                        Some(e) => names_have_icon(words(after_eq.drop_first().take(e))),
                    }
                }
            }
        },
    }
}

/// `s` without its leading white space.
fn trim_start_chars(s: &[char]) -> (r: Vec<char>)
    ensures
        r@ == trim_start(s@),
{
    let (a, _b) = trim_bounds(s);
    slice_chars(s, a, s.len())
}

/// Whether a class name is `icon` or starts with `icon-`.
fn icon_name(name: &[char]) -> (r: bool)
    ensures
        r == (name@ == seq!['i', 'c', 'o', 'n'] || crate::text::starts_with(
            name@,
            seq!['i', 'c', 'o', 'n', '-'],
        )),
{
    let icon = vec!['i', 'c', 'o', 'n'];
    let prefix = vec!['i', 'c', 'o', 'n', '-'];
    assert(icon@ =~= seq!['i', 'c', 'o', 'n']);
    assert(prefix@ =~= seq!['i', 'c', 'o', 'n', '-']);
    crate::text::chars_equal(name, icon.as_slice()) || crate::text::match_at(name, prefix.as_slice(), 0)
}

/// Whether an opening `<span …>` tag carries an icon class.
pub fn span_has_icon_class(opening_tag: &[char]) -> (r: bool)
    ensures
        r == icon_class(opening_tag@),
{
    let class = vec!['c', 'l', 'a', 's', 's'];
    assert(class@ =~= seq!['c', 'l', 'a', 's', 's']);
    let ci = match find_chars(opening_tag, class.as_slice(), 0) {
        None => return false,
        Some(ci) => ci,
    };
    let tail = slice_chars(opening_tag, ci + 5, opening_tag.len());
    assert(tail@ =~= opening_tag@.skip(ci + 5));
    let after_name = trim_start_chars(tail.as_slice());
    if after_name.len() == 0 || after_name[0] != '=' {
        return false;
    }
    let rest = slice_chars(after_name.as_slice(), 1, after_name.len());
    assert(rest@ =~= after_name@.drop_first());
    let after_equal = trim_start_chars(rest.as_slice());
    if after_equal.len() == 0 {
        return false;
    }
    let quote = after_equal[0];
    if quote != '"' && quote != '\'' {
        return false;
    }
    let value_part = slice_chars(after_equal.as_slice(), 1, after_equal.len());
    assert(value_part@ =~= after_equal@.drop_first());
    let q = vec![quote];
    assert(q@ =~= seq![after_equal@[0]]);
    let end = match find_chars(value_part.as_slice(), q.as_slice(), 0) {
        None => return false,
        Some(e) => e,
    };
    let value = slice_chars(value_part.as_slice(), 0, end);
    assert(value@ =~= value_part@.take(end as int));
    assert(icon_class(opening_tag@) == names_have_icon(words(value@))) by {
        assert(find(opening_tag@, seq!['c', 'l', 'a', 's', 's']) == Some(ci as int));
        assert(after_name@ == trim_start(opening_tag@.skip(ci + 5)));
        assert(after_equal@ == trim_start(after_name@.drop_first()));
        assert(find(after_equal@.drop_first(), seq![after_equal@[0]]) == Some(end as int));
    }
    let names = split_whitespace(value.as_slice());
    let ghost wanted = icon_class(opening_tag@);
    let mut k: usize = 0;
    while k < names.len()
        invariant
            k <= names.len(),
            views(names@) == words(value@),
            wanted == icon_class(opening_tag@),
            wanted == names_have_icon(words(value@)),
            forall|j: int|
                0 <= j < k ==> !(words(value@)[j] == seq!['i', 'c', 'o', 'n']
                    || crate::text::starts_with(words(value@)[j], seq!['i', 'c', 'o', 'n', '-'])),
        decreases names.len() - k,
    {
        assert(names@[k as int]@ == words(value@)[k as int]);
        if icon_name(names[k].as_slice()) {
            assert(names_have_icon(words(value@))) by {
                let w = words(value@);
                assert(0 <= k < w.len());
                assert(w[k as int] == seq!['i', 'c', 'o', 'n'] || crate::text::starts_with(
                    w[k as int],
                    seq!['i', 'c', 'o', 'n', '-'],
                ));
            }
            return true;
        }
        k += 1;
    }
    assert(words(value@).len() == names.len());
    false
}


/// The text of `v` from `cursor` on with icon spans removed: a `<span …>` whose class
/// names an icon is dropped together with everything up to the next `</span>`; other
/// spans stay. Tags are found in the ASCII-lowercased text `lo`. When a tag or its end is
/// never closed, the rest is kept as it is.
pub open spec fn icon_spans_removed(v: Seq<char>, lo: Seq<char>, cursor: int) -> Seq<char>
    decreases v.len() - cursor,
{
    if cursor < 0 || cursor > v.len() || lo.len() != v.len() {
        seq![]
    } else {
        match find_from(lo, seq!['<', 's', 'p', 'a', 'n'], cursor) {
            None => v.skip(cursor),
            Some(s) => match find_from(lo, seq!['>'], s) {
                None => v.skip(cursor),
                Some(g) => {
                    let tag_end = g + 1;
                    if !icon_class(lo.subrange(s, tag_end)) {
                        if cursor < tag_end <= v.len() {
                            v.subrange(cursor, tag_end) + icon_spans_removed(v, lo, tag_end)
                        } else {
                            seq![]
                        }
                    } else {
                        match find_from(lo, seq!['<', '/', 's', 'p', 'a', 'n', '>'], tag_end) {
                            None => v.skip(cursor),
                            Some(e) => if cursor <= s && cursor < e + 7 <= v.len() {
                                v.subrange(cursor, s) + icon_spans_removed(v, lo, e + 7)
                            } else {
                                seq![]
                            },
                        }
                    }
                },
            },
        }
    }
}

/// Removes the spans whose class names an icon, with their content.
pub fn remove_icon_spans(value: &[char]) -> (r: Vec<char>)
    ensures
        r@ == icon_spans_removed(value@, ascii_lowercase(value@), 0),
{
    let mut lower: Vec<char> = Vec::new();
    let mut i: usize = 0;
    while i < value.len()
        invariant
            i <= value.len(),
            lower@ == ascii_lowercase(value@).take(i as int),
        decreases value.len() - i,
    {
        lower.push(to_ascii_lower(value[i]));
        assert(lower@ =~= ascii_lowercase(value@).take(i + 1));
        i += 1;
    }
    assert(lower@ =~= ascii_lowercase(value@));
    let ghost lo = lower@;
    let span = vec!['<', 's', 'p', 'a', 'n'];
    let gt = vec!['>'];
    let close = vec!['<', '/', 's', 'p', 'a', 'n', '>'];
    assert(span@ =~= seq!['<', 's', 'p', 'a', 'n']);
    assert(gt@ =~= seq!['>']);
    assert(close@ =~= seq!['<', '/', 's', 'p', 'a', 'n', '>']);
    let mut result: Vec<char> = Vec::new();
    let mut cursor: usize = 0;
    loop
        invariant
            cursor <= value.len(),
            lower@ == lo,
            lo == ascii_lowercase(value@),
            span@ == seq!['<', 's', 'p', 'a', 'n'],
            gt@ == seq!['>'],
            close@ == seq!['<', '/', 's', 'p', 'a', 'n', '>'],
            icon_spans_removed(value@, lo, 0) == result@ + icon_spans_removed(value@, lo, cursor as int),
        ensures
            cursor <= value.len(),
            icon_spans_removed(value@, lo, 0) == result@ + value@.skip(cursor as int),
        decreases value.len() - cursor,
    {
        assert(lo.len() == value@.len());
        let start = match find_chars(lower.as_slice(), span.as_slice(), cursor) {
            None => {
                assert(icon_spans_removed(value@, lo, cursor as int) == value@.skip(cursor as int));
                break;
            },
            Some(s) => s,
        };
        let gt_at = match find_chars(lower.as_slice(), gt.as_slice(), start) {
            None => {
                assert(icon_spans_removed(value@, lo, cursor as int) == value@.skip(cursor as int));
                break;
            },
            Some(g) => g,
        };
        let tag_end = gt_at + 1;
        let opening = slice_chars(lower.as_slice(), start, tag_end);
        if !span_has_icon_class(opening.as_slice()) {
            let piece = slice_chars(value, cursor, tag_end);
            let ghost before = result@;
            extend_chars(&mut result, piece.as_slice());
            assert(before + (piece@ + icon_spans_removed(value@, lo, tag_end as int)) =~= result@
                + icon_spans_removed(value@, lo, tag_end as int));
            cursor = tag_end;
            continue;
        }
        let end_at = match find_chars(lower.as_slice(), close.as_slice(), tag_end) {
            None => {
                assert(icon_spans_removed(value@, lo, cursor as int) == value@.skip(cursor as int));
                break;
            },
            Some(e) => e,
        };
        let end = end_at + 7;
        let piece = slice_chars(value, cursor, start);
        let ghost before = result@;
        extend_chars(&mut result, piece.as_slice());
        assert(before + (piece@ + icon_spans_removed(value@, lo, end as int)) =~= result@
            + icon_spans_removed(value@, lo, end as int));
        cursor = end;
    }
    let tail = slice_chars(value, cursor, value.len());
    assert(tail@ =~= value@.skip(cursor as int));
    extend_chars(&mut result, tail.as_slice());
    result
}

/// `cleanup_text`: the words of `s` joined by single spaces.
pub open spec fn cleaned(s: Seq<char>) -> Seq<char> {
    trim(collapse_spaces(s))
}

/// The words of a text joined by single spaces.
pub fn cleanup_text(value: &[char]) -> (r: Vec<char>)
    ensures
        r@ == cleaned(value@),
{
    let c = collapse_whitespace(value);
    trim_chars(c.as_slice())
}

/// The HTML entities that Genie pages use, decoded one replacement after another in a
/// fixed order (`&amp;` first).
pub open spec fn entities_decoded(s: Seq<char>) -> Seq<char> {
    let s = replace_all(s, "&amp;"@, "&"@);
    let s = replace_all(s, "&quot;"@, "\""@);
    let s = replace_all(s, "&#34;"@, "\""@);
    let s = replace_all(s, "&#39;"@, "'"@);
    let s = replace_all(s, "&apos;"@, "'"@);
    let s = replace_all(s, "&lt;"@, "<"@);
    let s = replace_all(s, "&gt;"@, ">"@);
    let s = replace_all(s, "&#x27;"@, "'"@);
    let s = replace_all(s, "&#x2F;"@, "/"@);
    let s = replace_all(s, "&#40;"@, "("@);
    let s = replace_all(s, "&#41;"@, ")"@);
    let s = replace_all(s, "&#91;"@, "["@);
    let s = replace_all(s, "&#93;"@, "]"@);
    replace_all(s, "&#44;"@, ","@)
}

/// `s` with every occurrence of the text `from` replaced by `to`.
fn replace_literal(s: &[char], from: &str, to: &str) -> (r: Vec<char>)
    ensures
        r@ == replace_all(s@, from@, to@),
{
    let f = chars_of(from);
    let t = chars_of(to);
    if f.len() == 0 {
        let same = slice_chars(s, 0, s.len());
        assert(same@ =~= s@);
        return same;
    }
    replace_chars(s, f.as_slice(), t.as_slice())
}

/// Decodes the HTML entities that Genie pages use.
pub fn html_entity_decode(value: &[char]) -> (r: Vec<char>)
    ensures
        r@ == entities_decoded(value@),
{
    let s = replace_literal(value, "&amp;", "&");
    let s = replace_literal(s.as_slice(), "&quot;", "\"");
    let s = replace_literal(s.as_slice(), "&#34;", "\"");
    let s = replace_literal(s.as_slice(), "&#39;", "'");
    let s = replace_literal(s.as_slice(), "&apos;", "'");
    let s = replace_literal(s.as_slice(), "&lt;", "<");
    let s = replace_literal(s.as_slice(), "&gt;", ">");
    let s = replace_literal(s.as_slice(), "&#x27;", "'");
    let s = replace_literal(s.as_slice(), "&#x2F;", "/");
    let s = replace_literal(s.as_slice(), "&#40;", "(");
    let s = replace_literal(s.as_slice(), "&#41;", ")");
    let s = replace_literal(s.as_slice(), "&#91;", "[");
    let s = replace_literal(s.as_slice(), "&#93;", "]");
    replace_literal(s.as_slice(), "&#44;", ",")
}

/// The text shown for a piece of markup: icon spans removed, tags stripped, white space
/// collapsed, entities decoded.
pub open spec fn display_text(v: Seq<char>) -> Seq<char> {
    entities_decoded(cleaned(tags_stripped(icon_spans_removed(v, ascii_lowercase(v), 0), false)))
}

/// The text shown for a piece of markup.
pub fn cleanup_display_text(value: &[char]) -> (r: Vec<char>)
    ensures
        r@ == display_text(value@),
{
    let a = remove_icon_spans(value);
    let b = strip_tags(a.as_slice());
    let c = cleanup_text(b.as_slice());
    html_entity_decode(c.as_slice())
}

/// The text of the anchor that carries `class="<class_name>"`: its `attr_name` attribute
/// when that shows something, else the anchor's content, both as displayed text. The
/// anchor is the last `<a` before the first such class attribute.
pub open spec fn anchor_text(h: Seq<char>, class_name: Seq<char>, attr_name: Seq<char>) -> Option<
    Seq<char>,
> {
    match find(h, "class=\""@ + class_name + "\""@) {
        None => None,
        Some(ci) => match rfind(h.take(ci), "<a"@) {
            None => None,
            Some(a) => {
                let anchor = h.skip(a);
                let from_attr = match capture(anchor, attr_name + "=\""@, "\""@) {
                    Some(v) => display_text(v),
                    None => seq![],
                };
                if from_attr.len() > 0 {
                    Some(from_attr)
                } else {
                    match capture(anchor, ">"@, "</a>"@) {
                        None => None,
                        Some(t) => Some(display_text(t)),
                    }
                }
            },
        },
    }
}

/// The displayed text of the anchor with the given class: its attribute, else its content.
pub fn capture_anchor_attr_or_text(haystack: &[char], class_name: &[char], attr_name: &[char]) -> (r:
    Option<Vec<char>>)
    ensures
        match r {
            Some(v) => anchor_text(haystack@, class_name@, attr_name@) == Some(v@),
            None => anchor_text(haystack@, class_name@, attr_name@) is None,
        },
{
    let mut marker = chars_of("class=\"");
    extend_chars(&mut marker, class_name);
    let quote = chars_of("\"");
    extend_chars(&mut marker, quote.as_slice());
    let ci = match find_chars(haystack, marker.as_slice(), 0) {
        None => return None,
        Some(i) => i,
    };
    let before = slice_chars(haystack, 0, ci);
    assert(before@ =~= haystack@.take(ci as int));
    let a_open = chars_of("<a");
    let a = match rfind_chars(before.as_slice(), a_open.as_slice()) {
        None => return None,
        Some(a) => a,
    };
    let anchor = slice_chars(haystack, a, haystack.len());
    assert(anchor@ =~= haystack@.skip(a as int));
    let mut attr = slice_chars(attr_name, 0, attr_name.len());
    assert(attr@ =~= attr_name@);
    let eq_quote = chars_of("=\"");
    extend_chars(&mut attr, eq_quote.as_slice());
    if let Some(value) = capture_between(anchor.as_slice(), attr.as_slice(), quote.as_slice()) {
        let shown = cleanup_display_text(value.as_slice());
        if shown.len() > 0 {
            return Some(shown);
        }
    }
    let gt = chars_of(">");
    let close = chars_of("</a>");
    match capture_between(anchor.as_slice(), gt.as_slice(), close.as_slice()) {
        None => None,
        Some(t) => Some(cleanup_display_text(t.as_slice())),
    }
}

/// The fields of a Genie track: id, name, artist, duration.
pub open spec fn track_fields(t: GenieTrack) -> (u64, Seq<char>, Seq<char>, Option<u64>) {
    (t.track_id, t.track_name@, t.artist_name@, t.duration_ms)
}

/// The track a search result row describes: its `songid`, and in its info cell the
/// displayed title and artist (both must show something) and the duration, when one parses.
pub open spec fn row_track(row: Seq<char>) -> Option<(u64, Seq<char>, Seq<char>, Option<u64>)> {
    match capture(row, "songid=\""@, "\""@) {
        None => None,
        Some(id_text) => match parse_u64(id_text) {
            None => None,
            Some(id) => match capture(row, "<td class=\"info\">"@, "</td>"@) {
                None => None,
                Some(info) => {
                    let title = anchor_text(info, "title ellipsis"@, "title"@);
                    let artist = anchor_text(info, "artist ellipsis"@, "title"@);
                    if title is None || title->Some_0.len() == 0 || artist is None
                        || artist->Some_0.len() == 0 {
                        None
                    } else {
                        let duration = match capture(
                            info,
                            "<span class=\"duration\">"@,
                            "</span>"@,
                        ) {
                            None => None,
                            Some(d) => duration_ms_of(cleaned(d)),
                        };
                        Some((id, title->Some_0, artist->Some_0, duration))
                    }
                },
            },
        },
    }
}

/// Reads one search result row.
pub fn parse_search_track_row(row: &[char]) -> (r: Option<GenieTrack>)
    ensures
        match r {
            Some(t) => row_track(row@) == Some(track_fields(t)),
            None => row_track(row@) is None,
        },
{
    let id_open = chars_of("songid=\"");
    let quote = chars_of("\"");
    let id_text = match capture_between(row, id_open.as_slice(), quote.as_slice()) {
        None => return None,
        Some(t) => t,
    };
    let track_id = match parse_u64_chars(id_text.as_slice()) {
        None => return None,
        Some(n) => n,
    };
    let info_open = chars_of("<td class=\"info\">");
    let info_close = chars_of("</td>");
    let info = match capture_between(row, info_open.as_slice(), info_close.as_slice()) {
        None => return None,
        Some(i) => i,
    };
    let title_class = chars_of("title ellipsis");
    let artist_class = chars_of("artist ellipsis");
    let title_attr = chars_of("title");
    let title = match capture_anchor_attr_or_text(info.as_slice(), title_class.as_slice(), title_attr.as_slice()) {
        None => return None,
        Some(t) => t,
    };
    if title.len() == 0 {
        return None;
    }
    let artist = match capture_anchor_attr_or_text(info.as_slice(), artist_class.as_slice(), title_attr.as_slice()) {
        None => return None,
        Some(a) => a,
    };
    if artist.len() == 0 {
        return None;
    }
    let duration_open = chars_of("<span class=\"duration\">");
    let span_close = chars_of("</span>");
    let duration_ms = match capture_between(info.as_slice(), duration_open.as_slice(), span_close.as_slice()) {
        None => None,
        Some(d) => {
            let c = cleanup_text(d.as_slice());
            duration_ms_from_chars(c.as_slice())
        },
    };
    Some(GenieTrack {
        track_id,
        track_name: string_of(title.as_slice()),
        artist_name: string_of(artist.as_slice()),
        duration_ms,
    })
}

/// The search result rows of a page: each piece after a `<tr class="list"` opening, with
/// that opening put back in front.
pub open spec fn search_rows(body: Seq<char>) -> Seq<Seq<char>> {
    let pieces = split_on(body, "<tr class=\"list\""@);
    if pieces.len() == 0 {
        seq![]
    } else {
        Seq::new((pieces.len() - 1) as nat, |i: int| "<tr class=\"list\""@ + pieces[i + 1])
    }
}

/// The ids of a list of track fields.
pub open spec fn ids_of(tracks: Seq<(u64, Seq<char>, Seq<char>, Option<u64>)>) -> Seq<u64> {
    tracks.map_values(|t: (u64, Seq<char>, Seq<char>, Option<u64>)| t.0)
}

/// The tracks read from rows, in row order, keeping only the first row of each id.
pub open spec fn first_of_each_id(rows: Seq<Option<(u64, Seq<char>, Seq<char>, Option<u64>)>>) -> Seq<
    (u64, Seq<char>, Seq<char>, Option<u64>),
>
    decreases rows.len(),
{
    if rows.len() == 0 {
        seq![]
    } else {
        let prev = first_of_each_id(rows.drop_last());
        match rows.last() {
            Some(t) => if ids_of(prev).contains(t.0) {
                prev
            } else {
                prev.push(t)
            },
            None => prev,
        }
    }
}

/// The tracks of a search page.
pub open spec fn search_results(body: Seq<char>) -> Seq<(u64, Seq<char>, Seq<char>, Option<u64>)> {
    first_of_each_id(search_rows(body).map_values(|r: Seq<char>| row_track(r)))
}

/// Keeping the first row of each id leaves no id twice.
proof fn lemma_first_of_each_id_unique(rows: Seq<Option<(u64, Seq<char>, Seq<char>, Option<u64>)>>)
    ensures
        forall|i: int, j: int|
            0 <= i < j < first_of_each_id(rows).len() ==> #[trigger] first_of_each_id(rows)[i].0
                != #[trigger] first_of_each_id(rows)[j].0,
    decreases rows.len(),
{
    if rows.len() > 0 {
        let prev = first_of_each_id(rows.drop_last());
        lemma_first_of_each_id_unique(rows.drop_last());
        match rows.last() {
            Some(t) => if !ids_of(prev).contains(t.0) {
                let cur = prev.push(t);
                assert forall|i: int, j: int| 0 <= i < j < cur.len() implies cur[i].0 != cur[j].0 by {
                    if j == prev.len() {
                        assert(ids_of(prev)[i] == prev[i].0);
                    }
                }
            },
            None => {},
        }
    }
}

/// The tracks read from a search page never hold the same id twice.
pub proof fn lemma_search_results_unique(body: Seq<char>)
    ensures
        forall|i: int, j: int|
            0 <= i < j < search_results(body).len() ==> #[trigger] search_results(body)[i].0
                != #[trigger] search_results(body)[j].0,
{
    lemma_first_of_each_id_unique(search_rows(body).map_values(|r: Seq<char>| row_track(r)));
}

/// The fields of each track in a list.
pub open spec fn track_list(v: Seq<GenieTrack>) -> Seq<(u64, Seq<char>, Seq<char>, Option<u64>)> {
    v.map_values(|t: GenieTrack| track_fields(t))
}

/// Whether `x` is in `v`.
fn contains_id(v: &Vec<u64>, x: u64) -> (r: bool)
    ensures
        r == v@.contains(x),
{
    let mut i: usize = 0;
    while i < v.len()
        invariant
            i <= v.len(),
            forall|j: int| 0 <= j < i ==> v@[j] != x,
        decreases v.len() - i,
    {
        if v[i] == x {
            return true;
        }
        i += 1;
    }
    false
}

/// Reads the tracks of a Genie search page, each id once, in page order.
pub fn parse_search_tracks(body: &str) -> (r: Vec<GenieTrack>)
    ensures
        track_list(r@) == search_results(body@),
{
    let b = chars_of(body);
    let marker = chars_of("<tr class=\"list\"");
    proof {
        reveal_strlit("<tr class=\"list\"");
    }
    let pieces = split_on_chars(b.as_slice(), marker.as_slice());
    let ghost rows = search_rows(body@).map_values(|r: Seq<char>| row_track(r));
    let ghost pv = split_on(body@, "<tr class=\"list\""@);
    proof {
        crate::text::lemma_split_on_nonempty(body@, "<tr class=\"list\""@);
    }
    let mut tracks: Vec<GenieTrack> = Vec::new();
    let mut seen: Vec<u64> = Vec::new();
    let mut i: usize = 1;
    assert(rows.take(0) =~= Seq::<Option<(u64, Seq<char>, Seq<char>, Option<u64>)>>::empty());
    while i < pieces.len()
        invariant
            1 <= i <= pieces.len(),
            views(pieces@) == pv,
            pv == split_on(body@, "<tr class=\"list\""@),
            marker@ == "<tr class=\"list\""@,
            rows == search_rows(body@).map_values(|r: Seq<char>| row_track(r)),
            rows.len() == pieces.len() - 1,
            track_list(tracks@) == first_of_each_id(rows.take(i - 1)),
            seen@ == ids_of(track_list(tracks@)),
        decreases pieces.len() - i,
    {
        let mut row = slice_chars(marker.as_slice(), 0, marker.len());
        assert(row@ =~= marker@);
        extend_chars(&mut row, pieces[i].as_slice());
        assert(pieces@[i as int]@ == pv[i as int]);
        assert(row@ == search_rows(body@)[i - 1]);
        assert(rows[i - 1] == row_track(row@));
        assert(rows.take(i as int).drop_last() =~= rows.take(i - 1));
        let parsed = parse_search_track_row(row.as_slice());
        match parsed {
            Some(t) => {
                if !contains_id(&seen, t.track_id) {
                    let ghost before = track_list(tracks@);
                    let id = t.track_id;
                    tracks.push(t);
                    seen.push(id);
                    assert(track_list(tracks@) =~= before.push(track_fields(t)));
                    assert(seen@ =~= ids_of(track_list(tracks@)));
                }
            },
            None => {},
        }
        i += 1;
    }
    assert(rows.take(i - 1) =~= rows);
    tracks
}

/// A timed line list after `line` is put at `key`: a line already at `key` is replaced,
/// otherwise the new line goes before the first line with a later time.
pub open spec fn insert_sorted(s: Seq<(u64, Seq<char>)>, key: u64, line: Seq<char>) -> Seq<
    (u64, Seq<char>),
>
    decreases s.len(),
{
    if s.len() == 0 {
        seq![(key, line)]
    } else if s[0].0 == key {
        seq![(key, line)] + s.drop_first()
    } else if s[0].0 > key {
        seq![(key, line)] + s
    } else {
        seq![s[0]] + insert_sorted(s.drop_first(), key, line)
    }
}

/// The line at `key`, the first one when there are several.
pub open spec fn lookup(s: Seq<(u64, Seq<char>)>, key: u64) -> Option<Seq<char>>
    decreases s.len(),
{
    if s.len() == 0 {
        None
    } else if s[0].0 == key {
        Some(s[0].1)
    } else {
        lookup(s.drop_first(), key)
    }
}

/// Times strictly increase along the list.
pub open spec fn strictly_ascending(s: Seq<(u64, Seq<char>)>) -> bool {
    forall|i: int, j: int| 0 <= i < j < s.len() ==> s[i].0 < s[j].0
}

/// Timed lyric lines, ordered by their time in milliseconds, one line per time.
pub struct LyricsEntries {
    entries: BTreeMap<u64, String>,
    lines: Ghost<Seq<(u64, Seq<char>)>>,
}

impl LyricsEntries {
    /// The lines with their times, in order.
    pub closed spec fn lines(&self) -> Seq<(u64, Seq<char>)> {
        self.lines@
    }

    /// The map holds exactly the lines: times strictly increase along them, each time of
    /// the map finds its line, and there are as many times as lines.
    pub closed spec fn wf(&self) -> bool {
        &&& strictly_ascending(self.lines@)
        &&& forall|k: u64| #[trigger]
            self.entries@.contains_key(k) == (lookup(self.lines@, k) is Some)
        &&& forall|k: u64| #[trigger]
            self.entries@.contains_key(k) ==> lookup(self.lines@, k) == Some(self.entries@[k]@)
        &&& self.entries@.len() == self.lines@.len()
    }

    /// No lines.
    pub fn new() -> (r: LyricsEntries)
        ensures
            r.wf(),
            r.lines() == Seq::<(u64, Seq<char>)>::empty(),
    {
        LyricsEntries { entries: BTreeMap::new(), lines: Ghost(Seq::empty()) }
    }

    /// Puts `line` at time `key`, replacing a line already there.
    pub fn insert(&mut self, key: u64, line: String)
        requires
            old(self).wf(),
        ensures
            final(self).wf(),
            final(self).lines() == insert_sorted(old(self).lines(), key, line@),
    {
        let ghost s = self.lines@;
        let ghost lv = line@;
        let ghost m0 = self.entries@;
        proof {
            lemma_insert_sorted_len(s, key, lv);
            lemma_insert_sorted(s, key, lv, key);
        }
        self.entries.insert(key, line);
        self.lines = Ghost(insert_sorted(s, key, lv));
        proof {
            let t = insert_sorted(s, key, lv);
            assert forall|k: u64| #[trigger]
                self.entries@.contains_key(k) == (lookup(t, k) is Some) by {
                if k != key {
                    lemma_insert_sorted(s, key, lv, k);
                }
            }
            assert forall|k: u64| #[trigger]
                self.entries@.contains_key(k) implies lookup(t, k) == Some(self.entries@[k]@) by {
                if k != key {
                    lemma_insert_sorted(s, key, lv, k);
                }
            }
            if m0.contains_key(key) {
                assert(self.entries@.dom() =~= m0.dom());
            } else {
                assert(self.entries@.dom() =~= m0.dom().insert(key));
            }
        }
    }

    /// The line at time `key`.
    pub fn get(&self, key: u64) -> (r: Option<&String>)
        requires
            self.wf(),
        ensures
            match r {
                Some(t) => lookup(self.lines(), key) == Some(t@),
                None => lookup(self.lines(), key) is None,
            },
    {
        let r = self.entries.get(&key);
        assert(self.entries@.contains_key(key) == (lookup(self.lines@, key) is Some));
        r
    }

    /// How many lines there are.
    pub fn len(&self) -> (r: usize)
        requires
            self.wf(),
        ensures
            r == self.lines().len(),
    {
        self.entries.len()
    }

    /// The lines in order, with copies of their texts.
    fn ordered(&self) -> (r: Vec<(u64, String)>)
        requires
            self.wf(),
        ensures
            r@.map_values(|e: (u64, String)| (e.0, e.1@)) == self.lines(),
    {
        let ghost m = self.entries@;
        let ghost rem = spec_btree_map_iter(&self.entries).remaining();
        let mut out: Vec<(u64, String)> = Vec::new();
        for kv in it: self.entries.iter()
            invariant
                it.seq() == rem,
                rem == spec_btree_map_iter(&self.entries).remaining(),
                out.len() == it.index(),
                forall|i: int|
                    0 <= i < it.index() ==> (#[trigger] out@[i]).0 == *rem[i].0 && out@[i].1@ == (
                    *rem[i].1)@,
        {
            let (k, v) = kv;
            out.push((*k, v.clone()));
        }
        let ghost a = out@.map_values(|e: (u64, String)| (e.0, e.1@));
        assert(out.len() == rem.len());
        proof {
            lemma_u64_keys_ordered();
        }
        let ghost ks = rem.map_values(|kv: (&u64, &String)| *kv.0);
        proof {
            lemma_increasing_keys(ks);
        }
        assert forall|i: int, j: int| 0 <= i < j < rem.len() implies *rem[i].0 < *rem[j].0 by {
            assert(ks[i] == *rem[i].0);
            assert(ks[j] == *rem[j].0);
        }
        proof {
            let l = self.lines@;
            let m = self.entries@;
            assert(strictly_ascending(a)) by {
                assert forall|i: int, j: int| 0 <= i < j < a.len() implies a[i].0 < a[j].0 by {
                    assert(a[i].0 == *rem[i].0);
                    assert(a[j].0 == *rem[j].0);
                }
            }
            assert forall|i: int| 0 <= i < a.len() implies l.contains(a[i]) by {
                let k = *rem[i].0;
                assert(m.contains_key(*rem[i].0) && m[*rem[i].0] == *rem[i].1);
                assert(m.contains_key(k));
                assert(lookup(l, k) == Some(m[k]@));
                lemma_lookup_found(l, k);
                assert(a[i] == (k, m[k]@));
            }
            assert forall|j: int| 0 <= j < l.len() implies a.contains(l[j]) by {
                lemma_lookup_sorted(l, j);
                let k = l[j].0;
                assert(m.contains_key(k));
                assert(rem.contains((&k, &m[k])));
                let i = choose|i: int| 0 <= i < rem.len() && rem[i] == (&k, &m[k]);
                assert(a[i] == l[j]);
            }
            lemma_same_sorted(a, l);
        }
        out
    }

    /// Whether every time leaves room to round it to the nearest hundredth.
    pub fn all_stamps_fit(&self) -> (r: bool)
        requires
            self.wf(),
        ensures
            r == stamps_fit(self.lines()),
    {
        let v = self.ordered();
        let ghost s = self.lines();
        let mut i: usize = 0;
        while i < v.len()
            invariant
                i <= v.len(),
                s == self.lines(),
                v@.map_values(|e: (u64, String)| (e.0, e.1@)) == s,
                forall|j: int| 0 <= j < i ==> s[j].0 <= u64::MAX - 5,
            decreases v.len() - i,
        {
            assert(s[i as int].0 == v@[i as int].0);
            if v[i].0 > u64::MAX - 5 {
                return false;
            }
            i += 1;
        }
        true
    }

    /// Whether there is no line.
    pub fn is_empty(&self) -> (r: bool)
        requires
            self.wf(),
        ensures
            r == (self.lines().len() == 0),
    {
        self.entries.is_empty()
    }
}

/// Times in milliseconds follow the order that ordered maps rely on.
proof fn lemma_u64_keys_ordered()
    ensures
        vstd::std_specs::btree::key_obeys_cmp_spec::<u64>(),
        vstd::laws_cmp::obeys_cmp::<u64>(),
{
    assert(vstd::laws_cmp::obeys_cmp::<u64>());
}

/// The line found at a time is one of the lines.
proof fn lemma_lookup_found(s: Seq<(u64, Seq<char>)>, k: u64)
    ensures
        lookup(s, k) matches Some(v) ==> s.contains((k, v)),
    decreases s.len(),
{
    if s.len() > 0 && s[0].0 != k {
        let t = s.drop_first();
        lemma_lookup_found(t, k);
        if lookup(s, k) is Some {
            let v = lookup(s, k)->0;
            let j = choose|j: int| 0 <= j < t.len() && t[j] == (k, v);
            assert(s[j + 1] == (k, v));
        }
    } else if s.len() > 0 {
        assert(s[0] == (k, s[0].1));
    }
}

/// In a list whose times strictly increase, each line is found at its time.
proof fn lemma_lookup_sorted(s: Seq<(u64, Seq<char>)>, j: int)
    requires
        strictly_ascending(s),
        0 <= j < s.len(),
    ensures
        lookup(s, s[j].0) == Some(s[j].1),
    decreases j,
{
    if j > 0 {
        assert(s[0].0 < s[j].0);
        let t = s.drop_first();
        assert(strictly_ascending(t));
        assert(t[j - 1] == s[j]);
        lemma_lookup_sorted(t, j - 1);
    }
}

/// Two lists whose times strictly increase and that hold the same lines are equal.
proof fn lemma_same_sorted(a: Seq<(u64, Seq<char>)>, b: Seq<(u64, Seq<char>)>)
    requires
        strictly_ascending(a),
        strictly_ascending(b),
        forall|i: int| 0 <= i < a.len() ==> b.contains(#[trigger] a[i]),
        forall|j: int| 0 <= j < b.len() ==> a.contains(#[trigger] b[j]),
    ensures
        a == b,
    decreases a.len() + b.len(),
{
    if a.len() == 0 {
        if b.len() > 0 {
            assert(a.contains(b[0]));
        }
        assert(b =~= a);
    } else if b.len() == 0 {
        assert(b.contains(a[0]));
    } else {
        assert(b.contains(a[0]));
        let j = choose|j: int| 0 <= j < b.len() && b[j] == a[0];
        assert(a.contains(b[0]));
        let i = choose|i: int| 0 <= i < a.len() && a[i] == b[0];
        if j > 0 {
            assert(b[0].0 < b[j].0);
            if i > 0 {
                assert(a[0].0 < a[i].0);
            }
            assert(false);
        }
        assert(a[0] == b[0]);
        let a2 = a.drop_first();
        let b2 = b.drop_first();
        assert forall|x: int| 0 <= x < a2.len() implies b2.contains(#[trigger] a2[x]) by {
            assert(a2[x] == a[x + 1]);
            assert(b.contains(a[x + 1]));
            let y = choose|y: int| 0 <= y < b.len() && b[y] == a[x + 1];
            assert(a[0].0 < a[x + 1].0);
            assert(y != 0);
            assert(b2[y - 1] == b[y]);
        }
        assert forall|y: int| 0 <= y < b2.len() implies a2.contains(#[trigger] b2[y]) by {
            assert(b2[y] == b[y + 1]);
            assert(a.contains(b[y + 1]));
            let x = choose|x: int| 0 <= x < a.len() && a[x] == b[y + 1];
            assert(b[0].0 < b[y + 1].0);
            assert(x != 0);
            assert(a2[x - 1] == a[x]);
        }
        assert(strictly_ascending(a2));
        assert(strictly_ascending(b2));
        lemma_same_sorted(a2, b2);
        assert forall|k: int| 0 <= k < a.len() implies a[k] == b[k] by {
            if k > 0 {
                assert(a[k] == a2[k - 1]);
                assert(b[k] == b2[k - 1]);
            }
        }
        assert(a =~= b);
    }
}

/// Times that an ordered map gives in increasing order strictly increase.
proof fn lemma_increasing_keys(ks: Seq<u64>)
    requires
        vstd::std_specs::btree::increasing_seq(ks),
    ensures
        forall|i: int, j: int| 0 <= i < j < ks.len() ==> ks[i] < ks[j],
{
    lemma_u64_keys_ordered();
    assert forall|i: int, j: int| 0 <= i < j < ks.len() implies ks[i] < ks[j] by {
        assert(vstd::std_specs::cmp::OrdSpec::cmp_spec(&ks[i], &ks[j]) is Less);
    }
}

/// Putting a line into a list whose times strictly increase adds one line when its time
/// is new and keeps the length otherwise.
proof fn lemma_insert_sorted_len(s: Seq<(u64, Seq<char>)>, key: u64, line: Seq<char>)
    requires
        strictly_ascending(s),
    ensures
        insert_sorted(s, key, line).len() == s.len() + (if lookup(s, key) is Some {
            0int
        } else {
            1int
        }),
    decreases s.len(),
{
    if s.len() > 0 {
        if s[0].0 > key {
            lemma_lookup_absent_below(s, key);
        } else if s[0].0 < key {
            assert(strictly_ascending(s.drop_first()));
            lemma_insert_sorted_len(s.drop_first(), key, line);
        }
    }
}

/// Putting a line into a list whose times strictly increase keeps them strictly
/// increasing; afterwards the line is found at its time, and every other time finds what
/// it found before.
pub proof fn lemma_insert_sorted(s: Seq<(u64, Seq<char>)>, key: u64, line: Seq<char>, other: u64)
    requires
        strictly_ascending(s),
    ensures
        strictly_ascending(insert_sorted(s, key, line)),
        lookup(insert_sorted(s, key, line), key) == Some(line),
        other != key ==> lookup(insert_sorted(s, key, line), other) == lookup(s, other),
        forall|i: int|
            0 <= i < insert_sorted(s, key, line).len() ==> (insert_sorted(s, key, line)[i].0 == key
                || exists|j: int| 0 <= j < s.len() && s[j].0 == insert_sorted(s, key, line)[i].0),
    decreases s.len(),
{
    let r = insert_sorted(s, key, line);
    if s.len() == 0 {
        assert(r.drop_first() =~= s);
        if other != key {
            assert(lookup(r, other) == lookup(r.drop_first(), other));
        }
    } else if s[0].0 == key {
        assert(r.drop_first() =~= s.drop_first());
        lemma_lookup_absent_below(s.drop_first(), key);
        assert forall|i: int| 0 <= i < r.len() implies (r[i].0 == key || exists|j: int|
            0 <= j < s.len() && s[j].0 == r[i].0) by {
            if i > 0 {
                assert(s[i].0 == r[i].0);
            }
        }
    } else if s[0].0 > key {
        assert(r.drop_first() =~= s);
        lemma_lookup_absent_below(s, key);
        assert forall|i: int| 0 <= i < r.len() implies (r[i].0 == key || exists|j: int|
            0 <= j < s.len() && s[j].0 == r[i].0) by {
            if i > 0 {
                assert(s[i - 1].0 == r[i].0);
            }
        }
    } else {
        let t = s.drop_first();
        lemma_insert_sorted(t, key, line, other);
        let rt = insert_sorted(t, key, line);
        assert(r.drop_first() =~= rt);
        assert(r[0] == s[0]);
        assert forall|i: int| 0 <= i < r.len() implies (r[i].0 == key || exists|j: int|
            0 <= j < s.len() && s[j].0 == r[i].0) by {
            if i == 0 {
                assert(s[0].0 == r[0].0);
            } else {
                assert(r[i] == rt[i - 1]);
                if rt[i - 1].0 != key {
                    let j = choose|j: int| 0 <= j < t.len() && t[j].0 == rt[i - 1].0;
                    assert(s[j + 1].0 == r[i].0);
                }
            }
        }
        assert forall|i: int, j: int| 0 <= i < j < r.len() implies r[i].0 < r[j].0 by {
            if i == 0 {
                assert(r[j] == rt[j - 1]);
                if rt[j - 1].0 != key {
                    let k = choose|k: int| 0 <= k < t.len() && t[k].0 == rt[j - 1].0;
                    assert(s[k + 1].0 == rt[j - 1].0);
                }
            } else {
                assert(r[i] == rt[i - 1]);
                assert(r[j] == rt[j - 1]);
            }
        }
    }
}

/// In a list whose times strictly increase and all exceed `key`, or start after it,
/// `key` finds nothing.
proof fn lemma_lookup_absent_below(s: Seq<(u64, Seq<char>)>, key: u64)
    requires
        strictly_ascending(s),
        s.len() > 0 ==> s[0].0 > key,
    ensures
        lookup(s, key) is None,
    decreases s.len(),
{
    if s.len() > 0 {
        lemma_lookup_absent_below(s.drop_first(), key);
    }
}

/// Every time in the list leaves room to round it to the nearest hundredth.
pub open spec fn stamps_fit(s: Seq<(u64, Seq<char>)>) -> bool {
    forall|i: int| 0 <= i < s.len() ==> s[i].0 <= u64::MAX - 5
}

/// One LRC line: the time rounded to the nearest hundredth, then the text.
pub open spec fn timed_line(e: (u64, Seq<char>)) -> Seq<char> {
    lrc_stamp(centis_of(e.0 as nat, TimestampRounding::Nearest)) + e.1
}

/// The LRC text of timed lines, one per line in time order; none for no lines.
pub open spec fn genie_lrc(s: Seq<(u64, Seq<char>)>) -> Option<Seq<char>> {
    if s.len() == 0 {
        None
    } else {
        Some(join(s.map_values(|e: (u64, Seq<char>)| timed_line(e)), "\n"@))
    }
}

/// The plain text of timed lines, one per line in time order; none for no lines.
pub open spec fn genie_plain(s: Seq<(u64, Seq<char>)>) -> Option<Seq<char>> {
    if s.len() == 0 {
        None
    } else {
        Some(join(s.map_values(|e: (u64, Seq<char>)| e.1), "\n"@))
    }
}

/// The LRC text of the timed lines.
pub fn format_genie_lrc(entries: &LyricsEntries) -> (r: Option<String>)
    requires
        entries.wf(),
        stamps_fit(entries.lines()),
    ensures
        match r {
            Some(t) => genie_lrc(entries.lines()) == Some(t@),
            None => genie_lrc(entries.lines()) is None,
        },
{
    let ghost s = entries.lines();
    let v = entries.ordered();
    if v.len() == 0 {
        return None;
    }
    let mut parts: Vec<Vec<char>> = Vec::new();
    let mut i: usize = 0;
    while i < v.len()
        invariant
            i <= v.len(),
            s == v@.map_values(|e: (u64, String)| (e.0, e.1@)),
            stamps_fit(s),
            views(parts@) == s.take(i as int).map_values(|e: (u64, Seq<char>)| timed_line(e)),
        decreases v.len() - i,
    {
        let ms = v[i].0;
        assert(s[i as int] == (v@[i as int].0, v@[i as int].1@));
        let mut line: Vec<char> = Vec::new();
        push_lrc_stamp(&mut line, (ms + 5) / 10);
        let text = chars_of(v[i].1.as_str());
        extend_chars(&mut line, text.as_slice());
        assert(line@ == timed_line(s[i as int]));
        let ghost before = views(parts@);
        parts.push(line);
        assert(views(parts@) =~= before.push(line@));
        assert(s.take(i + 1).map_values(|e: (u64, Seq<char>)| timed_line(e)) =~= s.take(
            i as int,
        ).map_values(|e: (u64, Seq<char>)| timed_line(e)).push(timed_line(s[i as int])));
        i += 1;
    }
    assert(s.take(i as int) =~= s);
    let nl = chars_of("\n");
    let joined = join_chars(&parts, nl.as_slice());
    Some(string_of(joined.as_slice()))
}

/// The plain text of the timed lines.
pub fn format_plain_text(entries: &LyricsEntries) -> (r: Option<String>)
    requires
        entries.wf(),
    ensures
        match r {
            Some(t) => genie_plain(entries.lines()) == Some(t@),
            None => genie_plain(entries.lines()) is None,
        },
{
    let ghost s = entries.lines();
    let v = entries.ordered();
    if v.len() == 0 {
        return None;
    }
    let mut parts: Vec<Vec<char>> = Vec::new();
    let mut i: usize = 0;
    while i < v.len()
        invariant
            i <= v.len(),
            s == v@.map_values(|e: (u64, String)| (e.0, e.1@)),
            views(parts@) == s.take(i as int).map_values(|e: (u64, Seq<char>)| e.1),
        decreases v.len() - i,
    {
        assert(s[i as int] == (v@[i as int].0, v@[i as int].1@));
        let text = chars_of(v[i].1.as_str());
        assert(text@ == s[i as int].1);
        let ghost before = views(parts@);
        parts.push(text);
        assert(views(parts@) =~= before.push(s[i as int].1));
        assert(s.take(i + 1).map_values(|e: (u64, Seq<char>)| e.1) =~= s.take(i as int).map_values(
            |e: (u64, Seq<char>)| e.1,
        ).push(s[i as int].1));
        i += 1;
    }
    assert(s.take(i as int) =~= s);
    let nl = chars_of("\n");
    let joined = join_chars(&parts, nl.as_slice());
    Some(string_of(joined.as_slice()))
}

/// The text between the first `(` and the last `)` of a JSONP answer, when the first comes
/// before the last with something between.
pub open spec fn jsonp_payload(body: Seq<char>) -> Option<Seq<char>> {
    match find(body, seq!['(']) {
        None => None,
        Some(i) => match rfind(body, seq![')']) {
            None => None,
            Some(e) => if i + 1 < e {
                Some(body.subrange(i + 1, e))
            } else {
                None
            },
        },
    }
}

/// The JSON inside a JSONP answer.
pub fn extract_jsonp_payload(body: &[char]) -> (r: Option<Vec<char>>)
    ensures
        match r {
            Some(v) => jsonp_payload(body@) == Some(v@),
            None => jsonp_payload(body@) is None,
        },
{
    let open = vec!['('];
    let close = vec![')'];
    assert(open@ =~= seq!['(']);
    assert(close@ =~= seq![')']);
    let i = match find_chars(body, open.as_slice(), 0) {
        None => return None,
        Some(i) => i,
    };
    let e = match rfind_chars(body, close.as_slice()) {
        None => return None,
        Some(e) => e,
    };
    if i + 1 < e {
        Some(slice_chars(body, i + 1, e))
    } else {
        None
    }
}

/// What a JSON text holds, as far as the lyrics answer needs it: the parse error's
/// message, a value that is no object, or the object's members in the order the object
/// yields them, each with its value when that is a string.
pub enum JsonDocument {
    Invalid(String),
    NotObject,
    Object(Vec<(String, Option<String>)>),
}

/// The mathematical content of a `JsonDocument`.
pub enum JsonDocumentView {
    Invalid(Seq<char>),
    NotObject,
    Object(Seq<(Seq<char>, Option<Seq<char>>)>),
}

/// The text of an optional string.
pub open spec fn opt_text(o: Option<String>) -> Option<Seq<char>> {
    match o {
        Some(t) => Some(t@),
        None => None,
    }
}

impl View for JsonDocument {
    type V = JsonDocumentView;

    open spec fn view(&self) -> JsonDocumentView {
        match self {
            JsonDocument::Invalid(e) => JsonDocumentView::Invalid(e@),
            JsonDocument::NotObject => JsonDocumentView::NotObject,
            JsonDocument::Object(members) => JsonDocumentView::Object(
                members@.map_values(|m: (String, Option<String>)| (m.0@, opt_text(m.1))),
            ),
        }
    }
}

/// What `serde_json` reads from a JSON text, taken as a `JsonDocument`.
pub uninterp spec fn json_document(text: Seq<char>) -> JsonDocumentView;

/// Parses `text` with `serde_json::from_str` into a `serde_json::Value`. The contract says
/// only that the outcome is a function of the text: the error message for text that is
/// no JSON, `NotObject` for a value that is no object, else the object's members as its
/// map iterates them, keeping each value that is a JSON string.
#[verifier::external_body]
fn read_json_document(text: &str) -> (r: JsonDocument)
    ensures
        r@ == json_document(text@),
{
    match serde_json::from_str::<serde_json::Value>(text) {
        Err(error) => JsonDocument::Invalid(error.to_string()),
        Ok(serde_json::Value::Object(object)) => JsonDocument::Object(
            object.iter().map(|(key, value)| (key.clone(), value.as_str().map(String::from))).collect(),
        ),
        Ok(_) => JsonDocument::NotObject,
    }
}

/// The timed lines of an object's members: each member whose name parses as a number of
/// milliseconds and whose value is a string with something besides white space gives the
/// trimmed, entity-decoded line at that time; a later member at the same time wins.
pub open spec fn entries_of(members: Seq<(Seq<char>, Option<Seq<char>>)>) -> Seq<(u64, Seq<char>)>
    decreases members.len(),
{
    if members.len() == 0 {
        seq![]
    } else {
        let prev = entries_of(members.drop_last());
        let m = members.last();
        match parse_u64(m.0) {
            None => prev,
            Some(ms) => match m.1 {
                None => prev,
                Some(line) => if trim(line).len() == 0 {
                    prev
                } else {
                    insert_sorted(prev, ms, entities_decoded(trim(line)))
                },
            },
        }
    }
}

/// The lyrics a JSON document gives: an error message for a bad document, none when no
/// member gives a line, else the timed lines.
pub open spec fn payload_lines(doc: JsonDocumentView) -> Result<
    Option<Seq<(u64, Seq<char>)>>,
    Seq<char>,
> {
    match doc {
        JsonDocumentView::Invalid(e) => Err("Genie lyrics JSON parse failed: "@ + e),
        JsonDocumentView::NotObject => Err("Genie lyrics payload body was not an object"@),
        JsonDocumentView::Object(members) => {
            let entries = entries_of(members);
            if entries.len() == 0 {
                Ok(None)
            } else {
                Ok(Some(entries))
            }
        },
    }
}

/// The lines of a lyrics outcome.
pub open spec fn outcome_lines(r: Result<Option<LyricsEntries>, String>) -> Result<
    Option<Seq<(u64, Seq<char>)>>,
    Seq<char>,
> {
    match r {
        Ok(Some(e)) => Ok(Some(e.lines())),
        Ok(None) => Ok(None),
        Err(m) => Err(m@),
    }
}

/// Reads the timed lines out of a parsed JSON document.
pub fn lyrics_from_document(doc: JsonDocument) -> (r: Result<Option<LyricsEntries>, String>)
    ensures
        outcome_lines(r) == payload_lines(doc@),
        r matches Ok(Some(e)) ==> e.wf(),
{
    match doc {
        JsonDocument::Invalid(e) => {
            let mut m = String::from_str("Genie lyrics JSON parse failed: ");
            m.append(e.as_str());
            Err(m)
        },
        JsonDocument::NotObject => Err(String::from_str("Genie lyrics payload body was not an object")),
        JsonDocument::Object(members) => {
            let ghost mv = members@.map_values(|m: (String, Option<String>)| (m.0@, opt_text(m.1)));
            let mut entries = LyricsEntries::new();
            let mut i: usize = 0;
            assert(mv.take(0) =~= Seq::<(Seq<char>, Option<Seq<char>>)>::empty());
            while i < members.len()
                invariant
                    i <= members.len(),
                    mv == members@.map_values(|m: (String, Option<String>)| (m.0@, opt_text(m.1))),
                    entries.wf(),
                    entries.lines() == entries_of(mv.take(i as int)),
                decreases members.len() - i,
            {
                assert(mv.take(i + 1).drop_last() =~= mv.take(i as int));
                assert(mv.take(i + 1).last() == mv[i as int]);
                let key = chars_of(members[i].0.as_str());
                match parse_u64_chars(key.as_slice()) {
                    None => {},
                    Some(ms) => match &members[i].1 {
                        None => {},
                        Some(line) => {
                            let raw = chars_of(line.as_str());
                            let t = trim_chars(raw.as_slice());
                            if t.len() > 0 {
                                let decoded = html_entity_decode(t.as_slice());
                                entries.insert(ms, string_of(decoded.as_slice()));
                            }
                        },
                    },
                }
                i += 1;
            }
            assert(mv.take(i as int) =~= mv);
            if entries.is_empty() {
                Ok(None)
            } else {
                Ok(Some(entries))
            }
        },
    }
}

/// What `parse_lyrics_payload` gives for an answer body: none for an empty answer or
/// `NOT FOUND LYRICS` in any ASCII case, an error when there is no JSONP call, else what
/// the JSON inside gives.
pub open spec fn lyrics_payload_of(body: Seq<char>) -> Result<
    Option<Seq<(u64, Seq<char>)>>,
    Seq<char>,
> {
    let t = trim(body);
    if t.len() == 0 || eq_ignore_ascii_case(t, "NOT FOUND LYRICS"@) {
        Ok(None)
    } else {
        match jsonp_payload(t) {
            None => Err("Genie lyrics payload was not valid JSONP"@),
            Some(j) => payload_lines(json_document(j)),
        }
    }
}

/// Reads the timed lines out of Genie's JSONP lyrics answer.
pub fn parse_lyrics_payload(body: &str) -> (r: Result<Option<LyricsEntries>, String>)
    ensures
        outcome_lines(r) == lyrics_payload_of(body@),
        r matches Ok(Some(e)) ==> e.wf(),
{
    let b = chars_of(body);
    let t = trim_chars(b.as_slice());
    if t.len() == 0 {
        return Ok(None);
    }
    let not_found = chars_of("NOT FOUND LYRICS");
    if eq_ignore_case_chars(t.as_slice(), not_found.as_slice()) {
        return Ok(None);
    }
    match extract_jsonp_payload(t.as_slice()) {
        None => Err(String::from_str("Genie lyrics payload was not valid JSONP")),
        Some(j) => {
            let json = string_of(j.as_slice());
            let doc = read_json_document(json.as_str());
            lyrics_from_document(doc)
        },
    }
}

/// The Genie lyrics for a track from the parsed answer: a provider error for a bad answer;
/// no lyrics when the answer has no line; else the LRC text and the plain text of the lines.
pub fn lyrics_result(track: &GenieTrack, parsed: Result<Option<LyricsEntries>, String>) -> (r:
    Result<GenieLyricsResult, GenieError>)
    requires
        parsed matches Ok(Some(e)) ==> e.wf() && stamps_fit(e.lines()),
    ensures
        match parsed {
            Err(d) => r matches Err(GenieError::Provider(m)) && m@ == d@,
            Ok(None) => r matches Err(GenieError::NotAvailable),
            Ok(Some(e)) => if e.lines().len() == 0 {
                r matches Err(GenieError::NotAvailable)
            } else {
                r matches Ok(res) && res.track_id == track.track_id && res.track_name@
                    == track.track_name@ && res.artist_name@ == track.artist_name@
                    && res.duration_ms == track.duration_ms && opt_text(res.lrc) == genie_lrc(
                    e.lines(),
                ) && opt_text(res.text) == genie_plain(e.lines())
            },
        },
{
    let entries = match parsed {
        Err(d) => return Err(GenieError::Provider(d)),
        Ok(None) => return Err(GenieError::NotAvailable),
        Ok(Some(e)) => e,
    };
    let lrc = format_genie_lrc(&entries);
    let text = format_plain_text(&entries);
    if lrc.is_none() && text.is_none() {
        return Err(GenieError::NotAvailable);
    }
    Ok(GenieLyricsResult {
        track_id: track.track_id,
        track_name: track.track_name.clone(),
        artist_name: track.artist_name.clone(),
        duration_ms: track.duration_ms,
        lrc,
        text,
    })
}

/// The search query for the optional title and artist; none when it comes out empty.
pub fn search_query(title: Option<&str>, artist: Option<&str>) -> (r: Option<String>)
    ensures
        ({
            let q = crate::bugs::search_query_of(
                match title {
                    Some(v) => v@,
                    None => Seq::<char>::empty(),
                },
                match artist {
                    Some(v) => v@,
                    None => Seq::<char>::empty(),
                },
            );
            if q.len() == 0 {
                r is None
            } else {
                r matches Some(s) && s@ == q
            }
        }),
{
    let t = match title {
        Some(v) => v,
        None => "",
    };
    let a = match artist {
        Some(v) => v,
        None => "",
    };
    proof {
        reveal_strlit("");
        assert(""@ =~= Seq::<char>::empty());
    }
    let q = build_search_query(t, a);
    if q.as_str().is_empty() {
        None
    } else {
        Some(q)
    }
}


/// Replacing an entity leaves text without `&` as it is.
proof fn lemma_replace_plain(s: Seq<char>, from: Seq<char>, to: Seq<char>)
    requires
        !s.contains('&'),
        from.len() > 0,
        from[0] == '&',
    ensures
        replace_all(s, from, to) == s,
    decreases s.len(),
{
    if s.len() > 0 {
        assert(s[0] != '&');
        if crate::text::matches_at(s, from, 0) {
            assert(s.subrange(0, from.len() as int)[0] == s[0]);
        }
        let d = s.drop_first();
        assert(!d.contains('&')) by {
            if d.contains('&') {
                let j = choose|j: int| 0 <= j < d.len() && d[j] == '&';
                assert(s[j + 1] == '&');
            }
        }
        lemma_replace_plain(d, from, to);
        assert(seq![s[0]] + d =~= s);
    }
}

/// Replacing an entity in text that begins with text without `&` leaves that beginning
/// as it is.
proof fn lemma_replace_after_plain(p: Seq<char>, m: Seq<char>, from: Seq<char>, to: Seq<char>)
    requires
        !p.contains('&'),
        from.len() > 0,
        from[0] == '&',
    ensures
        replace_all(p + m, from, to) == p + replace_all(m, from, to),
    decreases p.len(),
{
    if p.len() == 0 {
        assert(p + m =~= m);
    } else {
        let w = p + m;
        assert(w[0] == p[0]);
        assert(p[0] != '&');
        if crate::text::matches_at(w, from, 0) {
            assert(w.subrange(0, from.len() as int)[0] == w[0]);
        }
        let d = p.drop_first();
        assert(!d.contains('&')) by {
            if d.contains('&') {
                let j = choose|j: int| 0 <= j < d.len() && d[j] == '&';
                assert(p[j + 1] == '&');
            }
        }
        assert(w.drop_first() =~= d + m);
        lemma_replace_after_plain(d, m, from, to);
        assert(seq![p[0]] + (d + replace_all(m, from, to)) =~= p + replace_all(m, from, to));
    }
}

/// An entity that begins with `&` and differs from the text's first entity at some
/// position leaves the text as it is, when nothing after that first `&` is another `&`.
proof fn lemma_replace_other_entity(e: Seq<char>, from: Seq<char>, to: Seq<char>, i: int)
    requires
        e.len() > 0,
        e[0] == '&',
        !e.drop_first().contains('&'),
        from.len() > 0,
        from[0] == '&',
        0 <= i < from.len(),
        i < e.len(),
        e[i] != from[i],
    ensures
        replace_all(e, from, to) == e,
{
    if crate::text::matches_at(e, from, 0) {
        assert(e.subrange(0, from.len() as int)[i] == e[i]);
    }
    lemma_replace_plain(e.drop_first(), from, to);
    assert(seq![e[0]] + e.drop_first() =~= e);
}

/// Entity decoding turns the apostrophe entity `&#39;` into `'` and leaves text without
/// `&` as it is: for any texts `s` and `t` without `&`, decoding `s&#39;t` gives `s't`, and
/// decoding `s` gives `s`.
pub proof fn lemma_apostrophe_entity_decoded(s: Seq<char>, t: Seq<char>)
    requires
        !s.contains('&'),
        !t.contains('&'),
    ensures
        entities_decoded(s + "&#39;"@ + t) == s + "'"@ + t,
        entities_decoded(s) == s,
{
    reveal_strlit("&amp;");
    reveal_strlit("&quot;");
    reveal_strlit("&#34;");
    reveal_strlit("&#39;");
    reveal_strlit("&apos;");
    reveal_strlit("&lt;");
    reveal_strlit("&gt;");
    reveal_strlit("&#x27;");
    reveal_strlit("&#x2F;");
    reveal_strlit("&#40;");
    reveal_strlit("&#41;");
    reveal_strlit("&#91;");
    reveal_strlit("&#93;");
    reveal_strlit("&#44;");
    reveal_strlit("&");
    reveal_strlit("\"");
    reveal_strlit("'");
    reveal_strlit("<");
    reveal_strlit(">");
    reveal_strlit("/");
    reveal_strlit("(");
    reveal_strlit(")");
    reveal_strlit("[");
    reveal_strlit("]");
    reveal_strlit(",");
    // Text without `&` goes through every replacement unchanged.
    lemma_replace_plain(s, "&amp;"@, "&"@);
    lemma_replace_plain(s, "&quot;"@, "\""@);
    lemma_replace_plain(s, "&#34;"@, "\""@);
    lemma_replace_plain(s, "&#39;"@, "'"@);
    lemma_replace_plain(s, "&apos;"@, "'"@);
    lemma_replace_plain(s, "&lt;"@, "<"@);
    lemma_replace_plain(s, "&gt;"@, ">"@);
    lemma_replace_plain(s, "&#x27;"@, "'"@);
    lemma_replace_plain(s, "&#x2F;"@, "/"@);
    lemma_replace_plain(s, "&#40;"@, "("@);
    lemma_replace_plain(s, "&#41;"@, ")"@);
    lemma_replace_plain(s, "&#91;"@, "["@);
    lemma_replace_plain(s, "&#93;"@, "]"@);
    lemma_replace_plain(s, "&#44;"@, ","@);
    // The entity with what follows it: the first three replacements leave it as it is.
    let e = "&#39;"@ + t;
    assert(!e.drop_first().contains('&')) by {
        let d = e.drop_first();
        if d.contains('&') {
            let j = choose|j: int| 0 <= j < d.len() && d[j] == '&';
            if j >= 4 {
                assert(t[j - 4] == d[j]);
            }
        }
    }
    let x = s + e;
    assert(s + "&#39;"@ + t =~= x);
    lemma_replace_after_plain(s, e, "&amp;"@, "&"@);
    lemma_replace_other_entity(e, "&amp;"@, "&"@, 1);
    lemma_replace_after_plain(s, e, "&quot;"@, "\""@);
    lemma_replace_other_entity(e, "&quot;"@, "\""@, 1);
    lemma_replace_after_plain(s, e, "&#34;"@, "\""@);
    lemma_replace_other_entity(e, "&#34;"@, "\""@, 3);
    // The apostrophe entity becomes `'`.
    lemma_replace_after_plain(s, e, "&#39;"@, "'"@);
    assert(crate::text::matches_at(e, "&#39;"@, 0)) by {
        assert(e.subrange(0, 5) =~= "&#39;"@);
    }
    assert(e.skip(5) =~= t);
    lemma_replace_plain(t, "&#39;"@, "'"@);
    let y = s + "'"@ + t;
    assert(s + ("'"@ + t) =~= y);
    assert(!y.contains('&')) by {
        if y.contains('&') {
            let j = choose|j: int| 0 <= j < y.len() && y[j] == '&';
            if j < s.len() {
                assert(s[j] == '&');
            } else if j > s.len() {
                assert(t[j - s.len() - 1] == '&');
            }
        }
    }
    // The rest leave text without `&` as it is.
    lemma_replace_plain(y, "&apos;"@, "'"@);
    lemma_replace_plain(y, "&lt;"@, "<"@);
    lemma_replace_plain(y, "&gt;"@, ">"@);
    lemma_replace_plain(y, "&#x27;"@, "'"@);
    lemma_replace_plain(y, "&#x2F;"@, "/"@);
    lemma_replace_plain(y, "&#40;"@, "("@);
    lemma_replace_plain(y, "&#41;"@, ")"@);
    lemma_replace_plain(y, "&#91;"@, "["@);
    lemma_replace_plain(y, "&#93;"@, "]"@);
    lemma_replace_plain(y, "&#44;"@, ","@);
}

} // verus!
