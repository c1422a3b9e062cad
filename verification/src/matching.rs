//! Title and artist normalisation, search variants, similarity, and the rules that
//! accept or reject a provider's search hit.
use vstd::prelude::*;

use crate::bugs::BugsTrack;
use crate::deezer::DeezerTrack;
use crate::genie::GenieTrack;
use crate::musixmatch::Track;
use crate::text::{
    alphanumeric, before_first, chars_equal, chars_of, collapse_spaces, collapse_whitespace,
    all_ascii, contains_chars, eq_ignore_ascii_case, eq_ignore_case_chars, extend_chars, find, find_chars, find_ci_chars, find_ci_from,
    has_substring, is_alphanumeric, is_ascii_chars, is_space, is_space_char, lemma_trim_idempotent, lowercase, replace_all, replace_chars, slice_chars, string_of,
    split_whitespace, to_lowercase, trim, trim_chars, views, words,
};

verus! {

/// `s` with every character that is not alphanumeric replaced by a space.
pub open spec fn alnum_spaced(s: Seq<char>) -> Seq<char> {
    Seq::new(s.len(), |i: int| if alphanumeric(s[i]) { s[i] } else { ' ' })
}

/// The alphanumeric runs of `s` joined by single spaces (`collapse_to_words`).
pub open spec fn word_form(s: Seq<char>) -> Seq<char> {
    collapse_spaces(alnum_spaced(s))
}

/// The alphanumeric characters of `s`, in order (`collapse_alnum`).
pub open spec fn alnum_only(s: Seq<char>) -> Seq<char>
    decreases s.len(),
{
    if s.len() == 0 {
        seq![]
    } else if alphanumeric(s.last()) {
        alnum_only(s.drop_last()).push(s.last())
    } else {
        alnum_only(s.drop_last())
    }
}

/// The characters of `s` that stand outside round and square brackets, given the
/// bracket depths reached before `s`; a closing bracket never takes a depth below zero.
pub open spec fn outside_brackets(s: Seq<char>, round: nat, square: nat) -> Seq<char>
    decreases s.len(),
{
    if s.len() == 0 {
        seq![]
    } else {
        let c = s[0];
        let rest = s.drop_first();
        if c == '(' {
            outside_brackets(rest, round + 1, square)
        } else if c == ')' {
            outside_brackets(rest, if round > 0 { (round - 1) as nat } else { 0 }, square)
        } else if c == '[' {
            outside_brackets(rest, round, square + 1)
        } else if c == ']' {
            outside_brackets(rest, round, if square > 0 { (square - 1) as nat } else { 0 })
        } else if round == 0 && square == 0 {
            seq![c] + outside_brackets(rest, round, square)
        } else {
            outside_brackets(rest, round, square)
        }
    }
}

/// `strip_brackets`: the word form of what stands outside brackets.
pub open spec fn bracketless(s: Seq<char>) -> Seq<char> {
    word_form(outside_brackets(s, 0, 0))
}

/// The markers that introduce a featured artist, in the order they are tried.
pub open spec fn featured_markers() -> Seq<Seq<char>> {
    seq![
        seq![' ', 'f', 'e', 'a', 't', '.', ' '],
        seq![' ', 'f', 'e', 'a', 't', ' '],
        seq![' ', 'f', 'e', 'a', 't', 'u', 'r', 'i', 'n', 'g', ' '],
        seq![' ', 'f', 't', '.', ' '],
        seq![' ', 'f', 't', ' '],
    ]
}

/// The markers that separate collaborating artists, in the order they are tried.
pub open spec fn artist_separators() -> Seq<Seq<char>> {
    seq![seq![','], seq!['&'], seq![' ', 'x', ' '], seq![';']]
}

/// Position of the first marker of `markers` (in list order) that occurs in `s`, at its
/// first occurrence, comparing ASCII letters without case.
pub open spec fn first_marker_ci(s: Seq<char>, markers: Seq<Seq<char>>) -> Option<int>
    decreases markers.len(),
{
    if markers.len() == 0 {
        None
    } else {
        match find_ci_from(s, markers[0], 0) {
            Some(i) => Some(i),
            None => first_marker_ci(s, markers.drop_first()),
        }
    }
}

/// Position of the first marker of `markers` (in list order) that occurs in `s`.
pub open spec fn first_marker(s: Seq<char>, markers: Seq<Seq<char>>) -> Option<int>
    decreases markers.len(),
{
    if markers.len() == 0 {
        None
    } else {
        match find(s, markers[0]) {
            Some(i) => Some(i),
            None => first_marker(s, markers.drop_first()),
        }
    }
}

/// `strip_featured`: `s` cut before a featured-artist marker, trimmed.
pub open spec fn without_featured(s: Seq<char>) -> Seq<char> {
    match first_marker_ci(s, featured_markers()) {
        Some(i) => trim(s.take(i)),
        None => trim(s),
    }
}

/// `first_artist`: `s` cut before the first artist separator, trimmed.
pub open spec fn lead_artist(s: Seq<char>) -> Seq<char> {
    match first_marker(s, artist_separators()) {
        Some(i) => trim(s.take(i)),
        None => trim(s),
    }
}

/// `normalize_connectors`: `&` spelled as ` and `, `×` as ` x `, `/` as a space, and the
/// white space collapsed.
pub open spec fn connectors_spelled(s: Seq<char>) -> Seq<char> {
    collapse_spaces(
        replace_all(
            replace_all(replace_all(s, seq!['&'], seq![' ', 'a', 'n', 'd', ' ']), seq!['×'], seq![' ', 'x', ' ']),
            seq!['/'],
            seq![' '],
        ),
    )
}

/// `normalize`: the lowercase of the word form.
pub open spec fn normalized(s: Seq<char>) -> Seq<char> {
    lowercase(word_form(s))
}

/// `simplify`: bracket text removed, anything after ` - ` dropped, then normalised.
pub open spec fn simplified(s: Seq<char>) -> Seq<char> {
    normalized(trim(before_first(bracketless(s), seq![' ', '-', ' '])))
}

/// `push_variant`: the list with the trimmed candidate added, unless it is empty or
/// already present when ASCII case is ignored.
pub open spec fn add_variant(values: Seq<Seq<char>>, candidate: Seq<char>) -> Seq<Seq<char>> {
    let t = trim(candidate);
    if t.len() == 0 || exists|i: int| 0 <= i < values.len() && eq_ignore_ascii_case(values[i], t) {
        values
    } else {
        values.push(t)
    }
}

/// The search variants of a title, in the order they are tried.
pub open spec fn title_variant_list(title: Seq<char>) -> Seq<Seq<char>> {
    let base = trim(title);
    add_variant(
        add_variant(
            add_variant(
                add_variant(add_variant(add_variant(seq![], base), bracketless(base)), without_featured(base)),
                word_form(base),
            ),
            alnum_only(base),
        ),
        connectors_spelled(base),
    )
}

/// The search variants of an artist, in the order they are tried.
pub open spec fn artist_variant_list(artist: Seq<char>) -> Seq<Seq<char>> {
    let base = trim(artist);
    add_variant(
        add_variant(
            add_variant(add_variant(add_variant(seq![], base), lead_artist(base)), without_featured(base)),
            word_form(base),
        ),
        connectors_spelled(base),
    )
}

/// The views of a list of strings.
pub open spec fn string_views(v: Seq<String>) -> Seq<Seq<char>> {
    Seq::new(v.len(), |i: int| v[i]@)
}

/// A list of variants that holds no empty entry and no two entries equal up to ASCII case.
pub open spec fn distinct_variants(v: Seq<Seq<char>>) -> bool {
    &&& forall|i: int| 0 <= i < v.len() ==> v[i].len() > 0
    &&& forall|i: int, j: int|
        0 <= i < v.len() && 0 <= j < v.len() && i != j ==> !eq_ignore_ascii_case(v[i], v[j])
}

/// A similarity score `matches / total`; a zero total stands for a score of zero.
#[derive(Clone, Copy, Debug)]
pub struct Ratio {
    pub matches: u64,
    pub total: u64,
}

/// Positions at which `a` and `b` hold the same character.
pub open spec fn positional_matches(a: Seq<char>, b: Seq<char>) -> nat
    decreases a.len(),
{
    if a.len() == 0 || b.len() == 0 {
        0
    } else {
        (if a[0] == b[0] { 1nat } else { 0nat }) + positional_matches(a.drop_first(), b.drop_first())
    }
}

/// `similarity`: the share of positions holding equal characters, over the longer length.
pub open spec fn similarity_of(a: Seq<char>, b: Seq<char>) -> Ratio {
    if a.len() == 0 || b.len() == 0 {
        Ratio { matches: 0, total: 0 }
    } else {
        Ratio {
            matches: positional_matches(a, b) as u64,
            total: (if a.len() >= b.len() { a.len() } else { b.len() }) as u64,
        }
    }
}

/// The score `r` reaches `num / den`.
pub open spec fn at_least(r: Ratio, num: nat, den: nat) -> bool {
    r.total > 0 && r.matches * den >= num * r.total
}

/// Character-level similarity of the simplified titles.
pub open spec fn title_similarity(track_title: Seq<char>, title: Seq<char>) -> Ratio {
    similarity_of(simplified(title), simplified(track_title))
}

/// Character-level similarity of the normalised artists; full when no artist is wanted.
pub open spec fn artist_similarity(track_artist: Seq<char>, artist: Seq<char>) -> Ratio {
    if normalized(artist).len() == 0 {
        Ratio { matches: 1, total: 1 }
    } else {
        similarity_of(normalized(artist), normalized(track_artist))
    }
}

/// A wanted artist is given and one normalised artist contains the other.
pub open spec fn artist_overlaps(track_artist: Seq<char>, artist: Seq<char>) -> bool {
    let want = normalized(artist);
    let actual = normalized(track_artist);
    want.len() > 0 && (has_substring(actual, want) || has_substring(want, actual))
}

/// How a candidate found by searching on the title alone is marked.
pub open spec fn by_title() -> Seq<char> {
    seq!['s', 'e', 'a', 'r', 'c', 'h', ':', 't', 'i', 't', 'l', 'e']
}

/// How a candidate found by searching on the artist alone is marked.
pub open spec fn by_artist() -> Seq<char> {
    seq!['s', 'e', 'a', 'r', 'c', 'h', ':', 'a', 'r', 't', 'i', 's', 't']
}

/// `is_acceptable_match` for Musixmatch hits.
pub open spec fn accepts_musixmatch(
    track_title: Seq<char>,
    track_artist: Seq<char>,
    title: Seq<char>,
    artist: Seq<char>,
    matched_by: Seq<char>,
) -> bool {
    let ts = title_similarity(track_title, title);
    let ars = artist_similarity(track_artist, artist);
    if matched_by == by_title() {
        at_least(ts, 4, 5) && (normalized(artist).len() == 0 || at_least(ars, 7, 20)
            || artist_overlaps(track_artist, artist))
    } else if matched_by == by_artist() {
        at_least(ars, 1, 2) && at_least(ts, 3, 10)
    } else {
        at_least(ts, 9, 20) || at_least(ars, 9, 20)
    }
}

/// The acceptance rule shared by Deezer, Bugs and Genie hits; `exact_duration` is false
/// where the provider takes no account of durations.
pub open spec fn accepts_provider(
    track_title: Seq<char>,
    track_artist: Seq<char>,
    title: Seq<char>,
    artist: Seq<char>,
    matched_by: Seq<char>,
    exact_duration: bool,
) -> bool {
    let ts = title_similarity(track_title, title);
    let ars = artist_similarity(track_artist, artist);
    if matched_by == by_title() {
        at_least(ts, 4, 5) && (normalized(artist).len() == 0 || at_least(ars, 7, 20)
            || artist_overlaps(track_artist, artist) || exact_duration)
    } else {
        at_least(ts, 9, 20) || at_least(ars, 9, 20) || (at_least(ts, 4, 5) && exact_duration)
    }
}

/// Both durations are known and lie within 2.5 seconds of each other.
pub open spec fn durations_agree(wanted_ms: Option<u64>, actual_ms: Option<u64>) -> bool {
    match (wanted_ms, actual_ms) {
        (Some(w), Some(a)) => (if a >= w { a - w } else { w - a }) <= 2500,
        _ => false,
    }
}

/// `collapse_to_words` over characters.
fn word_form_chars(v: &[char]) -> (r: Vec<char>)
    ensures
        r@ == word_form(v@),
{
    let mut spaced: Vec<char> = Vec::new();
    let mut i: usize = 0;
    while i < v.len()
        invariant
            i <= v.len(),
            spaced@ == alnum_spaced(v@).take(i as int),
        decreases v.len() - i,
    {
        let c = v[i];
        if is_alphanumeric(c) {
            spaced.push(c);
        } else {
            spaced.push(' ');
        }
        assert(alnum_spaced(v@).take(i + 1) =~= alnum_spaced(v@).take(i as int).push(
            alnum_spaced(v@)[i as int],
        ));
        i += 1;
    }
    assert(alnum_spaced(v@).take(v.len() as int) =~= alnum_spaced(v@));
    collapse_whitespace(spaced.as_slice())
}

/// Runs of alphanumeric characters joined by single spaces: every other character
/// separates words.
pub fn collapse_to_words(value: &str) -> (r: String)
    ensures
        r@ == word_form(value@),
{
    let v = chars_of(value);
    let w = word_form_chars(v.as_slice());
    string_of(w.as_slice())
}

/// `collapse_alnum` over characters.
fn alnum_only_chars(v: &[char]) -> (r: Vec<char>)
    ensures
        r@ == alnum_only(v@),
{
    let mut r: Vec<char> = Vec::new();
    let mut i: usize = 0;
    while i < v.len()
        invariant
            i <= v.len(),
            r@ == alnum_only(v@.take(i as int)),
        decreases v.len() - i,
    {
        let c = v[i];
        assert(v@.take(i + 1).drop_last() =~= v@.take(i as int));
        if is_alphanumeric(c) {
            r.push(c);
        }
        i += 1;
    }
    assert(v@.take(v.len() as int) =~= v@);
    r
}

/// Text outside brackets, over characters.
fn outside_brackets_chars(v: &[char]) -> (r: Vec<char>)
    ensures
        r@ == outside_brackets(v@, 0, 0),
{
    let mut r: Vec<char> = Vec::new();
    let mut round: usize = 0;
    let mut square: usize = 0;
    let mut i: usize = 0;
    assert(v@.skip(0) =~= v@);
    while i < v.len()
        invariant
            i <= v.len(),
            round <= i,
            square <= i,
            outside_brackets(v@, 0, 0) == r@ + outside_brackets(
                v@.skip(i as int),
                round as nat,
                square as nat,
            ),
        decreases v.len() - i,
    {
        let c = v[i];
        assert(v@.skip(i as int).drop_first() =~= v@.skip(i + 1));
        if c == '(' {
            round += 1;
        } else if c == ')' {
            if round > 0 {
                round -= 1;
            }
        } else if c == '[' {
            square += 1;
        } else if c == ']' {
            if square > 0 {
                square -= 1;
            }
        } else if round == 0 && square == 0 {
            let ghost before = r@;
            r.push(c);
            assert(before + (seq![c] + outside_brackets(v@.skip(i + 1), 0, 0)) =~= r@
                + outside_brackets(v@.skip(i + 1), 0, 0));
        }
        i += 1;
    }
    assert(outside_brackets(v@.skip(i as int), round as nat, square as nat) =~= Seq::<
        char,
    >::empty());
    assert(r@ + Seq::<char>::empty() =~= r@);
    r
}

/// `strip_brackets` over characters.
fn bracketless_chars(v: &[char]) -> (r: Vec<char>)
    ensures
        r@ == bracketless(v@),
{
    let outside = outside_brackets_chars(v);
    word_form_chars(outside.as_slice())
}

/// Exec form of the featured-artist markers.
fn featured_marker_list() -> (r: Vec<Vec<char>>)
    ensures
        views(r@) == featured_markers(),
{
    let r = vec![
        vec![' ', 'f', 'e', 'a', 't', '.', ' '],
        vec![' ', 'f', 'e', 'a', 't', ' '],
        vec![' ', 'f', 'e', 'a', 't', 'u', 'r', 'i', 'n', 'g', ' '],
        vec![' ', 'f', 't', '.', ' '],
        vec![' ', 'f', 't', ' '],
    ];
    assert(views(r@) =~= featured_markers());
    r
}

/// Exec form of the artist separators.
fn artist_separator_list() -> (r: Vec<Vec<char>>)
    ensures
        views(r@) == artist_separators(),
{
    let r = vec![vec![','], vec!['&'], vec![' ', 'x', ' '], vec![';']];
    assert(r@[0]@ =~= seq![',']);
    assert(r@[1]@ =~= seq!['&']);
    assert(r@[2]@ =~= seq![' ', 'x', ' ']);
    assert(r@[3]@ =~= seq![';']);
    assert(views(r@) =~= artist_separators());
    r
}

/// `strip_featured` over characters.
fn without_featured_chars(v: &[char]) -> (r: Vec<char>)
    ensures
        r@ == without_featured(v@),
{
    let markers = featured_marker_list();
    let mut k: usize = 0;
    assert(featured_markers().skip(0) =~= featured_markers());
    while k < markers.len()
        invariant
            k <= markers.len(),
            views(markers@) == featured_markers(),
            first_marker_ci(v@, featured_markers()) == first_marker_ci(
                v@,
                featured_markers().skip(k as int),
            ),
        decreases markers.len() - k,
    {
        assert(featured_markers().skip(k as int)[0] == markers@[k as int]@);
        assert(featured_markers().skip(k as int).drop_first() =~= featured_markers().skip(k + 1));
        if let Some(index) = find_ci_chars(v, markers[k].as_slice()) {
            let head = slice_chars(v, 0, index);
            assert(head@ =~= v@.take(index as int));
            return trim_chars(head.as_slice());
        }
        k += 1;
    }
    trim_chars(v)
}

/// `first_artist` over characters.
fn lead_artist_chars(v: &[char]) -> (r: Vec<char>)
    ensures
        r@ == lead_artist(v@),
{
    let markers = artist_separator_list();
    let mut k: usize = 0;
    assert(artist_separators().skip(0) =~= artist_separators());
    while k < markers.len()
        invariant
            k <= markers.len(),
            views(markers@) == artist_separators(),
            first_marker(v@, artist_separators()) == first_marker(
                v@,
                artist_separators().skip(k as int),
            ),
        decreases markers.len() - k,
    {
        assert(artist_separators().skip(k as int)[0] == markers@[k as int]@);
        assert(artist_separators().skip(k as int).drop_first() =~= artist_separators().skip(
            k + 1,
        ));
        if let Some(index) = find_chars(v, markers[k].as_slice(), 0) {
            let head = slice_chars(v, 0, index);
            assert(head@ =~= v@.take(index as int));
            return trim_chars(head.as_slice());
        }
        k += 1;
    }
    trim_chars(v)
}

/// `normalize_connectors` over characters.
fn connectors_spelled_chars(v: &[char]) -> (r: Vec<char>)
    ensures
        r@ == connectors_spelled(v@),
{
    let amp = vec!['&'];
    let and = vec![' ', 'a', 'n', 'd', ' '];
    let times = vec!['×'];
    let x = vec![' ', 'x', ' '];
    let slash = vec!['/'];
    let space = vec![' '];
    let a = replace_chars(v, amp.as_slice(), and.as_slice());
    let b = replace_chars(a.as_slice(), times.as_slice(), x.as_slice());
    let c = replace_chars(b.as_slice(), slash.as_slice(), space.as_slice());
    assert(amp@ =~= seq!['&']);
    assert(and@ =~= seq![' ', 'a', 'n', 'd', ' ']);
    assert(times@ =~= seq!['×']);
    assert(x@ =~= seq![' ', 'x', ' ']);
    assert(slash@ =~= seq!['/']);
    assert(space@ =~= seq![' ']);
    collapse_whitespace(c.as_slice())
}

/// Spells `&` as `and`, `×` as `x`, turns `/` into a space and collapses white space.
pub fn normalize_connectors(value: &str) -> (r: String)
    ensures
        r@ == connectors_spelled(value@),
{
    let v = chars_of(value);
    let r = connectors_spelled_chars(v.as_slice());
    string_of(r.as_slice())
}

/// `normalize` over characters.
fn normalized_chars(v: &[char]) -> (r: Vec<char>)
    ensures
        r@ == normalized(v@),
{
    let w = word_form_chars(v);
    let s = string_of(w.as_slice());
    let lower = to_lowercase(s.as_str());
    chars_of(lower.as_str())
}

/// The lowercase word form of `value`: alphanumeric runs joined by single spaces.
pub fn normalize(value: &str) -> (r: String)
    ensures
        r@ == normalized(value@),
{
    let v = chars_of(value);
    let r = normalized_chars(v.as_slice());
    string_of(r.as_slice())
}

/// `simplify` over characters.
fn simplified_chars(v: &[char]) -> (r: Vec<char>)
    ensures
        r@ == simplified(v@),
{
    let no_brackets = bracketless_chars(v);
    let sep = vec![' ', '-', ' '];
    assert(sep@ =~= seq![' ', '-', ' ']);
    let base = match find_chars(no_brackets.as_slice(), sep.as_slice(), 0) {
        Some(i) => {
            let head = slice_chars(no_brackets.as_slice(), 0, i);
            assert(head@ =~= no_brackets@.take(i as int));
            head
        },
        None => no_brackets,
    };
    let trimmed = trim_chars(base.as_slice());
    normalized_chars(trimmed.as_slice())
}

/// A title without bracketed parts or a ` - ` suffix, normalised.
pub fn simplify(value: &str) -> (r: String)
    ensures
        r@ == simplified(value@),
{
    let v = chars_of(value);
    let r = simplified_chars(v.as_slice());
    string_of(r.as_slice())
}

/// The titles match after simplification and one normalised artist equals or contains
/// the other.
pub open spec fn exact_match(
    track_title: Seq<char>,
    track_artist: Seq<char>,
    title: Seq<char>,
    artist: Seq<char>,
) -> bool {
    let want_artist = normalized(artist);
    let actual_artist = normalized(track_artist);
    simplified(title) == simplified(track_title) && (want_artist == actual_artist
        || has_substring(actual_artist, want_artist) || has_substring(want_artist, actual_artist))
}

/// Whether a track is the requested song: equal simplified titles and overlapping
/// normalised artists.
pub fn exact_title_artist_match(track_title: &str, track_artist: &str, title: &str, artist: &str) -> (r:
    bool)
    ensures
        r == exact_match(track_title@, track_artist@, title@, artist@),
{
    let want_title = simplified_chars(chars_of(title).as_slice());
    let want_artist = normalized_chars(chars_of(artist).as_slice());
    let actual_title = simplified_chars(chars_of(track_title).as_slice());
    let actual_artist = normalized_chars(chars_of(track_artist).as_slice());
    chars_equal(want_title.as_slice(), actual_title.as_slice()) && (chars_equal(
        want_artist.as_slice(),
        actual_artist.as_slice(),
    ) || contains_chars(actual_artist.as_slice(), want_artist.as_slice()) || contains_chars(
        want_artist.as_slice(),
        actual_artist.as_slice(),
    ))
}

/// `similarity` over characters.
fn similarity_chars(a: &[char], b: &[char]) -> (r: Ratio)
    ensures
        r == similarity_of(a@, b@),
{
    if a.len() == 0 || b.len() == 0 {
        return Ratio { matches: 0, total: 0 };
    }
    let n = if a.len() <= b.len() { a.len() } else { b.len() };
    let mut count: u64 = 0;
    let mut i: usize = 0;
    assert(a@.skip(0) =~= a@);
    assert(b@.skip(0) =~= b@);
    while i < n
        invariant
            i <= n,
            n <= a.len(),
            n <= b.len(),
            n == a.len() || n == b.len(),
            count <= i,
            positional_matches(a@, b@) == count + positional_matches(
                a@.skip(i as int),
                b@.skip(i as int),
            ),
        decreases n - i,
    {
        assert(a@.skip(i as int).drop_first() =~= a@.skip(i + 1));
        assert(b@.skip(i as int).drop_first() =~= b@.skip(i + 1));
        if a[i] == b[i] {
            count += 1;
        }
        i += 1;
    }
    let total = if a.len() >= b.len() { a.len() } else { b.len() };
    Ratio { matches: count, total: total as u64 }
}

/// Share of positions at which the two strings hold the same character, as a ratio of
/// the matching positions to the longer length (characters, not bytes).
pub fn similarity(a: &str, b: &str) -> (r: Ratio)
    ensures
        r == similarity_of(a@, b@),
{
    let x = chars_of(a);
    let y = chars_of(b);
    similarity_chars(x.as_slice(), y.as_slice())
}

/// Whether `r` reaches `num / den`.
fn reaches(r: Ratio, num: u64, den: u64) -> (b: bool)
    requires
        num <= 100,
        den <= 100,
    ensures
        b == at_least(r, num as nat, den as nat),
{
    proof {
        let m = r.matches as int;
        let t = r.total as int;
        let n = num as int;
        let d = den as int;
        assert(m * d <= u64::MAX * 100 && n * t <= 100 * u64::MAX) by (nonlinear_arith)
            requires
                0 <= m <= u64::MAX,
                0 <= t <= u64::MAX,
                0 <= n <= 100,
                0 <= d <= 100,
        ;
    }
    r.total > 0 && (r.matches as u128) * (den as u128) >= (num as u128) * (r.total as u128)
}

/// The parts of the acceptance rules, computed once.
struct MatchFacts {
    title_sim: Ratio,
    artist_sim: Ratio,
    want_artist_empty: bool,
    artist_contains: bool,
    by_title: bool,
    by_artist: bool,
}

fn match_facts(track_title: &str, track_artist: &str, title: &str, artist: &str, matched_by: &str) -> (r: MatchFacts)
    ensures
        r.title_sim == title_similarity(track_title@, title@),
        r.artist_sim == artist_similarity(track_artist@, artist@),
        r.want_artist_empty == (normalized(artist@).len() == 0),
        r.artist_contains == artist_overlaps(track_artist@, artist@),
        r.by_title == (matched_by@ == by_title()),
        r.by_artist == (matched_by@ == by_artist()),
{
    let want_title = simplified_chars(chars_of(title).as_slice());
    let want_artist = normalized_chars(chars_of(artist).as_slice());
    let actual_title = simplified_chars(chars_of(track_title).as_slice());
    let actual_artist = normalized_chars(chars_of(track_artist).as_slice());
    let title_sim = similarity_chars(want_title.as_slice(), actual_title.as_slice());
    let want_artist_empty = want_artist.len() == 0;
    let artist_sim = if want_artist_empty {
        Ratio { matches: 1, total: 1 }
    } else {
        similarity_chars(want_artist.as_slice(), actual_artist.as_slice())
    };
    let artist_contains = !want_artist_empty && (contains_chars(
        actual_artist.as_slice(),
        want_artist.as_slice(),
    ) || contains_chars(want_artist.as_slice(), actual_artist.as_slice()));
    let mb = chars_of(matched_by);
    let t = vec!['s', 'e', 'a', 'r', 'c', 'h', ':', 't', 'i', 't', 'l', 'e'];
    let a = vec!['s', 'e', 'a', 'r', 'c', 'h', ':', 'a', 'r', 't', 'i', 's', 't'];
    assert(t@ =~= by_title());
    assert(a@ =~= by_artist());
    let by_title = chars_equal(mb.as_slice(), t.as_slice());
    let by_artist = chars_equal(mb.as_slice(), a.as_slice());
    MatchFacts { title_sim, artist_sim, want_artist_empty, artist_contains, by_title, by_artist }
}

/// Whether a Musixmatch hit is close enough to the request, under the rule of the
/// search step (`matched_by`) that found it.
pub fn is_acceptable_match(track: &Track, title: &str, artist: &str, matched_by: &str) -> (r: bool)
    ensures
        r == accepts_musixmatch(track.track_name@, track.artist_name@, title@, artist@, matched_by@),
{
    let f = match_facts(track.track_name.as_str(), track.artist_name.as_str(), title, artist, matched_by);
    if f.by_title {
        reaches(f.title_sim, 4, 5) && (f.want_artist_empty || reaches(f.artist_sim, 7, 20)
            || f.artist_contains)
    } else if f.by_artist {
        reaches(f.artist_sim, 1, 2) && reaches(f.title_sim, 3, 10)
    } else {
        reaches(f.title_sim, 9, 20) || reaches(f.artist_sim, 9, 20)
    }
}

/// The acceptance rule shared by the other providers.
fn accept_provider_hit(
    track_title: &str,
    track_artist: &str,
    title: &str,
    artist: &str,
    matched_by: &str,
    exact_duration: bool,
) -> (r: bool)
    ensures
        r == accepts_provider(track_title@, track_artist@, title@, artist@, matched_by@, exact_duration),
{
    let f = match_facts(track_title, track_artist, title, artist, matched_by);
    if f.by_title {
        reaches(f.title_sim, 4, 5) && (f.want_artist_empty || reaches(f.artist_sim, 7, 20)
            || f.artist_contains || exact_duration)
    } else {
        reaches(f.title_sim, 9, 20) || reaches(f.artist_sim, 9, 20) || (reaches(f.title_sim, 4, 5)
            && exact_duration)
    }
}

/// Whether a Deezer hit is close enough to the request.
pub fn is_acceptable_deezer_match(track: &DeezerTrack, title: &str, artist: &str, matched_by: &str) -> (r:
    bool)
    ensures
        r == accepts_provider(track.track_name@, track.artist_name@, title@, artist@, matched_by@, false),
{
    accept_provider_hit(track.track_name.as_str(), track.artist_name.as_str(), title, artist, matched_by, false)
}

/// Whether both durations are known and lie within 2.5 seconds of each other.
pub fn exact_duration_match(wanted_ms: Option<u64>, actual_ms: Option<u64>) -> (r: bool)
    ensures
        r == durations_agree(wanted_ms, actual_ms),
{
    match (wanted_ms, actual_ms) {
        (Some(w), Some(a)) => {
            let delta = if a >= w { a - w } else { w - a };
            delta <= 2500
        },
        _ => false,
    }
}

/// Whether a Bugs hit is close enough to the request; a duration within 2.5 seconds of
/// the wanted one can stand in for an artist match.
pub fn is_acceptable_bugs_match(
    track: &BugsTrack,
    title: &str,
    artist: &str,
    matched_by: &str,
    duration_ms: Option<u64>,
) -> (r: bool)
    ensures
        r == accepts_provider(
            track.track_name@,
            track.artist_name@,
            title@,
            artist@,
            matched_by@,
            durations_agree(duration_ms, track.duration_ms),
        ),
{
    let exact = exact_duration_match(duration_ms, track.duration_ms);
    accept_provider_hit(track.track_name.as_str(), track.artist_name.as_str(), title, artist, matched_by, exact)
}

/// Whether a Genie hit is close enough to the request; a duration within 2.5 seconds of
/// the wanted one can stand in for an artist match.
pub fn is_acceptable_genie_match(
    track: &GenieTrack,
    title: &str,
    artist: &str,
    matched_by: &str,
    duration_ms: Option<u64>,
) -> (r: bool)
    ensures
        r == accepts_provider(
            track.track_name@,
            track.artist_name@,
            title@,
            artist@,
            matched_by@,
            durations_agree(duration_ms, track.duration_ms),
        ),
{
    let exact = exact_duration_match(duration_ms, track.duration_ms);
    accept_provider_hit(track.track_name.as_str(), track.artist_name.as_str(), title, artist, matched_by, exact)
}

/// `push_variant`: adds the trimmed candidate unless it is empty or already present
/// when ASCII case is ignored.
fn push_variant(values: &mut Vec<String>, candidate: &[char])
    ensures
        string_views(final(values)@) == add_variant(string_views(old(values)@), candidate@),
{
    let trimmed = trim_chars(candidate);
    if trimmed.len() == 0 {
        return;
    }
    let ghost vs = string_views(values@);
    let mut i: usize = 0;
    while i < values.len()
        invariant
            i <= values.len(),
            vs == string_views(values@),
            trimmed@ == trim(candidate@),
            forall|j: int| 0 <= j < i ==> !eq_ignore_ascii_case(vs[j], trimmed@),
        decreases values.len() - i,
    {
        let existing = chars_of(values[i].as_str());
        if eq_ignore_case_chars(existing.as_slice(), trimmed.as_slice()) {
            assert(eq_ignore_ascii_case(vs[i as int], trim(candidate@)));
            return;
        }
        i += 1;
    }
    let s = string_of(trimmed.as_slice());
    values.push(s);
    assert(string_views(values@) =~= vs.push(trimmed@));
}

/// Adding a variant keeps a list free of empty entries and of case-insensitive repeats.
pub proof fn lemma_add_variant_distinct(values: Seq<Seq<char>>, candidate: Seq<char>)
    requires
        distinct_variants(values),
    ensures
        distinct_variants(add_variant(values, candidate)),
        add_variant(values, candidate).len() <= values.len() + 1,
        forall|i: int| 0 <= i < values.len() ==> add_variant(values, candidate)[i] == values[i],
{
}

/// The search variants of a title are never empty, and no two are equal up to ASCII case;
/// the first is the trimmed title itself whenever that is not empty.
pub proof fn lemma_title_variants_distinct(title: Seq<char>)
    ensures
        distinct_variants(title_variant_list(title)),
        trim(title).len() > 0 ==> title_variant_list(title)[0] == trim(title),
{
    let base = trim(title);
    let v0: Seq<Seq<char>> = seq![];
    lemma_add_variant_distinct(v0, base);
    let v1 = add_variant(v0, base);
    lemma_add_variant_distinct(v1, bracketless(base));
    let v2 = add_variant(v1, bracketless(base));
    lemma_add_variant_distinct(v2, without_featured(base));
    let v3 = add_variant(v2, without_featured(base));
    lemma_add_variant_distinct(v3, word_form(base));
    let v4 = add_variant(v3, word_form(base));
    lemma_add_variant_distinct(v4, alnum_only(base));
    let v5 = add_variant(v4, alnum_only(base));
    lemma_add_variant_distinct(v5, connectors_spelled(base));
    if base.len() > 0 {
        lemma_trim_idempotent(title);
        assert(v1 == seq![base]);
    }
}

/// The search variants of an artist are never empty, and no two are equal up to ASCII
/// case; the first is the trimmed artist itself whenever that is not empty.
pub proof fn lemma_artist_variants_distinct(artist: Seq<char>)
    ensures
        distinct_variants(artist_variant_list(artist)),
        trim(artist).len() > 0 ==> artist_variant_list(artist)[0] == trim(artist),
{
    let base = trim(artist);
    let v0: Seq<Seq<char>> = seq![];
    lemma_add_variant_distinct(v0, base);
    let v1 = add_variant(v0, base);
    lemma_add_variant_distinct(v1, lead_artist(base));
    let v2 = add_variant(v1, lead_artist(base));
    lemma_add_variant_distinct(v2, without_featured(base));
    let v3 = add_variant(v2, without_featured(base));
    lemma_add_variant_distinct(v3, word_form(base));
    let v4 = add_variant(v3, word_form(base));
    lemma_add_variant_distinct(v4, connectors_spelled(base));
    if base.len() > 0 {
        lemma_trim_idempotent(artist);
        assert(v1 == seq![base]);
    }
}

/// The search variants of a title: the trimmed title, then its bracketless form, its form
/// without a featured artist, its word form, its alphanumeric characters, and its form with
/// connectors spelled out, each added only when new up to ASCII case.
pub fn title_variants(title: &str) -> (r: Vec<String>)
    ensures
        string_views(r@) == title_variant_list(title@),
{
    let mut values: Vec<String> = Vec::new();
    let v = chars_of(title);
    let base = trim_chars(v.as_slice());
    assert(string_views(values@) =~= Seq::<Seq<char>>::empty());
    push_variant(&mut values, base.as_slice());
    let a = bracketless_chars(base.as_slice());
    push_variant(&mut values, a.as_slice());
    let b = without_featured_chars(base.as_slice());
    push_variant(&mut values, b.as_slice());
    let c = word_form_chars(base.as_slice());
    push_variant(&mut values, c.as_slice());
    let d = alnum_only_chars(base.as_slice());
    push_variant(&mut values, d.as_slice());
    let e = connectors_spelled_chars(base.as_slice());
    push_variant(&mut values, e.as_slice());
    values
}

/// The search variants of an artist: the trimmed artist, then the first of several
/// collaborators, the form without a featured artist, the word form, and the form with
/// connectors spelled out, each added only when new up to ASCII case.
pub fn artist_variants(artist: &str) -> (r: Vec<String>)
    ensures
        string_views(r@) == artist_variant_list(artist@),
{
    let mut values: Vec<String> = Vec::new();
    let v = chars_of(artist);
    let base = trim_chars(v.as_slice());
    assert(string_views(values@) =~= Seq::<Seq<char>>::empty());
    push_variant(&mut values, base.as_slice());
    let a = lead_artist_chars(base.as_slice());
    push_variant(&mut values, a.as_slice());
    let b = without_featured_chars(base.as_slice());
    push_variant(&mut values, b.as_slice());
    let c = word_form_chars(base.as_slice());
    push_variant(&mut values, c.as_slice());
    let e = connectors_spelled_chars(base.as_slice());
    push_variant(&mut values, e.as_slice());
    values
}

/// Number of characters of `s` that are not white space.
pub open spec fn non_space_count(s: Seq<char>) -> nat
    decreases s.len(),
{
    if s.len() == 0 {
        0
    } else {
        non_space_count(s.drop_last()) + if is_space_char(s.last()) { 0nat } else { 1nat }
    }
}

/// A title may be searched without its artist: its simplified form has at least four
/// non-space characters, or two words, or is not ASCII and has at least three.
pub open spec fn title_only_allowed(title: Seq<char>) -> bool {
    let s = simplified(title);
    let compact = non_space_count(s);
    compact >= 4 || words(s).len() >= 2 || (!all_ascii(s) && compact >= 3)
}

/// Whether a title is distinctive enough to be searched without the artist.
pub fn can_use_title_only_fallback(title: &str) -> (r: bool)
    ensures
        r == title_only_allowed(title@),
{
    let s = simplified_chars(chars_of(title).as_slice());
    let mut compact: usize = 0;
    let mut i: usize = 0;
    while i < s.len()
        invariant
            i <= s.len(),
            compact <= i,
            compact == non_space_count(s@.take(i as int)),
        decreases s.len() - i,
    {
        assert(s@.take(i + 1).drop_last() =~= s@.take(i as int));
        if !is_space(s[i]) {
            compact += 1;
        }
        i += 1;
    }
    assert(s@.take(s.len() as int) =~= s@);
    let has_non_ascii = !is_ascii_chars(s.as_slice());
    let word_count = split_whitespace(s.as_slice()).len();
    compact >= 4 || word_count >= 2 || (has_non_ascii && compact >= 3)
}

/// The lyrics-footer marker: a blank line followed by seven asterisks.
pub open spec fn footer_marker() -> Seq<char> {
    seq!['\n', '\n', '*', '*', '*', '*', '*', '*', '*']
}

/// Lyrics text cut before its footer, trimmed.
pub open spec fn without_footer(s: Seq<char>) -> Seq<char> {
    trim(before_first(s, footer_marker()))
}

/// Drops the footer that Musixmatch appends to lyrics, and trims the rest.
pub fn strip_lyrics_footer(value: &str) -> (r: String)
    ensures
        r@ == without_footer(value@),
{
    let v = chars_of(value);
    let marker = vec!['\n', '\n', '*', '*', '*', '*', '*', '*', '*'];
    assert(marker@ =~= footer_marker());
    let base = match find_chars(v.as_slice(), marker.as_slice(), 0) {
        Some(i) => slice_chars(v.as_slice(), 0, i),
        None => v,
    };
    proof {
        if let Some(i) = find(value@, footer_marker()) {
            assert(value@.subrange(0, i) =~= value@.take(i));
        }
    }
    let t = trim_chars(base.as_slice());
    string_of(t.as_slice())
}

/// The parts of a candidate's ranking score: two similarities, weighted 70 and 30 by
/// whoever combines them, and a sum of bonus and penalty points.
#[derive(Clone, Copy, Debug)]
pub struct ScoreParts {
    pub title_sim: Ratio,
    pub artist_sim: Ratio,
    pub bonus: i64,
}

/// Words that mark a cover, live take or other variant of a recording.
pub open spec fn noise_words() -> Seq<Seq<char>> {
    seq![
        seq!['a', 'c', 'o', 'u', 's', 't', 'i', 'c'],
        seq!['c', 'o', 'v', 'e', 'r'],
        seq!['i', 'n', 's', 't', 'r', 'u', 'm', 'e', 'n', 't', 'a', 'l'],
        seq!['k', 'a', 'r', 'a', 'o', 'k', 'e'],
        seq!['l', 'i', 'v', 'e'],
        seq!['r', 'e', 'm', 'i', 'x'],
        seq!['t', 'r', 'i', 'b', 'u', 't', 'e'],
    ]
}

/// How many of `list` occur in `s`.
pub open spec fn occurring(s: Seq<char>, list: Seq<Seq<char>>) -> nat
    decreases list.len(),
{
    if list.len() == 0 {
        0
    } else {
        occurring(s, list.drop_last()) + if has_substring(s, list.last()) { 1nat } else { 0nat }
    }
}

/// Points for the distance between wanted and actual durations, in milliseconds.
pub open spec fn duration_points(delta_ms: nat) -> int {
    if delta_ms <= 1500 {
        18
    } else if delta_ms <= 3000 {
        10
    } else if delta_ms <= 6000 {
        4
    } else if delta_ms >= 20000 {
        -20
    } else if delta_ms >= 10000 {
        -8
    } else {
        0
    }
}

/// Points for two durations when both are known.
pub open spec fn duration_bonus(wanted_ms: Option<u64>, actual_ms: Option<u64>) -> int {
    match (wanted_ms, actual_ms) {
        (Some(w), Some(a)) => duration_points((if a >= w { a - w } else { w - a }) as nat),
        _ => 0,
    }
}

/// Bonus and penalty points shared by all providers: 15 for equal simplified titles (else
/// 8 when the hit's title contains the wanted one), 10 when the hit's artist equals or
/// contains the wanted one, the duration points, and minus 18 for each noise word in the
/// hit's title and artist.
pub open spec fn basic_bonus(
    title: Seq<char>,
    artist: Seq<char>,
    track_title: Seq<char>,
    track_artist: Seq<char>,
    wanted_ms: Option<u64>,
    actual_ms: Option<u64>,
) -> int {
    let wt = simplified(title);
    let wa = normalized(artist);
    let tt = simplified(track_title);
    let ta = normalized(track_artist);
    (if wt == tt {
        15int
    } else if has_substring(tt, wt) {
        8int
    } else {
        0int
    }) + (if wa == ta || has_substring(ta, wa) {
        10int
    } else {
        0int
    }) + duration_bonus(wanted_ms, actual_ms) - 18 * occurring(tt + seq![' '] + ta, noise_words())
}

/// The score parts of a hit against the wanted title, artist and duration.
pub open spec fn basic_score_holds(
    r: ScoreParts,
    title: Seq<char>,
    artist: Seq<char>,
    track_title: Seq<char>,
    track_artist: Seq<char>,
    wanted_ms: Option<u64>,
    actual_ms: Option<u64>,
) -> bool {
    &&& r.title_sim == similarity_of(simplified(title), simplified(track_title))
    &&& r.artist_sim == similarity_of(normalized(artist), normalized(track_artist))
    &&& r.bonus == basic_bonus(title, artist, track_title, track_artist, wanted_ms, actual_ms)
}

/// Points for a distance between wanted and actual durations, in milliseconds: 18 within
/// 1.5 s, 10 within 3 s, 4 within 6 s, -20 from 20 s, -8 from 10 s, else nothing.
pub fn duration_score(delta_ms: u64) -> (r: i64)
    ensures
        r == duration_points(delta_ms as nat),
{
    if delta_ms <= 1500 {
        18
    } else if delta_ms <= 3000 {
        10
    } else if delta_ms <= 6000 {
        4
    } else if delta_ms >= 20000 {
        -20
    } else if delta_ms >= 10000 {
        -8
    } else {
        0
    }
}

fn noise_word_list() -> (r: Vec<Vec<char>>)
    ensures
        views(r@) == noise_words(),
{
    let r = vec![
        vec!['a', 'c', 'o', 'u', 's', 't', 'i', 'c'],
        vec!['c', 'o', 'v', 'e', 'r'],
        vec!['i', 'n', 's', 't', 'r', 'u', 'm', 'e', 'n', 't', 'a', 'l'],
        vec!['k', 'a', 'r', 'a', 'o', 'k', 'e'],
        vec!['l', 'i', 'v', 'e'],
        vec!['r', 'e', 'm', 'i', 'x'],
        vec!['t', 'r', 'i', 'b', 'u', 't', 'e'],
    ];
    assert(r@[0]@ =~= noise_words()[0]);
    assert(r@[1]@ =~= noise_words()[1]);
    assert(r@[2]@ =~= noise_words()[2]);
    assert(r@[3]@ =~= noise_words()[3]);
    assert(r@[4]@ =~= noise_words()[4]);
    assert(r@[5]@ =~= noise_words()[5]);
    assert(r@[6]@ =~= noise_words()[6]);
    assert(views(r@) =~= noise_words());
    r
}

/// `score_basic_match`: the score parts of a hit.
fn score_basic_match(
    title: &str,
    artist: &str,
    track_title: &str,
    track_artist: &str,
    wanted_ms: Option<u64>,
    actual_ms: Option<u64>,
) -> (r: ScoreParts)
    ensures
        basic_score_holds(r, title@, artist@, track_title@, track_artist@, wanted_ms, actual_ms),
{
    let wt = simplified_chars(chars_of(title).as_slice());
    let wa = normalized_chars(chars_of(artist).as_slice());
    let tt = simplified_chars(chars_of(track_title).as_slice());
    let ta = normalized_chars(chars_of(track_artist).as_slice());
    let title_sim = similarity_chars(wt.as_slice(), tt.as_slice());
    let artist_sim = similarity_chars(wa.as_slice(), ta.as_slice());
    let mut bonus: i64 = 0;
    if chars_equal(wt.as_slice(), tt.as_slice()) {
        bonus = 15;
    } else if contains_chars(tt.as_slice(), wt.as_slice()) {
        bonus = 8;
    }
    if chars_equal(wa.as_slice(), ta.as_slice()) || contains_chars(ta.as_slice(), wa.as_slice()) {
        bonus = bonus + 10;
    }
    match (wanted_ms, actual_ms) {
        (Some(w), Some(a)) => {
            let delta = if a >= w { a - w } else { w - a };
            bonus = bonus + duration_score(delta);
        },
        _ => {},
    }
    let mut noise = tt.clone();
    noise.push(' ');
    extend_chars(&mut noise, ta.as_slice());
    assert(noise@ =~= tt@ + seq![' '] + ta@);
    let list = noise_word_list();
    let mut hits: i64 = 0;
    let mut k: usize = 0;
    while k < list.len()
        invariant
            k <= list.len(),
            views(list@) == noise_words(),
            0 <= hits <= k,
            hits == occurring(noise@, noise_words().take(k as int)),
        decreases list.len() - k,
    {
        assert(noise_words().take(k + 1).drop_last() =~= noise_words().take(k as int));
        assert(noise_words().take(k + 1).last() == list@[k as int]@);
        if contains_chars(noise.as_slice(), list[k].as_slice()) {
            hits = hits + 1;
        }
        k += 1;
    }
    assert(noise_words().take(7) =~= noise_words());
    bonus = bonus - 18 * hits;
    ScoreParts { title_sim, artist_sim, bonus }
}

/// Score parts of a Musixmatch hit: the shared parts (its length, in the unit the API
/// reports it, taken as milliseconds), plus 8 points for subtitles, 4 for rich sync and 2
/// for lyrics.
pub fn score_track(track: &Track, title: &str, artist: &str, duration_ms: Option<u64>) -> (r:
    ScoreParts)
    ensures
        r.title_sim == similarity_of(simplified(title@), simplified(track.track_name@)),
        r.artist_sim == similarity_of(normalized(artist@), normalized(track.artist_name@)),
        r.bonus == basic_bonus(
            title@,
            artist@,
            track.track_name@,
            track.artist_name@,
            duration_ms,
            Some(track.track_length as u64),
        ) + (if track.has_subtitles { 8int } else { 0int }) + (if track.has_richsync {
            4int
        } else {
            0int
        }) + (if track.has_lyrics { 2int } else { 0int }),
{
    let mut parts = score_basic_match(
        title,
        artist,
        track.track_name.as_str(),
        track.artist_name.as_str(),
        duration_ms,
        Some(track.track_length as u64),
    );
    if track.has_subtitles {
        parts.bonus = parts.bonus + 8;
    }
    if track.has_richsync {
        parts.bonus = parts.bonus + 4;
    }
    if track.has_lyrics {
        parts.bonus = parts.bonus + 2;
    }
    parts
}

/// Score parts of a Deezer hit.
pub fn score_deezer_track(track: &DeezerTrack, title: &str, artist: &str, duration_ms: Option<
    u64,
>) -> (r: ScoreParts)
    ensures
        basic_score_holds(
            r,
            title@,
            artist@,
            track.track_name@,
            track.artist_name@,
            duration_ms,
            track.duration_ms,
        ),
{
    score_basic_match(title, artist, track.track_name.as_str(), track.artist_name.as_str(), duration_ms, track.duration_ms)
}

/// Score parts of a Bugs hit.
pub fn score_bugs_track(track: &BugsTrack, title: &str, artist: &str, duration_ms: Option<u64>) -> (r:
    ScoreParts)
    ensures
        basic_score_holds(
            r,
            title@,
            artist@,
            track.track_name@,
            track.artist_name@,
            duration_ms,
            track.duration_ms,
        ),
{
    score_basic_match(title, artist, track.track_name.as_str(), track.artist_name.as_str(), duration_ms, track.duration_ms)
}

/// Score parts of a Genie hit.
pub fn score_genie_track(track: &GenieTrack, title: &str, artist: &str, duration_ms: Option<u64>) -> (r:
    ScoreParts)
    ensures
        basic_score_holds(
            r,
            title@,
            artist@,
            track.track_name@,
            track.artist_name@,
            duration_ms,
            track.duration_ms,
        ),
{
    score_basic_match(title, artist, track.track_name.as_str(), track.artist_name.as_str(), duration_ms, track.duration_ms)
}


/// A hit found by the artist-only search is rejected when its simplified title matches the
/// wanted one at no position, and when a wanted artist is given and its normalised artist
/// matches the wanted one at no position: that step needs both the title and the artist.
pub proof fn lemma_artist_step_needs_title_and_artist(
    track_title: Seq<char>,
    track_artist: Seq<char>,
    title: Seq<char>,
    artist: Seq<char>,
)
    ensures
        positional_matches(simplified(title), simplified(track_title)) == 0 ==> !accepts_musixmatch(
            track_title,
            track_artist,
            title,
            artist,
            by_artist(),
        ),
        normalized(artist).len() > 0 && positional_matches(normalized(artist), normalized(track_artist))
            == 0 ==> !accepts_musixmatch(track_title, track_artist, title, artist, by_artist()),
{
    assert(by_artist() != by_title()) by {
        assert(by_artist()[7] != by_title()[7]);
    }
}

/// The positions at which two texts agree are no more than the shorter one's length.
proof fn lemma_positional_matches_bound(a: Seq<char>, b: Seq<char>)
    ensures
        positional_matches(a, b) <= a.len(),
        positional_matches(a, b) <= b.len(),
    decreases a.len(),
{
    if a.len() > 0 && b.len() > 0 {
        lemma_positional_matches_bound(a.drop_first(), b.drop_first());
    }
}

/// A hit accepted by the artist-only search agrees with the wanted simplified title at no
/// fewer than three positions in ten of the longer title, and with a wanted normalised
/// artist at no fewer than half the positions of the longer artist.
pub proof fn lemma_artist_step_thresholds(
    track_title: Seq<char>,
    track_artist: Seq<char>,
    title: Seq<char>,
    artist: Seq<char>,
)
    requires
        accepts_musixmatch(track_title, track_artist, title, artist, by_artist()),
        simplified(title).len() <= u64::MAX,
        simplified(track_title).len() <= u64::MAX,
        normalized(artist).len() <= u64::MAX,
        normalized(track_artist).len() <= u64::MAX,
    ensures
        ({
            let (a, b) = (simplified(title), simplified(track_title));
            a.len() > 0 && b.len() > 0 && positional_matches(a, b) * 10 >= 3 * (if a.len() >= b.len() {
                a.len()
            } else {
                b.len()
            })
        }),
        normalized(artist).len() > 0 ==> ({
            let (a, b) = (normalized(artist), normalized(track_artist));
            b.len() > 0 && positional_matches(a, b) * 2 >= (if a.len() >= b.len() {
                a.len()
            } else {
                b.len()
            })
        }),
{
    assert(by_artist() != by_title()) by {
        assert(by_artist()[7] != by_title()[7]);
    }
    lemma_positional_matches_bound(simplified(title), simplified(track_title));
    lemma_positional_matches_bound(normalized(artist), normalized(track_artist));
}

/// How many of `list` occur in `s` grows when text is put around `s`.
proof fn lemma_occurring_in_longer(s: Seq<char>, before: Seq<char>, after: Seq<char>, list: Seq<Seq<char>>)
    ensures
        occurring(s, list) <= occurring(before + s + after, list),
    decreases list.len(),
{
    if list.len() > 0 {
        lemma_occurring_in_longer(s, before, after, list.drop_last());
        if has_substring(s, list.last()) {
            crate::text::lemma_substring_in_longer(s, list.last(), before, after);
        }
    }
}

/// Noise words (live, remix, cover, ...) cost 18 points each wherever they appear: the
/// bonus is at most the 43 points of an equal title, an equal artist and a close duration,
/// less 18 for each noise word in the hit's simplified title, and likewise less 18 for each
/// one in its normalised artist.
pub proof fn lemma_noise_words_penalised(
    title: Seq<char>,
    artist: Seq<char>,
    track_title: Seq<char>,
    track_artist: Seq<char>,
    wanted_ms: Option<u64>,
    actual_ms: Option<u64>,
)
    ensures
        basic_bonus(title, artist, track_title, track_artist, wanted_ms, actual_ms) <= 43 - 18
            * occurring(simplified(track_title), noise_words()),
        basic_bonus(title, artist, track_title, track_artist, wanted_ms, actual_ms) <= 43 - 18
            * occurring(normalized(track_artist), noise_words()),
{
    let tt = simplified(track_title);
    let ta = normalized(track_artist);
    let both = tt + seq![' '] + ta;
    lemma_occurring_in_longer(tt, seq![], seq![' '] + ta, noise_words());
    assert(seq![] + tt + (seq![' '] + ta) =~= both);
    lemma_occurring_in_longer(ta, tt + seq![' '], seq![], noise_words());
    assert(tt + seq![' '] + ta + seq![] =~= both);
    assert(duration_bonus(wanted_ms, actual_ms) <= 18);
}

} // verus!
