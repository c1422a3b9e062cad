//! Bugs provider: track model, search query, synced-lyrics parsing into LRC, and the
//! plain-lyrics clean-up.
use vstd::prelude::*;

use crate::provider_util::{
    duration_ms_of, lrc_stamp, push_lrc_stamp, saturate, split_char,
    split_char_chars,
};
use crate::text::{
    chars_of, digits_value, eq_ignore_case_chars, extend_chars, is_digit_char, join, join_chars,
    slice_chars, string_of, trim, trim_chars, trim_end, trim_bounds, views,
};

verus! {

/// A Bugs search hit.
#[derive(Clone, Debug)]
pub struct BugsTrack {
    pub track_id: u64,
    pub track_name: String,
    pub artist_name: String,
    pub duration_ms: Option<u64>,
}

/// Lyrics found for a Bugs track: synced (LRC) text, plain text, or both.
#[derive(Clone, Debug)]
pub struct BugsLyricsResult {
    pub track_id: u64,
    pub track_name: String,
    pub artist_name: String,
    pub duration_ms: Option<u64>,
    pub lrc: Option<String>,
    pub text: Option<String>,
}

/// Why a Bugs lookup gave no lyrics.
#[derive(Debug)]
pub enum BugsError {
    NotFound,
    NotAvailable,
    Ratelimit,
    Provider(String),
}

impl BugsError {
    /// The message shown for this error.
    pub fn message(&self) -> (r: String)
        ensures
            r@ == match self {
                BugsError::NotFound => "No matching Bugs tracks found."@,
                BugsError::NotAvailable => "No Bugs lyrics are available for this track."@,
                BugsError::Ratelimit => "Bugs rate limit reached."@,
                BugsError::Provider(detail) => "Bugs request failed: "@ + detail@,
            },
    {
        match self {
            BugsError::NotFound => String::from_str("No matching Bugs tracks found."),
            BugsError::NotAvailable => String::from_str("No Bugs lyrics are available for this track."),
            BugsError::Ratelimit => String::from_str("Bugs rate limit reached."),
            BugsError::Provider(detail) => {
                let mut m = String::from_str("Bugs request failed: ");
                m.append(detail.as_str());
                m
            },
        }
    }
}

/// The non-empty entries of `parts`, trimmed.
pub open spec fn nonempty_trimmed(parts: Seq<Seq<char>>) -> Seq<Seq<char>>
    decreases parts.len(),
{
    if parts.len() == 0 {
        seq![]
    } else if trim(parts.last()).len() == 0 {
        nonempty_trimmed(parts.drop_last())
    } else {
        nonempty_trimmed(parts.drop_last()).push(trim(parts.last()))
    }
}

/// The search query: the trimmed title and artist that are not empty, joined by a space.
pub open spec fn search_query_of(title: Seq<char>, artist: Seq<char>) -> Seq<char> {
    join(nonempty_trimmed(seq![title, artist]), seq![' '])
}

/// Trims each of `parts`, keeps the non-empty ones, and joins them with `sep`.
pub fn join_nonempty_trimmed(parts: &Vec<Vec<char>>, sep: &[char]) -> (r: Vec<char>)
    ensures
        r@ == join(nonempty_trimmed(views(parts@)), sep@),
{
    let mut kept: Vec<Vec<char>> = Vec::new();
    let mut i: usize = 0;
    while i < parts.len()
        invariant
            i <= parts.len(),
            views(kept@) == nonempty_trimmed(views(parts@).take(i as int)),
        decreases parts.len() - i,
    {
        assert(views(parts@).take(i + 1).drop_last() =~= views(parts@).take(i as int));
        assert(views(parts@).take(i + 1).last() == parts@[i as int]@);
        let t = trim_chars(parts[i].as_slice());
        if t.len() > 0 {
            let ghost before = views(kept@);
            kept.push(t);
            assert(views(kept@) =~= before.push(t@));
        }
        i += 1;
    }
    assert(views(parts@).take(parts.len() as int) =~= views(parts@));
    join_chars(&kept, sep)
}

/// The Bugs search query: the trimmed title and artist that are not empty, joined by a
/// space.
pub fn build_search_query(title: &str, artist: &str) -> (r: String)
    ensures
        r@ == search_query_of(title@, artist@),
{
    let parts = vec![chars_of(title), chars_of(artist)];
    assert(views(parts@) =~= seq![title@, artist@]);
    let sep = vec![' '];
    assert(sep@ =~= seq![' ']);
    let r = join_nonempty_trimmed(&parts, sep.as_slice());
    string_of(r.as_slice())
}

/// The views of a list of strings.
pub open spec fn string_list(v: Seq<String>) -> Seq<Seq<char>> {
    Seq::new(v.len(), |i: int| v[i]@)
}

/// The artists' names, trimmed, without empty ones, joined by `", "`.
pub fn join_artist_names(artists: &[String]) -> (r: String)
    ensures
        r@ == join(nonempty_trimmed(string_list(artists@)), seq![',', ' ']),
{
    let mut parts: Vec<Vec<char>> = Vec::new();
    let mut i: usize = 0;
    while i < artists.len()
        invariant
            i <= artists.len(),
            views(parts@) == string_list(artists@).take(i as int),
        decreases artists.len() - i,
    {
        let ghost before = views(parts@);
        let c = chars_of(artists[i].as_str());
        parts.push(c);
        assert(views(parts@) =~= before.push(artists@[i as int]@));
        assert(string_list(artists@).take(i + 1) =~= string_list(artists@).take(i as int).push(
            artists@[i as int]@,
        ));
        i += 1;
    }
    assert(string_list(artists@).take(artists.len() as int) =~= string_list(artists@));
    let sep = vec![',', ' '];
    assert(sep@ =~= seq![',', ' ']);
    let r = join_nonempty_trimmed(&parts, sep.as_slice());
    string_of(r.as_slice())
}

/// The duration of a Bugs track, when given, read as `m:s` or `h:m:s`.
pub fn parse_duration_ms(value: Option<&str>) -> (r: Option<u64>)
    ensures
        r == match value {
            Some(v) => duration_ms_of(v@),
            None => None,
        },
{
    match value {
        Some(v) => crate::provider_util::parse_duration_ms(v),
        None => None,
    }
}

/// A Bugs track from the fields of a search hit.
pub fn track_from_search(track_id: u64, track_title: String, artist_names: &[String], len: Option<&str>) -> (r:
    BugsTrack)
    ensures
        r.track_id == track_id,
        r.track_name == track_title,
        r.artist_name@ == join(nonempty_trimmed(string_list(artist_names@)), seq![',', ' ']),
        r.duration_ms == match len {
            Some(v) => duration_ms_of(v@),
            None => None,
        },
{
    BugsTrack {
        track_id,
        track_name: track_title,
        artist_name: join_artist_names(artist_names),
        duration_ms: parse_duration_ms(len),
    }
}

/// The sign of a number and the text after it: a leading `-` makes it negative, a leading
/// `+` is dropped.
pub open spec fn sign_split(s: Seq<char>) -> (bool, Seq<char>) {
    if s.len() > 0 && s[0] == '-' {
        (true, s.drop_first())
    } else if s.len() > 0 && s[0] == '+' {
        (false, s.drop_first())
    } else {
        (false, s)
    }
}

/// All characters of `s` are decimal digits.
pub open spec fn all_digits(s: Seq<char>) -> bool {
    forall|i: int| 0 <= i < s.len() ==> is_digit_char(s[i])
}

/// The value of digit `i` of `s`, or zero past its end.
pub open spec fn digit_or_zero(s: Seq<char>, i: int) -> nat {
    if 0 <= i < s.len() {
        ((s[i] as u32) - 48) as nat
    } else {
        0
    }
}

/// The first position at or after `i` of an exponent mark, `e` or `E`.
pub open spec fn exp_mark_from(s: Seq<char>, i: int) -> Option<int>
    decreases s.len() - i,
{
    if i < 0 || i >= s.len() {
        None
    } else if s[i] == 'e' || s[i] == 'E' {
        Some(i)
    } else {
        exp_mark_from(s, i + 1)
    }
}

/// The exponent written after an exponent mark: an optional sign and at least one digit.
pub open spec fn exp_value(t: Seq<char>) -> Option<int> {
    let (neg, d) = sign_split(t);
    if d.len() > 0 && all_digits(d) {
        Some(
            if neg {
                -(digits_value(d) as int)
            } else {
                digits_value(d) as int
            },
        )
    } else {
        None
    }
}

/// A decimal number without its sign, in the notation that `f64` parsing reads: digits
/// with at most one point and at least one digit, then optionally `e` or `E` and an
/// exponent. Gives the digits without the point, how many of them come before the point,
/// and the exponent.
pub open spec fn decimal_parts(s: Seq<char>) -> Option<(Seq<char>, nat, int)> {
    let (mant, e) = match exp_mark_from(s, 0) {
        Some(k) => (s.take(k), exp_value(s.skip(k + 1))),
        None => (s, Some(0int)),
    };
    let (int_part, frac) = match crate::text::find(mant, seq!['.']) {
        Some(i) => (mant.take(i), mant.skip(i + 1)),
        None => (mant, seq![]),
    };
    if all_digits(int_part) && all_digits(frac) && int_part.len() + frac.len() > 0 && e is Some {
        Some((int_part + frac, int_part.len(), e->0))
    } else {
        None
    }
}

/// The first `n` digits of `d`, zeros past its end.
pub open spec fn padded(d: Seq<char>, n: nat) -> Seq<char> {
    Seq::new(n, |i: int| if i < d.len() { d[i] } else { '0' })
}

/// The digits `d` with the point put before position `p` (zeros past their end), cut down
/// to a whole number and rounded half up on the digit at position `p`.
pub open spec fn rounded_at(d: Seq<char>, p: int) -> nat {
    (if p <= 0 {
        0
    } else {
        digits_value(padded(d, p as nat))
    }) + (if digit_or_zero(d, p) >= 5 {
        1nat
    } else {
        0nat
    })
}

/// `inf` or `infinity` in any ASCII case.
pub open spec fn is_infinity_text(s: Seq<char>) -> bool {
    crate::text::eq_ignore_ascii_case(s, seq!['i', 'n', 'f'])
        || crate::text::eq_ignore_ascii_case(s, seq!['i', 'n', 'f', 'i', 'n', 'i', 't', 'y'])
}

/// A number of seconds in the notation that `f64` parsing reads (an optional sign, then
/// `inf`, `infinity`, or decimal digits with an optional point and exponent, such as `7`,
/// `7.3`, `.5`, `7.`, `1e1`, `2.5E-1`) as hundredths of a second, rounded half up and capped
/// at the 64-bit limit. Infinity gives the limit, a negative zero gives zero; negative
/// numbers, NaN and anything else give `None`.
pub open spec fn seconds_to_centis(s: Seq<char>) -> Option<u64> {
    let (neg, body) = sign_split(s);
    if is_infinity_text(body) {
        if neg {
            None
        } else {
            Some(u64::MAX)
        }
    } else {
        match decimal_parts(body) {
            None => None,
            Some((d, point, e)) => if neg {
                if digits_value(d) == 0 {
                    Some(0u64)
                } else {
                    None
                }
            } else {
                Some(saturate(rounded_at(d, point + e + 2) as int))
            },
        }
    }
}

/// One entry of a Bugs synced payload (`seconds|text`) as an LRC line, if it has a
/// time and some text.
pub open spec fn synced_entry_line(entry: Seq<char>) -> Option<Seq<char>> {
    let e = trim(entry);
    match crate::text::find(e, seq!['|']) {
        None => None,
        Some(i) => {
            let text = trim(e.skip(i + 1));
            match seconds_to_centis(trim(e.take(i))) {
                Some(c) => if text.len() > 0 && e.len() > 0 {
                    Some(lrc_stamp(c as nat) + text)
                } else {
                    None
                },
                None => None,
            }
        },
    }
}

/// The LRC lines of a list of entries, in order, skipping entries without one.
pub open spec fn synced_lines(entries: Seq<Seq<char>>) -> Seq<Seq<char>>
    decreases entries.len(),
{
    if entries.len() == 0 {
        seq![]
    } else {
        match synced_entry_line(entries.last()) {
            Some(l) => synced_lines(entries.drop_last()).push(l),
            None => synced_lines(entries.drop_last()),
        }
    }
}

/// A Bugs synced payload (entries separated by `＃`) as LRC text, or `None` when no
/// entry gives a line.
pub open spec fn synced_lyrics_of(value: Seq<char>) -> Option<Seq<char>> {
    let lines = synced_lines(split_char(value, '＃'));
    if lines.len() == 0 {
        None
    } else {
        Some(join(lines, seq!['\n']))
    }
}

/// Ten to the power `k`.
pub open spec fn pow10(k: nat) -> nat
    decreases k,
{
    if k == 0 {
        1
    } else {
        10 * pow10((k - 1) as nat)
    }
}

/// The largest exponent size that is computed with: 2^80, far beyond any digit count.
pub open spec fn exp_cap() -> int {
    0x1_0000_0000_0000_0000_0000
}

/// An exponent cut to the computing range.
pub open spec fn clamp_exp(e: int) -> int {
    if e > exp_cap() {
        exp_cap()
    } else if e < -exp_cap() {
        -exp_cap()
    } else {
        e
    }
}

/// Digits spell zero exactly when each of them is `0`.
proof fn lemma_digits_zero(s: Seq<char>)
    requires
        all_digits(s),
    ensures
        (digits_value(s) == 0) == (forall|i: int| 0 <= i < s.len() ==> (s[i] as u32) == 48),
    decreases s.len(),
{
    if s.len() > 0 {
        let p = s.drop_last();
        assert(all_digits(p)) by {
            assert forall|i: int| 0 <= i < p.len() implies is_digit_char(p[i]) by {
                assert(p[i] == s[i]);
            }
        }
        lemma_digits_zero(p);
        assert(is_digit_char(s[s.len() - 1]));
        if forall|i: int| 0 <= i < s.len() ==> (s[i] as u32) == 48 {
            assert forall|i: int| 0 <= i < p.len() implies (p[i] as u32) == 48 by {
                assert(p[i] == s[i]);
            }
            assert((s[s.len() - 1] as u32) == 48);
        }
        if digits_value(s) == 0 {
            assert forall|i: int| 0 <= i < s.len() implies (s[i] as u32) == 48 by {
                if i < s.len() - 1 {
                    assert(p[i] == s[i]);
                }
            }
        } else {
            if forall|i: int| 0 <= i < s.len() ==> (s[i] as u32) == 48 {
                assert((s.last() as u32) == 48);
                assert(false);
            }
        }
    }
}

/// Each zero added past the digits multiplies their value by ten.
proof fn lemma_padded_scale(d: Seq<char>, q: nat)
    requires
        q >= d.len(),
    ensures
        digits_value(padded(d, q)) == digits_value(d) * pow10((q - d.len()) as nat),
    decreases q - d.len(),
{
    if q == d.len() {
        assert(padded(d, q) =~= d);
        assert(pow10(0) == 1);
        assert(digits_value(d) * 1 == digits_value(d));
    } else {
        let k = (q - 1) as nat;
        lemma_padded_scale(d, k);
        assert(padded(d, q).drop_last() =~= padded(d, k));
        assert(padded(d, q).last() == '0');
        assert(('0' as u32) == 48);
        let a = digits_value(d);
        let b = pow10((k - d.len()) as nat);
        assert(digits_value(padded(d, q)) == digits_value(padded(d, k)) * 10);
        assert(((q - d.len()) as nat) - 1 == (k - d.len()) as nat);
        assert(pow10((q - d.len()) as nat) == 10 * b);
        assert(a * b * 10 == a * (10 * b)) by (nonlinear_arith);
        assert(digits_value(padded(d, k)) == a * b);
        assert(digits_value(padded(d, q)) == a * pow10((q - d.len()) as nat));
    }
}

/// Twenty or more powers of ten are beyond the 64-bit limit.
proof fn lemma_pow10_big(k: nat)
    requires
        k >= 20,
    ensures
        pow10(k) > u64::MAX,
    decreases k,
{
    if k == 20 {
        reveal_with_fuel(pow10, 21);
    } else {
        lemma_pow10_big((k - 1) as nat);
    }
}

/// With the point more than twenty places past the digits, the hundredths are zero for
/// zero digits and beyond the limit otherwise.
proof fn lemma_big_position(d: Seq<char>, p: int)
    requires
        all_digits(d),
        p > d.len() + 20,
    ensures
        saturate(rounded_at(d, p) as int) == if digits_value(d) == 0 {
            0u64
        } else {
            u64::MAX
        },
{
    let k = (p - d.len()) as nat;
    lemma_padded_scale(d, p as nat);
    lemma_pow10_big(k);
    let a = digits_value(d);
    let b = pow10(k);
    if a != 0 {
        assert(a * b >= b) by (nonlinear_arith)
            requires
                a >= 1,
        ;
    } else {
        assert(a * b == 0) by (nonlinear_arith)
            requires
                a == 0,
        ;
    }
}

/// Cutting the exponent to the computing range does not change the hundredths.
proof fn lemma_clamped_position(d: Seq<char>, point: nat, e: int)
    requires
        all_digits(d),
        point <= d.len() <= u64::MAX,
    ensures
        saturate(rounded_at(d, point + e + 2) as int) == saturate(
            rounded_at(d, point + clamp_exp(e) + 2) as int,
        ),
{
    if e > exp_cap() {
        lemma_big_position(d, point + e + 2);
        lemma_big_position(d, point + clamp_exp(e) + 2);
    }
}

/// Whether all characters are decimal digits.
fn all_digit_chars(v: &[char]) -> (r: bool)
    ensures
        r == all_digits(v@),
{
    let mut i: usize = 0;
    while i < v.len()
        invariant
            i <= v.len(),
            forall|j: int| 0 <= j < i ==> is_digit_char(v@[j]),
        decreases v.len() - i,
    {
        let c = v[i] as u32;
        if c < 48 || c > 57 {
            return false;
        }
        i += 1;
    }
    true
}

/// Whether digits spell zero.
fn digits_are_zero(v: &[char]) -> (r: bool)
    requires
        all_digits(v@),
    ensures
        r == (digits_value(v@) == 0),
{
    let mut i: usize = 0;
    while i < v.len()
        invariant
            i <= v.len(),
            all_digits(v@),
            forall|j: int| 0 <= j < i ==> (v@[j] as u32) == 48,
        decreases v.len() - i,
    {
        if v[i] as u32 != 48 {
            assert((v@[i as int] as u32) != 48);
            proof {
                lemma_digits_zero(v@);
            }
            return false;
        }
        i += 1;
    }
    proof {
        lemma_digits_zero(v@);
    }
    true
}

/// The position of the first exponent mark.
fn exp_mark(b: &[char]) -> (r: Option<usize>)
    ensures
        match r {
            Some(k) => exp_mark_from(b@, 0) == Some(k as int) && k < b.len(),
            None => exp_mark_from(b@, 0) is None,
        },
{
    let mut k: usize = 0;
    while k < b.len()
        invariant
            k <= b.len(),
            exp_mark_from(b@, 0) == exp_mark_from(b@, k as int),
        decreases b.len() - k,
    {
        if b[k] == 'e' || b[k] == 'E' {
            return Some(k);
        }
        k += 1;
    }
    None
}

/// Reads an exponent (an optional sign and digits), cut to the computing range.
fn read_exponent(t: &[char]) -> (r: Option<i128>)
    ensures
        match exp_value(t@) {
            Some(e) => r == Some(clamp_exp(e) as i128),
            None => r is None,
        },
{
    let neg = t.len() > 0 && t[0] == '-';
    let start: usize = if t.len() > 0 && (t[0] == '-' || t[0] == '+') { 1 } else { 0 };
    let d = slice_chars(t, start, t.len());
    assert(d@ =~= sign_split(t@).1);
    if d.len() == 0 || !all_digit_chars(d.as_slice()) {
        return None;
    }
    let cap: u128 = 0x1_0000_0000_0000_0000_0000;
    let mut v: u128 = 0;
    let mut i: usize = 0;
    while i < d.len()
        invariant
            i <= d.len(),
            all_digits(d@),
            cap == exp_cap(),
            v == if digits_value(d@.take(i as int)) > cap {
                cap as int
            } else {
                digits_value(d@.take(i as int)) as int
            },
        decreases d.len() - i,
    {
        assert(d@.take(i + 1).drop_last() =~= d@.take(i as int));
        assert(is_digit_char(d@[i as int]));
        let g = (d[i] as u32 - 48) as u128;
        let w = v * 10 + g;
        v = if w > cap { cap } else { w };
        i += 1;
    }
    assert(d@.take(i as int) =~= d@);
    let mag = v as i128;
    Some(if neg { -mag } else { mag })
}

/// Reads a decimal number without its sign: its digits without the point, how many come
/// before the point, and the exponent cut to the computing range.
fn read_decimal(b: &[char]) -> (r: Option<(Vec<char>, usize, i128)>)
    ensures
        match decimal_parts(b@) {
            Some((d, point, e)) => r matches Some((dv, pv, ev)) && dv@ == d && pv == point && ev
                == clamp_exp(e),
            None => r is None,
        },
        r matches Some((dv, pv, ev)) ==> pv <= dv.len() && all_digits(dv@),
{
    let (mant, e) = match exp_mark(b) {
        Some(k) => {
            let t = slice_chars(b, k + 1, b.len());
            assert(t@ =~= b@.skip(k + 1));
            match read_exponent(t.as_slice()) {
                Some(e) => (slice_chars(b, 0, k), e),
                None => return None,
            }
        },
        None => (slice_chars(b, 0, b.len()), 0i128),
    };
    let ghost parts = decimal_parts(b@);
    proof {
        match exp_mark_from(b@, 0) {
            Some(k) => {
                assert(mant@ =~= b@.take(k));
            },
            None => {
                assert(mant@ =~= b@);
            },
        }
    }
    let dot = vec!['.'];
    assert(dot@ =~= seq!['.']);
    let (int_part, frac) = match crate::text::find_chars(mant.as_slice(), dot.as_slice(), 0) {
        Some(i) => {
            let a = slice_chars(mant.as_slice(), 0, i);
            let f = slice_chars(mant.as_slice(), i + 1, mant.len());
            assert(a@ =~= mant@.take(i as int));
            assert(f@ =~= mant@.skip(i + 1));
            (a, f)
        },
        None => {
            let f: Vec<char> = Vec::new();
            assert(f@ =~= seq![]);
            (mant, f)
        },
    };
    if !all_digit_chars(int_part.as_slice()) || !all_digit_chars(frac.as_slice()) || (
    int_part.len() == 0 && frac.len() == 0) {
        return None;
    }
    let point = int_part.len();
    let mut d = int_part;
    extend_chars(&mut d, frac.as_slice());
    Some((d, point, e))
}

/// Hundredths for digits with the point put before position `p`, rounded half up and
/// capped at the 64-bit limit.
fn hundredths(d: &[char], p: i128) -> (r: u64)
    requires
        all_digits(d@),
    ensures
        r == saturate(rounded_at(d@, p as int) as int),
{
    if p < 0 {
        return 0;
    }
    let len = d.len() as i128;
    if p > len + 20 {
        proof {
            lemma_big_position(d@, p as int);
        }
        return if digits_are_zero(d) {
            0
        } else {
            u64::MAX
        };
    }
    assert('0' as u32 == 48);
    let mut v: u64 = 0;
    let mut q: i128 = 0;
    assert(padded(d@, 0) =~= Seq::<char>::empty());
    while q < p
        invariant
            0 <= q <= p,
            p <= len + 20,
            len == d.len(),
            all_digits(d@),
            v == saturate(digits_value(padded(d@, q as nat)) as int),
        decreases p - q,
    {
        let ghost a = digits_value(padded(d@, q as nat));
        assert(padded(d@, (q + 1) as nat).drop_last() =~= padded(d@, q as nat));
        let g: u64 = if q < len {
            assert(is_digit_char(d@[q as int]));
            (d[q as usize] as u32 - 48) as u64
        } else {
            0
        };
        assert(digits_value(padded(d@, (q + 1) as nat)) == a * 10 + g);
        v = if v > (u64::MAX - g) / 10 {
            proof {
                let x = v as int;
                assert(x * 10 + g > u64::MAX) by (nonlinear_arith)
                    requires
                        x > (u64::MAX - g) / 10,
                        0 <= g <= 9,
                ;
            }
            u64::MAX
        } else {
            v * 10 + g
        };
        q += 1;
    }
    let rd: u64 = if p < len {
        assert(is_digit_char(d@[p as int]));
        (d[p as usize] as u32 - 48) as u64
    } else {
        0
    };
    if rd >= 5 && v < u64::MAX {
        v + 1
    } else {
        v
    }
}

/// Reads a number of seconds as `f64` parsing does and gives hundredths of a second
/// (see `seconds_to_centis`).
pub fn parse_seconds_centis(s: &[char]) -> (r: Option<u64>)
    ensures
        r == seconds_to_centis(s@),
{
    let neg = s.len() > 0 && s[0] == '-';
    let start: usize = if s.len() > 0 && (s[0] == '-' || s[0] == '+') { 1 } else { 0 };
    let body = slice_chars(s, start, s.len());
    assert(body@ =~= sign_split(s@).1);
    let inf = vec!['i', 'n', 'f'];
    let infinity = vec!['i', 'n', 'f', 'i', 'n', 'i', 't', 'y'];
    assert(inf@ =~= seq!['i', 'n', 'f']);
    assert(infinity@ =~= seq!['i', 'n', 'f', 'i', 'n', 'i', 't', 'y']);
    if eq_ignore_case_chars(body.as_slice(), inf.as_slice()) || eq_ignore_case_chars(
        body.as_slice(),
        infinity.as_slice(),
    ) {
        return if neg {
            None
        } else {
            Some(u64::MAX)
        };
    }
    match read_decimal(body.as_slice()) {
        None => None,
        Some((d, point, e)) => {
            let ghost e_true: int = match decimal_parts(body@) {
                Some((_, _, x)) => x,
                None => 0,
            };
            if neg {
                if digits_are_zero(d.as_slice()) {
                    Some(0)
                } else {
                    None
                }
            } else {
                proof {
                    lemma_clamped_position(d@, point as nat, e_true);
                }
                let p = point as i128 + e + 2;
                Some(hundredths(d.as_slice(), p))
            }
        },
    }
}

/// Hundredths of a second as an LRC line prefix.
fn lrc_line(centis: u64, text: &[char]) -> (r: Vec<char>)
    ensures
        r@ == lrc_stamp(centis as nat) + text@,
{
    let mut out: Vec<char> = Vec::new();
    push_lrc_stamp(&mut out, centis);
    extend_chars(&mut out, text);
    assert(out@ =~= lrc_stamp(centis as nat) + text@);
    out
}

/// The LRC line of one synced entry.
fn synced_entry(entry: &[char]) -> (r: Option<Vec<char>>)
    ensures
        match r {
            Some(l) => synced_entry_line(entry@) == Some(l@),
            None => synced_entry_line(entry@) is None,
        },
{
    let e = trim_chars(entry);
    if e.len() == 0 {
        return None;
    }
    let bar = vec!['|'];
    assert(bar@ =~= seq!['|']);
    match crate::text::find_chars(e.as_slice(), bar.as_slice(), 0) {
        None => None,
        Some(i) => {
            let head = slice_chars(e.as_slice(), 0, i);
            let tail = slice_chars(e.as_slice(), i + 1, e.len());
            assert(head@ =~= e@.take(i as int));
            assert(tail@ =~= e@.skip(i + 1));
            let text = trim_chars(tail.as_slice());
            let secs = trim_chars(head.as_slice());
            if text.len() == 0 {
                return None;
            }
            match parse_seconds_centis(secs.as_slice()) {
                Some(c) => Some(lrc_line(c, text.as_slice())),
                None => None,
            }
        },
    }
}

/// Turns a Bugs synced payload (`seconds|text` entries separated by `＃`) into LRC text:
/// one `[mm:ss.cc]text` line per entry that has some text and a time that reads as a
/// non-negative number (see `seconds_to_centis`), joined by newlines; `None` when there is
/// no such entry.
pub fn parse_synced_lyrics(value: &str) -> (r: Option<String>)
    ensures
        match r {
            Some(s) => synced_lyrics_of(value@) == Some(s@),
            None => synced_lyrics_of(value@) is None,
        },
{
    let v = chars_of(value);
    let entries = split_char_chars(v.as_slice(), '＃');
    let mut lines: Vec<Vec<char>> = Vec::new();
    let mut i: usize = 0;
    while i < entries.len()
        invariant
            i <= entries.len(),
            views(entries@) == split_char(value@, '＃'),
            views(lines@) == synced_lines(views(entries@).take(i as int)),
        decreases entries.len() - i,
    {
        assert(views(entries@).take(i + 1).drop_last() =~= views(entries@).take(i as int));
        assert(views(entries@).take(i + 1).last() == entries@[i as int]@);
        match synced_entry(entries[i].as_slice()) {
            Some(l) => {
                let ghost before = views(lines@);
                lines.push(l);
                assert(views(lines@) =~= before.push(l@));
            },
            None => {},
        }
        i += 1;
    }
    assert(views(entries@).take(entries.len() as int) =~= views(entries@));
    if lines.len() == 0 {
        None
    } else {
        let sep = vec!['\n'];
        assert(sep@ =~= seq!['\n']);
        let r = join_chars(&lines, sep.as_slice());
        Some(string_of(r.as_slice()))
    }
}

/// `str::lines`: the pieces between newlines, without a last empty piece, each without
/// one trailing carriage return.
pub open spec fn text_lines(s: Seq<char>) -> Seq<Seq<char>> {
    let pieces = split_char(s, '\n');
    let kept = if pieces.last().len() == 0 { pieces.drop_last() } else { pieces };
    Seq::new(
        kept.len(),
        |i: int|
            if kept[i].len() > 0 && kept[i].last() == '\r' {
                kept[i].drop_last()
            } else {
                kept[i]
            },
    )
}

/// Plain lyrics with each line's trailing white space removed, lines joined by `\n`, and
/// the whole trimmed.
pub open spec fn plain_lyrics_of(s: Seq<char>) -> Seq<char> {
    let lines = text_lines(s);
    trim(join(Seq::new(lines.len(), |i: int| trim_end(lines[i])), seq!['\n']))
}

/// Trailing white space of `s` removed.
fn trim_end_chars(s: &[char]) -> (r: Vec<char>)
    ensures
        r@ == trim_end(s@),
{
    let mut j: usize = s.len();
    assert(s@.subrange(0, j as int) =~= s@);
    while j > 0 && crate::text::is_space(s[j - 1])
        invariant
            j <= s.len(),
            trim_end(s@) == trim_end(s@.subrange(0, j as int)),
        decreases j,
    {
        assert(s@.subrange(0, j as int).drop_last() =~= s@.subrange(0, j - 1));
        j -= 1;
    }
    slice_chars(s, 0, j)
}

/// Plain lyrics with line endings normalised to `\n`, each line's trailing white space
/// removed, and the whole trimmed.
pub fn normalize_plain_lyrics(value: &str) -> (r: String)
    ensures
        r@ == plain_lyrics_of(value@),
{
    let v = chars_of(value);
    let pieces = split_char_chars(v.as_slice(), '\n');
    let ghost ps = split_char(value@, '\n');
    proof {
        crate::provider_util::lemma_split_char_nonempty(value@, '\n');
    }
    let n = if pieces[pieces.len() - 1].len() == 0 { pieces.len() - 1 } else { pieces.len() };
    let ghost kept = if ps.last().len() == 0 { ps.drop_last() } else { ps };
    assert(kept.len() == n);
    let ghost lines = text_lines(value@);
    let mut out: Vec<Vec<char>> = Vec::new();
    let mut i: usize = 0;
    while i < n
        invariant
            i <= n <= pieces.len(),
            views(pieces@) == ps,
            kept.len() == n,
            ps == split_char(value@, '\n'),
            kept == (if ps.last().len() == 0 { ps.drop_last() } else { ps }),
            forall|j: int| 0 <= j < n ==> kept[j] == ps[j],
            lines == text_lines(value@),
            lines.len() == n,
            views(out@) == Seq::new(i as nat, |j: int| trim_end(lines[j])),
        decreases n - i,
    {
        let p = &pieces[i];
        assert(p@ == kept[i as int]);
        let line = if p.len() > 0 && p[p.len() - 1] == '\r' {
            slice_chars(p.as_slice(), 0, p.len() - 1)
        } else {
            slice_chars(p.as_slice(), 0, p.len())
        };
        assert(lines[i as int] == (if kept[i as int].len() > 0 && kept[i as int].last() == '\r' {
            kept[i as int].drop_last()
        } else {
            kept[i as int]
        }));
        assert(line@ =~= lines[i as int]);
        let t = trim_end_chars(line.as_slice());
        let ghost before = views(out@);
        out.push(t);
        assert(views(out@) =~= before.push(t@));
        assert(views(out@) =~= Seq::new((i + 1) as nat, |j: int| trim_end(lines[j])));
        i += 1;
    }
    let sep = vec!['\n'];
    assert(sep@ =~= seq!['\n']);
    let joined = join_chars(&out, sep.as_slice());
    let (a, b) = trim_bounds(joined.as_slice());
    let t = slice_chars(joined.as_slice(), a, b);
    string_of(t.as_slice())
}

/// A lyrics body as Bugs returns it: trimmed, and absent when empty.
pub open spec fn lyrics_body_of(lyrics: Option<Seq<char>>) -> Option<Seq<char>> {
    match lyrics {
        Some(v) => if trim(v).len() > 0 {
            Some(trim(v))
        } else {
            None
        },
        None => None,
    }
}

/// The lyrics field of a Bugs lyrics answer, trimmed, and absent when empty.
pub fn lyrics_body(lyrics: Option<String>) -> (r: Option<String>)
    ensures
        match r {
            Some(s) => lyrics_body_of(
                match lyrics {
                    Some(l) => Some(l@),
                    None => None,
                },
            ) == Some(s@),
            None => lyrics_body_of(
                match lyrics {
                    Some(l) => Some(l@),
                    None => None,
                },
            ) is None,
        },
{
    match lyrics {
        Some(v) => {
            let t = trim_chars(chars_of(v.as_str()).as_slice());
            if t.len() > 0 {
                Some(string_of(t.as_slice()))
            } else {
                None
            }
        },
        None => None,
    }
}

/// Lyrics of a track from its synced and plain bodies: the synced body parsed into LRC,
/// the plain one normalised and kept when not empty; `NotAvailable` when neither gives
/// anything.
pub fn lyrics_result(track: &BugsTrack, synced_body: Option<&str>, plain_body: Option<&str>) -> (r:
    Result<BugsLyricsResult, BugsError>)
    ensures
        match r {
            Ok(res) => {
                &&& res.track_id == track.track_id
                &&& res.track_name@ == track.track_name@
                &&& res.artist_name@ == track.artist_name@
                &&& res.duration_ms == track.duration_ms
                &&& match res.lrc {
                    Some(l) => synced_body matches Some(b) && synced_lyrics_of(b@) == Some(l@),
                    None => synced_body matches Some(b) ==> synced_lyrics_of(b@) is None,
                }
                &&& match res.text {
                    Some(t) => plain_body matches Some(b) && plain_lyrics_of(b@) == t@ && t@.len() > 0,
                    None => plain_body matches Some(b) ==> plain_lyrics_of(b@).len() == 0,
                }
                &&& (res.lrc is Some || res.text is Some)
            },
            Err(e) => {
                &&& e is NotAvailable
                &&& synced_body matches Some(b) ==> synced_lyrics_of(b@) is None
                &&& plain_body matches Some(b) ==> plain_lyrics_of(b@).len() == 0
            },
        },
{
    let lrc = match synced_body {
        Some(b) => parse_synced_lyrics(b),
        None => None,
    };
    let text = match plain_body {
        Some(b) => {
            let t = normalize_plain_lyrics(b);
            if t.as_str().is_empty() {
                None
            } else {
                Some(t)
            }
        },
        None => None,
    };
    if lrc.is_none() && text.is_none() {
        return Err(BugsError::NotAvailable);
    }
    Ok(BugsLyricsResult {
        track_id: track.track_id,
        track_name: track.track_name.clone(),
        artist_name: track.artist_name.clone(),
        duration_ms: track.duration_ms,
        lrc,
        text,
    })
}

/// The search query for the optional title and artist; none when it comes out empty.
pub fn search_query(title: Option<&str>, artist: Option<&str>) -> (r: Option<String>)
    ensures
        ({
            let q = crate::bugs::search_query_of(
                match title {
                    Some(v) => v@,
                    None => Seq::<char>::empty(),
                },
                match artist {
                    Some(v) => v@,
                    None => Seq::<char>::empty(),
                },
            );
            if q.len() == 0 {
                r is None
            } else {
                r matches Some(s) && s@ == q
            }
        }),
{
    let t = match title {
        Some(v) => v,
        None => "",
    };
    let a = match artist {
        Some(v) => v,
        None => "",
    };
    proof {
        reveal_strlit("");
        assert(""@ =~= Seq::<char>::empty());
    }
    let q = build_search_query(t, a);
    if q.as_str().is_empty() {
        None
    } else {
        Some(q)
    }
}

} // verus!
