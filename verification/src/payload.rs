//! What a lyrics request is answered: the payload built from a provider's result, the
//! choice among providers in automatic mode, and the status and detail of each failure.
use vstd::prelude::*;

use crate::bugs::{BugsError, BugsLyricsResult};
use crate::deezer::{DeezerError, DeezerLyricsResult};
use crate::genie::{GenieError, GenieLyricsResult};
use crate::matching::{strip_lyrics_footer, without_footer};
use crate::musixmatch::{error_message, Error, Lyrics, Subtitle, Track};
use crate::server::opt_view;
use crate::text::{chars_of, decimal, push_decimal, string_of, trim, trim_chars};

verus! {

/// What a debugging answer adds: where the lyrics came from and how the track was found.
#[derive(Debug)]
pub struct DebugPayload {
    pub source: String,
    pub matched_by: String,
    pub duration_ms: Option<u64>,
    pub selected_track_id: Option<u64>,
    pub selected_track_duration_ms: Option<u64>,
    pub search_variants: Vec<String>,
}

/// The lyrics answer.
#[derive(Debug)]
pub struct LyricsPayload {
    pub provider: String,
    pub track_id: Option<u64>,
    pub track_name: Option<String>,
    pub artist_name: Option<String>,
    pub lrc: Option<String>,
    pub text: Option<String>,
    pub cached: bool,
    pub matched_by: Option<String>,
    pub debug: Option<DebugPayload>,
}

/// The mathematical content of a `DebugPayload`.
pub struct DebugView {
    pub source: Seq<char>,
    pub matched_by: Seq<char>,
    pub duration_ms: Option<u64>,
    pub selected_track_id: Option<u64>,
    pub selected_track_duration_ms: Option<u64>,
    pub search_variants: Seq<Seq<char>>,
}

/// The mathematical content of a `LyricsPayload`.
pub struct PayloadView {
    pub provider: Seq<char>,
    pub track_id: Option<u64>,
    pub track_name: Option<Seq<char>>,
    pub artist_name: Option<Seq<char>>,
    pub lrc: Option<Seq<char>>,
    pub text: Option<Seq<char>>,
    pub cached: bool,
    pub matched_by: Option<Seq<char>>,
    pub debug: Option<DebugView>,
}

impl View for DebugPayload {
    type V = DebugView;

    open spec fn view(&self) -> DebugView {
        DebugView {
            source: self.source@,
            matched_by: self.matched_by@,
            duration_ms: self.duration_ms,
            selected_track_id: self.selected_track_id,
            selected_track_duration_ms: self.selected_track_duration_ms,
            search_variants: self.search_variants@.map_values(|s: String| s@),
        }
    }
}

/// The view of an optional debugging part.
pub open spec fn debug_view(d: Option<DebugPayload>) -> Option<DebugView> {
    match d {
        Some(x) => Some(x@),
        None => None,
    }
}

impl View for LyricsPayload {
    type V = PayloadView;

    open spec fn view(&self) -> PayloadView {
        PayloadView {
            provider: self.provider@,
            track_id: self.track_id,
            track_name: opt_view(self.track_name),
            artist_name: opt_view(self.artist_name),
            lrc: opt_view(self.lrc),
            text: opt_view(self.text),
            cached: self.cached,
            matched_by: opt_view(self.matched_by),
            debug: debug_view(self.debug),
        }
    }
}

/// A copy of an optional string.
fn copy_opt(o: &Option<String>) -> (r: Option<String>)
    ensures
        opt_view(r) == opt_view(*o),
{
    match o {
        Some(s) => Some(s.clone()),
        None => None,
    }
}

/// A copy of a debugging part.
pub fn copy_debug(d: &DebugPayload) -> (r: DebugPayload)
    ensures
        r@ == d@,
{
    let variants = d.search_variants.clone();
    assert(variants@ =~= d.search_variants@);
    DebugPayload {
        source: d.source.clone(),
        matched_by: d.matched_by.clone(),
        duration_ms: d.duration_ms,
        selected_track_id: d.selected_track_id,
        selected_track_duration_ms: d.selected_track_duration_ms,
        search_variants: variants,
    }
}

/// A copy of a payload.
pub fn copy_payload(p: &LyricsPayload) -> (r: LyricsPayload)
    ensures
        r@ == p@,
{
    let debug = match &p.debug {
        Some(d) => Some(copy_debug(d)),
        None => None,
    };
    LyricsPayload {
        provider: p.provider.clone(),
        track_id: p.track_id,
        track_name: copy_opt(&p.track_name),
        artist_name: copy_opt(&p.artist_name),
        lrc: copy_opt(&p.lrc),
        text: copy_opt(&p.text),
        cached: p.cached,
        matched_by: copy_opt(&p.matched_by),
        debug,
    }
}

/// The debugging part of an answer.
pub fn debug_payload(
    source: &str,
    matched_by: &str,
    duration_ms: Option<u64>,
    selected_track_id: Option<u64>,
    selected_track_duration_ms: Option<u64>,
    search_variants: Vec<String>,
) -> (r: DebugPayload)
    ensures
        r@ == (DebugView {
            source: source@,
            matched_by: matched_by@,
            duration_ms,
            selected_track_id,
            selected_track_duration_ms,
            search_variants: search_variants@.map_values(|s: String| s@),
        }),
{
    DebugPayload {
        source: String::from_str(source),
        matched_by: String::from_str(matched_by),
        duration_ms,
        selected_track_id,
        selected_track_duration_ms,
        search_variants,
    }
}

/// The debugging part with the chosen Musixmatch track filled in: its id, and its length
/// in milliseconds.
pub fn with_selected_track(debug: Option<DebugPayload>, track: &Track) -> (r: Option<DebugPayload>)
    ensures
        match debug {
            None => r is None,
            Some(d) => r matches Some(x) && x@ == (DebugView {
                selected_track_id: Some(track.track_id),
                selected_track_duration_ms: Some((track.track_length * 1000) as u64),
                ..d@
            }),
        },
{
    match debug {
        None => None,
        Some(d) => Some(DebugPayload {
            selected_track_id: Some(track.track_id),
            selected_track_duration_ms: Some(track.track_length as u64 * 1000),
            ..d
        }),
    }
}

/// The provider name of Musixmatch answers.
pub open spec fn musixmatch_name() -> Seq<char> {
    "musicxmatch"@
}

/// An answer from a track and its lyrics.
pub open spec fn answer_from(
    provider: Seq<char>,
    track_id: u64,
    track_name: Seq<char>,
    artist_name: Seq<char>,
    lrc: Option<Seq<char>>,
    text: Option<Seq<char>>,
    matched_by: Seq<char>,
    debug: Option<DebugView>,
) -> PayloadView {
    PayloadView {
        provider,
        track_id: Some(track_id),
        track_name: Some(track_name),
        artist_name: Some(artist_name),
        lrc,
        text,
        cached: false,
        matched_by: Some(matched_by),
        debug,
    }
}

/// The timed lyrics of a subtitle answer, when it came back with something besides white
/// space.
pub fn subtitle_lrc(subtitle: &Result<Subtitle, Error>) -> (r: Option<String>)
    ensures
        match subtitle {
            Ok(s) => if trim(s.subtitle_body@).len() > 0 {
                r matches Some(l) && l@ == s.subtitle_body@
            } else {
                r is None
            },
            Err(_) => r is None,
        },
{
    match subtitle {
        Ok(s) => {
            let t = trim_chars(chars_of(s.subtitle_body.as_str()).as_slice());
            if t.len() > 0 {
                Some(s.subtitle_body.clone())
            } else {
                None
            }
        },
        Err(_) => None,
    }
}

/// The plain lyrics of a lyrics answer without the Musixmatch footer; none left is an
/// error.
pub fn lyrics_text(lyrics: &Lyrics) -> (r: Result<String, Error>)
    ensures
        if without_footer(lyrics.lyrics_body@).len() == 0 {
            r matches Err(e) && e is NotAvailable
        } else {
            r matches Ok(t) && t@ == without_footer(lyrics.lyrics_body@)
        },
{
    let text = strip_lyrics_footer(lyrics.lyrics_body.as_str());
    if text.as_str().is_empty() {
        Err(Error::NotAvailable)
    } else {
        Ok(text)
    }
}

/// The Musixmatch answer for a track: timed lyrics when there are any, else the plain
/// text.
pub fn musixmatch_payload(
    track: Track,
    lrc: Option<String>,
    text: Option<String>,
    matched_by: &str,
    debug: Option<DebugPayload>,
) -> (r: LyricsPayload)
    ensures
        r@ == answer_from(
            musixmatch_name(),
            track.track_id,
            track.track_name@,
            track.artist_name@,
            opt_view(lrc),
            opt_view(text),
            matched_by@,
            debug_view(debug),
        ),
{
    LyricsPayload {
        provider: String::from_str("musicxmatch"),
        track_id: Some(track.track_id),
        track_name: Some(track.track_name),
        artist_name: Some(track.artist_name),
        lrc,
        text,
        cached: false,
        matched_by: Some(String::from_str(matched_by)),
        debug,
    }
}

/// The Deezer answer for a lyrics result.
pub fn deezer_payload(res: DeezerLyricsResult, matched_by: &str, debug: Option<DebugPayload>) -> (r:
    LyricsPayload)
    ensures
        r@ == answer_from(
            "deezer"@,
            res.track_id,
            res.track_name@,
            res.artist_name@,
            opt_view(res.lrc),
            opt_view(res.text),
            matched_by@,
            debug_view(debug),
        ),
{
    LyricsPayload {
        provider: String::from_str("deezer"),
        track_id: Some(res.track_id),
        track_name: Some(res.track_name),
        artist_name: Some(res.artist_name),
        lrc: res.lrc,
        text: res.text,
        cached: false,
        matched_by: Some(String::from_str(matched_by)),
        debug,
    }
}

/// The Bugs answer for a lyrics result.
pub fn bugs_payload(res: BugsLyricsResult, matched_by: &str, debug: Option<DebugPayload>) -> (r:
    LyricsPayload)
    ensures
        r@ == answer_from(
            "bugs"@,
            res.track_id,
            res.track_name@,
            res.artist_name@,
            opt_view(res.lrc),
            opt_view(res.text),
            matched_by@,
            debug_view(debug),
        ),
{
    LyricsPayload {
        provider: String::from_str("bugs"),
        track_id: Some(res.track_id),
        track_name: Some(res.track_name),
        artist_name: Some(res.artist_name),
        lrc: res.lrc,
        text: res.text,
        cached: false,
        matched_by: Some(String::from_str(matched_by)),
        debug,
    }
}

/// The Genie answer for a lyrics result.
pub fn genie_payload(res: GenieLyricsResult, matched_by: &str, debug: Option<DebugPayload>) -> (r:
    LyricsPayload)
    ensures
        r@ == answer_from(
            "genie"@,
            res.track_id,
            res.track_name@,
            res.artist_name@,
            opt_view(res.lrc),
            opt_view(res.text),
            matched_by@,
            debug_view(debug),
        ),
{
    LyricsPayload {
        provider: String::from_str("genie"),
        track_id: Some(res.track_id),
        track_name: Some(res.track_name),
        artist_name: Some(res.artist_name),
        lrc: res.lrc,
        text: res.text,
        cached: false,
        matched_by: Some(String::from_str(matched_by)),
        debug,
    }
}

/// A failure that is worth remembering for a while: the track or its lyrics are missing.
pub open spec fn mxm_miss(e: Error) -> bool {
    e is NotFound || e is NotAvailable
}

/// See `mxm_miss`, for Deezer.
pub open spec fn deezer_miss(e: DeezerError) -> bool {
    e is NotFound || e is NotAvailable
}

/// See `mxm_miss`, for Bugs.
pub open spec fn bugs_miss(e: BugsError) -> bool {
    e is NotFound || e is NotAvailable
}

/// See `mxm_miss`, for Genie.
pub open spec fn genie_miss(e: GenieError) -> bool {
    e is NotFound || e is NotAvailable
}

/// Whether a Musixmatch failure is a miss.
pub fn is_negative_cacheable_mxm_error(error: &Error) -> (r: bool)
    ensures
        r == mxm_miss(*error),
{
    match error {
        Error::NotFound | Error::NotAvailable => true,
        _ => false,
    }
}

/// Whether a Deezer failure is a miss.
pub fn is_negative_cacheable_deezer_error(error: &DeezerError) -> (r: bool)
    ensures
        r == deezer_miss(*error),
{
    match error {
        DeezerError::NotFound | DeezerError::NotAvailable => true,
        _ => false,
    }
}

/// Whether a Bugs failure is a miss.
pub fn is_negative_cacheable_bugs_error(error: &BugsError) -> (r: bool)
    ensures
        r == bugs_miss(*error),
{
    match error {
        BugsError::NotFound | BugsError::NotAvailable => true,
        _ => false,
    }
}

/// Whether a Genie failure is a miss.
pub fn is_negative_cacheable_genie_error(error: &GenieError) -> (r: bool)
    ensures
        r == genie_miss(*error),
{
    match error {
        GenieError::NotFound | GenieError::NotAvailable => true,
        _ => false,
    }
}

/// Why a lyrics request failed.
#[derive(Debug)]
pub enum LyricsError {
    Musixmatch(Error),
    Deezer(DeezerError),
    Bugs(BugsError),
    Genie(GenieError),
    Auto { selected: Box<LyricsError>, negative_cacheable: bool },
}

/// Whether a failure is remembered: a provider's miss, or what automatic mode decided.
pub open spec fn cacheable_failure(e: LyricsError) -> bool {
    match e {
        LyricsError::Musixmatch(x) => mxm_miss(x),
        LyricsError::Deezer(x) => deezer_miss(x),
        LyricsError::Bugs(x) => bugs_miss(x),
        LyricsError::Genie(x) => genie_miss(x),
        LyricsError::Auto { negative_cacheable, .. } => negative_cacheable,
    }
}

/// Whether a failure is remembered.
pub fn is_negative_cacheable_error(error: &LyricsError) -> (r: bool)
    ensures
        r == cacheable_failure(*error),
{
    match error {
        LyricsError::Bugs(e) => is_negative_cacheable_bugs_error(e),
        LyricsError::Genie(e) => is_negative_cacheable_genie_error(e),
        LyricsError::Deezer(e) => is_negative_cacheable_deezer_error(e),
        LyricsError::Musixmatch(e) => is_negative_cacheable_mxm_error(e),
        LyricsError::Auto { negative_cacheable, .. } => *negative_cacheable,
    }
}

/// In automatic mode a failure is remembered only when Musixmatch missed, Deezer missed or
/// was not tried, and Bugs and Genie both were tried and missed.
pub open spec fn auto_cacheable(
    mxm: Error,
    deezer: Option<DeezerError>,
    bugs: Option<BugsError>,
    genie: Option<GenieError>,
) -> bool {
    &&& mxm_miss(mxm)
    &&& match deezer {
        Some(e) => deezer_miss(e),
        None => true,
    }
    &&& match bugs {
        Some(e) => bugs_miss(e),
        None => false,
    }
    &&& match genie {
        Some(e) => genie_miss(e),
        None => false,
    }
}

/// Whether an automatic-mode failure is remembered.
pub fn is_auto_negative_cacheable(
    mxm_error: &Error,
    deezer_error: Option<&DeezerError>,
    bugs_error: Option<&BugsError>,
    genie_error: Option<&GenieError>,
) -> (r: bool)
    ensures
        r == auto_cacheable(
            *mxm_error,
            match deezer_error {
                Some(e) => Some(*e),
                None => None,
            },
            match bugs_error {
                Some(e) => Some(*e),
                None => None,
            },
            match genie_error {
                Some(e) => Some(*e),
                None => None,
            },
        ),
{
    let d = match deezer_error {
        Some(e) => is_negative_cacheable_deezer_error(e),
        None => true,
    };
    let b = match bugs_error {
        Some(e) => is_negative_cacheable_bugs_error(e),
        None => false,
    };
    let g = match genie_error {
        Some(e) => is_negative_cacheable_genie_error(e),
        None => false,
    };
    is_negative_cacheable_mxm_error(mxm_error) && d && b && g
}

/// The failure reported in automatic mode: Deezer's when it was tried and failed; else,
/// when Bugs failed, Bugs' if Musixmatch only missed and Musixmatch's otherwise; else,
/// when Genie failed and Musixmatch only missed, Genie's; else Musixmatch's.
pub open spec fn auto_selected(
    mxm: Error,
    deezer: Option<DeezerError>,
    bugs: Option<BugsError>,
    genie: Option<GenieError>,
) -> LyricsError {
    match deezer {
        Some(d) => LyricsError::Deezer(d),
        None => match bugs {
            Some(b) => if mxm_miss(mxm) {
                LyricsError::Bugs(b)
            } else {
                LyricsError::Musixmatch(mxm)
            },
            None => match genie {
                Some(g) => if mxm_miss(mxm) {
                    LyricsError::Genie(g)
                } else {
                    LyricsError::Musixmatch(mxm)
                },
                None => LyricsError::Musixmatch(mxm),
            },
        },
    }
}

/// Selects the failure reported in automatic mode (see `auto_selected`).
pub fn select_auto_error(
    mxm_error: Error,
    deezer_error: Option<DeezerError>,
    bugs_error: Option<BugsError>,
    genie_error: Option<GenieError>,
) -> (r: LyricsError)
    ensures
        r == auto_selected(mxm_error, deezer_error, bugs_error, genie_error),
{
    if let Some(d) = deezer_error {
        return LyricsError::Deezer(d);
    }
    if let Some(b) = bugs_error {
        if is_negative_cacheable_mxm_error(&mxm_error) {
            return LyricsError::Bugs(b);
        }
        return LyricsError::Musixmatch(mxm_error);
    }
    if let Some(g) = genie_error {
        if is_negative_cacheable_mxm_error(&mxm_error) {
            return LyricsError::Genie(g);
        }
    }
    LyricsError::Musixmatch(mxm_error)
}

/// The status and detail answered for a failure.
pub open spec fn error_answer(e: LyricsError) -> (u16, Seq<char>)
    decreases e,
{
    match e {
        LyricsError::Auto { selected, .. } => error_answer(*selected),
        LyricsError::Bugs(x) => match x {
            BugsError::NotFound => (404, "No tracks found"@),
            BugsError::NotAvailable => (404, "No lyrics are available for this track"@),
            BugsError::Ratelimit => (429, "Bugs"@ + " rate limit reached. Wait a minute and try again."@),
            BugsError::Provider(d) => (502, "Bugs error: "@ + d@),
        },
        LyricsError::Genie(x) => match x {
            GenieError::NotFound => (404, "No tracks found"@),
            GenieError::NotAvailable => (404, "No lyrics are available for this track"@),
            GenieError::Ratelimit => (429, "Genie"@ + " rate limit reached. Wait a minute and try again."@),
            GenieError::Provider(d) => (502, "Genie error: "@ + d@),
        },
        LyricsError::Deezer(x) => match x {
            DeezerError::ConfigMissing => (503, "Deezer ARL cookie is not configured."@),
            DeezerError::NotFound => (404, "No tracks found"@),
            DeezerError::NotAvailable => (404, "No lyrics are available for this track"@),
            DeezerError::Auth(d) => (503, "Deezer authentication failed: "@ + d@),
            DeezerError::Provider(d) => (502, "Deezer error: "@ + d@),
        },
        LyricsError::Musixmatch(x) => match x {
            Error::NotFound => (404, "No tracks found"@),
            Error::NotAvailable => (404, "No lyrics are available for this track"@),
            Error::Ratelimit => (429, "Musixmatch"@ + " rate limit reached. Wait a minute and try again."@),
            Error::TokenExpired => (503, "Musixmatch session expired. Retry in a moment."@),
            Error::Provider { status_code, msg } => (502, "Musixmatch error "@ + decimal(
                status_code as nat,
            ) + ": "@ + msg@),
            other => (502, error_message(other)),
        },
    }
}

/// The answer for a missing track.
pub fn no_tracks_found() -> (r: (u16, String))
    ensures
        r.0 == 404 && r.1@ == "No tracks found"@,
{
    (404, String::from_str("No tracks found"))
}

/// The answer for missing lyrics.
pub fn no_lyrics_available() -> (r: (u16, String))
    ensures
        r.0 == 404 && r.1@ == "No lyrics are available for this track"@,
{
    (404, String::from_str("No lyrics are available for this track"))
}

/// The answer when a provider limits the request rate.
pub fn rate_limit(provider: &str) -> (r: (u16, String))
    ensures
        r.0 == 429 && r.1@ == provider@ + " rate limit reached. Wait a minute and try again."@,
{
    let mut m = String::from_str(provider);
    m.append(" rate limit reached. Wait a minute and try again.");
    (429, m)
}

/// `prefix` followed by `detail`.
fn prefixed(prefix: &str, detail: &str) -> (r: String)
    ensures
        r@ == prefix@ + detail@,
{
    let mut m = String::from_str(prefix);
    m.append(detail);
    m
}

/// The status and detail answered for a failure.
pub fn map_error(error: LyricsError) -> (r: (u16, String))
    ensures
        (r.0, r.1@) == error_answer(error),
    decreases error,
{
    match error {
        LyricsError::Auto { selected, .. } => map_error(*selected),
        LyricsError::Bugs(x) => match x {
            BugsError::NotFound => no_tracks_found(),
            BugsError::NotAvailable => no_lyrics_available(),
            BugsError::Ratelimit => rate_limit("Bugs"),
            BugsError::Provider(d) => (502, prefixed("Bugs error: ", d.as_str())),
        },
        LyricsError::Genie(x) => match x {
            GenieError::NotFound => no_tracks_found(),
            GenieError::NotAvailable => no_lyrics_available(),
            GenieError::Ratelimit => rate_limit("Genie"),
            GenieError::Provider(d) => (502, prefixed("Genie error: ", d.as_str())),
        },
        LyricsError::Deezer(x) => match x {
            DeezerError::ConfigMissing => (503, String::from_str("Deezer ARL cookie is not configured.")),
            DeezerError::NotFound => no_tracks_found(),
            DeezerError::NotAvailable => no_lyrics_available(),
            DeezerError::Auth(d) => (503, prefixed("Deezer authentication failed: ", d.as_str())),
            DeezerError::Provider(d) => (502, prefixed("Deezer error: ", d.as_str())),
        },
        LyricsError::Musixmatch(x) => match x {
            Error::NotFound => no_tracks_found(),
            Error::NotAvailable => no_lyrics_available(),
            Error::Ratelimit => rate_limit("Musixmatch"),
            Error::TokenExpired => (503, String::from_str("Musixmatch session expired. Retry in a moment.")),
            Error::Provider { status_code, msg } => {
                let mut digits: Vec<char> = Vec::new();
                push_decimal(&mut digits, status_code as u64);
                assert(digits@ =~= decimal(status_code as nat));
                let mut m = String::from_str("Musixmatch error ");
                m.append(string_of(digits.as_slice()).as_str());
                m.append(": ");
                m.append(msg.as_str());
                (502, m)
            },
            other => (502, other.message()),
        },
    }
}

/// The first candidate with timed lyrics at or after `from`.
pub open spec fn first_synced(c: Seq<LyricsPayload>, from: int) -> Option<int>
    decreases c.len() - from,
{
    if from < 0 || from >= c.len() {
        None
    } else if c[from].lrc is Some {
        Some(from)
    } else {
        first_synced(c, from + 1)
    }
}

/// The candidate automatic mode answers with: the first with timed lyrics, else the first.
pub open spec fn auto_pick(c: Seq<LyricsPayload>) -> Option<int> {
    match first_synced(c, 0) {
        Some(i) => Some(i),
        None => if c.len() > 0 {
            Some(0)
        } else {
            None
        },
    }
}

/// Chooses among the candidates: the first with timed lyrics, else the first.
pub fn choose_auto_payload(candidates: Vec<LyricsPayload>) -> (r: Option<LyricsPayload>)
    ensures
        match auto_pick(candidates@) {
            Some(i) => r == Some(candidates@[i]),
            None => r is None,
        },
{
    let mut v = candidates;
    let ghost c = v@;
    let mut i: usize = 0;
    while i < v.len()
        invariant
            i <= v.len(),
            v@ == c,
            c == candidates@,
            first_synced(c, 0) == first_synced(c, i as int),
        decreases v.len() - i,
    {
        if v[i].lrc.is_some() {
            assert(first_synced(c, i as int) == Some(i as int));
            let p = v.remove(i);
            return Some(p);
        }
        i += 1;
    }
    assert(first_synced(c, i as int) is None);
    if v.len() > 0 {
        Some(v.remove(0))
    } else {
        None
    }
}

/// Adds the fallback providers' answers to the candidates in the order Deezer, Bugs, Genie,
/// and gives back their failures.
pub fn append_auto_fallback_results(
    deezer: Option<Result<LyricsPayload, DeezerError>>,
    bugs: Result<LyricsPayload, BugsError>,
    genie: Result<LyricsPayload, GenieError>,
    candidates: &mut Vec<LyricsPayload>,
) -> (r: (Option<DeezerError>, Option<BugsError>, Option<GenieError>))
    ensures
        final(candidates)@ == old(candidates)@ + fallback_found(deezer, bugs, genie),
        r == fallback_failures(deezer, bugs, genie),
{
    let d = match deezer {
        Some(Ok(p)) => {
            candidates.push(p);
            None
        },
        Some(Err(e)) => Some(e),
        None => None,
    };
    let b = match bugs {
        Ok(p) => {
            candidates.push(p);
            None
        },
        Err(e) => Some(e),
    };
    let g = match genie {
        Ok(p) => {
            candidates.push(p);
            None
        },
        Err(e) => Some(e),
    };
    assert(candidates@ =~= old(candidates)@ + fallback_found(deezer, bugs, genie));
    (d, b, g)
}

/// The answers among the fallback results, in the order Deezer, Bugs, Genie.
pub open spec fn fallback_found(
    deezer: Option<Result<LyricsPayload, DeezerError>>,
    bugs: Result<LyricsPayload, BugsError>,
    genie: Result<LyricsPayload, GenieError>,
) -> Seq<LyricsPayload> {
    (match deezer {
        Some(Ok(p)) => seq![p],
        _ => seq![],
    }) + (match bugs {
        Ok(p) => seq![p],
        Err(_) => seq![],
    }) + (match genie {
        Ok(p) => seq![p],
        Err(_) => seq![],
    })
}

/// The failures among the fallback results.
pub open spec fn fallback_failures(
    deezer: Option<Result<LyricsPayload, DeezerError>>,
    bugs: Result<LyricsPayload, BugsError>,
    genie: Result<LyricsPayload, GenieError>,
) -> (Option<DeezerError>, Option<BugsError>, Option<GenieError>) {
    (
        match deezer {
            Some(Err(e)) => Some(e),
            _ => None,
        },
        match bugs {
            Err(e) => Some(e),
            Ok(_) => None,
        },
        match genie {
            Err(e) => Some(e),
            Ok(_) => None,
        },
    )
}

/// Where automatic mode stands after Musixmatch answered without timed lyrics.
pub enum AutoPending {
    /// Musixmatch had plain lyrics, kept while the others are asked.
    TextOnly(LyricsPayload),
    /// Musixmatch failed.
    Failed(Error),
}

/// Where automatic mode stands after asking Musixmatch.
pub enum AutoStart {
    /// Musixmatch had timed lyrics: that is the answer.
    Done(LyricsPayload),
    /// The fallback providers are asked next.
    Pending(AutoPending),
}

/// The first step of automatic mode: timed lyrics from Musixmatch end it; plain lyrics or a
/// failure lead to the fallback providers.
pub fn auto_start(mxm: Result<LyricsPayload, Error>) -> (r: AutoStart)
    ensures
        match mxm {
            Ok(p) => if p.lrc is Some {
                r == AutoStart::Done(p)
            } else {
                r == AutoStart::Pending(AutoPending::TextOnly(p))
            },
            Err(e) => r == AutoStart::Pending(AutoPending::Failed(e)),
        },
{
    match mxm {
        Ok(p) => if p.lrc.is_some() {
            AutoStart::Done(p)
        } else {
            AutoStart::Pending(AutoPending::TextOnly(p))
        },
        Err(e) => AutoStart::Pending(AutoPending::Failed(e)),
    }
}

/// The candidates automatic mode chooses from once the fallbacks answered.
pub open spec fn auto_candidates(
    pending: AutoPending,
    deezer: Option<Result<LyricsPayload, DeezerError>>,
    bugs: Result<LyricsPayload, BugsError>,
    genie: Result<LyricsPayload, GenieError>,
) -> Seq<LyricsPayload> {
    (match pending {
        AutoPending::TextOnly(p) => seq![p],
        AutoPending::Failed(_) => seq![],
    }) + fallback_found(deezer, bugs, genie)
}

/// The end of automatic mode: the chosen candidate when there is one; otherwise
/// Musixmatch failed and so did every fallback that was tried, and the failure reported
/// is the selected one, remembered when every provider missed.
pub fn auto_outcome(
    pending: AutoPending,
    deezer: Option<Result<LyricsPayload, DeezerError>>,
    bugs: Result<LyricsPayload, BugsError>,
    genie: Result<LyricsPayload, GenieError>,
) -> (r: Result<LyricsPayload, LyricsError>)
    ensures
        ({
            let c = auto_candidates(pending, deezer, bugs, genie);
            let (de, be, ge) = fallback_failures(deezer, bugs, genie);
            match auto_pick(c) {
                Some(i) => r == Ok::<LyricsPayload, LyricsError>(c[i]),
                None => pending matches AutoPending::Failed(m) && r matches Err(
                    LyricsError::Auto { selected, negative_cacheable },
                ) && negative_cacheable == auto_cacheable(m, de, be, ge) && *selected
                    == auto_selected(m, de, be, ge),
            }
        }),
{
    let ghost c = auto_candidates(pending, deezer, bugs, genie);
    let mut candidates: Vec<LyricsPayload> = Vec::new();
    let mxm_error = match pending {
        AutoPending::TextOnly(p) => {
            candidates.push(p);
            None
        },
        AutoPending::Failed(e) => Some(e),
    };
    let (de, be, ge) = append_auto_fallback_results(deezer, bugs, genie, &mut candidates);
    assert(candidates@ =~= c);
    let has_candidates = candidates.len() > 0;
    if let Some(p) = choose_auto_payload(candidates) {
        return Ok(p);
    }
    let m = match mxm_error {
        Some(m) => m,
        None => {
            assert(false);
            return Err(LyricsError::Musixmatch(Error::NotFound));
        },
    };
    let negative_cacheable = is_auto_negative_cacheable(
        &m,
        match &de {
            Some(e) => Some(e),
            None => None,
        },
        match &be {
            Some(e) => Some(e),
            None => None,
        },
        match &ge {
            Some(e) => Some(e),
            None => None,
        },
    );
    let selected = select_auto_error(m, de, be, ge);
    Err(LyricsError::Auto { selected: Box::new(selected), negative_cacheable })
}

/// What a provider's lyrics attempt for one candidate track means for the next step.
pub enum Attempt<T, E> {
    /// The lyrics were found.
    Found(T),
    /// This track has no lyrics: the next candidate is tried.
    TryNext,
    /// The provider failed: the lookup stops with this failure.
    Stop(E),
}

/// The next step after a Deezer attempt: a miss tries the next track.
pub fn deezer_attempt(r: Result<DeezerLyricsResult, DeezerError>) -> (s: Attempt<
    DeezerLyricsResult,
    DeezerError,
>)
    ensures
        match r {
            Ok(v) => s == Attempt::<DeezerLyricsResult, DeezerError>::Found(v),
            Err(e) => if deezer_miss(e) {
                s is TryNext
            } else {
                s == Attempt::<DeezerLyricsResult, DeezerError>::Stop(e)
            },
        },
{
    match r {
        Ok(v) => Attempt::Found(v),
        Err(e) => if is_negative_cacheable_deezer_error(&e) {
            Attempt::TryNext
        } else {
            Attempt::Stop(e)
        },
    }
}

/// The next step after a Bugs attempt: a miss tries the next track.
pub fn bugs_attempt(r: Result<BugsLyricsResult, BugsError>) -> (s: Attempt<BugsLyricsResult, BugsError>)
    ensures
        match r {
            Ok(v) => s == Attempt::<BugsLyricsResult, BugsError>::Found(v),
            Err(e) => if bugs_miss(e) {
                s is TryNext
            } else {
                s == Attempt::<BugsLyricsResult, BugsError>::Stop(e)
            },
        },
{
    match r {
        Ok(v) => Attempt::Found(v),
        Err(e) => if is_negative_cacheable_bugs_error(&e) {
            Attempt::TryNext
        } else {
            Attempt::Stop(e)
        },
    }
}

/// The next step after a Genie attempt: a miss tries the next track.
pub fn genie_attempt(r: Result<GenieLyricsResult, GenieError>) -> (s: Attempt<
    GenieLyricsResult,
    GenieError,
>)
    ensures
        match r {
            Ok(v) => s == Attempt::<GenieLyricsResult, GenieError>::Found(v),
            Err(e) => if genie_miss(e) {
                s is TryNext
            } else {
                s == Attempt::<GenieLyricsResult, GenieError>::Stop(e)
            },
        },
{
    match r {
        Ok(v) => Attempt::Found(v),
        Err(e) => if is_negative_cacheable_genie_error(&e) {
            Attempt::TryNext
        } else {
            Attempt::Stop(e)
        },
    }
}


/// Automatic mode prefers timed lyrics: when some candidate has them, the one chosen has
/// them and no earlier candidate does; when none has them, the first candidate is chosen.
pub proof fn lemma_auto_pick_prefers_synced(c: Seq<LyricsPayload>, j: int)
    requires
        0 <= j < c.len(),
    ensures
        c[j].lrc is Some ==> (auto_pick(c) matches Some(i) && i <= j && c[i].lrc is Some
            && forall|k: int| 0 <= k < i ==> c[k].lrc is None),
        (forall|k: int| 0 <= k < c.len() ==> c[k].lrc is None) ==> auto_pick(c) == Some(0int),
{
    lemma_first_synced(c, 0, j);
}

/// From position `from` on, the first candidate with timed lyrics comes no later than any
/// one that has them, and none before it has them.
proof fn lemma_first_synced(c: Seq<LyricsPayload>, from: int, j: int)
    requires
        0 <= from,
        0 <= j < c.len(),
    ensures
        from <= j && c[j].lrc is Some ==> (first_synced(c, from) matches Some(i) && from <= i
            <= j && c[i].lrc is Some && forall|k: int| from <= k < i ==> c[k].lrc is None),
        (forall|k: int| from <= k < c.len() ==> c[k].lrc is None) ==> first_synced(c, from)
            is None,
    decreases c.len() - from,
{
    if from < c.len() {
        lemma_first_synced(c, from + 1, j);
    }
}

/// Only misses are remembered: a provider failure that is remembered is answered with 404.
pub proof fn lemma_remembered_failures_are_not_found(e: LyricsError)
    requires
        !(e is Auto),
        cacheable_failure(e),
    ensures
        error_answer(e).0 == 404,
{
}

/// In automatic mode too, a failure that is remembered (every provider asked missed) is
/// answered with 404: rate limits and provider errors are never remembered.
pub proof fn lemma_auto_remembered_failures_are_not_found(
    mxm: Error,
    deezer: Option<DeezerError>,
    bugs: Option<BugsError>,
    genie: Option<GenieError>,
)
    requires
        auto_cacheable(mxm, deezer, bugs, genie),
    ensures
        error_answer(
            LyricsError::Auto {
                selected: Box::new(auto_selected(mxm, deezer, bugs, genie)),
                negative_cacheable: true,
            },
        ).0 == 404,
{
    let sel = auto_selected(mxm, deezer, bugs, genie);
    assert(error_answer(
        LyricsError::Auto { selected: Box::new(sel), negative_cacheable: true },
    ) == error_answer(sel));
}

} // verus!
