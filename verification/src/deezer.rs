//! Deezer provider: track model, search query, and turning a lyrics answer into LRC or
//! plain text.
use vstd::prelude::*;

use crate::provider_util::{centis_of, lrc_stamp, TimestampRounding};
use crate::text::{
    chars_of, decimal2, extend_chars, join, join_chars, push_decimal2, replace_all,
    replace_chars, string_of, trim, trim_chars, views,
};

verus! {

/// A Deezer search hit.
#[derive(Clone, Debug)]
pub struct DeezerTrack {
    pub track_id: u64,
    pub track_name: String,
    pub artist_name: String,
    pub duration_ms: Option<u64>,
}

/// Lyrics found for a Deezer track.
#[derive(Clone, Debug)]
pub struct DeezerLyricsResult {
    pub track_id: u64,
    pub track_name: String,
    pub artist_name: String,
    pub duration_ms: Option<u64>,
    pub lrc: Option<String>,
    pub text: Option<String>,
}

/// Why a Deezer lookup gave no lyrics.
#[derive(Debug)]
pub enum DeezerError {
    ConfigMissing,
    NotFound,
    NotAvailable,
    Auth(String),
    Provider(String),
}

impl DeezerError {
    /// The message shown for this error.
    pub fn message(&self) -> (r: String)
        ensures
            r@ == match self {
                DeezerError::ConfigMissing => "Deezer ARL cookie is not configured."@,
                DeezerError::NotFound => "No matching Deezer tracks found."@,
                DeezerError::NotAvailable => "No Deezer lyrics are available for this track."@,
                DeezerError::Auth(detail) => "Deezer authentication failed: "@ + detail@,
                DeezerError::Provider(detail) => "Deezer request failed: "@ + detail@,
            },
    {
        match self {
            DeezerError::ConfigMissing => String::from_str("Deezer ARL cookie is not configured."),
            DeezerError::NotFound => String::from_str("No matching Deezer tracks found."),
            DeezerError::NotAvailable => String::from_str("No Deezer lyrics are available for this track."),
            DeezerError::Auth(detail) => {
                let mut m = String::from_str("Deezer authentication failed: ");
                m.append(detail.as_str());
                m
            },
            DeezerError::Provider(detail) => {
                let mut m = String::from_str("Deezer request failed: ");
                m.append(detail.as_str());
                m
            },
        }
    }
}

/// One synchronised line of a Deezer lyrics answer.
#[derive(Clone, Debug)]
pub struct SyncLine {
    pub line: String,
    pub milliseconds: u64,
}

/// One word of a word-by-word line.
#[derive(Clone, Debug)]
pub struct Word {
    pub word: String,
}

/// One word-by-word line of a Deezer lyrics answer.
#[derive(Clone, Debug)]
pub struct WordLine {
    pub start: u64,
    pub words: Vec<Word>,
}

/// The lyrics part of a Deezer answer.
#[derive(Clone, Debug)]
pub struct DeezerLyricsPayload {
    pub text: Option<String>,
    pub synchronized_lines: Option<Vec<SyncLine>>,
    pub synchronized_word_by_word_lines: Option<Vec<WordLine>>,
}

/// `value` with each double quote escaped by a backslash.
pub open spec fn escaped(value: Seq<char>) -> Seq<char> {
    replace_all(value, seq!['"'], seq!['\\', '"'])
}

/// Escapes the double quotes of a search term.
pub fn escape_query(value: &str) -> (r: String)
    ensures
        r@ == escaped(value@),
{
    let quote = vec!['"'];
    let escaped_quote = vec!['\\', '"'];
    assert(quote@ =~= seq!['"']);
    assert(escaped_quote@ =~= seq!['\\', '"']);
    let r = replace_chars(chars_of(value).as_slice(), quote.as_slice(), escaped_quote.as_slice());
    string_of(r.as_slice())
}

/// The Deezer advanced-search query: `track:"…"` and `artist:"…"` for the parts that
/// are not empty, separated by a space; empty when both are.
pub open spec fn search_query_of(title: Seq<char>, artist: Seq<char>) -> Seq<char> {
    let t = seq!['t', 'r', 'a', 'c', 'k', ':', '"'] + escaped(title) + seq!['"'];
    let a = seq!['a', 'r', 't', 'i', 's', 't', ':', '"'] + escaped(artist) + seq!['"'];
    if title.len() > 0 && artist.len() > 0 {
        t + seq![' '] + a
    } else if title.len() > 0 {
        t
    } else if artist.len() > 0 {
        a
    } else {
        seq![]
    }
}

/// The Deezer search query for a title and an artist, either of which may be empty.
pub fn build_search_query(title: &str, artist: &str) -> (r: String)
    ensures
        r@ == search_query_of(title@, artist@),
{
    let has_title = chars_of(title).len() > 0;
    let has_artist = chars_of(artist).len() > 0;
    let escaped_title = escape_query(title);
    let escaped_artist = escape_query(artist);
    let mut track_part = vec!['t', 'r', 'a', 'c', 'k', ':', '"'];
    extend_chars(&mut track_part, chars_of(escaped_title.as_str()).as_slice());
    track_part.push('"');
    let mut artist_part = vec!['a', 'r', 't', 'i', 's', 't', ':', '"'];
    extend_chars(&mut artist_part, chars_of(escaped_artist.as_str()).as_slice());
    artist_part.push('"');
    assert(track_part@ =~= seq!['t', 'r', 'a', 'c', 'k', ':', '"'] + escaped(title@) + seq!['"']);
    assert(artist_part@ =~= seq!['a', 'r', 't', 'i', 's', 't', ':', '"'] + escaped(artist@) + seq!['"']);
    let r = if has_title && has_artist {
        let mut out = track_part;
        out.push(' ');
        extend_chars(&mut out, artist_part.as_slice());
        out
    } else if has_title {
        track_part
    } else if has_artist {
        artist_part
    } else {
        Vec::new()
    };
    assert(r@ =~= search_query_of(title@, artist@));
    string_of(r.as_slice())
}

/// Deezer's timestamp `[mm:ss.cc]`: whole minutes, seconds within the minute, and
/// hundredths from the milliseconds within the second.
pub open spec fn deezer_stamp(milliseconds: nat) -> Seq<char> {
    seq!['['] + decimal2(milliseconds / 1000 / 60) + seq![':'] + decimal2((milliseconds / 1000)
        % 60) + seq!['.'] + decimal2((milliseconds % 1000) / 10) + seq![']']
}

/// Appends Deezer's timestamp for a time in milliseconds.
fn push_deezer_stamp(out: &mut Vec<char>, milliseconds: u64)
    ensures
        final(out)@ == old(out)@ + deezer_stamp(milliseconds as nat),
{
    let total_seconds = milliseconds / 1000;
    out.push('[');
    push_decimal2(out, total_seconds / 60);
    out.push(':');
    push_decimal2(out, total_seconds % 60);
    out.push('.');
    push_decimal2(out, (milliseconds % 1000) / 10);
    out.push(']');
    assert(out@ =~= old(out)@ + deezer_stamp(milliseconds as nat));
}

/// The LRC timestamp of a time in milliseconds, as Deezer lines get it.
pub fn format_lrc_timestamp(milliseconds: u64) -> (r: String)
    ensures
        r@ == deezer_stamp(milliseconds as nat),
{
    let mut out: Vec<char> = Vec::new();
    push_deezer_stamp(&mut out, milliseconds);
    assert(out@ =~= deezer_stamp(milliseconds as nat));
    string_of(out.as_slice())
}

/// Deezer's timestamps are the shared LRC timestamps rounded down to the hundredth.
pub proof fn lemma_deezer_stamp_is_floor(milliseconds: nat)
    ensures
        deezer_stamp(milliseconds) == lrc_stamp(centis_of(milliseconds, TimestampRounding::Floor)),
{
    let c = milliseconds / 10;
    assert(milliseconds / 1000 / 60 == c / 6000) by (nonlinear_arith)
        requires
            c == milliseconds / 10,
    ;
    assert(milliseconds / 1000 == c / 100) by (nonlinear_arith)
        requires
            c == milliseconds / 10,
    ;
    assert((milliseconds % 1000) / 10 == c % 100) by (nonlinear_arith)
        requires
            c == milliseconds / 10,
    ;
}

/// The LRC line of a synchronised line, when its text is not blank.
pub open spec fn sync_line_text(line: SyncLine) -> Option<Seq<char>> {
    let text = trim(line.line@);
    if text.len() == 0 {
        None
    } else {
        Some(deezer_stamp(line.milliseconds as nat) + seq![' '] + text)
    }
}

/// The LRC lines of synchronised lines, in order, skipping blank ones.
pub open spec fn sync_lrc_lines(lines: Seq<SyncLine>) -> Seq<Seq<char>>
    decreases lines.len(),
{
    if lines.len() == 0 {
        seq![]
    } else {
        match sync_line_text(lines.last()) {
            Some(l) => sync_lrc_lines(lines.drop_last()).push(l),
            None => sync_lrc_lines(lines.drop_last()),
        }
    }
}

/// LRC text from synchronised lines: `[mm:ss.cc] text` for each line with text, joined
/// by newlines.
pub fn build_lrc_from_sync_lines(lines: &[SyncLine]) -> (r: String)
    ensures
        r@ == join(sync_lrc_lines(lines@), seq!['\n']),
{
    let mut out: Vec<Vec<char>> = Vec::new();
    let mut i: usize = 0;
    while i < lines.len()
        invariant
            i <= lines.len(),
            views(out@) == sync_lrc_lines(lines@.take(i as int)),
        decreases lines.len() - i,
    {
        assert(lines@.take(i + 1).drop_last() =~= lines@.take(i as int));
        assert(lines@.take(i + 1).last() == lines@[i as int]);
        let text = trim_chars(chars_of(lines[i].line.as_str()).as_slice());
        if text.len() > 0 {
            let mut l: Vec<char> = Vec::new();
            push_deezer_stamp(&mut l, lines[i].milliseconds);
            l.push(' ');
            extend_chars(&mut l, text.as_slice());
            let ghost before = views(out@);
            assert(l@ =~= deezer_stamp(lines@[i as int].milliseconds as nat) + seq![' '] + text@);
            out.push(l);
            assert(views(out@) =~= before.push(l@));
        }
        i += 1;
    }
    assert(lines@.take(lines.len() as int) =~= lines@);
    let sep = vec!['\n'];
    assert(sep@ =~= seq!['\n']);
    let r = join_chars(&out, sep.as_slice());
    string_of(r.as_slice())
}

/// The non-blank words of a line, trimmed.
pub open spec fn line_words(words: Seq<Word>) -> Seq<Seq<char>>
    decreases words.len(),
{
    if words.len() == 0 {
        seq![]
    } else if trim(words.last().word@).len() == 0 {
        line_words(words.drop_last())
    } else {
        line_words(words.drop_last()).push(trim(words.last().word@))
    }
}

/// The LRC line of a word-by-word line, when it has a word.
pub open spec fn word_line_text(line: WordLine) -> Option<Seq<char>> {
    let text = join(line_words(line.words@), seq![' ']);
    if text.len() == 0 {
        None
    } else {
        Some(deezer_stamp(line.start as nat) + seq![' '] + text)
    }
}

/// The LRC lines of word-by-word lines, in order, skipping lines without words.
pub open spec fn word_lrc_lines(lines: Seq<WordLine>) -> Seq<Seq<char>>
    decreases lines.len(),
{
    if lines.len() == 0 {
        seq![]
    } else {
        match word_line_text(lines.last()) {
            Some(l) => word_lrc_lines(lines.drop_last()).push(l),
            None => word_lrc_lines(lines.drop_last()),
        }
    }
}

/// The words of a line, trimmed, blank ones left out, joined by spaces.
fn join_words(words: &[Word]) -> (r: Vec<char>)
    ensures
        r@ == join(line_words(words@), seq![' ']),
{
    let mut kept: Vec<Vec<char>> = Vec::new();
    let mut i: usize = 0;
    while i < words.len()
        invariant
            i <= words.len(),
            views(kept@) == line_words(words@.take(i as int)),
        decreases words.len() - i,
    {
        assert(words@.take(i + 1).drop_last() =~= words@.take(i as int));
        assert(words@.take(i + 1).last() == words@[i as int]);
        let t = trim_chars(chars_of(words[i].word.as_str()).as_slice());
        if t.len() > 0 {
            let ghost before = views(kept@);
            kept.push(t);
            assert(views(kept@) =~= before.push(t@));
        }
        i += 1;
    }
    assert(words@.take(words.len() as int) =~= words@);
    let sep = vec![' '];
    assert(sep@ =~= seq![' ']);
    join_chars(&kept, sep.as_slice())
}

/// LRC text from word-by-word lines: `[mm:ss.cc] words` for each line with a word, the
/// line's start as its time, joined by newlines.
pub fn build_lrc_from_word_lines(lines: &[WordLine]) -> (r: String)
    ensures
        r@ == join(word_lrc_lines(lines@), seq!['\n']),
{
    let mut out: Vec<Vec<char>> = Vec::new();
    let mut i: usize = 0;
    while i < lines.len()
        invariant
            i <= lines.len(),
            views(out@) == word_lrc_lines(lines@.take(i as int)),
        decreases lines.len() - i,
    {
        assert(lines@.take(i + 1).drop_last() =~= lines@.take(i as int));
        assert(lines@.take(i + 1).last() == lines@[i as int]);
        let text = join_words(lines[i].words.as_slice());
        if text.len() > 0 {
            let mut l: Vec<char> = Vec::new();
            push_deezer_stamp(&mut l, lines[i].start);
            l.push(' ');
            extend_chars(&mut l, text.as_slice());
            let ghost before = views(out@);
            assert(l@ =~= deezer_stamp(lines@[i as int].start as nat) + seq![' '] + text@);
            out.push(l);
            assert(views(out@) =~= before.push(l@));
        }
        i += 1;
    }
    assert(lines@.take(lines.len() as int) =~= lines@);
    let sep = vec!['\n'];
    assert(sep@ =~= seq!['\n']);
    let r = join_chars(&out, sep.as_slice());
    string_of(r.as_slice())
}

/// Whether LRC text holds something besides white space.
fn has_content(s: &String) -> (r: bool)
    ensures
        r == (trim(s@).len() > 0),
{
    trim_chars(chars_of(s.as_str()).as_slice()).len() > 0
}

/// The lyrics that `parse_lyrics` picks: synchronised lines if they give any LRC, else
/// word-by-word lines if they give any, else the trimmed plain text.
pub open spec fn lyrics_choice(payload: DeezerLyricsPayload) -> Option<(Option<Seq<char>>, Option<Seq<char>>)> {
    let sync = match payload.synchronized_lines {
        Some(l) => join(sync_lrc_lines(l@), seq!['\n']),
        None => seq![],
    };
    let word = match payload.synchronized_word_by_word_lines {
        Some(l) => join(word_lrc_lines(l@), seq!['\n']),
        None => seq![],
    };
    let text = match payload.text {
        Some(t) => trim(t@),
        None => seq![],
    };
    if payload.synchronized_lines is Some && trim(sync).len() > 0 {
        Some((Some(sync), None))
    } else if payload.synchronized_word_by_word_lines is Some && trim(word).len() > 0 {
        Some((Some(word), None))
    } else if text.len() > 0 {
        Some((None, Some(text)))
    } else {
        None
    }
}

/// Lyrics of a track from a Deezer lyrics answer: LRC from synchronised lines, else
/// from word-by-word lines, else the plain text; `NotAvailable` when none has content.
pub fn parse_lyrics(track: &DeezerTrack, lyrics: DeezerLyricsPayload) -> (r: Result<DeezerLyricsResult, DeezerError>)
    ensures
        match r {
            Ok(res) => {
                &&& res.track_id == track.track_id
                &&& res.track_name@ == track.track_name@
                &&& res.artist_name@ == track.artist_name@
                &&& res.duration_ms == track.duration_ms
                &&& lyrics_choice(lyrics) == Some((
                    match res.lrc {
                        Some(l) => Some(l@),
                        None => None,
                    },
                    match res.text {
                        Some(t) => Some(t@),
                        None => None,
                    },
                ))
            },
            Err(e) => e is NotAvailable && lyrics_choice(lyrics) is None,
        },
{
    let ghost payload = lyrics;
    if let Some(lines) = &lyrics.synchronized_lines {
        let lrc = build_lrc_from_sync_lines(lines.as_slice());
        if has_content(&lrc) {
            return Ok(DeezerLyricsResult {
                track_id: track.track_id,
                track_name: track.track_name.clone(),
                artist_name: track.artist_name.clone(),
                duration_ms: track.duration_ms,
                lrc: Some(lrc),
                text: None,
            });
        }
    }
    if let Some(lines) = &lyrics.synchronized_word_by_word_lines {
        let lrc = build_lrc_from_word_lines(lines.as_slice());
        if has_content(&lrc) {
            return Ok(DeezerLyricsResult {
                track_id: track.track_id,
                track_name: track.track_name.clone(),
                artist_name: track.artist_name.clone(),
                duration_ms: track.duration_ms,
                lrc: Some(lrc),
                text: None,
            });
        }
    }
    let text = match &lyrics.text {
        Some(t) => trim_chars(chars_of(t.as_str()).as_slice()),
        None => Vec::new(),
    };
    assert(text@ =~= match payload.text {
        Some(t) => trim(t@),
        None => seq![],
    });
    if text.len() == 0 {
        return Err(DeezerError::NotAvailable);
    }
    Ok(DeezerLyricsResult {
        track_id: track.track_id,
        track_name: track.track_name.clone(),
        artist_name: track.artist_name.clone(),
        duration_ms: track.duration_ms,
        lrc: None,
        text: Some(string_of(text.as_slice())),
    })
}

/// A Deezer track from the fields of a search hit; the duration, given in seconds, is
/// kept in milliseconds, saturating at the 64-bit limit.
pub fn track_from_search(id: u64, title: String, duration_secs: u64, artist_name: String) -> (r: DeezerTrack)
    ensures
        r.track_id == id,
        r.track_name == title,
        r.artist_name == artist_name,
        r.duration_ms == Some(crate::provider_util::saturate(duration_secs * 1000)),
{
    let ms = match duration_secs.checked_mul(1000) {
        Some(v) => v,
        None => u64::MAX,
    };
    DeezerTrack { track_id: id, track_name: title, artist_name, duration_ms: Some(ms) }
}

/// The session token from a login answer: present and not blank, else an
/// authentication error.
pub fn jwt_from_login(jwt: Option<String>) -> (r: Result<String, DeezerError>)
    ensures
        match r {
            Ok(t) => jwt matches Some(j) && t == j && trim(j@).len() > 0,
            Err(e) => e matches DeezerError::Auth(d) && d@ == "missing JWT token"@ && (jwt matches Some(j) ==> trim(j@).len() == 0),
        },
{
    match jwt {
        Some(j) => {
            if trim_chars(chars_of(j.as_str()).as_slice()).len() > 0 {
                Ok(j)
            } else {
                Err(DeezerError::Auth(String::from_str("missing JWT token")))
            }
        },
        None => Err(DeezerError::Auth(String::from_str("missing JWT token"))),
    }
}

/// Whether a stored ARL cookie can be used: it is not blank.
pub fn arl_is_set(arl: &str) -> (r: bool)
    ensures
        r == (trim(arl@).len() > 0),
{
    trim_chars(chars_of(arl).as_slice()).len() > 0
}

/// The search query for the optional title and artist, each trimmed; none when both are
/// empty.
pub fn search_query(title: Option<&str>, artist: Option<&str>) -> (r: Option<String>)
    ensures
        ({
            let t = trim(match title {
                Some(v) => v@,
                None => Seq::<char>::empty(),
            });
            let a = trim(match artist {
                Some(v) => v@,
                None => Seq::<char>::empty(),
            });
            if search_query_of(t, a).len() == 0 {
                r is None
            } else {
                r matches Some(q) && q@ == search_query_of(t, a)
            }
        }),
{
    let t = match title {
        Some(v) => string_of(trim_chars(chars_of(v).as_slice()).as_slice()),
        None => String::new(),
    };
    let a = match artist {
        Some(v) => string_of(trim_chars(chars_of(v).as_slice()).as_slice()),
        None => String::new(),
    };
    proof {
        assert(trim(Seq::<char>::empty()) =~= Seq::<char>::empty());
    }
    let q = build_search_query(t.as_str(), a.as_str());
    if q.as_str().is_empty() {
        None
    } else {
        Some(q)
    }
}

/// What the status of a lyrics query means: 401 is an expired session; any other status
/// that is no success is a provider failure that quotes it.
pub fn lyrics_query_status(status: u16, status_text: &str) -> (r: Result<(), DeezerError>)
    ensures
        status == 401 ==> (r matches Err(DeezerError::Auth(d)) && d@ == "token expired"@),
        status != 401 && !crate::provider_util::success_status(status) ==> (r matches Err(
            DeezerError::Provider(d),
        ) && d@ == "lyrics query"@ + " returned "@ + status_text@),
        status != 401 && crate::provider_util::success_status(status) ==> r is Ok,
{
    if status == 401 {
        return Err(DeezerError::Auth(String::from_str("token expired")));
    }
    if !crate::provider_util::is_success_status(status) {
        return Err(DeezerError::Provider(crate::provider_util::status_failure("lyrics query", status_text)));
    }
    Ok(())
}

/// Whether a failed lyrics query is tried once more with a new session: when the session
/// was refused.
pub fn needs_token_refresh(error: &DeezerError) -> (r: bool)
    ensures
        r == (*error is Auth),
{
    match error {
        DeezerError::Auth(_) => true,
        _ => false,
    }
}


/// The LRC lines of word-by-word lines put one after the other are those of the first
/// lines followed by those of the second: every input line contributes its own lines, in
/// input order, whatever comes before or after it.
pub proof fn lemma_word_lrc_lines_append(a: Seq<WordLine>, b: Seq<WordLine>)
    ensures
        word_lrc_lines(a + b) == word_lrc_lines(a) + word_lrc_lines(b),
    decreases b.len(),
{
    if b.len() == 0 {
        assert(a + b =~= a);
        assert(word_lrc_lines(a) + word_lrc_lines(b) =~= word_lrc_lines(a));
    } else {
        lemma_word_lrc_lines_append(a, b.drop_last());
        assert((a + b).drop_last() =~= a + b.drop_last());
        assert((a + b).last() == b.last());
        match word_line_text(b.last()) {
            Some(l) => {
                assert(word_lrc_lines(a) + word_lrc_lines(b) =~= (word_lrc_lines(a)
                    + word_lrc_lines(b.drop_last())).push(l));
            },
            None => {},
        }
    }
}

/// A single word-by-word line gives one LRC line, `[mm:ss.cc] ` at its start followed by its
/// words, when it has a word that is not blank, and none otherwise.
pub proof fn lemma_word_lrc_line_single(x: WordLine)
    ensures
        word_lrc_lines(seq![x]).len() == (if line_words(x.words@).len() > 0 {
            1int
        } else {
            0int
        }),
        line_words(x.words@).len() > 0 ==> word_lrc_lines(seq![x])[0] == deezer_stamp(
            x.start as nat,
        ) + seq![' '] + join(line_words(x.words@), seq![' ']),
{
    assert(seq![x].drop_last() =~= Seq::<WordLine>::empty());
    assert(seq![x].last() == x);
    assert(word_lrc_lines(Seq::<WordLine>::empty()) == Seq::<Seq<char>>::empty());
    assert(word_lrc_lines(seq![x].drop_last()) == Seq::<Seq<char>>::empty());
    lemma_line_words_nonblank(x.words@);
    if line_words(x.words@).len() > 0 {
        lemma_join_nonempty(line_words(x.words@));
    } else {
        assert(join(line_words(x.words@), seq![' ']) =~= Seq::<char>::empty());
    }
}

/// The words kept from a line are never blank.
proof fn lemma_line_words_nonblank(words: Seq<Word>)
    ensures
        forall|i: int| 0 <= i < line_words(words).len() ==> #[trigger] line_words(words)[i].len() > 0,
    decreases words.len(),
{
    if words.len() > 0 {
        let prev = line_words(words.drop_last());
        lemma_line_words_nonblank(words.drop_last());
        assert forall|i: int| 0 <= i < line_words(words).len() implies #[trigger] line_words(
            words,
        )[i].len() > 0 by {
            if i < prev.len() {
                assert(line_words(words)[i] == prev[i]);
            }
        }
    }
}

/// Joining non-empty words gives a non-empty text.
proof fn lemma_join_nonempty(ws: Seq<Seq<char>>)
    requires
        ws.len() > 0,
        forall|i: int| 0 <= i < ws.len() ==> #[trigger] ws[i].len() > 0,
    ensures
        join(ws, seq![' ']).len() > 0,
    decreases ws.len(),
{
    if ws.len() > 1 {
        lemma_join_nonempty(ws.drop_last());
    }
}

/// The LRC lines of synchronised lines put one after the other are those of the first
/// lines followed by those of the second.
pub proof fn lemma_sync_lrc_lines_append(a: Seq<SyncLine>, b: Seq<SyncLine>)
    ensures
        sync_lrc_lines(a + b) == sync_lrc_lines(a) + sync_lrc_lines(b),
    decreases b.len(),
{
    if b.len() == 0 {
        assert(a + b =~= a);
        assert(sync_lrc_lines(a) + sync_lrc_lines(b) =~= sync_lrc_lines(a));
    } else {
        lemma_sync_lrc_lines_append(a, b.drop_last());
        assert((a + b).drop_last() =~= a + b.drop_last());
        assert((a + b).last() == b.last());
        match sync_line_text(b.last()) {
            Some(l) => {
                assert(sync_lrc_lines(a) + sync_lrc_lines(b) =~= (sync_lrc_lines(a)
                    + sync_lrc_lines(b.drop_last())).push(l));
            },
            None => {},
        }
    }
}

} // verus!
