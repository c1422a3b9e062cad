//! Musixmatch data model and the decisions that its client makes on answers: request
//! parameters, answer headers, lyrics validation, and the request signature.
use vstd::prelude::*;

use crate::text::{
    chars_of, decimal, fixed_digits, fixed_hex, has_substring, push_decimal, push_fixed_digits,
    push_fixed_hex, string_of, trim, trim_chars,
};

verus! {

/// How a track is named in a request: by its Musixmatch id or by its Spotify id.
#[derive(Clone, Debug)]
pub enum TrackId {
    TrackId(u64),
    Spotify(String),
}

impl TrackId {
    /// The query parameter that names the track: `track_id` with the decimal id, or
    /// `track_spotify_id` with the Spotify id.
    pub fn to_param(&self) -> (r: (String, String))
        ensures
            match self {
                TrackId::TrackId(id) => r.0@ == "track_id"@ && r.1@ == decimal(*id as nat),
                TrackId::Spotify(id) => r.0@ == "track_spotify_id"@ && r.1@ == id@,
            },
    {
        match self {
            TrackId::TrackId(id) => {
                let mut digits: Vec<char> = Vec::new();
                push_decimal(&mut digits, *id);
                assert(digits@ =~= decimal(*id as nat));
                (String::from_str("track_id"), string_of(digits.as_slice()))
            },
            TrackId::Spotify(id) => (String::from_str("track_spotify_id"), id.clone()),
        }
    }
}

/// The subtitle formats that are asked for.
#[derive(Clone, Copy, Debug, PartialEq, Eq)]
pub enum SubtitleFormat {
    Lrc,
}

impl SubtitleFormat {
    /// The parameter value for the format.
    pub fn to_param(self) -> (r: &'static str)
        ensures
            r@ == "lrc"@,
    {
        match self {
            SubtitleFormat::Lrc => "lrc",
        }
    }
}

/// Sort orders for search results.
#[derive(Clone, Copy, Debug, PartialEq, Eq)]
pub enum SortOrder {
    Desc,
}

impl SortOrder {
    /// The parameter value for the order.
    pub fn as_str(self) -> (r: &'static str)
        ensures
            r@ == "desc"@,
    {
        match self {
            SortOrder::Desc => "desc",
        }
    }
}

/// A Musixmatch track as the search and lookup endpoints describe it.
#[derive(Clone, Debug)]
pub struct Track {
    pub track_id: u64,
    pub track_name: String,
    pub track_length: u32,
    pub artist_name: String,
    pub has_lyrics: bool,
    pub has_subtitles: bool,
    pub has_richsync: bool,
}

/// Plain lyrics of a track.
#[derive(Clone, Debug)]
pub struct Lyrics {
    pub lyrics_id: u64,
    pub lyrics_body: String,
    pub lyrics_copyright: Option<String>,
}

/// Timed lyrics of a track.
#[derive(Clone, Debug)]
pub struct Subtitle {
    pub subtitle_id: u64,
    pub subtitle_body: String,
}

/// What can go wrong when talking to Musixmatch. Transport errors are kept as their
/// message.
#[derive(Debug)]
pub enum Error {
    Ratelimit,
    TokenExpired,
    NotFound,
    NotAvailable,
    InvalidData(String),
    Http(String),
    Provider { status_code: u16, msg: String },
}

/// The message shown for an error.
pub open spec fn error_message(e: Error) -> Seq<char> {
    match e {
        Error::Ratelimit => "You are sending requests too fast. Wait a minute and try again."@,
        Error::TokenExpired => "The Musixmatch user token expired. Request a new one."@,
        Error::NotFound => "The requested content could not be found"@,
        Error::NotAvailable => "Unfortunately we're not authorized to show these lyrics"@,
        Error::InvalidData(detail) => "JSON parsing error: "@ + detail@,
        Error::Http(detail) => "http error: "@ + detail@,
        Error::Provider { status_code, msg } => "Error "@ + decimal(status_code as nat)
            + " returned by the Musixmatch API. Message: '"@ + msg@ + "'"@,
    }
}

impl Error {
    /// The message shown for this error.
    pub fn message(&self) -> (r: String)
        ensures
            r@ == error_message(*self),
    {
        match self {
            Error::Ratelimit => String::from_str(
                "You are sending requests too fast. Wait a minute and try again.",
            ),
            Error::TokenExpired => String::from_str(
                "The Musixmatch user token expired. Request a new one.",
            ),
            Error::NotFound => String::from_str("The requested content could not be found"),
            Error::NotAvailable => String::from_str(
                "Unfortunately we're not authorized to show these lyrics",
            ),
            Error::InvalidData(detail) => {
                let mut m = String::from_str("JSON parsing error: ");
                m.append(detail.as_str());
                m
            },
            Error::Http(detail) => {
                let mut m = String::from_str("http error: ");
                m.append(detail.as_str());
                m
            },
            Error::Provider { status_code, msg } => {
                let mut digits: Vec<char> = Vec::new();
                push_decimal(&mut digits, *status_code as u64);
                let mut m = String::from_str("Error ");
                m.append(string_of(digits.as_slice()).as_str());
                m.append(" returned by the Musixmatch API. Message: '");
                m.append(msg.as_str());
                m.append("'");
                m
            },
        }
    }

    /// Whether the error asks for a new user token before one more try.
    pub fn is_token_expired(&self) -> (r: bool)
        ensures
            r == (*self is TokenExpired),
    {
        match self {
            Error::TokenExpired => true,
            _ => false,
        }
    }
}

/// Settings for a Musixmatch client: where the session is kept.
#[derive(Clone, Debug)]
pub struct MusixmatchBuilder {
    pub storage_file: Option<String>,
}

impl MusixmatchBuilder {
    /// Settings that keep no session file.
    pub fn new() -> (r: MusixmatchBuilder)
        ensures
            r.storage_file is None,
    {
        MusixmatchBuilder { storage_file: None }
    }

    /// Keeps the session in the file at `path`.
    pub fn storage_file(self, path: &str) -> (r: MusixmatchBuilder)
        ensures
            r.storage_file matches Some(p) && p@ == path@,
    {
        MusixmatchBuilder { storage_file: Some(String::from_str(path)) }
    }
}

/// What the header of an answer says: a status below 400 lets the body be read; 404 is
/// no content; 401 with hint `renew` an expired token, with hint `captcha` a rate limit;
/// anything else a provider error with the status and hint.
pub fn classify_header(status_code: u16, hint: &str) -> (r: Result<(), Error>)
    ensures
        status_code < 400 ==> r is Ok,
        status_code == 404 ==> r matches Err(Error::NotFound),
        status_code == 401 && hint@ == "renew"@ ==> r matches Err(Error::TokenExpired),
        status_code == 401 && hint@ == "captcha"@ ==> r matches Err(Error::Ratelimit),
        status_code >= 400 && status_code != 404 && !(status_code == 401 && (hint@ == "renew"@
            || hint@ == "captcha"@)) ==> (r matches Err(Error::Provider { status_code: c, msg })
            && c == status_code && msg@ == hint@),
{
    proof {
        reveal_strlit("renew");
        reveal_strlit("captcha");
        assert("renew"@.len() != "captcha"@.len());
    }
    if status_code < 400 {
        Ok(())
    } else if status_code == 404 {
        Err(Error::NotFound)
    } else if status_code == 401 && crate::text::str_equals(hint, "renew") {
        Err(Error::TokenExpired)
    } else if status_code == 401 && crate::text::str_equals(hint, "captcha") {
        Err(Error::Ratelimit)
    } else {
        Err(Error::Provider { status_code, msg: String::from_str(hint) })
    }
}

/// The body of a lyrics answer.
#[derive(Clone, Debug)]
pub struct LyricsBody {
    pub lyrics: Lyrics,
}

/// Lyrics with an empty body and a copyright note that says "not authorized".
pub open spec fn not_authorized(l: Lyrics) -> bool {
    &&& l.lyrics_body@.len() == 0
    &&& l.lyrics_copyright matches Some(c)
    &&& has_substring(c@, "not authorized"@)
}

impl LyricsBody {
    /// Lyrics with an empty body whose copyright note says "not authorized" cannot be
    /// shown.
    pub fn validate(&self) -> (r: Result<(), Error>)
        ensures
            r is Err <==> not_authorized(self.lyrics),
            r matches Err(e) ==> e is NotAvailable,
    {
        if self.lyrics.lyrics_body.as_str().is_empty() {
            match &self.lyrics.lyrics_copyright {
                Some(text) => {
                    let t = chars_of(text.as_str());
                    let n = chars_of("not authorized");
                    if crate::text::contains_chars(t.as_slice(), n.as_slice()) {
                        return Err(Error::NotAvailable);
                    }
                },
                None => {},
            }
        }
        Ok(())
    }
}

/// The copyright note as kept: trimmed, and none when nothing is left.
pub fn copyright_note(value: Option<String>) -> (r: Option<String>)
    ensures
        match value {
            Some(v) => if trim(v@).len() == 0 {
                r is None
            } else {
                r matches Some(t) && t@ == trim(v@)
            },
            None => r is None,
        },
{
    match value {
        Some(v) => {
            let t = trim_chars(chars_of(v.as_str()).as_slice());
            if t.len() == 0 {
                None
            } else {
                Some(string_of(t.as_slice()))
            }
        },
        None => None,
    }
}

/// The device description sent when asking for a user token.
pub fn model_string(brand: &str, device: &str) -> (r: String)
    ensures
        r@ == "manufacturer/"@ + brand@ + " brand/"@ + brand@ + " model/"@ + device@,
{
    let mut m = String::from_str("manufacturer/");
    m.append(brand);
    m.append(" brand/");
    m.append(brand);
    m.append(" model/");
    m.append(device);
    m
}

/// The parameters of a search, in the order they are sent.
#[derive(Clone, Debug)]
pub struct TrackSearchQuery {
    pub q_track: Option<String>,
    pub q_artist: Option<String>,
    pub f_has_lyrics: bool,
    pub s_track_rating: Option<SortOrder>,
}

/// A query parameter's text.
pub open spec fn pair_view(p: (String, String)) -> (Seq<char>, Seq<char>) {
    (p.0@, p.1@)
}

/// The parameter `name` with the given value, when there is one.
pub open spec fn param_if(name: Seq<char>, value: Option<String>) -> Seq<(Seq<char>, Seq<char>)> {
    match value {
        Some(t) => seq![(name, t@)],
        None => seq![],
    }
}

/// The parameters sent for a search page.
pub open spec fn search_params_of(q: TrackSearchQuery, page_size: u8, page: u32) -> Seq<
    (Seq<char>, Seq<char>),
> {
    let a = param_if("q_track"@, q.q_track);
    let b = param_if("q_artist"@, q.q_artist);
    let c = if q.f_has_lyrics {
        seq![("f_has_lyrics"@, "1"@)]
    } else {
        seq![]
    };
    let d = match q.s_track_rating {
        Some(_) => seq![("s_track_rating"@, "desc"@)],
        None => seq![],
    };
    a + b + c + d + seq![("page_size"@, decimal(page_size as nat)), ("page"@, decimal(page as nat))]
}

/// The decimal text of `n`.
fn decimal_string(n: u64) -> (r: String)
    ensures
        r@ == decimal(n as nat),
{
    let mut digits: Vec<char> = Vec::new();
    push_decimal(&mut digits, n);
    assert(digits@ =~= decimal(n as nat));
    string_of(digits.as_slice())
}

impl TrackSearchQuery {
    /// A search with no parameter set.
    pub fn new() -> (r: TrackSearchQuery)
        ensures
            r.q_track is None && r.q_artist is None && !r.f_has_lyrics && r.s_track_rating is None,
    {
        TrackSearchQuery { q_track: None, q_artist: None, f_has_lyrics: false, s_track_rating: None }
    }

    /// Searches by title.
    pub fn q_track(self, q_track: &str) -> (r: TrackSearchQuery)
        ensures
            r.q_track matches Some(t) && t@ == q_track@,
            r.q_artist == self.q_artist,
            r.f_has_lyrics == self.f_has_lyrics,
            r.s_track_rating == self.s_track_rating,
    {
        TrackSearchQuery { q_track: Some(String::from_str(q_track)), ..self }
    }

    /// Searches by artist.
    pub fn q_artist(self, q_artist: &str) -> (r: TrackSearchQuery)
        ensures
            r.q_artist matches Some(t) && t@ == q_artist@,
            r.q_track == self.q_track,
            r.f_has_lyrics == self.f_has_lyrics,
            r.s_track_rating == self.s_track_rating,
    {
        TrackSearchQuery { q_artist: Some(String::from_str(q_artist)), ..self }
    }

    /// Keeps only tracks that have lyrics.
    pub fn f_has_lyrics(self) -> (r: TrackSearchQuery)
        ensures
            r.f_has_lyrics,
            r.q_track == self.q_track,
            r.q_artist == self.q_artist,
            r.s_track_rating == self.s_track_rating,
    {
        TrackSearchQuery { f_has_lyrics: true, ..self }
    }

    /// Sorts by track rating.
    pub fn s_track_rating(self, value: SortOrder) -> (r: TrackSearchQuery)
        ensures
            r.s_track_rating == Some(value),
            r.q_track == self.q_track,
            r.q_artist == self.q_artist,
            r.f_has_lyrics == self.f_has_lyrics,
    {
        TrackSearchQuery { s_track_rating: Some(value), ..self }
    }

    /// The parameters sent for one page of results.
    pub fn params(&self, page_size: u8, page: u32) -> (r: Vec<(String, String)>)
        ensures
            r@.map_values(|p: (String, String)| pair_view(p)) == search_params_of(
                *self,
                page_size,
                page,
            ),
    {
        let mut r: Vec<(String, String)> = Vec::new();
        let ghost a = param_if("q_track"@, self.q_track);
        match &self.q_track {
            Some(t) => r.push((String::from_str("q_track"), t.clone())),
            None => {},
        }
        assert(r@.map_values(|p: (String, String)| pair_view(p)) =~= a);
        let ghost b = param_if("q_artist"@, self.q_artist);
        match &self.q_artist {
            Some(t) => r.push((String::from_str("q_artist"), t.clone())),
            None => {},
        }
        assert(r@.map_values(|p: (String, String)| pair_view(p)) =~= a + b);
        let ghost c = if self.f_has_lyrics {
            seq![("f_has_lyrics"@, "1"@)]
        } else {
            Seq::<(Seq<char>, Seq<char>)>::empty()
        };
        if self.f_has_lyrics {
            r.push((String::from_str("f_has_lyrics"), String::from_str("1")));
        }
        assert(r@.map_values(|p: (String, String)| pair_view(p)) =~= a + b + c);
        let ghost d = match self.s_track_rating {
            Some(_) => seq![("s_track_rating"@, "desc"@)],
            None => Seq::<(Seq<char>, Seq<char>)>::empty(),
        };
        match self.s_track_rating {
            Some(sort) => r.push((String::from_str("s_track_rating"), String::from_str(sort.as_str()))),
            None => {},
        }
        assert(r@.map_values(|p: (String, String)| pair_view(p)) =~= a + b + c + d);
        r.push((String::from_str("page_size"), decimal_string(page_size as u64)));
        r.push((String::from_str("page"), decimal_string(page as u64)));
        assert(r@.map_values(|p: (String, String)| pair_view(p)) =~= a + b + c + d + seq![
            ("page_size"@, decimal(page_size as nat)),
            ("page"@, decimal(page as nat)),
        ]);
        r
    }
}

/// The parameters sent to the matcher: each of title, artist and album that is not empty.
pub open spec fn matcher_params_of(q_track: Seq<char>, q_artist: Seq<char>, q_album: Seq<char>) -> Seq<
    (Seq<char>, Seq<char>),
> {
    (if q_track.len() > 0 {
        seq![("q_track"@, q_track)]
    } else {
        seq![]
    }) + (if q_artist.len() > 0 {
        seq![("q_artist"@, q_artist)]
    } else {
        seq![]
    }) + (if q_album.len() > 0 {
        seq![("q_album"@, q_album)]
    } else {
        seq![]
    })
}

/// The parameters sent to the matcher.
pub fn matcher_params(q_track: &str, q_artist: &str, q_album: &str) -> (r: Vec<(String, String)>)
    ensures
        r@.map_values(|p: (String, String)| pair_view(p)) == matcher_params_of(
            q_track@,
            q_artist@,
            q_album@,
        ),
{
    let mut r: Vec<(String, String)> = Vec::new();
    let ghost s1 = if q_track@.len() > 0 {
        seq![("q_track"@, q_track@)]
    } else {
        Seq::<(Seq<char>, Seq<char>)>::empty()
    };
    if !q_track.is_empty() {
        r.push((String::from_str("q_track"), String::from_str(q_track)));
    }
    assert(r@.map_values(|p: (String, String)| pair_view(p)) =~= s1);
    let ghost s2 = if q_artist@.len() > 0 {
        seq![("q_artist"@, q_artist@)]
    } else {
        Seq::<(Seq<char>, Seq<char>)>::empty()
    };
    if !q_artist.is_empty() {
        r.push((String::from_str("q_artist"), String::from_str(q_artist)));
    }
    assert(r@.map_values(|p: (String, String)| pair_view(p)) =~= s1 + s2);
    let ghost s3 = if q_album@.len() > 0 {
        seq![("q_album"@, q_album@)]
    } else {
        Seq::<(Seq<char>, Seq<char>)>::empty()
    };
    if !q_album.is_empty() {
        r.push((String::from_str("q_album"), String::from_str(q_album)));
    }
    assert(r@.map_values(|p: (String, String)| pair_view(p)) =~= s1 + s2 + s3);
    r
}

/// The character that stands for the six-bit value `v` in the standard Base64 alphabet.
pub open spec fn base64_char(v: nat) -> char {
    if v < 26 {
        (v + 65) as char
    } else if v < 52 {
        (v + 71) as char
    } else if v < 62 {
        (v - 4) as char
    } else if v == 62 {
        '+'
    } else {
        '/'
    }
}

/// Standard Base64 with `=` padding: every three bytes become four characters, and a
/// last group of one or two bytes is padded to four.
pub open spec fn base64_standard(b: Seq<u8>) -> Seq<char>
    decreases b.len(),
{
    if b.len() == 0 {
        seq![]
    } else if b.len() == 1 {
        seq![base64_char((b[0] / 4) as nat), base64_char(((b[0] % 4) * 16) as nat), '=', '=']
    } else if b.len() == 2 {
        seq![
            base64_char((b[0] / 4) as nat),
            base64_char(((b[0] % 4) * 16 + b[1] / 16) as nat),
            base64_char(((b[1] % 16) * 4) as nat),
            '=',
        ]
    } else {
        seq![
            base64_char((b[0] / 4) as nat),
            base64_char(((b[0] % 4) * 16 + b[1] / 16) as nat),
            base64_char(((b[1] % 16) * 4 + b[2] / 64) as nat),
            base64_char((b[2] % 64) as nat),
        ] + base64_standard(b.skip(3))
    }
}

/// Encodes with `base64::engine::general_purpose::STANDARD` (standard alphabet, padded);
/// the contract states that encoding. The length bound keeps the crate's size
/// computation, which panics on overflow, in range.
#[verifier::external_body]
fn base64_encode(bytes: &[u8]) -> (r: String)
    requires
        bytes@.len() <= usize::MAX / 2,
    ensures
        r@ == base64_standard(bytes@),
{
    base64::Engine::encode(&base64::engine::general_purpose::STANDARD, bytes)
}

/// The HMAC-SHA1 tag, under a key, of the UTF-8 bytes of one text followed by those of
/// another.
pub uninterp spec fn hmac_sha1(key: Seq<u8>, first: Seq<char>, second: Seq<char>) -> Seq<u8>;

/// `hmac::Hmac<sha1::Sha1>` keyed with `key` (HMAC takes keys of any length, so the
/// constructor does not fail), fed the UTF-8 bytes of `first` and then of `second`. The
/// contract names the tag and says that it has the 20 bytes of SHA-1.
#[verifier::external_body]
fn hmac_sha1_tag(key: &[u8], first: &str, second: &str) -> (r: Vec<u8>)
    ensures
        r@ == hmac_sha1(key@, first@, second@),
        r@.len() == 20,
{
    let mut mac = <hmac::Hmac<sha1::Sha1> as hmac::Mac>::new_from_slice(key).unwrap();
    hmac::Mac::update(&mut mac, first.as_bytes());
    hmac::Mac::update(&mut mac, second.as_bytes());
    hmac::Mac::finalize(mac).into_bytes().to_vec()
}

/// The key that request signatures are made with.
pub open spec fn signature_secret() -> Seq<u8> {
    seq![
        109u8, 78, 100, 99, 97, 64, 54, 87, 55, 84, 101, 69, 99, 70, 110, 54, 42, 51, 46, 115,
        57, 55, 115, 74, 42, 121, 80, 77, 100,
    ]
}

/// The signing key.
fn secret_bytes() -> (r: Vec<u8>)
    ensures
        r@ == signature_secret(),
{
    let r: Vec<u8> = vec![
        109u8, 78, 100, 99, 97, 64, 54, 87, 55, 84, 101, 69, 99, 70, 110, 54, 42, 51, 46, 115,
        57, 55, 115, 74, 42, 121, 80, 77, 100,
    ];
    assert(r@ =~= signature_secret());
    r
}

/// The `signature` parameter of a request: the Base64 of the HMAC-SHA1 tag of the URL
/// followed by the date, then a line feed.
pub open spec fn signature_of(url: Seq<char>, ymd: Seq<char>) -> Seq<char> {
    base64_standard(hmac_sha1(signature_secret(), url, ymd)) + "\n"@
}

/// Signs a request URL for the given `yyyymmdd` date.
pub fn url_signature(url: &str, ymd: &str) -> (r: String)
    ensures
        r@ == signature_of(url@, ymd@),
{
    let key = secret_bytes();
    let tag = hmac_sha1_tag(key.as_slice(), url, ymd);
    signature_from_tag(tag.as_slice())
}

/// The `signature` parameter for a computed tag: its Base64, then a line feed.
pub fn signature_from_tag(tag: &[u8]) -> (r: String)
    requires
        tag@.len() <= usize::MAX / 2,
    ensures
        r@ == base64_standard(tag@) + "\n"@,
{
    let mut sig = base64_encode(tag);
    sig.append("\n");
    sig
}

/// A date as `yyyymmdd`, each part zero-padded.
pub fn ymd_text(year: u16, month: u8, day: u8) -> (r: String)
    ensures
        r@ == fixed_digits(year as nat, 4) + fixed_digits(month as nat, 2) + fixed_digits(
            day as nat,
            2,
        ),
{
    let mut out: Vec<char> = Vec::new();
    push_fixed_digits(&mut out, year as u64, 4);
    push_fixed_digits(&mut out, month as u64, 2);
    push_fixed_digits(&mut out, day as u64, 2);
    string_of(out.as_slice())
}

/// `x` rotated left by `k` bits, for `0 < k < 64`.
pub open spec fn rotl(x: u64, k: u64) -> u64 {
    (x << k) | (x >> ((64 - k) as u64))
}

/// A device id: 16 hexadecimal digits of the clock reading mixed with a counter.
pub fn guid_text(nanos: u64, counter: u64) -> (r: String)
    ensures
        r@ == fixed_hex((nanos ^ counter) as nat, 16),
{
    let mut out: Vec<char> = Vec::new();
    push_fixed_hex(&mut out, nanos ^ counter, 16);
    assert(out@ =~= fixed_hex((nanos ^ counter) as nat, 16));
    string_of(out.as_slice())
}

/// An advertising id in UUID layout made from a clock reading `a` and a counter `b`:
/// the low and the next 16 bits of `a`, two 16-bit pieces of `b`, and 48 bits of both
/// rotated and mixed.
pub open spec fn uuid_of(a: u64, b: u64) -> Seq<char> {
    let c = rotl(a, 13) ^ rotl(b, 7);
    fixed_hex((a & 0xffff_ffff) as nat, 8) + "-"@ + fixed_hex(((a >> 32u64) & 0xffff) as nat, 4)
        + "-"@ + fixed_hex((b & 0xffff) as nat, 4) + "-"@ + fixed_hex(((b >> 16u64) & 0xffff) as nat, 4)
        + "-"@ + fixed_hex((c & 0xffff_ffff_ffff) as nat, 12)
}

/// The advertising id for a clock reading and a counter.
pub fn uuid_text(a: u64, b: u64) -> (r: String)
    ensures
        r@ == uuid_of(a, b),
{
    let c = ((a << 13u64) | (a >> 51u64)) ^ ((b << 7u64) | (b >> 57u64));
    let mut out: Vec<char> = Vec::new();
    push_fixed_hex(&mut out, a & 0xffff_ffff, 8);
    out.push('-');
    push_fixed_hex(&mut out, (a >> 32u64) & 0xffff, 4);
    out.push('-');
    push_fixed_hex(&mut out, b & 0xffff, 4);
    out.push('-');
    push_fixed_hex(&mut out, (b >> 16u64) & 0xffff, 4);
    out.push('-');
    push_fixed_hex(&mut out, c & 0xffff_ffff_ffff, 12);
    proof {
        reveal_strlit("-");
    }
    assert(out@ =~= uuid_of(a, b));
    string_of(out.as_slice())
}

} // verus!
