//! The lyrics server's decisions: which backend a request asks for, the cache key it is
//! stored under, what a request must carry, how secrets are shown, and the configuration
//! answers.
use vstd::prelude::*;

use crate::matching::{normalize, normalized};
use crate::text::{
    ascii_lowercase, chars_of, decimal, digit_char, push_decimal, slice_chars, string_of,
    to_ascii_lowercase, trim, trim_chars,
};

verus! {

/// Which provider a lyrics request goes to; `Auto` tries them in turn.
#[derive(Clone, Copy, Debug, PartialEq, Eq, Structural)]
pub enum BackendMode {
    Auto,
    Musicxmatch,
    Deezer,
    Bugs,
    Genie,
}

/// The backend a `backend` parameter names: trimmed and compared without ASCII case;
/// absent or unknown names mean `Auto`.
pub open spec fn backend_of(value: Option<Seq<char>>) -> BackendMode {
    match value {
        None => BackendMode::Auto,
        Some(v) => {
            let n = ascii_lowercase(trim(v));
            if n == "musicxmatch"@ || n == "musixmatch"@ || n == "mxm"@ {
                BackendMode::Musicxmatch
            } else if n == "deezer"@ {
                BackendMode::Deezer
            } else if n == "bugs"@ {
                BackendMode::Bugs
            } else if n == "genie"@ {
                BackendMode::Genie
            } else {
                BackendMode::Auto
            }
        },
    }
}

/// Whether the characters of `a` are those of the text `b`.
fn is_text(a: &[char], b: &str) -> (r: bool)
    ensures
        r == (a@ == b@),
{
    let t = chars_of(b);
    crate::text::chars_equal(a, t.as_slice())
}

/// The backend a `backend` parameter names.
pub fn parse_backend_mode(value: Option<&str>) -> (r: BackendMode)
    ensures
        r == backend_of(
            match value {
                Some(v) => Some(v@),
                None => None,
            },
        ),
{
    let v = match value {
        None => return BackendMode::Auto,
        Some(v) => v,
    };
    let t = trim_chars(chars_of(v).as_slice());
    let n = to_ascii_lowercase(t.as_slice());
    let n = n.as_slice();
    if is_text(n, "musicxmatch") || is_text(n, "musixmatch") || is_text(n, "mxm") {
        BackendMode::Musicxmatch
    } else if is_text(n, "deezer") {
        BackendMode::Deezer
    } else if is_text(n, "bugs") {
        BackendMode::Bugs
    } else if is_text(n, "genie") {
        BackendMode::Genie
    } else {
        BackendMode::Auto
    }
}

/// The word a backend's cache keys start with.
pub open spec fn backend_prefix(backend: BackendMode) -> Seq<char> {
    match backend {
        BackendMode::Auto => "auto"@,
        BackendMode::Musicxmatch => "musicxmatch"@,
        BackendMode::Deezer => "deezer"@,
        BackendMode::Bugs => "bugs"@,
        BackendMode::Genie => "genie"@,
    }
}

/// The word a backend's cache keys start with.
pub fn backend_key_prefix(backend: BackendMode) -> (r: &'static str)
    ensures
        r@ == backend_prefix(backend),
{
    match backend {
        BackendMode::Auto => "auto",
        BackendMode::Musicxmatch => "musicxmatch",
        BackendMode::Deezer => "deezer",
        BackendMode::Bugs => "bugs",
        BackendMode::Genie => "genie",
    }
}

/// A duration in milliseconds as whole seconds, rounded half up, and at least one.
pub open spec fn rounded_secs(ms: u64) -> nat {
    let r = ((ms + 500) / 1000) as nat;
    if r < 1 {
        1
    } else {
        r
    }
}

/// The part of a cache key that names the duration: empty when it is unknown.
pub open spec fn duration_suffix(duration_ms: Option<u64>) -> Seq<char> {
    match duration_ms {
        None => seq![],
        Some(ms) => ":duration:"@ + decimal(rounded_secs(ms)) + "s"@,
    }
}

/// The cache key of a request: the backend, then the Spotify id when there is one, else
/// the normalized title and artist, then the duration when it is known.
pub open spec fn cache_key_of(
    title: Seq<char>,
    artist: Seq<char>,
    spotify_id: Seq<char>,
    duration_ms: Option<u64>,
    backend: BackendMode,
) -> Seq<char> {
    if spotify_id.len() > 0 {
        backend_prefix(backend) + ":spotify:"@ + spotify_id + duration_suffix(duration_ms)
    } else {
        backend_prefix(backend) + ":"@ + normalized(title) + "::"@ + normalized(artist)
            + duration_suffix(duration_ms)
    }
}

/// The cache key of a request. The rounding adds 500 to the duration, so a duration
/// within 500 of the largest 64-bit value is left out.
pub fn build_cache_key(
    title: &str,
    artist: &str,
    spotify_id: &str,
    duration_ms: Option<u64>,
    backend: BackendMode,
) -> (r: String)
    requires
        duration_ms matches Some(ms) ==> ms <= u64::MAX - 500,
    ensures
        r@ == cache_key_of(title@, artist@, spotify_id@, duration_ms, backend),
{
    let mut suffix = String::new();
    match duration_ms {
        Some(ms) => {
            let mut rounded = (ms + 500) / 1000;
            if rounded < 1 {
                rounded = 1;
            }
            let mut digits: Vec<char> = Vec::new();
            push_decimal(&mut digits, rounded);
            assert(digits@ =~= decimal(rounded_secs(ms)));
            suffix.append(":duration:");
            suffix.append(string_of(digits.as_slice()).as_str());
            suffix.append("s");
        },
        None => {},
    }
    assert(suffix@ =~= duration_suffix(duration_ms));
    let mut key = String::from_str(backend_key_prefix(backend));
    if !spotify_id.is_empty() {
        key.append(":spotify:");
        key.append(spotify_id);
        key.append(suffix.as_str());
        return key;
    }
    key.append(":");
    key.append(normalize(title).as_str());
    key.append("::");
    key.append(normalize(artist).as_str());
    key.append(suffix.as_str());
    key
}

/// Two words without a colon, each followed by a colon: when the words differ, so do the
/// texts, whatever follows.
proof fn lemma_colon_prefixes_differ(p1: Seq<char>, p2: Seq<char>, r1: Seq<char>, r2: Seq<char>)
    requires
        p1 != p2,
        forall|i: int| 0 <= i < p1.len() ==> p1[i] != ':',
        forall|i: int| 0 <= i < p2.len() ==> p2[i] != ':',
        r1.len() > 0 && r1[0] == ':',
        r2.len() > 0 && r2[0] == ':',
    ensures
        p1 + r1 != p2 + r2,
{
    let k1 = p1 + r1;
    let k2 = p2 + r2;
    if k1 == k2 {
        if p1.len() == p2.len() {
            assert(p1 =~= k1.take(p1.len() as int));
            assert(p2 =~= k2.take(p2.len() as int));
        } else if p1.len() < p2.len() {
            assert(k1[p1.len() as int] == ':');
            assert(k2[p1.len() as int] == p2[p1.len() as int]);
        } else {
            assert(k2[p2.len() as int] == ':');
            assert(k1[p2.len() as int] == p1[p2.len() as int]);
        }
    }
}

/// A backend's key word has no colon, and different backends have different words.
proof fn lemma_backend_prefixes()
    ensures
        forall|b: BackendMode, i: int|
            0 <= i < backend_prefix(b).len() ==> #[trigger] backend_prefix(b)[i] != ':',
        forall|b1: BackendMode, b2: BackendMode|
            b1 != b2 ==> #[trigger] backend_prefix(b1) != #[trigger] backend_prefix(b2),
{
    reveal_strlit("auto");
    reveal_strlit("musicxmatch");
    reveal_strlit("deezer");
    reveal_strlit("bugs");
    reveal_strlit("genie");
    assert("auto"@[0] != "bugs"@[0]);
    assert("auto"@ != "bugs"@);
    assert("auto"@.len() == 4 && "bugs"@.len() == 4 && "genie"@.len() == 5 && "deezer"@.len() == 6
        && "musicxmatch"@.len() == 11);
}

/// Requests for different backends never share a cache entry: their keys differ whatever
/// else the requests hold.
pub proof fn lemma_cache_keys_separate_backends(
    title: Seq<char>,
    artist: Seq<char>,
    spotify_id: Seq<char>,
    duration_ms: Option<u64>,
    b1: BackendMode,
    b2: BackendMode,
)
    requires
        b1 != b2,
    ensures
        cache_key_of(title, artist, spotify_id, duration_ms, b1) != cache_key_of(
            title,
            artist,
            spotify_id,
            duration_ms,
            b2,
        ),
{
    lemma_backend_prefixes();
    reveal_strlit(":spotify:");
    reveal_strlit(":");
    let p1 = backend_prefix(b1);
    let p2 = backend_prefix(b2);
    let rest = if spotify_id.len() > 0 {
        ":spotify:"@ + spotify_id + duration_suffix(duration_ms)
    } else {
        ":"@ + normalized(title) + "::"@ + normalized(artist) + duration_suffix(duration_ms)
    };
    assert(rest[0] == ':');
    assert(cache_key_of(title, artist, spotify_id, duration_ms, b1) =~= p1 + rest);
    assert(cache_key_of(title, artist, spotify_id, duration_ms, b2) =~= p2 + rest);
    lemma_colon_prefixes_differ(p1, p2, rest, rest);
}

/// The decimal digits of a number have at least two characters from ten on.
proof fn lemma_decimal_len(n: nat)
    ensures
        decimal(n).len() >= 1,
        n >= 10 ==> decimal(n).len() >= 2,
    decreases n,
{
    if n >= 10 {
        lemma_decimal_len(n / 10);
    }
}

/// Different numbers have different decimal digits.
proof fn lemma_decimal_injective(a: nat, b: nat)
    requires
        decimal(a) == decimal(b),
    ensures
        a == b,
    decreases a,
{
    lemma_decimal_len(a);
    lemma_decimal_len(b);
    if a >= 10 && b >= 10 {
        assert(decimal(a / 10) =~= decimal(a).drop_last());
        assert(decimal(b / 10) =~= decimal(b).drop_last());
        lemma_decimal_injective(a / 10, b / 10);
        assert(decimal(a).last() == digit_char(a % 10));
        assert(decimal(b).last() == digit_char(b % 10));
        assert(digit_char(a % 10) as u32 == a % 10 + 48);
        assert(digit_char(b % 10) as u32 == b % 10 + 48);
    } else if a < 10 && b < 10 {
        assert(decimal(a)[0] == digit_char(a));
        assert(decimal(b)[0] == digit_char(b));
        assert(digit_char(a) as u32 == a + 48);
        assert(digit_char(b) as u32 == b + 48);
    }
}

/// Two requests that differ only in the duration share a cache key exactly when both
/// durations are unknown or both round to the same number of seconds.
pub proof fn lemma_cache_keys_separate_durations(
    title: Seq<char>,
    artist: Seq<char>,
    spotify_id: Seq<char>,
    d1: Option<u64>,
    d2: Option<u64>,
    backend: BackendMode,
)
    ensures
        (cache_key_of(title, artist, spotify_id, d1, backend) == cache_key_of(
            title,
            artist,
            spotify_id,
            d2,
            backend,
        )) <==> (match (d1, d2) {
            (None, None) => true,
            (Some(a), Some(b)) => rounded_secs(a) == rounded_secs(b),
            _ => false,
        }),
{
    let base = if spotify_id.len() > 0 {
        backend_prefix(backend) + ":spotify:"@ + spotify_id
    } else {
        backend_prefix(backend) + ":"@ + normalized(title) + "::"@ + normalized(artist)
    };
    let k1 = cache_key_of(title, artist, spotify_id, d1, backend);
    let k2 = cache_key_of(title, artist, spotify_id, d2, backend);
    assert(k1 =~= base + duration_suffix(d1));
    assert(k2 =~= base + duration_suffix(d2));
    reveal_strlit(":duration:");
    reveal_strlit("s");
    if k1 == k2 {
        assert(duration_suffix(d1) =~= k1.skip(base.len() as int));
        assert(duration_suffix(d2) =~= k2.skip(base.len() as int));
        match (d1, d2) {
            (Some(a), Some(b)) => {
                let s1 = duration_suffix(d1);
                let s2 = duration_suffix(d2);
                let da = decimal(rounded_secs(a));
                let db = decimal(rounded_secs(b));
                assert(da =~= s1.subrange(10, s1.len() - 1));
                assert(db =~= s2.subrange(10, s2.len() - 1));
                lemma_decimal_injective(rounded_secs(a), rounded_secs(b));
            },
            _ => {},
        }
    }
}

/// A secret as shown back: nothing for a blank one, four dots for one of at most eight
/// characters, else its first and last four characters around an ellipsis.
pub open spec fn masked(value: Seq<char>) -> Seq<char> {
    let t = trim(value);
    if t.len() == 0 {
        seq![]
    } else if t.len() <= 8 {
        "••••"@
    } else {
        t.take(4) + "…"@ + t.skip(t.len() - 4)
    }
}

/// A secret as shown back.
pub fn mask_secret(value: &str) -> (r: String)
    ensures
        r@ == masked(value@),
{
    let t = trim_chars(chars_of(value).as_slice());
    if t.len() == 0 {
        return String::new();
    }
    if t.len() <= 8 {
        return String::from_str("••••");
    }
    let mut m = string_of(slice_chars(t.as_slice(), 0, 4).as_slice());
    m.append("…");
    m.append(string_of(slice_chars(t.as_slice(), t.len() - 4, t.len()).as_slice()).as_str());
    proof {
        assert(t@.subrange(0, 4) =~= t@.take(4));
        assert(t@.subrange(t@.len() - 4, t@.len() as int) =~= t@.skip(t@.len() - 4));
    }
    m
}

/// The saved configuration.
#[derive(Clone, Debug)]
pub struct AppConfig {
    pub deezer_arl: Option<String>,
}

/// What the configuration endpoints answer: whether a Deezer ARL is set, and a masked
/// preview of it.
#[derive(Clone, Debug)]
pub struct ConfigPayload {
    pub deezer_arl_configured: bool,
    pub deezer_arl_preview: Option<String>,
}

/// An optional string's text.
pub open spec fn opt_view(o: Option<String>) -> Option<Seq<char>> {
    match o {
        Some(s) => Some(s@),
        None => None,
    }
}

/// The configuration answer for a stored ARL: set when it is not blank, previewed masked.
pub open spec fn config_answer(arl: Option<Seq<char>>) -> (bool, Option<Seq<char>>) {
    match arl {
        Some(a) => if trim(a).len() > 0 {
            (true, Some(masked(a)))
        } else {
            (false, None)
        },
        None => (false, None),
    }
}

/// The configuration answer for the saved configuration.
pub fn config_payload(config: &AppConfig) -> (r: ConfigPayload)
    ensures
        (r.deezer_arl_configured, opt_view(r.deezer_arl_preview)) == config_answer(
            opt_view(config.deezer_arl),
        ),
{
    proof {
        reveal_strlit("••••");
    }
    match &config.deezer_arl {
        Some(a) => {
            let shown = mask_secret(a.as_str());
            if shown.as_str().is_empty() {
                ConfigPayload { deezer_arl_configured: false, deezer_arl_preview: None }
            } else {
                ConfigPayload { deezer_arl_configured: true, deezer_arl_preview: Some(shown) }
            }
        },
        None => ConfigPayload { deezer_arl_configured: false, deezer_arl_preview: None },
    }
}

/// The configuration answer while running: an ARL from the environment wins when it is
/// not blank, else the saved configuration answers.
pub fn runtime_config_payload(env_arl: Option<&str>, config: &AppConfig) -> (r: ConfigPayload)
    ensures
        (r.deezer_arl_configured, opt_view(r.deezer_arl_preview)) == match env_arl {
            Some(e) => if trim(e@).len() > 0 {
                (true, Some(masked(e@)))
            } else {
                config_answer(opt_view(config.deezer_arl))
            },
            None => config_answer(opt_view(config.deezer_arl)),
        },
{
    match env_arl {
        Some(e) => {
            let t = trim_chars(chars_of(e).as_slice());
            if t.len() > 0 {
                return ConfigPayload {
                    deezer_arl_configured: true,
                    deezer_arl_preview: Some(mask_secret(e)),
                };
            }
        },
        None => {},
    }
    config_payload(config)
}

/// A text trimmed, or none when blank.
pub open spec fn nonblank(value: Option<Seq<char>>) -> Option<Seq<char>> {
    match value {
        Some(v) => if trim(v).len() > 0 {
            Some(trim(v))
        } else {
            None
        },
        None => None,
    }
}

/// A text trimmed, or none when blank.
pub fn nonblank_text(value: Option<&str>) -> (r: Option<String>)
    ensures
        opt_view(r) == nonblank(
            match value {
                Some(v) => Some(v@),
                None => None,
            },
        ),
{
    match value {
        Some(v) => {
            let t = trim_chars(chars_of(v).as_slice());
            if t.len() > 0 {
                Some(string_of(t.as_slice()))
            } else {
                None
            }
        },
        None => None,
    }
}

/// The Deezer ARL in use: the environment's when it is not blank, else the saved one when
/// that is not blank, both trimmed.
pub fn current_deezer_arl(env_arl: Option<&str>, config: &AppConfig) -> (r: Option<String>)
    ensures
        opt_view(r) == match nonblank(
            match env_arl {
                Some(v) => Some(v@),
                None => None,
            },
        ) {
            Some(e) => Some(e),
            None => nonblank(opt_view(config.deezer_arl)),
        },
{
    match nonblank_text(env_arl) {
        Some(e) => Some(e),
        None => match &config.deezer_arl {
            Some(a) => nonblank_text(Some(a.as_str())),
            None => None,
        },
    }
}

/// The configuration a save request asks for: its ARL trimmed, none when blank.
pub fn next_config(deezer_arl: Option<&str>) -> (r: AppConfig)
    ensures
        opt_view(r.deezer_arl) == nonblank(
            match deezer_arl {
                Some(v) => Some(v@),
                None => None,
            },
        ),
{
    AppConfig { deezer_arl: nonblank_text(deezer_arl) }
}

/// The answer detail when a new ARL fails validation.
pub fn invalid_arl_detail(error: &str) -> (r: String)
    ensures
        r@ == "Invalid Deezer ARL: "@ + error@,
{
    let mut m = String::from_str("Invalid Deezer ARL: ");
    m.append(error);
    m
}

/// A lyrics request as the server works with it.
#[derive(Clone, Debug)]
pub struct LyricsRequest {
    pub title: String,
    pub artist: String,
    pub spotify_id: String,
    pub duration_ms: Option<u64>,
    pub backend: BackendMode,
    pub include_debug: bool,
}

/// The detail of the answer to a request that names no track.
pub open spec fn missing_fields_detail() -> Seq<char> {
    "title and artist are required when spotifyId is missing"@
}

/// An optional text, empty when absent.
pub open spec fn or_empty(value: Option<Seq<char>>) -> Seq<char> {
    match value {
        Some(v) => v,
        None => seq![],
    }
}

/// An optional `&str`'s text.
pub open spec fn opt_str(value: Option<&str>) -> Option<Seq<char>> {
    match value {
        Some(v) => Some(v@),
        None => None,
    }
}

/// Reads a lyrics request: title, artist and Spotify id trimmed (absent means empty), the
/// backend parsed, debugging off unless asked for. Without a Spotify id both the title and
/// the artist are needed; otherwise the answer is that detail.
pub fn lyrics_request(
    title: Option<&str>,
    artist: Option<&str>,
    spotify_id: Option<&str>,
    duration_ms: Option<u64>,
    backend: Option<&str>,
    debug: Option<bool>,
) -> (r: Result<LyricsRequest, String>)
    ensures
        ({
            let t = trim(or_empty(opt_str(title)));
            let a = trim(or_empty(opt_str(artist)));
            let s = trim(or_empty(opt_str(spotify_id)));
            if s.len() == 0 && (t.len() == 0 || a.len() == 0) {
                r matches Err(d) && d@ == missing_fields_detail()
            } else {
                r matches Ok(q) && q.title@ == t && q.artist@ == a && q.spotify_id@ == s
                    && q.duration_ms == duration_ms && q.backend == backend_of(opt_str(backend))
                    && q.include_debug == (debug == Some(true))
            }
        }),
{
    let t = match title {
        Some(v) => trim_chars(chars_of(v).as_slice()),
        None => Vec::new(),
    };
    let a = match artist {
        Some(v) => trim_chars(chars_of(v).as_slice()),
        None => Vec::new(),
    };
    let s = match spotify_id {
        Some(v) => trim_chars(chars_of(v).as_slice()),
        None => Vec::new(),
    };
    proof {
        assert(trim(Seq::<char>::empty()) =~= Seq::<char>::empty());
    }
    if s.len() == 0 && (t.len() == 0 || a.len() == 0) {
        return Err(String::from_str("title and artist are required when spotifyId is missing"));
    }
    let include_debug = match debug {
        Some(d) => d,
        None => false,
    };
    Ok(LyricsRequest {
        title: string_of(t.as_slice()),
        artist: string_of(a.as_slice()),
        spotify_id: string_of(s.as_slice()),
        duration_ms,
        backend: parse_backend_mode(backend),
        include_debug,
    })
}

} // verus!
