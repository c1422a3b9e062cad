//! What the server's log says: tags, how values are shown, the Korean summaries of error
//! details, the line layout, and when the log file is rotated.
use vstd::prelude::*;

use crate::server::BackendMode;
use crate::text::{
    chars_of, decimal, fixed_digits, push_decimal, push_fixed_digits, starts_with, str_equals,
    string_of, trim, trim_chars,
};

verus! {

/// The size past which the log file is rotated: 2 MiB.
pub const LOG_MAX_BYTES: u64 = 2097152;

/// The log tag of a backend mode.
pub open spec fn backend_tag(backend: BackendMode) -> Seq<char> {
    match backend {
        BackendMode::Auto => "Auto"@,
        BackendMode::Musicxmatch => "MusicXMatch"@,
        BackendMode::Deezer => "Deezer"@,
        BackendMode::Bugs => "Bugs"@,
        BackendMode::Genie => "Genie"@,
    }
}

/// The log tag of a backend mode.
pub fn backend_log_tag(backend: BackendMode) -> (r: &'static str)
    ensures
        r@ == backend_tag(backend),
{
    match backend {
        BackendMode::Auto => "Auto",
        BackendMode::Musicxmatch => "MusicXMatch",
        BackendMode::Deezer => "Deezer",
        BackendMode::Bugs => "Bugs",
        BackendMode::Genie => "Genie",
    }
}

/// The log tag of a provider name; unknown names log as the server.
pub open spec fn provider_tag(provider: Seq<char>) -> Seq<char> {
    if provider == "musicxmatch"@ {
        "MusicXMatch"@
    } else if provider == "deezer"@ {
        "Deezer"@
    } else if provider == "bugs"@ {
        "Bugs"@
    } else if provider == "genie"@ {
        "Genie"@
    } else {
        "Server"@
    }
}

/// The log tag of a provider name.
pub fn provider_log_tag(provider: &str) -> (r: &'static str)
    ensures
        r@ == provider_tag(provider@),
{
    if str_equals(provider, "musicxmatch") {
        "MusicXMatch"
    } else if str_equals(provider, "deezer") {
        "Deezer"
    } else if str_equals(provider, "bugs") {
        "Bugs"
    } else if str_equals(provider, "genie") {
        "Genie"
    } else {
        "Server"
    }
}

/// A text as logged: trimmed, or `-` when nothing is left.
pub open spec fn shown(value: Seq<char>) -> Seq<char> {
    if trim(value).len() == 0 {
        "-"@
    } else {
        trim(value)
    }
}

/// A text as logged.
pub fn display_str(value: &str) -> (r: String)
    ensures
        r@ == shown(value@),
{
    let t = trim_chars(chars_of(value).as_slice());
    if t.len() == 0 {
        String::from_str("-")
    } else {
        string_of(t.as_slice())
    }
}

/// An optional text as logged: `-` when absent or blank.
pub fn display_opt_text(value: Option<&str>) -> (r: String)
    ensures
        r@ == match value {
            Some(v) => shown(v@),
            None => "-"@,
        },
{
    match value {
        Some(v) => display_str(v),
        None => String::from_str("-"),
    }
}

/// An optional number as logged: its decimal digits, or `-`.
pub fn display_opt_u64(value: Option<u64>) -> (r: String)
    ensures
        r@ == match value {
            Some(n) => decimal(n as nat),
            None => "-"@,
        },
{
    match value {
        Some(n) => {
            let mut digits: Vec<char> = Vec::new();
            push_decimal(&mut digits, n);
            assert(digits@ =~= decimal(n as nat));
            string_of(digits.as_slice())
        },
        None => String::from_str("-"),
    }
}

/// `true` or `false`.
pub fn bool_text(value: bool) -> (r: &'static str)
    ensures
        r@ == if value {
            "true"@
        } else {
            "false"@
        },
{
    if value {
        "true"
    } else {
        "false"
    }
}

/// How a match was found, in Korean; `-` for none or an unknown way.
pub open spec fn matched_by_label(value: Option<Seq<char>>) -> Seq<char> {
    match value {
        None => "-"@,
        Some(v) => if v == "track_id"@ {
            "트랙 ID 직접 조회"@
        } else if v == "search:title+artist"@ {
            "제목+아티스트 검색"@
        } else if v == "search:title"@ {
            "제목 검색"@
        } else if v == "search:artist"@ {
            "아티스트 검색"@
        } else if v == "matcher:variants"@ {
            "변형 매처"@
        } else if v == "matcher:original"@ {
            "원본 매처"@
        } else {
            "-"@
        },
    }
}

/// How a match was found, in Korean.
pub fn matched_by_text(value: Option<&str>) -> (r: &'static str)
    ensures
        r@ == matched_by_label(
            match value {
                Some(v) => Some(v@),
                None => None,
            },
        ),
{
    match value {
        None => "-",
        Some(v) => if str_equals(v, "track_id") {
            "트랙 ID 직접 조회"
        } else if str_equals(v, "search:title+artist") {
            "제목+아티스트 검색"
        } else if str_equals(v, "search:title") {
            "제목 검색"
        } else if str_equals(v, "search:artist") {
            "아티스트 검색"
        } else if str_equals(v, "matcher:variants") {
            "변형 매처"
        } else if str_equals(v, "matcher:original") {
            "원본 매처"
        } else {
            "-"
        },
    }
}

/// The Korean summary of an error detail for the log: known details are translated,
/// a Deezer ARL validation failure is summarized, anything else is kept trimmed.
pub open spec fn detail_summary(detail: Seq<char>) -> Seq<char> {
    let d = trim(detail);
    if d == "No tracks found"@ {
        "트랙을 찾지 못함"@
    } else if d == "No lyrics are available for this track"@ {
        "가사를 찾지 못함"@
    } else if d == "Musixmatch session expired. Retry in a moment."@ {
        "Musixmatch 세션이 만료됨"@
    } else if d == "Configured Deezer ARL cookie is invalid or expired."@ {
        "Deezer ARL 설정이 잘못되었거나 만료됨"@
    } else if starts_with(d, "Invalid Deezer ARL:"@) {
        "Deezer ARL 설정 검증 실패"@
    } else {
        d
    }
}

/// The Korean summary of an error detail.
pub fn translate_log_detail(detail: &str) -> (r: String)
    ensures
        r@ == detail_summary(detail@),
{
    let d = trim_chars(chars_of(detail).as_slice());
    let a = chars_of("No tracks found");
    let b = chars_of("No lyrics are available for this track");
    let c = chars_of("Musixmatch session expired. Retry in a moment.");
    let e = chars_of("Configured Deezer ARL cookie is invalid or expired.");
    let p = chars_of("Invalid Deezer ARL:");
    if crate::text::chars_equal(d.as_slice(), a.as_slice()) {
        String::from_str("트랙을 찾지 못함")
    } else if crate::text::chars_equal(d.as_slice(), b.as_slice()) {
        String::from_str("가사를 찾지 못함")
    } else if crate::text::chars_equal(d.as_slice(), c.as_slice()) {
        String::from_str("Musixmatch 세션이 만료됨")
    } else if crate::text::chars_equal(d.as_slice(), e.as_slice()) {
        String::from_str("Deezer ARL 설정이 잘못되었거나 만료됨")
    } else if crate::text::match_at(d.as_slice(), p.as_slice(), 0) {
        String::from_str("Deezer ARL 설정 검증 실패")
    } else {
        string_of(d.as_slice())
    }
}

/// A message with its tag in front: `[tag] message`.
pub fn tagged_message(tag: &str, message: &str) -> (r: String)
    ensures
        r@ == "["@ + tag@ + "] "@ + message@,
{
    let mut m = String::from_str("[");
    m.append(tag);
    m.append("] ");
    m.append(message);
    m
}

/// A log line: `[timestamp] message` and a line feed.
pub fn log_line(timestamp: &str, message: &str) -> (r: String)
    ensures
        r@ == "["@ + timestamp@ + "] "@ + message@ + "\n"@,
{
    let mut m = String::from_str("[");
    m.append(timestamp);
    m.append("] ");
    m.append(message);
    m.append("\n");
    m
}

/// A log time stamp `yyyy-mm-dd hh:mm:ss`, each part zero-padded.
pub open spec fn timestamp_of(year: nat, month: nat, day: nat, hour: nat, minute: nat, second: nat) -> Seq<
    char,
> {
    fixed_digits(year, 4) + "-"@ + fixed_digits(month, 2) + "-"@ + fixed_digits(day, 2) + " "@
        + fixed_digits(hour, 2) + ":"@ + fixed_digits(minute, 2) + ":"@ + fixed_digits(second, 2)
}

/// The log time stamp of a local date and time.
pub fn log_timestamp(year: u16, month: u8, day: u8, hour: u8, minute: u8, second: u8) -> (r: String)
    ensures
        r@ == timestamp_of(
            year as nat,
            month as nat,
            day as nat,
            hour as nat,
            minute as nat,
            second as nat,
        ),
{
    let mut out: Vec<char> = Vec::new();
    push_fixed_digits(&mut out, year as u64, 4);
    out.push('-');
    push_fixed_digits(&mut out, month as u64, 2);
    out.push('-');
    push_fixed_digits(&mut out, day as u64, 2);
    out.push(' ');
    push_fixed_digits(&mut out, hour as u64, 2);
    out.push(':');
    push_fixed_digits(&mut out, minute as u64, 2);
    out.push(':');
    push_fixed_digits(&mut out, second as u64, 2);
    proof {
        reveal_strlit("-");
        reveal_strlit(" ");
        reveal_strlit(":");
    }
    assert(out@ =~= timestamp_of(
        year as nat,
        month as nat,
        day as nat,
        hour as nat,
        minute as nat,
        second as nat,
    ));
    string_of(out.as_slice())
}

/// Whether a log of `bytes` bytes is past the limit and is rotated.
pub fn needs_rotation(bytes: u64) -> (r: bool)
    ensures
        r == (bytes > LOG_MAX_BYTES),
{
    bytes > LOG_MAX_BYTES
}

/// The byte count after a line of `line_len` bytes is written, saturating.
pub fn bytes_after_write(written: u64, line_len: usize) -> (r: u64)
    ensures
        r == if written + line_len > u64::MAX {
            u64::MAX
        } else {
            (written + line_len) as u64
        },
{
    written.saturating_add(line_len as u64)
}

/// The extension of the rotated log: the current extension with `.1` after it, or `1`
/// when the file has none.
pub fn rotated_extension(extension: Option<&str>) -> (r: String)
    ensures
        r@ == match extension {
            Some(e) => if e@.len() > 0 {
                e@ + ".1"@
            } else {
                "1"@
            },
            None => "1"@,
        },
{
    match extension {
        Some(e) => if e.is_empty() {
            String::from_str("1")
        } else {
            let mut m = String::from_str(e);
            m.append(".1");
            m
        },
        None => String::from_str("1"),
    }
}

} // verus!
