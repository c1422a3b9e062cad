//! Helpers shared by the providers: duration parsing, LRC timestamps, and the retry
//! policy for HTTP requests.
use vstd::prelude::*;

use crate::text::{
    chars_of, decimal2, parse_u64, parse_u64_chars, push_decimal2, slice_chars, string_of, trim,
    trim_chars,
};

verus! {

/// How a millisecond time is brought to hundredths of a second.
#[derive(Clone, Copy, Debug)]
pub enum TimestampRounding {
    Floor,
    Nearest,
}

/// `s` cut at every occurrence of `c`, as `str::split` with a character pattern yields it.
pub open spec fn split_char(s: Seq<char>, c: char) -> Seq<Seq<char>>
    decreases s.len(),
{
    if s.len() == 0 {
        seq![seq![]]
    } else {
        let rest = split_char(s.drop_last(), c);
        if s.last() == c {
            rest.push(seq![])
        } else {
            rest.update(rest.len() - 1, rest.last().push(s.last()))
        }
    }
}

/// Splitting always gives at least one piece.
pub proof fn lemma_split_char_nonempty(s: Seq<char>, c: char)
    ensures
        split_char(s, c).len() >= 1,
    decreases s.len(),
{
    if s.len() > 0 {
        lemma_split_char_nonempty(s.drop_last(), c);
    }
}

/// `n` capped at the largest 64-bit value.
pub open spec fn saturate(n: int) -> u64 {
    if n > u64::MAX {
        u64::MAX
    } else {
        n as u64
    }
}

/// Every piece parses, after trimming, as an unsigned number.
pub open spec fn all_numbers(parts: Seq<Seq<char>>) -> bool {
    forall|i: int| 0 <= i < parts.len() ==> parse_u64(trim(parts[i])) is Some
}

/// The number in piece `i`.
pub open spec fn number_at(parts: Seq<Seq<char>>, i: int) -> u64 {
    parse_u64(trim(parts[i]))->Some_0
}

/// `parse_duration_ms`: `m:s` or `h:m:s` (each part trimmed and unsigned) in milliseconds,
/// every step saturating at the 64-bit limit.
pub open spec fn duration_ms_of(value: Seq<char>) -> Option<u64> {
    let v = trim(value);
    let parts = split_char(v, ':');
    if v.len() == 0 || !all_numbers(parts) {
        None
    } else if parts.len() == 2 {
        Some(
            saturate(
                saturate(saturate(number_at(parts, 0) * 60) + number_at(parts, 1)) * 1000,
            ),
        )
    } else if parts.len() == 3 {
        Some(
            saturate(
                saturate(
                    saturate(saturate(number_at(parts, 0) * 3600) + saturate(number_at(parts, 1) * 60))
                        + number_at(parts, 2),
                ) * 1000,
            ),
        )
    } else {
        None
    }
}

fn sat_mul(a: u64, b: u64) -> (r: u64)
    ensures
        r == saturate(a * b),
{
    match a.checked_mul(b) {
        Some(v) => v,
        None => u64::MAX,
    }
}

fn sat_add(a: u64, b: u64) -> (r: u64)
    ensures
        r == saturate(a + b),
{
    a.saturating_add(b)
}

/// Cuts `s` at every `c`.
pub fn split_char_chars(s: &[char], c: char) -> (r: Vec<Vec<char>>)
    ensures
        crate::text::views(r@) == split_char(s@, c),
{
    let mut done: Vec<Vec<char>> = Vec::new();
    let mut cur: Vec<char> = Vec::new();
    let mut i: usize = 0;
    assert(s@.take(0) =~= Seq::<char>::empty());
    while i < s.len()
        invariant
            i <= s.len(),
            split_char(s@.take(i as int), c) == crate::text::views(done@).push(cur@),
        decreases s.len() - i,
    {
        assert(s@.take(i + 1).drop_last() =~= s@.take(i as int));
        let ghost before = crate::text::views(done@);
        if s[i] == c {
            let piece = cur;
            done.push(piece);
            cur = Vec::new();
            assert(crate::text::views(done@) =~= before.push(piece@));
            assert(split_char(s@.take(i + 1), c) =~= crate::text::views(done@).push(cur@));
        } else {
            cur.push(s[i]);
            assert(split_char(s@.take(i + 1), c) =~= crate::text::views(done@).push(cur@));
        }
        i += 1;
    }
    assert(s@.take(s.len() as int) =~= s@);
    let ghost before = crate::text::views(done@);
    done.push(cur);
    assert(crate::text::views(done@) =~= before.push(done@.last()@));
    done
}

/// Parses a duration written `m:s` or `h:m:s` into milliseconds; every part must be an
/// unsigned number (surrounding white space allowed), and the arithmetic saturates.
pub fn parse_duration_ms(value: &str) -> (r: Option<u64>)
    ensures
        r == duration_ms_of(value@),
{
    let v = chars_of(value);
    duration_ms_from_chars(v.as_slice())
}

/// `parse_duration_ms` on text held as characters.
pub fn duration_ms_from_chars(value: &[char]) -> (r: Option<u64>)
    ensures
        r == duration_ms_of(value@),
{
    let v = trim_chars(value);
    if v.len() == 0 {
        return None;
    }
    let parts = split_char_chars(v.as_slice(), ':');
    let ghost ps = split_char(v@, ':');
    let mut nums: Vec<u64> = Vec::new();
    let mut i: usize = 0;
    while i < parts.len()
        invariant
            i <= parts.len(),
            crate::text::views(parts@) == ps,
            ps == split_char(v@, ':'),
            v@ == trim(value@),
            v.len() > 0,
            nums.len() == i,
            forall|j: int| 0 <= j < i ==> parse_u64(trim(ps[j])) == Some(#[trigger] nums@[j]),
        decreases parts.len() - i,
    {
        let t = trim_chars(parts[i].as_slice());
        assert(parts@[i as int]@ == ps[i as int]);
        match parse_u64_chars(t.as_slice()) {
            Some(n) => nums.push(n),
            None => {
                assert(!all_numbers(ps));
                return None;
            },
        }
        i += 1;
    }
    assert forall|j: int| 0 <= j < ps.len() implies parse_u64(trim(ps[j])) is Some by {
        assert(parse_u64(trim(ps[j])) == Some(nums@[j]));
    }
    assert(all_numbers(ps));
    assert(nums.len() >= 1 ==> number_at(ps, 0) == nums@[0]);
    assert(nums.len() >= 2 ==> number_at(ps, 1) == nums@[1]);
    assert(nums.len() >= 3 ==> number_at(ps, 2) == nums@[2]);
    if nums.len() == 2 {
        Some(sat_mul(sat_add(sat_mul(nums[0], 60), nums[1]), 1000))
    } else if nums.len() == 3 {
        Some(sat_mul(sat_add(sat_add(sat_mul(nums[0], 3600), sat_mul(nums[1], 60)), nums[2]), 1000))
    } else {
        None
    }
}

/// `[mm:ss.cc]` for a time in hundredths of a second; minutes are not capped.
pub open spec fn lrc_stamp(centis: nat) -> Seq<char> {
    seq!['['] + decimal2(centis / 6000) + seq![':'] + decimal2((centis / 100) % 60) + seq!['.']
        + decimal2(centis % 100) + seq![']']
}

/// Hundredths of a second for a time in milliseconds, by the given rounding.
pub open spec fn centis_of(milliseconds: nat, rounding: TimestampRounding) -> nat {
    match rounding {
        TimestampRounding::Floor => milliseconds / 10,
        TimestampRounding::Nearest => (milliseconds + 5) / 10,
    }
}

/// Appends the LRC timestamp for `centis` hundredths of a second.
pub fn push_lrc_stamp(out: &mut Vec<char>, centis: u64)
    ensures
        final(out)@ == old(out)@ + lrc_stamp(centis as nat),
{
    out.push('[');
    push_decimal2(out, centis / 6000);
    out.push(':');
    push_decimal2(out, (centis / 100) % 60);
    out.push('.');
    push_decimal2(out, centis % 100);
    out.push(']');
    assert(out@ =~= old(out)@ + lrc_stamp(centis as nat));
}

/// The LRC timestamp `[mm:ss.cc]` of a time in milliseconds, rounded down or to the
/// nearest hundredth.
pub fn format_lrc_timestamp_ms(milliseconds: u64, rounding: TimestampRounding) -> (r: String)
    requires
        rounding is Nearest ==> milliseconds + 5 <= u64::MAX,
    ensures
        r@ == lrc_stamp(centis_of(milliseconds as nat, rounding)),
{
    let total_centis = match rounding {
        TimestampRounding::Floor => milliseconds / 10,
        TimestampRounding::Nearest => (milliseconds + 5) / 10,
    };
    let mut out: Vec<char> = Vec::new();
    push_lrc_stamp(&mut out, total_centis);
    assert(out@ =~= lrc_stamp(total_centis as nat));
    string_of(out.as_slice())
}

/// Rounding to the nearest hundredth gives the floor, or one hundredth more.
pub proof fn lemma_rounding_modes_differ_by_one(milliseconds: nat)
    ensures
        centis_of(milliseconds, TimestampRounding::Floor) <= centis_of(
            milliseconds,
            TimestampRounding::Nearest,
        ) <= centis_of(milliseconds, TimestampRounding::Floor) + 1,
        milliseconds % 10 < 5 ==> centis_of(milliseconds, TimestampRounding::Floor) == centis_of(
            milliseconds,
            TimestampRounding::Nearest,
        ),
{
}

/// What a request attempt came back with: an HTTP status, or a transport error with the
/// kinds that `reqwest` reports.
#[derive(Clone, Copy, Debug)]
pub enum AttemptOutcome {
    Status(u16),
    Failed { timeout: bool, connect: bool, request: bool },
}

/// What to do after an attempt.
#[derive(Clone, Copy, Debug, PartialEq, Eq)]
pub enum RetryStep {
    /// Wait and send the request again.
    Retry,
    /// Hand the response back.
    Accept,
    /// Report the transport error.
    Fail,
}

/// Number of attempts a request gets.
pub const RETRY_ATTEMPTS: usize = 2;

/// Milliseconds to wait before the next attempt.
pub const RETRY_DELAY_MS: u64 = 250;

/// A status worth another attempt: 429 or a server error (500 to 599).
pub open spec fn retryable_status(status: u16) -> bool {
    status == 429 || (500 <= status <= 599)
}

/// Whether a response status is worth another attempt.
pub fn is_retryable_status(status: u16) -> (r: bool)
    ensures
        r == retryable_status(status),
{
    status == 429 || (500 <= status && status <= 599)
}

/// Whether a transport error is worth another attempt: a timeout, a connection failure,
/// or an error while sending the request.
pub fn is_retryable_error(timeout: bool, connect: bool, request: bool) -> (r: bool)
    ensures
        r == (timeout || connect || request),
{
    timeout || connect || request
}

/// The step after attempt number `attempt` (counted from zero): retry while another
/// attempt remains and the outcome is retryable, otherwise accept a response or fail on
/// an error.
pub open spec fn next_step(attempt: nat, outcome: AttemptOutcome) -> RetryStep {
    let more = attempt + 1 < RETRY_ATTEMPTS;
    match outcome {
        AttemptOutcome::Status(s) => if more && retryable_status(s) {
            RetryStep::Retry
        } else {
            RetryStep::Accept
        },
        AttemptOutcome::Failed { timeout, connect, request } => if more && (timeout || connect
            || request) {
            RetryStep::Retry
        } else {
            RetryStep::Fail
        },
    }
}

/// Decides what `send_with_retry` does after an attempt.
pub fn retry_step(attempt: usize, outcome: AttemptOutcome) -> (r: RetryStep)
    ensures
        r == next_step(attempt as nat, outcome),
{
    let more = attempt < RETRY_ATTEMPTS - 1;
    match outcome {
        AttemptOutcome::Status(s) => if more && is_retryable_status(s) {
            RetryStep::Retry
        } else {
            RetryStep::Accept
        },
        AttemptOutcome::Failed { timeout, connect, request } => if more && is_retryable_error(
            timeout,
            connect,
            request,
        ) {
            RetryStep::Retry
        } else {
            RetryStep::Fail
        },
    }
}

/// The last attempt never asks for another one.
pub proof fn lemma_last_attempt_ends(outcome: AttemptOutcome)
    ensures
        next_step((RETRY_ATTEMPTS - 1) as nat, outcome) != RetryStep::Retry,
{
}

/// A success status: 200 to 299.
pub open spec fn success_status(status: u16) -> bool {
    200 <= status <= 299
}

/// Whether a response status is a success.
pub fn is_success_status(status: u16) -> (r: bool)
    ensures
        r == success_status(status),
{
    200 <= status && status <= 299
}

/// The detail of a failure status: what was asked, `returned`, and the status as shown.
pub fn status_failure(what: &str, status_text: &str) -> (r: String)
    ensures
        r@ == what@ + " returned "@ + status_text@,
{
    let mut m = String::from_str(what);
    m.append(" returned ");
    m.append(status_text);
    m
}

} // verus!
