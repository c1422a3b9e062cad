//! Which browser origins may call the server: configured ones, loopback and Spotify web
//! pages, and the app schemes that Spicetify and desktop shells use.
use vstd::prelude::*;

use crate::provider_util::{split_char, split_char_chars};
use crate::text::{
    chars_of, eq_ignore_ascii_case, eq_ignore_case_chars, find, is_digit_char, slice_chars,
    string_of, trim, trim_chars, views,
};

verus! {

/// `s` without its trailing slashes.
pub open spec fn without_trailing_slashes(s: Seq<char>) -> Seq<char>
    decreases s.len(),
{
    if s.len() > 0 && s.last() == '/' {
        without_trailing_slashes(s.drop_last())
    } else {
        s
    }
}

/// The configured origins: the comma-separated entries, each trimmed and without trailing
/// slashes, the empty ones left out.
pub open spec fn origin_list(parts: Seq<Seq<char>>) -> Seq<Seq<char>>
    decreases parts.len(),
{
    if parts.len() == 0 {
        seq![]
    } else {
        let prev = origin_list(parts.drop_last());
        let e = without_trailing_slashes(trim(parts.last()));
        if e.len() == 0 {
            prev
        } else {
            prev.push(e)
        }
    }
}

/// The views of a list of strings.
pub open spec fn string_texts(v: Seq<String>) -> Seq<Seq<char>> {
    v.map_values(|s: String| s@)
}

/// Reads the configured origins.
pub fn allowed_origins(value: &str) -> (r: Vec<String>)
    ensures
        string_texts(r@) == origin_list(split_char(value@, ',')),
{
    let parts = split_char_chars(chars_of(value).as_slice(), ',');
    let ghost ps = split_char(value@, ',');
    let mut r: Vec<String> = Vec::new();
    let mut i: usize = 0;
    assert(ps.take(0) =~= Seq::<Seq<char>>::empty());
    while i < parts.len()
        invariant
            i <= parts.len(),
            views(parts@) == ps,
            ps == split_char(value@, ','),
            string_texts(r@) == origin_list(ps.take(i as int)),
        decreases parts.len() - i,
    {
        assert(ps.take(i + 1).drop_last() =~= ps.take(i as int));
        assert(ps.take(i + 1).last() == parts@[i as int]@);
        let t = trim_chars(parts[i].as_slice());
        let mut end = t.len();
        assert(t@.take(end as int) =~= t@);
        while end > 0 && t[end - 1] == '/'
            invariant
                end <= t.len(),
                without_trailing_slashes(t@) == without_trailing_slashes(t@.take(end as int)),
            decreases end,
        {
            assert(t@.take(end as int).drop_last() =~= t@.take(end - 1));
            end -= 1;
        }
        let e = slice_chars(t.as_slice(), 0, end);
        assert(e@ =~= t@.take(end as int));
        if e.len() > 0 {
            let ghost before = string_texts(r@);
            r.push(string_of(e.as_slice()));
            assert(string_texts(r@) =~= before.push(e@));
        }
        i += 1;
    }
    assert(ps.take(i as int) =~= ps);
    r
}

/// The scheme and host of a parsed address.
pub struct UrlParts {
    pub scheme: String,
    pub host: Option<String>,
}

/// The text of parsed address parts.
pub open spec fn url_parts_view(u: Option<UrlParts>) -> Option<(Seq<char>, Option<Seq<char>>)> {
    match u {
        Some(p) => Some(
            (
                p.scheme@,
                match p.host {
                    Some(h) => Some(h@),
                    None => None,
                },
            ),
        ),
        None => None,
    }
}

/// The scheme and host an address has, when it parses.
pub uninterp spec fn parsed_url(text: Seq<char>) -> Option<(Seq<char>, Option<Seq<char>>)>;

/// Parses an address with `url::Url::parse` (through `reqwest::Url`): none when it does not
/// parse, else its scheme and its host as `host_str` gives it. The contract only names the
/// outcome as a function of the text.
#[verifier::external_body]
fn parse_url(text: &str) -> (r: Option<UrlParts>)
    ensures
        url_parts_view(r) == parsed_url(text@),
{
    match reqwest::Url::parse(text) {
        Ok(url) => Some(
            UrlParts { scheme: url.scheme().to_string(), host: url.host_str().map(String::from) },
        ),
        Err(_) => None,
    }
}

/// One number of a dotted IPv4 address: one to three digits, no leading zero, at most 255.
pub open spec fn octet_of(p: Seq<char>) -> Option<nat> {
    if 1 <= p.len() <= 3 && (forall|i: int| 0 <= i < p.len() ==> is_digit_char(p[i])) && !(p.len()
        > 1 && p[0] == '0') && crate::text::digits_value(p) <= 255 {
        Some(crate::text::digits_value(p))
    } else {
        None
    }
}

/// A loopback IPv4 address written as four dotted numbers, the first 127.
pub open spec fn ipv4_loopback(host: Seq<char>) -> bool {
    let parts = split_char(host, '.');
    parts.len() == 4 && (forall|i: int| 0 <= i < 4 ==> #[trigger] octet_of(parts[i]) is Some)
        && octet_of(parts[0]) == Some(127nat)
}

/// The number a piece of an IPv4 address gives, if it is a valid one.
fn octet(p: &[char]) -> (r: Option<u64>)
    ensures
        match octet_of(p@) {
            Some(n) => r == Some(n as u64),
            None => r is None,
        },
{
    if p.len() < 1 || p.len() > 3 || (p.len() > 1 && p[0] == '0') {
        return None;
    }
    let mut k: usize = 0;
    while k < p.len()
        invariant
            k <= p.len(),
            forall|i: int| 0 <= i < k ==> is_digit_char(p@[i]),
        decreases p.len() - k,
    {
        let v = p[k] as u32;
        if v < 48 || v > 57 {
            assert(!is_digit_char(p@[k as int]));
            return None;
        }
        k += 1;
    }
    match crate::text::parse_u64_chars(p) {
        Some(n) => {
            assert(crate::text::unsigned_digits(p@) =~= p@) by {
                assert(is_digit_char(p@[0]));
            }
            if n <= 255 {
                Some(n)
            } else {
                None
            }
        },
        None => {
            assert(crate::text::unsigned_digits(p@) =~= p@) by {
                assert(is_digit_char(p@[0]));
            }
            assert(crate::text::digits_value(p@) <= 999) by {
                lemma_three_digits(p@);
            }
            None
        },
    }
}

/// Three digits or fewer make at most 999.
proof fn lemma_three_digits(p: Seq<char>)
    requires
        p.len() <= 3,
        forall|i: int| 0 <= i < p.len() ==> is_digit_char(p[i]),
    ensures
        crate::text::digits_value(p) <= 999,
        p.len() <= 2 ==> crate::text::digits_value(p) <= 99,
        p.len() <= 1 ==> crate::text::digits_value(p) <= 9,
    decreases p.len(),
{
    if p.len() > 0 {
        lemma_three_digits(p.drop_last());
    }
}

/// Whether a host is a loopback IPv4 address.
fn is_ipv4_loopback(host: &[char]) -> (r: bool)
    ensures
        r == ipv4_loopback(host@),
{
    let parts = split_char_chars(host, '.');
    let ghost ps = split_char(host@, '.');
    if parts.len() != 4 {
        return false;
    }
    let mut first: u64 = 0;
    let mut i: usize = 0;
    while i < 4
        invariant
            i <= 4,
            parts.len() == 4,
            views(parts@) == ps,
            ps == split_char(host@, '.'),
            forall|j: int| 0 <= j < i ==> #[trigger] octet_of(ps[j]) is Some,
            i > 0 ==> octet_of(ps[0]) == Some(first as nat),
        decreases 4 - i,
    {
        assert(parts@[i as int]@ == ps[i as int]);
        match octet(parts[i].as_slice()) {
            None => return false,
            Some(n) => {
                if i == 0 {
                    first = n;
                }
            },
        }
        i += 1;
    }
    first == 127
}

/// Whether a character is a hexadecimal digit.
pub open spec fn is_hex_char(c: char) -> bool {
    is_digit_char(c) || (97 <= (c as u32) <= 102) || (65 <= (c as u32) <= 70)
}

/// The value of a hexadecimal digit.
pub open spec fn hex_digit_value(c: char) -> nat {
    if is_digit_char(c) {
        ((c as u32) - 48) as nat
    } else if 97 <= (c as u32) <= 102 {
        ((c as u32) - 87) as nat
    } else {
        ((c as u32) - 55) as nat
    }
}

/// The number that hexadecimal digits spell.
pub open spec fn hex_value(p: Seq<char>) -> nat
    decreases p.len(),
{
    if p.len() == 0 {
        0
    } else {
        hex_value(p.drop_last()) * 16 + hex_digit_value(p.last())
    }
}

/// One group of an IPv6 address: one to four hexadecimal digits.
pub open spec fn hex_group(p: Seq<char>) -> bool {
    1 <= p.len() <= 4 && forall|i: int| 0 <= i < p.len() ==> is_hex_char(#[trigger] p[i])
}

/// The two 16-bit groups that an IPv4 address written at the end of an IPv6 one stands
/// for, when `p` is four dotted numbers.
pub open spec fn ipv4_groups(p: Seq<char>) -> Option<Seq<nat>> {
    let ps = split_char(p, '.');
    if ps.len() == 4 && (forall|i: int| 0 <= i < 4 ==> #[trigger] octet_of(ps[i]) is Some) {
        Some(
            seq![
                octet_of(ps[0])->0 * 256 + octet_of(ps[1])->0,
                octet_of(ps[2])->0 * 256 + octet_of(ps[3])->0,
            ],
        )
    } else {
        None
    }
}

/// The groups that colon-separated pieces stand for: every piece a hexadecimal group,
/// except that the last may be an IPv4 address standing for two groups where `v4_last`
/// allows it; none when a piece is neither.
pub open spec fn piece_groups(parts: Seq<Seq<char>>, v4_last: bool) -> Option<Seq<nat>> {
    if parts.len() == 0 {
        Some(seq![])
    } else if forall|i: int| 0 <= i < parts.len() - 1 ==> #[trigger] hex_group(parts[i]) {
        let front = parts.drop_last().map_values(|p: Seq<char>| hex_value(p));
        if hex_group(parts.last()) {
            Some(front.push(hex_value(parts.last())))
        } else if v4_last && ipv4_groups(parts.last()) is Some {
            Some(front + ipv4_groups(parts.last())->0)
        } else {
            None
        }
    } else {
        None
    }
}

/// The groups of the stretch of an IPv6 address on one side of `::`: none for an empty
/// stretch, else those of its colon-separated pieces.
pub open spec fn stretch_groups(s: Seq<char>, v4_last: bool) -> Option<Seq<nat>> {
    if s.len() == 0 {
        Some(seq![])
    } else {
        piece_groups(split_char(s, ':'), v4_last)
    }
}

/// The eight 16-bit groups of an IPv6 address text: eight colon-separated hexadecimal
/// groups, the last two of which may be written as an IPv4 address; or the groups before
/// and after the first `::`, which stands for at least one zero group (an IPv4 address
/// only after it). None for any other text.
pub open spec fn ipv6_groups(s: Seq<char>) -> Option<Seq<nat>> {
    match find(s, seq![':', ':']) {
        Some(k) => match (stretch_groups(s.take(k), false), stretch_groups(s.skip(k + 2), true)) {
            (Some(h), Some(t)) => if h.len() + t.len() <= 7 {
                Some(h + Seq::new((8 - h.len() - t.len()) as nat, |i: int| 0nat) + t)
            } else {
                None
            },
            _ => None,
        },
        None => match piece_groups(split_char(s, ':'), true) {
            Some(g) => if g.len() == 8 {
                Some(g)
            } else {
                None
            },
            None => None,
        },
    }
}

/// Whether `host` is an IPv6 text for the loopback address `::1`.
pub open spec fn ipv6_loopback(host: Seq<char>) -> bool {
    ipv6_groups(host) == Some(seq![0nat, 0, 0, 0, 0, 0, 0, 1])
}

/// The numbers of a list, as natural numbers.
pub open spec fn nats(v: Seq<u64>) -> Seq<nat> {
    v.map_values(|x: u64| x as nat)
}

/// The value of a hexadecimal digit, if `c` is one.
fn hex_digit_of(c: char) -> (r: Option<u64>)
    ensures
        match r {
            Some(d) => is_hex_char(c) && d == hex_digit_value(c) && d < 16,
            None => !is_hex_char(c),
        },
{
    let v = c as u32;
    if 48 <= v && v <= 57 {
        Some((v - 48) as u64)
    } else if 97 <= v && v <= 102 {
        Some((v - 87) as u64)
    } else if 65 <= v && v <= 70 {
        Some((v - 55) as u64)
    } else {
        None
    }
}

/// The value of a hexadecimal group, if `p` is one.
fn hex_group_value(p: &[char]) -> (r: Option<u64>)
    ensures
        match r {
            Some(v) => hex_group(p@) && v == hex_value(p@),
            None => !hex_group(p@),
        },
{
    if p.len() < 1 || p.len() > 4 {
        return None;
    }
    let mut v: u64 = 0;
    let mut k: usize = 0;
    while k < p.len()
        invariant
            k <= p.len() <= 4,
            forall|i: int| 0 <= i < k ==> is_hex_char(#[trigger] p@[i]),
            v == hex_value(p@.take(k as int)),
            k == 0 ==> v == 0,
            k <= 1 ==> v < 16,
            k <= 2 ==> v < 256,
            k <= 3 ==> v < 4096,
        decreases p.len() - k,
    {
        match hex_digit_of(p[k]) {
            None => return None,
            Some(d) => {
                assert(p@.take(k + 1).drop_last() =~= p@.take(k as int));
                v = v * 16 + d;
            },
        }
        k += 1;
    }
    assert(p@.take(k as int) =~= p@);
    Some(v)
}

/// The two groups an embedded IPv4 address stands for, if `p` is one.
fn ipv4_group_pair(p: &[char]) -> (r: Option<(u64, u64)>)
    ensures
        match ipv4_groups(p@) {
            Some(g) => r matches Some((hi, lo)) && g == seq![hi as nat, lo as nat],
            None => r is None,
        },
{
    let parts = split_char_chars(p, '.');
    let ghost ps = split_char(p@, '.');
    if parts.len() != 4 {
        return None;
    }
    let mut octets: Vec<u64> = Vec::new();
    let mut i: usize = 0;
    while i < 4
        invariant
            i <= 4,
            parts.len() == 4,
            views(parts@) == ps,
            ps == split_char(p@, '.'),
            octets.len() == i,
            forall|j: int| 0 <= j < i ==> #[trigger] octet_of(ps[j]) == Some(octets@[j] as nat),
            forall|j: int| 0 <= j < i ==> octets@[j] <= 255,
        decreases 4 - i,
    {
        assert(parts@[i as int]@ == ps[i as int]);
        match octet(parts[i].as_slice()) {
            None => return None,
            Some(n) => {
                octets.push(n);
            },
        }
        i += 1;
    }
    Some((octets[0] * 256 + octets[1], octets[2] * 256 + octets[3]))
}

/// The groups that colon-separated pieces stand for (see `piece_groups`).
fn piece_group_values(parts: &Vec<Vec<char>>, v4_last: bool) -> (r: Option<Vec<u64>>)
    ensures
        match piece_groups(views(parts@), v4_last) {
            Some(g) => r matches Some(v) && nats(v@) == g,
            None => r is None,
        },
{
    let ghost ps = views(parts@);
    if parts.len() == 0 {
        let out: Vec<u64> = Vec::new();
        assert(nats(out@) =~= seq![]);
        return Some(out);
    }
    let last = parts.len() - 1;
    let mut out: Vec<u64> = Vec::new();
    let mut i: usize = 0;
    while i < last
        invariant
            i <= last,
            last + 1 == parts.len(),
            ps == views(parts@),
            forall|j: int| 0 <= j < i ==> #[trigger] hex_group(ps[j]),
            nats(out@) == ps.take(i as int).map_values(|p: Seq<char>| hex_value(p)),
        decreases last - i,
    {
        assert(parts@[i as int]@ == ps[i as int]);
        match hex_group_value(parts[i].as_slice()) {
            None => {
                assert(!hex_group(ps[i as int]));
                return None;
            },
            Some(v) => {
                let ghost before = out@;
                out.push(v);
                assert(ps.take(i + 1) =~= ps.take(i as int).push(ps[i as int]));
                assert(nats(out@) =~= nats(before).push(v as nat));
                assert(nats(out@) =~= ps.take(i + 1).map_values(|p: Seq<char>| hex_value(p)));
            },
        }
        i += 1;
    }
    assert(ps.take(last as int) =~= ps.drop_last());
    assert(parts@[last as int]@ == ps.last());
    let ghost front = nats(out@);
    match hex_group_value(parts[last].as_slice()) {
        Some(v) => {
            out.push(v);
            assert(nats(out@) =~= front.push(v as nat));
            Some(out)
        },
        None => {
            if v4_last {
                match ipv4_group_pair(parts[last].as_slice()) {
                    Some((hi, lo)) => {
                        out.push(hi);
                        out.push(lo);
                        assert(nats(out@) =~= front + seq![hi as nat, lo as nat]);
                        Some(out)
                    },
                    None => None,
                }
            } else {
                None
            }
        },
    }
}

/// The groups of the stretch on one side of `::` (see `stretch_groups`).
fn stretch_group_values(s: &[char], v4_last: bool) -> (r: Option<Vec<u64>>)
    ensures
        match stretch_groups(s@, v4_last) {
            Some(g) => r matches Some(v) && nats(v@) == g,
            None => r is None,
        },
{
    if s.len() == 0 {
        let out: Vec<u64> = Vec::new();
        assert(nats(out@) =~= seq![]);
        Some(out)
    } else {
        let parts = split_char_chars(s, ':');
        piece_group_values(&parts, v4_last)
    }
}

/// The eight groups of an IPv6 address text (see `ipv6_groups`).
fn ipv6_group_values(s: &[char]) -> (r: Option<Vec<u64>>)
    ensures
        match ipv6_groups(s@) {
            Some(g) => r matches Some(v) && nats(v@) == g,
            None => r is None,
        },
{
    let sep = vec![':', ':'];
    assert(sep@ =~= seq![':', ':']);
    match crate::text::find_chars(s, sep.as_slice(), 0) {
        Some(k) => {
            let head = slice_chars(s, 0, k);
            let tail = slice_chars(s, k + 2, s.len());
            assert(head@ =~= s@.take(k as int));
            assert(tail@ =~= s@.skip(k + 2));
            let h = stretch_group_values(head.as_slice(), false);
            let t = stretch_group_values(tail.as_slice(), true);
            match (h, t) {
                (Some(hv), Some(tv)) => {
                    if hv.len() <= 7 && tv.len() <= 7 - hv.len() {
                        let zeros = 8 - hv.len() - tv.len();
                        let mut out = hv;
                        let ghost hg = nats(out@);
                        let mut z: usize = 0;
                        while z < zeros
                            invariant
                                z <= zeros,
                                nats(out@) == hg + Seq::new(z as nat, |i: int| 0nat),
                            decreases zeros - z,
                        {
                            let ghost before = out@;
                            out.push(0);
                            assert(nats(out@) =~= nats(before).push(0nat));
                            assert(Seq::new((z + 1) as nat, |i: int| 0nat) =~= Seq::new(
                                z as nat,
                                |i: int| 0nat,
                            ).push(0nat));
                            z += 1;
                        }
                        let ghost mid = nats(out@);
                        let mut j: usize = 0;
                        while j < tv.len()
                            invariant
                                j <= tv.len(),
                                nats(out@) == mid + nats(tv@).take(j as int),
                            decreases tv.len() - j,
                        {
                            let ghost before = out@;
                            out.push(tv[j]);
                            assert(nats(out@) =~= nats(before).push(tv@[j as int] as nat));
                            assert(nats(tv@).take(j + 1) =~= nats(tv@).take(j as int).push(
                                tv@[j as int] as nat,
                            ));
                            j += 1;
                        }
                        assert(nats(tv@).take(j as int) =~= nats(tv@));
                        Some(out)
                    } else {
                        None
                    }
                },
                _ => None,
            }
        },
        None => {
            let parts = split_char_chars(s, ':');
            match piece_group_values(&parts, true) {
                Some(g) => if g.len() == 8 {
                    Some(g)
                } else {
                    None
                },
                None => None,
            }
        },
    }
}

/// Whether a host is an IPv6 text for the loopback address.
fn is_ipv6_loopback(host: &[char]) -> (r: bool)
    ensures
        r == ipv6_loopback(host@),
{
    match ipv6_group_values(host) {
        None => false,
        Some(v) => {
            let r = v.len() == 8 && v[0] == 0 && v[1] == 0 && v[2] == 0 && v[3] == 0 && v[4] == 0
                && v[5] == 0 && v[6] == 0 && v[7] == 1;
            proof {
                let target = seq![0nat, 0, 0, 0, 0, 0, 0, 1];
                if r {
                    assert(nats(v@) =~= target);
                } else if nats(v@) == target {
                    assert(nats(v@).len() == v@.len());
                    assert forall|i: int| 0 <= i < 8 implies v@[i] as nat == target[i] by {
                        assert(nats(v@)[i] == v@[i] as nat);
                    }
                    assert(false);
                }
            }
            r
        },
    }
}

/// A host that names this machine: `localhost` in any ASCII case, a loopback IPv4
/// address, or an IPv6 text for `::1` (address parsing gives IPv6 hosts in brackets,
/// which are none of these).
pub open spec fn loopback_host(host: Seq<char>) -> bool {
    eq_ignore_ascii_case(host, "localhost"@) || ipv4_loopback(host) || ipv6_loopback(host)
}

/// Whether a host names this machine.
pub fn is_loopback_host(host: &str) -> (r: bool)
    ensures
        r == loopback_host(host@),
{
    let h = chars_of(host);
    let l = chars_of("localhost");
    eq_ignore_case_chars(h.as_slice(), l.as_slice()) || is_ipv4_loopback(h.as_slice())
        || is_ipv6_loopback(h.as_slice())
}

/// Whether a host is Spotify's web player.
pub fn is_trusted_spotify_host(host: &str) -> (r: bool)
    ensures
        r == eq_ignore_ascii_case(host@, "xpui.app.spotify.com"@),
{
    let h = chars_of(host);
    let s = chars_of("xpui.app.spotify.com");
    eq_ignore_case_chars(h.as_slice(), s.as_slice())
}

/// Whether an origin may call the server: after trimming it is not empty, and it is one of
/// the configured origins (or `*` is configured), or it parses with scheme `http` or
/// `https` and a loopback or Spotify host, or with one of the app schemes `spicetify`,
/// `spotify`, `app`, `file` and `tauri`.
pub open spec fn trusted_origin(origin: Seq<char>, allowed: Seq<Seq<char>>) -> bool {
    let o = trim(origin);
    if o.len() == 0 {
        false
    } else if allowed.contains(o) || allowed.contains("*"@) {
        true
    } else {
        parts_trusted(parsed_url(o))
    }
}

/// Whether a parsed origin is trusted: scheme `http` or `https` with a loopback or Spotify
/// host, or one of the app schemes `spicetify`, `spotify`, `app`, `file` and `tauri`; an
/// origin that did not parse is not.
pub open spec fn parts_trusted(parts: Option<(Seq<char>, Option<Seq<char>>)>) -> bool {
    match parts {
        None => false,
        Some((scheme, host)) => if scheme == "http"@ || scheme == "https"@ {
            match host {
                Some(h) => loopback_host(h) || eq_ignore_ascii_case(h, "xpui.app.spotify.com"@),
                None => false,
            }
        } else {
            scheme == "spicetify"@ || scheme == "spotify"@ || scheme == "app"@ || scheme
                == "file"@ || scheme == "tauri"@
        },
    }
}

/// Whether `allowed` holds `x` or `*`.
fn allowed_contains(allowed: &[String], x: &str) -> (r: bool)
    ensures
        r == (string_texts(allowed@).contains(x@) || string_texts(allowed@).contains("*"@)),
{
    let mut i: usize = 0;
    while i < allowed.len()
        invariant
            i <= allowed.len(),
            forall|j: int| 0 <= j < i ==> allowed@[j]@ != x@ && allowed@[j]@ != "*"@,
        decreases allowed.len() - i,
    {
        if crate::text::str_equals(allowed[i].as_str(), x) || crate::text::str_equals(
            allowed[i].as_str(),
            "*",
        ) {
            assert(string_texts(allowed@)[i as int] == allowed@[i as int]@);
            return true;
        }
        i += 1;
    }
    assert(!string_texts(allowed@).contains(x@) && !string_texts(allowed@).contains("*"@)) by {
        if string_texts(allowed@).contains(x@) {
            let j = choose|j: int|
                0 <= j < string_texts(allowed@).len() && string_texts(allowed@)[j] == x@;
            assert(allowed@[j]@ == x@);
        }
        if string_texts(allowed@).contains("*"@) {
            let j = choose|j: int|
                0 <= j < string_texts(allowed@).len() && string_texts(allowed@)[j] == "*"@;
            assert(allowed@[j]@ == "*"@);
        }
    }
    false
}

/// Whether the characters of `a` are those of the text `b`.
fn is_text(a: &str, b: &str) -> (r: bool)
    ensures
        r == (a@ == b@),
{
    crate::text::str_equals(a, b)
}

/// Whether an origin may call the server, given the configured origins.
pub fn is_trusted_origin_str(origin: &str, allowed: &[String]) -> (r: bool)
    ensures
        r == trusted_origin(origin@, string_texts(allowed@)),
{
    let o = string_of(trim_chars(chars_of(origin).as_slice()).as_slice());
    if o.as_str().is_empty() {
        return false;
    }
    if allowed_contains(allowed, o.as_str()) {
        return true;
    }
    let parts = parse_url(o.as_str());
    is_trusted_url_parts(&parts)
}

/// Whether a parsed origin is trusted (see `parts_trusted`).
pub fn is_trusted_url_parts(parts: &Option<UrlParts>) -> (r: bool)
    ensures
        r == parts_trusted(url_parts_view(*parts)),
{
    match parts {
        None => false,
        Some(u) => {
            let scheme = u.scheme.as_str();
            if is_text(scheme, "http") || is_text(scheme, "https") {
                match &u.host {
                    Some(h) => is_loopback_host(h.as_str()) || is_trusted_spotify_host(h.as_str()),
                    None => false,
                }
            } else {
                is_text(scheme, "spicetify") || is_text(scheme, "spotify") || is_text(scheme, "app")
                    || is_text(scheme, "file") || is_text(scheme, "tauri")
            }
        },
    }
}


/// Why an administrative request is refused, with the status: a client that is not on
/// this machine, or an `Origin` header (`Some(None)` when it is not text) that is not
/// trusted; none when the request may go on.
pub open spec fn admin_refusal_of(remote_loopback: bool, origin: Option<Option<Seq<char>>>, allowed: Seq<
    Seq<char>,
>) -> Option<(u16, Seq<char>)> {
    if !remote_loopback {
        Some((403, "Admin endpoint is only available from loopback clients."@))
    } else {
        match origin {
            Some(Some(o)) => if trusted_origin(o, allowed) {
                None
            } else {
                Some((403, "Origin is not allowed for admin endpoints."@))
            },
            Some(None) => Some((403, "Origin is not allowed for admin endpoints."@)),
            None => None,
        }
    }
}

/// Decides whether an administrative request is refused (see `admin_refusal_of`).
pub fn admin_refusal(remote_loopback: bool, origin: Option<Option<&str>>, allowed: &[String]) -> (r:
    Option<(u16, String)>)
    ensures
        match r {
            Some((status, detail)) => admin_refusal_of(
                remote_loopback,
                match origin {
                    Some(Some(o)) => Some(Some(o@)),
                    Some(None) => Some(None),
                    None => None,
                },
                string_texts(allowed@),
            ) == Some((status, detail@)),
            None => admin_refusal_of(
                remote_loopback,
                match origin {
                    Some(Some(o)) => Some(Some(o@)),
                    Some(None) => Some(None),
                    None => None,
                },
                string_texts(allowed@),
            ) is None,
        },
{
    if !remote_loopback {
        return Some((403, String::from_str("Admin endpoint is only available from loopback clients.")));
    }
    match origin {
        Some(Some(o)) => if is_trusted_origin_str(o, allowed) {
            None
        } else {
            Some((403, String::from_str("Origin is not allowed for admin endpoints.")))
        },
        Some(None) => Some((403, String::from_str("Origin is not allowed for admin endpoints."))),
        None => None,
    }
}

} // verus!
