//! Self-update and upkeep decisions: version comparison, the update commands and script,
//! the search path handed to child processes, restoring the provider add-ons, and the
//! settings read from the environment.
use vstd::prelude::*;

use crate::provider_util::{split_char, split_char_chars};
use crate::text::{
    chars_of, join, join_chars, parse_u64, parse_u64_chars, slice_chars, starts_with, string_of,
    trim, trim_chars, views,
};

verus! {

/// A number as `str::parse::<u32>` reads it.
pub open spec fn parse_u32(s: Seq<char>) -> Option<u32> {
    match parse_u64(s) {
        Some(v) => if v <= u32::MAX {
            Some(v as u32)
        } else {
            None
        },
        None => None,
    }
}

/// The numeric parts of a dotted version; a part that is no number counts as zero.
pub open spec fn version_parts(v: Seq<char>) -> Seq<u32> {
    split_char(v, '.').map_values(
        |p: Seq<char>|
            match parse_u32(p) {
                Some(n) => n,
                None => 0u32,
            },
    )
}

/// A part as a 32-bit signed number, the way `as i32` reads its bits: parts above the
/// largest signed value come out negative.
pub open spec fn signed_part(x: u32) -> int {
    if x <= i32::MAX {
        x as int
    } else {
        x - 0x1_0000_0000
    }
}

/// Part `i` of a version as a signed number, zero past its end.
pub open spec fn part_at(v: Seq<u32>, i: int) -> int {
    if 0 <= i < v.len() {
        signed_part(v[i])
    } else {
        0
    }
}

/// The difference at the first part from `i` on where two versions differ, zero when none
/// does.
pub open spec fn version_order_from(a: Seq<u32>, b: Seq<u32>, i: nat) -> int
    decreases (if a.len() > b.len() {
        a.len()
    } else {
        b.len()
    }) - i,
{
    if i >= a.len() && i >= b.len() {
        0
    } else if part_at(a, i as int) != part_at(b, i as int) {
        part_at(a, i as int) - part_at(b, i as int)
    } else {
        version_order_from(a, b, i + 1)
    }
}

/// How two versions compare: the difference between their first differing parts, each
/// read as a signed 32-bit number, missing parts counting as zero; zero when none differ.
/// While no part is above the largest signed value, it is positive when `left` is later
/// and negative when it is earlier.
pub open spec fn version_order(left: Seq<char>, right: Seq<char>) -> int {
    version_order_from(version_parts(left), version_parts(right), 0)
}

/// The difference at the first part where two versions differ fits in a 32-bit signed
/// number (it always does when no part is above the largest signed value).
pub open spec fn order_fits(left: Seq<char>, right: Seq<char>) -> bool {
    i32::MIN <= version_order(left, right) <= i32::MAX
}

/// The numeric part a piece of a version gives.
fn part_value(p: &[char]) -> (r: u32)
    ensures
        r == match parse_u32(p@) {
            Some(n) => n,
            None => 0u32,
        },
{
    match parse_u64_chars(p) {
        Some(v) => if v <= 0xffff_ffff {
            v as u32
        } else {
            0
        },
        None => 0,
    }
}

/// The numeric parts of a dotted version.
pub fn parse_version(value: &str) -> (r: Vec<u32>)
    ensures
        r@ == version_parts(value@),
{
    let pieces = split_char_chars(chars_of(value).as_slice(), '.');
    let ghost ps = split_char(value@, '.');
    let mut r: Vec<u32> = Vec::new();
    let mut i: usize = 0;
    while i < pieces.len()
        invariant
            i <= pieces.len(),
            views(pieces@) == ps,
            ps == split_char(value@, '.'),
            r@ == ps.take(i as int).map_values(
                |p: Seq<char>|
                    match parse_u32(p) {
                        Some(n) => n,
                        None => 0u32,
                    },
            ),
        decreases pieces.len() - i,
    {
        assert(pieces@[i as int]@ == ps[i as int]);
        let v = part_value(pieces[i].as_slice());
        r.push(v);
        assert(ps.take(i + 1) =~= ps.take(i as int).push(ps[i as int]));
        assert(r@ =~= ps.take(i + 1).map_values(
            |p: Seq<char>|
                match parse_u32(p) {
                    Some(n) => n,
                    None => 0u32,
                },
        ));
        i += 1;
    }
    assert(ps.take(i as int) =~= ps);
    r
}

/// Part `i` of a version as a signed number, zero past its end.
fn signed_part_at(v: &Vec<u32>, i: usize) -> (r: i32)
    ensures
        r == part_at(v@, i as int),
{
    if i < v.len() {
        let x = v[i];
        if x <= 0x7fff_ffff {
            x as i32
        } else {
            (x as i64 - 0x1_0000_0000i64) as i32
        }
    } else {
        0
    }
}

/// Whether two versions can be compared: the difference at their first differing part
/// fits in a 32-bit signed number.
pub fn versions_comparable(left: &str, right: &str) -> (r: bool)
    ensures
        r == order_fits(left@, right@),
{
    let a = parse_version(left);
    let b = parse_version(right);
    let length = if a.len() > b.len() { a.len() } else { b.len() };
    let mut index: usize = 0;
    while index < length
        invariant
            index <= length,
            length == if a.len() > b.len() { a.len() } else { b.len() },
            a@ == version_parts(left@),
            b@ == version_parts(right@),
            version_order(left@, right@) == version_order_from(a@, b@, index as nat),
        decreases length - index,
    {
        let x = signed_part_at(&a, index) as i64;
        let y = signed_part_at(&b, index) as i64;
        let delta = x - y;
        if delta != 0 {
            return -0x8000_0000i64 <= delta && delta <= 0x7fff_ffffi64;
        }
        index += 1;
    }
    true
}

/// Compares two dotted versions part by part.
pub fn compare_versions(left: &str, right: &str) -> (r: i32)
    requires
        order_fits(left@, right@),
    ensures
        r == version_order(left@, right@),
{
    let a = parse_version(left);
    let b = parse_version(right);
    let length = if a.len() > b.len() { a.len() } else { b.len() };
    let mut index: usize = 0;
    while index < length
        invariant
            index <= length,
            length == if a.len() > b.len() { a.len() } else { b.len() },
            a@ == version_parts(left@),
            b@ == version_parts(right@),
            order_fits(left@, right@),
            version_order(left@, right@) == version_order_from(a@, b@, index as nat),
        decreases length - index,
    {
        let x = signed_part_at(&a, index);
        let y = signed_part_at(&b, index);
        let delta = x - y;
        if delta != 0 {
            return delta;
        }
        index += 1;
    }
    0
}

/// The first difference from part `i` on, taken the other way round, is the opposite.
proof fn lemma_order_from_antisymmetric(a: Seq<u32>, b: Seq<u32>, i: nat)
    ensures
        version_order_from(a, b, i) == -version_order_from(b, a, i),
    decreases (if a.len() > b.len() {
        a.len()
    } else {
        b.len()
    }) - i,
{
    if !(i >= a.len() && i >= b.len()) && part_at(a, i as int) == part_at(b, i as int) {
        lemma_order_from_antisymmetric(a, b, i + 1);
    }
}

/// The parts of a version from part `i` on show no difference with themselves.
proof fn lemma_order_from_reflexive(a: Seq<u32>, i: nat)
    ensures
        version_order_from(a, a, i) == 0,
    decreases a.len() - i,
{
    if i < a.len() {
        lemma_order_from_reflexive(a, i + 1);
    }
}

/// A zero part added at the end makes no difference from part `i` on.
proof fn lemma_order_from_trailing_zero(a: Seq<u32>, i: nat)
    ensures
        version_order_from(a.push(0u32), a, i) == 0,
    decreases a.len() + 1 - i,
{
    lemma_order_from_reflexive(a, i);
    if i < a.len() + 1 {
        assert(part_at(a.push(0u32), i as int) == part_at(a, i as int));
        lemma_order_from_trailing_zero(a, i + 1);
    }
}

/// Comparing two versions the other way round gives the opposite result.
pub proof fn lemma_version_order_antisymmetric(left: Seq<char>, right: Seq<char>)
    ensures
        version_order(left, right) == -version_order(right, left),
{
    lemma_order_from_antisymmetric(version_parts(left), version_parts(right), 0);
}

/// A version compares equal to itself.
pub proof fn lemma_version_order_reflexive(v: Seq<char>)
    ensures
        version_order(v, v) == 0,
{
    lemma_order_from_reflexive(version_parts(v), 0);
}

/// A version with `.0` added compares equal to the version: `1.2.0` and `1.2`.
pub proof fn lemma_version_order_trailing_zero(v: Seq<char>)
    ensures
        version_order(v + seq!['.', '0'], v) == 0,
{
    let w = v + seq!['.', '0'];
    assert(w.drop_last() =~= v + seq!['.']);
    assert((v + seq!['.']).drop_last() =~= v);
    let pv = split_char(v, '.');
    crate::provider_util::lemma_split_char_nonempty(v, '.');
    assert(split_char(v + seq!['.'], '.') == pv.push(seq![]));
    assert(split_char(w, '.') =~= pv.push(seq!['0']));
    assert(crate::text::unsigned_digits(seq!['0']) =~= seq!['0']);
    assert(crate::text::digits_value(seq!['0']) == 0) by {
        reveal_with_fuel(crate::text::digits_value, 2);
        assert(seq!['0'].drop_last() =~= Seq::<char>::empty());
    }
    assert(parse_u32(seq!['0']) == Some(0u32));
    assert(version_parts(w) =~= version_parts(v).push(0u32));
    lemma_order_from_trailing_zero(version_parts(v), 0);
}

/// The platforms the server runs on.
#[derive(Clone, Copy, Debug, PartialEq, Eq, Structural)]
pub enum Platform {
    Windows,
    Macos,
    Linux,
}

/// The platform's name.
pub fn platform_name(platform: Platform) -> (r: &'static str)
    ensures
        r@ == match platform {
            Platform::Windows => "windows"@,
            Platform::Macos => "macos"@,
            Platform::Linux => "linux"@,
        },
{
    match platform {
        Platform::Windows => "windows",
        Platform::Macos => "macos",
        Platform::Linux => "linux",
    }
}

/// The command that updates the server alone on Windows.
pub open spec fn windows_server_command() -> Seq<char> {
    "$env:IVLYRICS_SKIP_ADDONS = \"1\"; iwr -useb \"https://raw.githubusercontent.com/oneulddu/musicxmatch-api/main/install.ps1?ts=$((Get-Date).ToUniversalTime().ToString('yyyyMMddHHmmss'))\" | iex"@
}

/// The command that updates the server alone elsewhere.
pub open spec fn unix_server_command() -> Seq<char> {
    "export IVLYRICS_SKIP_ADDONS=1; curl -fsSL \"https://raw.githubusercontent.com/oneulddu/musicxmatch-api/main/install.sh?ts=$(date +%s)\" | bash"@
}

/// The command that updates the server and the add-ons on Windows.
pub open spec fn windows_all_command() -> Seq<char> {
    "iwr -useb \"https://raw.githubusercontent.com/oneulddu/musicxmatch-api/main/install.ps1?ts=$((Get-Date).ToUniversalTime().ToString('yyyyMMddHHmmss'))\" | iex"@
}

/// The command that updates the server and the add-ons elsewhere.
pub open spec fn unix_all_command() -> Seq<char> {
    "curl -fsSL \"https://raw.githubusercontent.com/oneulddu/musicxmatch-api/main/install.sh?ts=$(date +%s)\" | bash"@
}

/// The views of a list of strings.
pub open spec fn texts(v: Seq<String>) -> Seq<Seq<char>> {
    v.map_values(|s: String| s@)
}

/// The update command lines: for the server alone, or with the add-ons.
pub open spec fn update_command_lines(platform: Platform, include_addon: bool) -> Seq<Seq<char>> {
    if platform is Windows {
        if include_addon {
            seq![windows_all_command()]
        } else {
            seq![windows_server_command()]
        }
    } else if include_addon {
        seq![unix_all_command()]
    } else {
        seq![unix_server_command()]
    }
}

/// The lines of the command that updates the server alone.
pub fn update_server_command_lines(platform: Platform) -> (r: Vec<String>)
    ensures
        texts(r@) == update_command_lines(platform, false),
{
    let line = match platform {
        Platform::Windows => String::from_str(
            "$env:IVLYRICS_SKIP_ADDONS = \"1\"; iwr -useb \"https://raw.githubusercontent.com/oneulddu/musicxmatch-api/main/install.ps1?ts=$((Get-Date).ToUniversalTime().ToString('yyyyMMddHHmmss'))\" | iex",
        ),
        _ => String::from_str(
            "export IVLYRICS_SKIP_ADDONS=1; curl -fsSL \"https://raw.githubusercontent.com/oneulddu/musicxmatch-api/main/install.sh?ts=$(date +%s)\" | bash",
        ),
    };
    let r = vec![line];
    assert(texts(r@) =~= update_command_lines(platform, false));
    r
}

/// The lines of the command that updates the server and the add-ons.
pub fn update_all_command_lines(platform: Platform) -> (r: Vec<String>)
    ensures
        texts(r@) == update_command_lines(platform, true),
{
    let line = match platform {
        Platform::Windows => String::from_str(
            "iwr -useb \"https://raw.githubusercontent.com/oneulddu/musicxmatch-api/main/install.ps1?ts=$((Get-Date).ToUniversalTime().ToString('yyyyMMddHHmmss'))\" | iex",
        ),
        _ => String::from_str(
            "curl -fsSL \"https://raw.githubusercontent.com/oneulddu/musicxmatch-api/main/install.sh?ts=$(date +%s)\" | bash",
        ),
    };
    let r = vec![line];
    assert(texts(r@) =~= update_command_lines(platform, true));
    r
}

/// `parts` as character vectors.
fn char_lists(parts: &Vec<String>) -> (r: Vec<Vec<char>>)
    ensures
        views(r@) == texts(parts@),
{
    let mut r: Vec<Vec<char>> = Vec::new();
    let mut i: usize = 0;
    while i < parts.len()
        invariant
            i <= parts.len(),
            views(r@) == texts(parts@).take(i as int),
        decreases parts.len() - i,
    {
        let ghost before = views(r@);
        r.push(chars_of(parts[i].as_str()));
        assert(views(r@) =~= before.push(parts@[i as int]@));
        assert(texts(parts@).take(i + 1) =~= texts(parts@).take(i as int).push(parts@[i as int]@));
        i += 1;
    }
    assert(texts(parts@).take(i as int) =~= texts(parts@));
    r
}

/// The strings joined with `sep`.
pub fn join_strings(parts: &Vec<String>, sep: &str) -> (r: String)
    ensures
        r@ == join(texts(parts@), sep@),
{
    let lists = char_lists(parts);
    let s = chars_of(sep);
    let joined = join_chars(&lists, s.as_slice());
    string_of(joined.as_slice())
}

/// The PowerShell command that starts the update in the background on Windows.
pub fn windows_update_command(include_addon: bool) -> (r: String)
    ensures
        r@ == "Start-Process powershell.exe -WindowStyle Hidden -ArgumentList '-NoProfile','-ExecutionPolicy','Bypass','-Command','Start-Sleep -Seconds 1; "@
            + join(update_command_lines(Platform::Windows, include_addon), "; "@) + "'"@,
{
    let lines = if include_addon {
        update_all_command_lines(Platform::Windows)
    } else {
        update_server_command_lines(Platform::Windows)
    };
    let install = join_strings(&lines, "; ");
    let mut m = String::from_str(
        "Start-Process powershell.exe -WindowStyle Hidden -ArgumentList '-NoProfile','-ExecutionPolicy','Bypass','-Command','Start-Sleep -Seconds 1; ",
    );
    m.append(install.as_str());
    m.append("'");
    m
}

/// The lines of the update script run on Linux and macOS: the environment, a start note,
/// the update commands, and an end note.
pub open spec fn script_lines(home: Seq<char>, path: Seq<char>, include_addon: bool, platform: Platform) -> Seq<
    Seq<char>,
> {
    seq![
        "#!/bin/sh"@,
        "set -eu"@,
        "export HOME='"@ + home + "'"@,
        "export PATH='"@ + path + "'"@,
        "echo \"[update] 시작 include_addon="@ + (if include_addon {
            "true"@
        } else {
            "false"@
        }) + "\""@,
        "echo \"[update] HOME=$HOME\""@,
        "echo \"[update] PATH=$PATH\""@,
        "sleep 1"@,
    ] + update_command_lines(platform, include_addon) + seq!["echo \"[update] 완료\""@]
}

/// `a`, `b` and `c` put together.
fn concat3(a: &str, b: &str, c: &str) -> (r: String)
    ensures
        r@ == a@ + b@ + c@,
{
    let mut m = String::from_str(a);
    m.append(b);
    m.append(c);
    m
}

/// The text of the update script: its lines, each ended by a line feed.
pub fn update_script(home: &str, path: &str, include_addon: bool, platform: Platform) -> (r: String)
    ensures
        r@ == join(script_lines(home@, path@, include_addon, platform), "\n"@) + "\n"@,
{
    let mut lines: Vec<String> = Vec::new();
    lines.push(String::from_str("#!/bin/sh"));
    lines.push(String::from_str("set -eu"));
    lines.push(concat3("export HOME='", home, "'"));
    lines.push(concat3("export PATH='", path, "'"));
    let flag = if include_addon { "true" } else { "false" };
    lines.push(concat3("echo \"[update] 시작 include_addon=", flag, "\""));
    lines.push(String::from_str("echo \"[update] HOME=$HOME\""));
    lines.push(String::from_str("echo \"[update] PATH=$PATH\""));
    lines.push(String::from_str("sleep 1"));
    let commands = if include_addon {
        update_all_command_lines(platform)
    } else {
        update_server_command_lines(platform)
    };
    assert(texts(commands@).len() == 1);
    lines.push(commands[0].clone());
    lines.push(String::from_str("echo \"[update] 완료\""));
    assert(texts(lines@) =~= script_lines(home@, path@, include_addon, platform));
    let mut text = join_strings(&lines, "\n");
    text.append("\n");
    text
}

/// The shell command that runs the update script in the background, appending its output
/// to the update log.
pub fn background_update_command(runner_script: &str, update_log: &str) -> (r: String)
    ensures
        r@ == "nohup sh '"@ + runner_script@ + "' >> '"@ + update_log@ + "' 2>&1 &"@,
{
    let mut m = String::from_str("nohup sh '");
    m.append(runner_script);
    m.append("' >> '");
    m.append(update_log);
    m.append("' 2>&1 &");
    m
}

/// The parts of a search path that are not empty, each kept at its first place only.
pub open spec fn unique_nonempty(parts: Seq<Seq<char>>) -> Seq<Seq<char>>
    decreases parts.len(),
{
    if parts.len() == 0 {
        seq![]
    } else {
        let prev = unique_nonempty(parts.drop_last());
        if parts.last().len() == 0 || prev.contains(parts.last()) {
            prev
        } else {
            prev.push(parts.last())
        }
    }
}

/// Whether `v` holds `x`.
fn contains_text(v: &Vec<String>, x: &str) -> (r: bool)
    ensures
        r == texts(v@).contains(x@),
{
    let mut i: usize = 0;
    while i < v.len()
        invariant
            i <= v.len(),
            forall|j: int| 0 <= j < i ==> v@[j]@ != x@,
        decreases v.len() - i,
    {
        if crate::text::str_equals(v[i].as_str(), x) {
            assert(texts(v@)[i as int] == x@);
            return true;
        }
        i += 1;
    }
    assert(!texts(v@).contains(x@)) by {
        if texts(v@).contains(x@) {
            let j = choose|j: int| 0 <= j < texts(v@).len() && texts(v@)[j] == x@;
            assert(v@[j]@ == x@);
        }
    }
    false
}

/// The search path for child processes: the parts that are not empty, each once, in order,
/// joined by `separator`.
pub fn join_unique_paths(parts: Vec<String>, separator: &str) -> (r: String)
    ensures
        r@ == join(unique_nonempty(texts(parts@)), separator@),
{
    let ghost p = texts(parts@);
    let mut kept: Vec<String> = Vec::new();
    let mut i: usize = 0;
    assert(p.take(0) =~= Seq::<Seq<char>>::empty());
    while i < parts.len()
        invariant
            i <= parts.len(),
            p == texts(parts@),
            texts(kept@) == unique_nonempty(p.take(i as int)),
        decreases parts.len() - i,
    {
        assert(p.take(i + 1).drop_last() =~= p.take(i as int));
        assert(p.take(i + 1).last() == parts@[i as int]@);
        if !parts[i].as_str().is_empty() && !contains_text(&kept, parts[i].as_str()) {
            let ghost before = texts(kept@);
            kept.push(parts[i].clone());
            assert(texts(kept@) =~= before.push(parts@[i as int]@));
        }
        i += 1;
    }
    assert(p.take(i as int) =~= p);
    join_strings(&kept, separator)
}

/// The kept parts of a search path are all different.
pub proof fn lemma_unique_nonempty_distinct(parts: Seq<Seq<char>>)
    ensures
        forall|i: int, j: int|
            0 <= i < j < unique_nonempty(parts).len() ==> unique_nonempty(parts)[i]
                != unique_nonempty(parts)[j],
        forall|i: int|
            0 <= i < unique_nonempty(parts).len() ==> unique_nonempty(parts)[i].len() > 0,
    decreases parts.len(),
{
    if parts.len() > 0 {
        lemma_unique_nonempty_distinct(parts.drop_last());
        let prev = unique_nonempty(parts.drop_last());
        if !(parts.last().len() == 0 || prev.contains(parts.last())) {
            let u = prev.push(parts.last());
            assert forall|i: int, j: int| 0 <= i < j < u.len() implies u[i] != u[j] by {
                if j == u.len() - 1 {
                    assert(prev.contains(prev[i]));
                }
            }
        }
    }
}

/// The provider add-on files that are kept installed in ivLyrics.
pub open spec fn known_addons() -> Seq<Seq<char>> {
    seq![
        "Addon_Lyrics_MusicXMatch.js"@,
        "Addon_Lyrics_Deezer.js"@,
        "Addon_Lyrics_Bugs.js"@,
        "Addon_Lyrics_Genie.js"@,
    ]
}

/// The provider add-on files that are kept installed in ivLyrics.
pub fn known_provider_addons() -> (r: Vec<&'static str>)
    ensures
        r@.map_values(|s: &str| s@) == known_addons(),
{
    let r = vec![
        "Addon_Lyrics_MusicXMatch.js",
        "Addon_Lyrics_Deezer.js",
        "Addon_Lyrics_Bugs.js",
        "Addon_Lyrics_Genie.js",
    ];
    assert(r@.map_values(|s: &str| s@) =~= known_addons());
    r
}

/// An add-on needs restoring when the manifest does not list it or its file is missing.
pub fn addon_needs_restore(listed: bool, file_exists: bool) -> (r: bool)
    ensures
        r == (!listed || !file_exists),
{
    !listed || !file_exists
}

/// The manifest's add-on list as restoring works on it, each entry's text when it is
/// text: the list itself when the manifest holds one; else an empty list that replaces
/// whatever was there, which changes the manifest.
pub fn manifest_subfiles(is_array: bool, entries: Vec<Option<String>>) -> (r: (
    Vec<Option<String>>,
    bool,
))
    ensures
        is_array ==> r.0@ == entries@ && !r.1,
        !is_array ==> r.0@.len() == 0 && r.1,
{
    if is_array {
        (entries, false)
    } else {
        (Vec::new(), true)
    }
}

/// Whether the manifest's add-on list holds `filename` as one of its texts.
pub fn lists_addon(entries: &[Option<String>], filename: &str) -> (r: bool)
    ensures
        r == exists|i: int|
            0 <= i < entries@.len() && (#[trigger] entries@[i] matches Some(t) && t@ == filename@),
{
    let mut i: usize = 0;
    while i < entries.len()
        invariant
            i <= entries.len(),
            forall|j: int|
                0 <= j < i ==> !(#[trigger] entries@[j] matches Some(t) && t@ == filename@),
        decreases entries.len() - i,
    {
        match &entries[i] {
            Some(t) => {
                if crate::text::str_equals(t.as_str(), filename) {
                    assert(entries@[i as int] matches Some(t) && t@ == filename@);
                    return true;
                }
            },
            None => {},
        }
        i += 1;
    }
    false
}

/// What applying the Spicetify changes comes to: the failure of `spicetify apply` when it
/// failed; else, when Spotify was running (`restart` is then how restarting it went), the
/// failure to restart it; else success.
pub fn spicetify_apply_outcome(apply: Result<(), String>, restart: Option<Result<(), String>>) -> (r:
    Result<(), String>)
    ensures
        match apply {
            Err(e) => r == Err::<(), String>(e),
            Ok(_) => match restart {
                Some(Err(e)) => r == Err::<(), String>(e),
                _ => r is Ok,
            },
        },
{
    match apply {
        Err(e) => Err(e),
        Ok(()) => match restart {
            Some(Err(e)) => Err(e),
            _ => Ok(()),
        },
    }
}

/// How getting an add-on's source went.
#[derive(Debug)]
pub enum AddonFetch {
    /// The source was fetched and written to the add-on file.
    Written,
    /// The source was fetched, but writing the file failed with this message.
    WriteFailed(String),
    /// Fetching the source failed with this message.
    FetchFailed(String),
}

/// What restoring one add-on comes to.
#[derive(Debug)]
pub struct AddonStep {
    /// The add-on counts as restored.
    pub restored: bool,
    /// The failure to report, as `<file>: <message>`.
    pub error: Option<String>,
    /// The add-on is added to the manifest's list.
    pub list_in_manifest: bool,
}

/// What restoring an add-on that needs it comes to, given whether the manifest lists it,
/// whether its file exists, and how getting its source went (none when it has no source).
/// A file written or already there is available; an available add-on the manifest does not
/// list is added to it; a failure with no file to fall back on is reported.
pub open spec fn addon_outcome(
    filename: Seq<char>,
    listed: bool,
    file_exists: bool,
    fetch: Option<AddonFetch>,
) -> (bool, Option<Seq<char>>, bool) {
    match fetch {
        Some(AddonFetch::Written) => (true, None, !listed),
        Some(AddonFetch::WriteFailed(e)) => (false, Some(filename + ": "@ + e@), false),
        Some(AddonFetch::FetchFailed(e)) => if file_exists {
            (true, None, !listed)
        } else {
            (false, Some(filename + ": "@ + e@), false)
        },
        None => if file_exists {
            (!listed, None, !listed)
        } else {
            (false, None, false)
        },
    }
}

/// What restoring an add-on that needs it comes to.
pub fn addon_step(filename: &str, listed: bool, file_exists: bool, fetch: Option<AddonFetch>) -> (r:
    AddonStep)
    ensures
        (r.restored, match r.error {
            Some(e) => Some(e@),
            None => None,
        }, r.list_in_manifest) == addon_outcome(filename@, listed, file_exists, fetch),
{
    match fetch {
        Some(AddonFetch::Written) => AddonStep { restored: true, error: None, list_in_manifest: !listed },
        Some(AddonFetch::WriteFailed(e)) => AddonStep {
            restored: false,
            error: Some(concat3(filename, ": ", e.as_str())),
            list_in_manifest: false,
        },
        Some(AddonFetch::FetchFailed(e)) => if file_exists {
            AddonStep { restored: true, error: None, list_in_manifest: !listed }
        } else {
            AddonStep {
                restored: false,
                error: Some(concat3(filename, ": ", e.as_str())),
                list_in_manifest: false,
            }
        },
        None => if file_exists {
            AddonStep { restored: !listed, error: None, list_in_manifest: !listed }
        } else {
            AddonStep { restored: false, error: None, list_in_manifest: false }
        },
    }
}

/// `a` comes before `b` in code point order (the order of their UTF-8 bytes).
pub open spec fn text_lt(a: Seq<char>, b: Seq<char>) -> bool
    decreases a.len(),
{
    if a.len() == 0 {
        b.len() > 0
    } else if b.len() == 0 {
        false
    } else if a[0] != b[0] {
        (a[0] as u32) < (b[0] as u32)
    } else {
        text_lt(a.drop_first(), b.drop_first())
    }
}

/// Whether `a` comes before `b`.
fn text_less(a: &[char], b: &[char]) -> (r: bool)
    ensures
        r == text_lt(a@, b@),
{
    let mut i: usize = 0;
    assert(a@.skip(0) =~= a@);
    assert(b@.skip(0) =~= b@);
    while i < a.len() && i < b.len()
        invariant
            i <= a.len(),
            i <= b.len(),
            text_lt(a@, b@) == text_lt(a@.skip(i as int), b@.skip(i as int)),
        decreases a.len() - i,
    {
        assert(a@.skip(i as int)[0] == a@[i as int]);
        assert(b@.skip(i as int)[0] == b@[i as int]);
        if a[i] != b[i] {
            return (a[i] as u32) < (b[i] as u32);
        }
        assert(a@.skip(i as int).drop_first() =~= a@.skip(i + 1));
        assert(b@.skip(i as int).drop_first() =~= b@.skip(i + 1));
        i += 1;
    }
    i == a.len() && i < b.len()
}

/// A sorted list without repeats with `x` put in its place, unless it is there already.
pub open spec fn insert_unique_sorted(s: Seq<Seq<char>>, x: Seq<char>) -> Seq<Seq<char>>
    decreases s.len(),
{
    if s.len() == 0 {
        seq![x]
    } else if s[0] == x {
        s
    } else if text_lt(x, s[0]) {
        seq![x] + s
    } else {
        seq![s[0]] + insert_unique_sorted(s.drop_first(), x)
    }
}

/// The names sorted and without repeats, as a sort followed by removing repeats gives them.
pub open spec fn sorted_unique(v: Seq<Seq<char>>) -> Seq<Seq<char>>
    decreases v.len(),
{
    if v.len() == 0 {
        seq![]
    } else {
        insert_unique_sorted(sorted_unique(v.drop_last()), v.last())
    }
}

/// What restoring the add-ons reports: the restored names sorted without repeats; when none
/// was restored but something failed, the failures joined by `; `.
pub open spec fn restore_report(restored: Seq<Seq<char>>, errors: Seq<Seq<char>>) -> Result<
    Seq<Seq<char>>,
    Seq<char>,
> {
    let names = sorted_unique(restored);
    if names.len() == 0 && errors.len() > 0 {
        Err(join(errors, "; "@))
    } else {
        Ok(names)
    }
}

/// Puts `x` in its place in the sorted list without repeats.
fn insert_name(v: &mut Vec<String>, x: String)
    ensures
        texts(final(v)@) == insert_unique_sorted(texts(old(v)@), x@),
{
    let ghost s = texts(v@);
    let xc = chars_of(x.as_str());
    let mut p: usize = 0;
    assert(s.skip(0) =~= s);
    assert(s.take(0) + insert_unique_sorted(s.skip(0), x@) =~= insert_unique_sorted(s, x@));
    loop
        invariant
            p <= v.len(),
            s == texts(v@),
            s == texts(old(v)@),
            xc@ == x@,
            insert_unique_sorted(s, x@) == s.take(p as int) + insert_unique_sorted(
                s.skip(p as int),
                x@,
            ),
        decreases v.len() - p,
    {
        let ghost rest = s.skip(p as int);
        if p == v.len() {
            assert(rest =~= Seq::<Seq<char>>::empty());
            v.push(x);
            assert(texts(v@) =~= s.take(p as int) + seq![x@]);
            return;
        }
        assert(rest[0] == v@[p as int]@);
        let cur = chars_of(v[p].as_str());
        if crate::text::chars_equal(cur.as_slice(), xc.as_slice()) {
            assert(s.take(p as int) + rest =~= s);
            return;
        }
        if text_less(xc.as_slice(), cur.as_slice()) {
            v.insert(p, x);
            assert(texts(v@) =~= s.take(p as int) + (seq![x@] + rest));
            return;
        }
        assert(rest.drop_first() =~= s.skip(p + 1));
        assert(s.take(p as int) + (seq![rest[0]] + insert_unique_sorted(s.skip(p + 1), x@))
            =~= s.take(p + 1) + insert_unique_sorted(s.skip(p + 1), x@));
        p += 1;
    }
}

/// What restoring the add-ons reports.
pub fn restore_summary(restored: Vec<String>, errors: Vec<String>) -> (r: Result<Vec<String>, String>)
    ensures
        match r {
            Ok(v) => restore_report(texts(restored@), texts(errors@)) == Ok::<
                Seq<Seq<char>>,
                Seq<char>,
            >(texts(v@)),
            Err(e) => restore_report(texts(restored@), texts(errors@)) == Err::<
                Seq<Seq<char>>,
                Seq<char>,
            >(e@),
        },
{
    let ghost rs = texts(restored@);
    let mut names: Vec<String> = Vec::new();
    let mut i: usize = 0;
    assert(rs.take(0) =~= Seq::<Seq<char>>::empty());
    while i < restored.len()
        invariant
            i <= restored.len(),
            rs == texts(restored@),
            texts(names@) == sorted_unique(rs.take(i as int)),
        decreases restored.len() - i,
    {
        assert(rs.take(i + 1).drop_last() =~= rs.take(i as int));
        assert(rs.take(i + 1).last() == restored@[i as int]@);
        insert_name(&mut names, restored[i].clone());
        i += 1;
    }
    assert(rs.take(i as int) =~= rs);
    if names.len() == 0 && errors.len() > 0 {
        Err(join_strings(&errors, "; "))
    } else {
        Ok(names)
    }
}

/// Where an add-on's source is read from.
#[derive(Debug)]
pub enum AddonSource {
    /// A local file named after the `local:` prefix.
    Local(String),
    /// An HTTP or HTTPS address.
    Http(String),
    /// Any other text, read as a file path.
    File(String),
}

/// Where an add-on's source is read from.
pub fn addon_source_kind(source: &str) -> (r: AddonSource)
    ensures
        starts_with(source@, "local:"@) ==> (r matches AddonSource::Local(p) && p@ == source@.skip(
            6,
        )),
        !starts_with(source@, "local:"@) && (starts_with(source@, "http://"@) || starts_with(
            source@,
            "https://"@,
        )) ==> (r matches AddonSource::Http(u) && u@ == source@),
        !starts_with(source@, "local:"@) && !starts_with(source@, "http://"@) && !starts_with(
            source@,
            "https://"@,
        ) ==> (r matches AddonSource::File(p) && p@ == source@),
{
    let s = chars_of(source);
    let local = chars_of("local:");
    let http = chars_of("http://");
    let https = chars_of("https://");
    proof {
        reveal_strlit("local:");
    }
    if crate::text::match_at(s.as_slice(), local.as_slice(), 0) {
        let rest = slice_chars(s.as_slice(), 6, s.len());
        assert(rest@ =~= source@.skip(6));
        return AddonSource::Local(string_of(rest.as_slice()));
    }
    if crate::text::match_at(s.as_slice(), http.as_slice(), 0) || crate::text::match_at(
        s.as_slice(),
        https.as_slice(),
        0,
    ) {
        return AddonSource::Http(String::from_str(source));
    }
    AddonSource::File(String::from_str(source))
}

/// The raw address of the repository's main branch, with a slash after it.
pub open spec fn repo_main_prefix() -> Seq<char> {
    "https://raw.githubusercontent.com/oneulddu/musicxmatch-api/main/"@
}

/// The path inside the repository of an address on its main branch.
pub fn repo_relative_path(source: &str) -> (r: Option<String>)
    ensures
        starts_with(source@, repo_main_prefix()) ==> (r matches Some(p) && p@ == source@.skip(
            repo_main_prefix().len() as int,
        )),
        !starts_with(source@, repo_main_prefix()) ==> r is None,
{
    let s = chars_of(source);
    let prefix = chars_of("https://raw.githubusercontent.com/oneulddu/musicxmatch-api/main/");
    if crate::text::match_at(s.as_slice(), prefix.as_slice(), 0) {
        let rest = slice_chars(s.as_slice(), prefix.len(), s.len());
        assert(rest@ =~= source@.skip(repo_main_prefix().len() as int));
        Some(string_of(rest.as_slice()))
    } else {
        None
    }
}

/// The address an add-on is downloaded from: an address on the main branch is pinned to the
/// commit the branch points at, when that commit is known.
pub fn addon_download_url(source: &str, resolved_ref: Option<&str>) -> (r: String)
    ensures
        match (resolved_ref, starts_with(source@, repo_main_prefix())) {
            (Some(c), true) => r@ == "https://raw.githubusercontent.com/oneulddu/musicxmatch-api/"@
                + c@ + "/"@ + source@.skip(repo_main_prefix().len() as int),
            _ => r@ == source@,
        },
{
    match (resolved_ref, repo_relative_path(source)) {
        (Some(c), Some(rel)) => {
            let mut m = String::from_str("https://raw.githubusercontent.com/oneulddu/musicxmatch-api/");
            m.append(c);
            m.append("/");
            m.append(rel.as_str());
            m
        },
        _ => String::from_str(source),
    }
}

/// The failure reported when an add-on download answers with an error status.
pub fn addon_download_error(status: &str) -> (r: String)
    ensures
        r@ == "addon download returned "@ + status@,
{
    let mut m = String::from_str("addon download returned ");
    m.append(status);
    m
}

/// The failure reported when the latest version cannot be looked up.
pub fn latest_version_error(status: &str) -> (r: String)
    ensures
        r@ == "Latest version lookup failed ("@ + status@ + ")"@,
{
    concat3("Latest version lookup failed (", status, ")")
}

/// A timeout setting in seconds: a whole number after trimming, and not zero.
pub open spec fn timeout_setting(raw: Option<Seq<char>>) -> Option<u64> {
    match raw {
        Some(v) => match parse_u64(trim(v)) {
            Some(n) => if n > 0 {
                Some(n)
            } else {
                None
            },
            None => None,
        },
        None => None,
    }
}

/// Reads a timeout setting in seconds.
pub fn read_timeout_secs(raw: Option<&str>) -> (r: Option<u64>)
    ensures
        r == timeout_setting(
            match raw {
                Some(v) => Some(v@),
                None => None,
            },
        ),
{
    match raw {
        Some(v) => {
            let t = trim_chars(chars_of(v).as_slice());
            match parse_u64_chars(t.as_slice()) {
                Some(n) => if n > 0 {
                    Some(n)
                } else {
                    None
                },
                None => None,
            }
        },
        None => None,
    }
}

/// The name of a provider's timeout setting.
pub fn provider_timeout_key(provider: &str) -> (r: String)
    ensures
        r@ == "IVLYRICS_"@ + provider@ + "_TIMEOUT_SECS"@,
{
    concat3("IVLYRICS_", provider, "_TIMEOUT_SECS")
}

/// A provider's timeout in seconds: its own setting, else the shared HTTP setting, else the
/// default.
pub fn provider_timeout_secs(provider_raw: Option<&str>, http_raw: Option<&str>, default_secs: u64) -> (r:
    u64)
    ensures
        r == match timeout_setting(
            match provider_raw {
                Some(v) => Some(v@),
                None => None,
            },
        ) {
            Some(n) => n,
            None => match timeout_setting(
                match http_raw {
                    Some(v) => Some(v@),
                    None => None,
                },
            ) {
                Some(n) => n,
                None => default_secs,
            },
        },
{
    match read_timeout_secs(provider_raw) {
        Some(n) => n,
        None => match read_timeout_secs(http_raw) {
            Some(n) => n,
            None => default_secs,
        },
    }
}

/// The port the server listens on when none is set.
pub const DEFAULT_PORT: u16 = 8092;

/// The listening port: the setting when it reads as a port number, else the default.
pub fn port_from(raw: Option<&str>) -> (r: u16)
    ensures
        r == match raw {
            Some(v) => match parse_u64(v@) {
                Some(n) => if n <= 65535 {
                    n as u16
                } else {
                    DEFAULT_PORT
                },
                None => DEFAULT_PORT,
            },
            None => DEFAULT_PORT,
        },
{
    match raw {
        Some(v) => match parse_u64_chars(chars_of(v).as_slice()) {
            Some(n) => if n <= 65535 {
                n as u16
            } else {
                DEFAULT_PORT
            },
            None => DEFAULT_PORT,
        },
        None => DEFAULT_PORT,
    }
}

/// A flag in a query string: blank means absent; `1`, `true`, `TRUE`, `True` mean yes;
/// `0`, `false`, `FALSE`, `False` mean no; anything else is refused with a message.
pub open spec fn boolish_of(value: Option<Seq<char>>) -> Result<Option<bool>, Seq<char>> {
    match value {
        None => Ok(None),
        Some(v) => {
            let t = trim(v);
            if t.len() == 0 {
                Ok(None)
            } else if t == "1"@ || t == "true"@ || t == "TRUE"@ || t == "True"@ {
                Ok(Some(true))
            } else if t == "0"@ || t == "false"@ || t == "FALSE"@ || t == "False"@ {
                Ok(Some(false))
            } else {
                Err("provided string was not `true` or `false`: "@ + t)
            }
        },
    }
}

/// Whether the characters of `a` are those of the text `b`.
fn is_text(a: &[char], b: &str) -> (r: bool)
    ensures
        r == (a@ == b@),
{
    let t = chars_of(b);
    crate::text::chars_equal(a, t.as_slice())
}

/// Reads a flag in a query string.
pub fn boolish(value: Option<&str>) -> (r: Result<Option<bool>, String>)
    ensures
        match r {
            Ok(b) => boolish_of(
                match value {
                    Some(v) => Some(v@),
                    None => None,
                },
            ) == Ok::<Option<bool>, Seq<char>>(b),
            Err(m) => boolish_of(
                match value {
                    Some(v) => Some(v@),
                    None => None,
                },
            ) == Err::<Option<bool>, Seq<char>>(m@),
        },
{
    let v = match value {
        None => return Ok(None),
        Some(v) => v,
    };
    let t = trim_chars(chars_of(v).as_slice());
    let ts = t.as_slice();
    if t.len() == 0 {
        Ok(None)
    } else if is_text(ts, "1") || is_text(ts, "true") || is_text(ts, "TRUE") || is_text(ts, "True") {
        Ok(Some(true))
    } else if is_text(ts, "0") || is_text(ts, "false") || is_text(ts, "FALSE") || is_text(ts, "False") {
        Ok(Some(false))
    } else {
        let mut m = String::from_str("provided string was not `true` or `false`: ");
        m.append(string_of(ts).as_str());
        Err(m)
    }
}

/// How each provider stands, as the health answer shows it.
#[derive(Clone, Copy, Debug)]
pub struct ProviderStatuses {
    pub musicxmatch: &'static str,
    pub deezer: &'static str,
    pub bugs: &'static str,
    pub genie: &'static str,
}

/// How each provider stands: all ready, Deezer only when an ARL is configured.
pub fn provider_statuses(deezer_configured: bool) -> (r: ProviderStatuses)
    ensures
        r.musicxmatch@ == "ready"@,
        r.deezer@ == if deezer_configured {
            "configured"@
        } else {
            "not-configured"@
        },
        r.bugs@ == "ready"@,
        r.genie@ == "ready"@,
{
    ProviderStatuses {
        musicxmatch: "ready",
        deezer: if deezer_configured { "configured" } else { "not-configured" },
        bugs: "ready",
        genie: "ready",
    }
}

} // verus!
