use ivlyrics_bridge::bugs::{normalize_plain_lyrics, parse_duration_ms, parse_synced_lyrics};
use ivlyrics_bridge::deezer::{
    build_lrc_from_sync_lines, build_search_query, format_lrc_timestamp, lyrics_query_status,
    DeezerError, SyncLine,
};
use ivlyrics_bridge::genie::{
    capture_anchor_attr_or_text, extract_jsonp_payload, format_genie_lrc, format_plain_text,
    html_entity_decode, lyrics_from_document, map_search_status, parse_lyrics_payload,
    parse_search_tracks, strip_tags, GenieError, JsonDocument, LyricsEntries,
};
use ivlyrics_bridge::musixmatch::{
    classify_header, guid_text, signature_from_tag, url_signature, uuid_text, ymd_text, Error, Lyrics, LyricsBody,
    SortOrder, Subtitle, TrackId, TrackSearchQuery,
};
use ivlyrics_bridge::payload::subtitle_lrc;
use ivlyrics_bridge::provider_util::{
    format_lrc_timestamp_ms, retry_step, AttemptOutcome, RetryStep, TimestampRounding,
};

fn chars(s: &str) -> Vec<char> {
    s.chars().collect()
}

fn text(v: &[char]) -> String {
    v.iter().collect()
}

#[test]
fn parse_duration_supports_mm_ss() {
    assert_eq!(parse_duration_ms(Some("02:53")), Some(173000));
    assert_eq!(parse_duration_ms(Some("1:02:03")), Some(3_723_000));
    assert_eq!(parse_duration_ms(Some("")), None);
}

#[test]
fn parse_synced_bugs_lyrics_into_lrc() {
    let parsed = parse_synced_lyrics("7.3|Uh uh＃8.3|나는 가 Straight").unwrap();
    assert_eq!(parsed, "[00:07.30]Uh uh\n[00:08.30]나는 가 Straight");
}

#[test]
fn normalize_plain_lyrics_collapses_crlf() {
    let parsed = normalize_plain_lyrics("A\r\nB\r\n");
    assert_eq!(parsed, "A\nB");
}

#[test]
fn parse_synced_lyrics_fixture_into_lrc() {
    let payload = "6.9|존나 멋 존나 멋 그건 누구겠어 뱃＃11.1|마이크로폰 첵 원투 난 일차원으로 해＃14.72|나는 꽤 멋쟁이야＃";
    let parsed = parse_synced_lyrics(payload).expect("fixture lyrics should parse");

    assert!(parsed.contains("[00:06.90]존나 멋 존나 멋 그건 누구겠어 뱃"));
    assert!(parsed.contains("[00:11.10]마이크로폰 첵 원투 난 일차원으로 해"));
    assert!(parsed.contains("[00:14.72]나는 꽤 멋쟁이야"));
}

#[test]
fn bugs_synced_lyrics_skip_bad_entries() {
    assert_eq!(parse_synced_lyrics("abc|x＃1.5|＃2|ok"), Some("[00:02.00]ok".to_string()));
    assert_eq!(parse_synced_lyrics("no separator"), None);
    assert_eq!(parse_synced_lyrics("-1|negative"), None);
}

#[test]
fn parse_genie_jsonp_payload() {
    let payload = r#"null({"1030":"그대여","7010":"그대여"})"#;
    let parsed = parse_lyrics_payload(payload)
        .expect("lyrics should parse")
        .expect("lyrics should exist");
    assert_eq!(parsed.get(1030).map(String::as_str), Some("그대여"));
    assert_eq!(parsed.get(7010).map(String::as_str), Some("그대여"));
}

#[test]
fn format_genie_lrc_uses_millisecond_timestamps() {
    let mut entries = LyricsEntries::new();
    entries.insert(1030, "그대여".to_string());
    entries.insert(7010, "오늘은".to_string());
    let lrc = format_genie_lrc(&entries).expect("lrc should exist");
    assert!(lrc.contains("[00:01.03]그대여"));
    assert!(lrc.contains("[00:07.01]오늘은"));
}

#[test]
fn parse_search_tracks_extracts_unique_tracks() {
    let body = r##"
        <tr class="list" songid="101374441">
            <td class="info">
                <a href="#" class="title ellipsis"><span class="icon icon-title">TITLE</span><span class="t_point">How We Came</span> (Feat. pH-1)</a>
                <a href="#" class="artist ellipsis">Lil Moshpit &amp; Fleeky Bang</a>
            </td>
        </tr>
        <tr class="list" songid="101374441">
            <td class="info">
                <a href="#" class="title ellipsis">How We Came (Feat. pH-1)</a>
                <a href="#" class="artist ellipsis">Lil Moshpit &amp; Fleeky Bang</a>
            </td>
        </tr>
        "##;
    let tracks = parse_search_tracks(body);
    assert_eq!(tracks.len(), 1);
    assert_eq!(tracks[0].track_id, 101374441);
    assert_eq!(tracks[0].track_name, "How We Came (Feat. pH-1)");
    assert_eq!(tracks[0].artist_name, "Lil Moshpit & Fleeky Bang");
}

#[test]
fn parse_search_tracks_preserves_title_word_in_track_name() {
    let body = r##"
        <tr class="list" songid="101374442">
            <td class="info">
                <a href="#" class="title ellipsis"><span class="icon icon-title">TITLE</span>Title Track (Subtitle)</a>
                <a href="#" class="artist ellipsis">Artist</a>
            </td>
        </tr>
        "##;
    let tracks = parse_search_tracks(body);
    assert_eq!(tracks.len(), 1);
    assert_eq!(tracks[0].track_name, "Title Track (Subtitle)");
}

#[test]
fn parse_search_tracks_prefers_title_attribute_and_duration() {
    let body = r##"
        <tr class="list" songid="101374441">
            <td class="info">
                <a href="#" class="title ellipsis" title="How We Came (Feat. pH-1)">
                    <span class="icon icon-title">TITLE</span><span class="t_point"></span>How We Came
                </a>
                <a href="#" class="artist ellipsis">Lil Moshpit &amp; Fleeky Bang</a>
                <span class="duration">2:57</span>
            </td>
        </tr>
        "##;
    let tracks = parse_search_tracks(body);
    assert_eq!(tracks.len(), 1);
    assert_eq!(tracks[0].track_name, "How We Came (Feat. pH-1)");
    assert_eq!(tracks[0].duration_ms, Some(177000));
}

#[test]
fn parse_lyrics_payload_rejects_invalid_jsonp() {
    let error = parse_lyrics_payload("hello world").err().expect("should fail");
    assert!(error.contains("JSONP"));
}

#[test]
fn parse_search_tracks_fixture_extracts_expected_rows() {
    let body = r##"
        <table>
        <tr class="list" songid="101374441">
            <td class="info">
                <a href="#" class="title ellipsis" title="How We Came (Feat. pH-1)"><span class="icon icon-title">TITLE</span>How We Came (Feat. pH-1)</a>
                <a href="#" class="artist ellipsis">Lil Moshpit &amp; Fleeky Bang</a>
                <span class="duration">02:57</span>
            </td>
        </tr>
        <tr class="list" songid="100921353">
            <td class="info">
                <a href="#" class="title ellipsis" title="끊었어? (demo)">끊었어? (demo)</a>
                <a href="#" class="artist ellipsis">Chan (찬), 기원 (Giwon)</a>
                <span class="duration">03:01</span>
            </td>
        </tr>
        </table>
        "##;
    let tracks = parse_search_tracks(body);

    assert_eq!(tracks.len(), 2);
    assert_eq!(tracks[0].track_id, 101374441);
    assert_eq!(tracks[0].track_name, "How We Came (Feat. pH-1)");
    assert_eq!(tracks[0].artist_name, "Lil Moshpit & Fleeky Bang");
    assert_eq!(tracks[0].duration_ms, Some(177000));
    assert_eq!(tracks[1].track_name, "끊었어? (demo)");
    assert_eq!(tracks[1].artist_name, "Chan (찬), 기원 (Giwon)");
}

#[test]
fn parse_lyrics_payload_fixture_extracts_timestamped_lines() {
    let payload = "\n  jQuery1123({\"1030\":\"그대여\",\"7010\":\"오늘은\",\"24210\":\"벚꽃엔딩\",\"sync\":\"1\",\"99999\":\"   \"})\n";
    let parsed = parse_lyrics_payload(payload)
        .expect("fixture should parse")
        .expect("fixture should contain lyrics");

    assert_eq!(parsed.get(1030).map(String::as_str), Some("그대여"));
    assert_eq!(parsed.get(7010).map(String::as_str), Some("오늘은"));
    assert_eq!(parsed.get(24210).map(String::as_str), Some("벚꽃엔딩"));
    assert_eq!(parsed.len(), 3);
}

#[test]
fn genie_payload_edge_cases() {
    assert!(matches!(parse_lyrics_payload("  "), Ok(None)));
    assert!(matches!(parse_lyrics_payload("not found lyrics"), Ok(None)));
    let not_object = parse_lyrics_payload("cb([1,2])").err().expect("array is refused");
    assert_eq!(not_object, "Genie lyrics payload body was not an object");
    let bad_json = parse_lyrics_payload("cb({nope})").err().expect("bad json is refused");
    assert!(bad_json.starts_with("Genie lyrics JSON parse failed: "));
    assert!(bad_json.len() > "Genie lyrics JSON parse failed: ".len());
    assert!(matches!(parse_lyrics_payload("cb({\"x\":\"y\"})"), Ok(None)));
}

#[test]
fn genie_lines_come_out_in_time_order() {
    let mut entries = LyricsEntries::new();
    entries.insert(7010, "second".to_string());
    entries.insert(1030, "first".to_string());
    entries.insert(7010, "second again".to_string());
    assert_eq!(entries.len(), 2);
    assert_eq!(
        format_genie_lrc(&entries),
        Some("[00:01.03]first\n[00:07.01]second again".to_string())
    );
    assert_eq!(format_plain_text(&entries), Some("first\nsecond again".to_string()));
    assert_eq!(format_plain_text(&LyricsEntries::new()), None);
}

#[test]
fn genie_document_members_become_lines() {
    let doc = JsonDocument::Object(vec![
        ("500".to_string(), Some(" a &amp; b ".to_string())),
        ("x".to_string(), Some("skipped".to_string())),
        ("600".to_string(), None),
    ]);
    let entries = lyrics_from_document(doc).unwrap().unwrap();
    assert_eq!(entries.get(500).map(String::as_str), Some("a & b"));
    assert_eq!(entries.len(), 1);
    let invalid = lyrics_from_document(JsonDocument::Invalid("oops".to_string()));
    assert_eq!(invalid.err(), Some("Genie lyrics JSON parse failed: oops".to_string()));
}

#[test]
fn genie_markup_helpers() {
    assert_eq!(text(&strip_tags(&chars("<b>bold</b> text"))), "bold text");
    assert_eq!(
        text(&html_entity_decode(&chars("&lt;a&gt; &#40;x&#41; &amp;amp;"))),
        "<a> (x) &amp;"
    );
    assert_eq!(text(&extract_jsonp_payload(&chars("cb({1})")).unwrap()), "{1}");
    assert!(extract_jsonp_payload(&chars(")(")).is_none());
    let info = chars(r#"<a class="artist ellipsis" title="">Some &amp; One</a>"#);
    let shown = capture_anchor_attr_or_text(&info, &chars("artist ellipsis"), &chars("title"));
    assert_eq!(text(&shown.unwrap()), "Some & One");
    assert!(matches!(map_search_status(404, "404 Not Found"), GenieError::NotFound));
    assert!(matches!(map_search_status(429, "429"), GenieError::Ratelimit));
    match map_search_status(500, "500 Internal Server Error") {
        GenieError::Provider(detail) => assert_eq!(detail, "search returned 500 Internal Server Error"),
        other => panic!("unexpected {other:?}"),
    }
}

#[test]
fn deezer_formats_queries_and_lrc() {
    assert_eq!(build_search_query("A \"B\"", "C"), "track:\"A \\\"B\\\"\" artist:\"C\"");
    assert_eq!(build_search_query("", "C"), "artist:\"C\"");
    assert_eq!(build_search_query("", ""), "");
    assert_eq!(format_lrc_timestamp(61_234), "[01:01.23]");
    let lines = vec![
        SyncLine { milliseconds: 1000, line: "  one ".to_string() },
        SyncLine { milliseconds: 2000, line: "   ".to_string() },
    ];
    assert_eq!(build_lrc_from_sync_lines(&lines), "[00:01.00] one");
    assert!(matches!(lyrics_query_status(401, "401"), Err(DeezerError::Auth(_))));
    assert!(lyrics_query_status(200, "200 OK").is_ok());
}

#[test]
fn parse_duration_ms_supports_minutes_and_hours() {
    assert_eq!(ivlyrics_bridge::provider_util::parse_duration_ms("02:53"), Some(173000));
    assert_eq!(ivlyrics_bridge::provider_util::parse_duration_ms("1:02:03"), Some(3_723_000));
    assert_eq!(ivlyrics_bridge::provider_util::parse_duration_ms(""), None);
}

#[test]
fn format_lrc_timestamp_ms_preserves_rounding_modes() {
    assert_eq!(format_lrc_timestamp_ms(1039, TimestampRounding::Floor), "[00:01.03]");
    assert_eq!(format_lrc_timestamp_ms(1039, TimestampRounding::Nearest), "[00:01.04]");
}

#[test]
fn retry_policy_gives_one_more_try() {
    assert_eq!(retry_step(0, AttemptOutcome::Status(503)), RetryStep::Retry);
    assert_eq!(retry_step(0, AttemptOutcome::Status(404)), RetryStep::Accept);
    assert_eq!(retry_step(1, AttemptOutcome::Status(503)), RetryStep::Accept);
    let timeout = AttemptOutcome::Failed { timeout: true, connect: false, request: false };
    assert_eq!(retry_step(0, timeout), RetryStep::Retry);
    assert_eq!(retry_step(1, timeout), RetryStep::Fail);
}

fn header_of(body: &str) -> (u16, String) {
    let value: serde_json::Value = serde_json::from_str(body).unwrap();
    let header = &value["message"]["header"];
    (
        header["status_code"].as_u64().unwrap() as u16,
        header["hint"].as_str().unwrap_or("").to_string(),
    )
}

#[test]
fn parse_body_maps_token_expired() {
    let body = r#"{"message":{"header":{"status_code":401,"hint":"renew"}}}"#;
    let (status, hint) = header_of(body);
    let error = classify_header(status, &hint).err().expect("should be token expired");
    assert!(matches!(error, Error::TokenExpired));
}

#[test]
fn parse_body_maps_rate_limit() {
    let body = r#"{"message":{"header":{"status_code":401,"hint":"captcha"}}}"#;
    let (status, hint) = header_of(body);
    let error = classify_header(status, &hint).err().expect("should be ratelimited");
    assert!(matches!(error, Error::Ratelimit));
}

#[test]
fn lyrics_validate_rejects_not_authorized_payload() {
    let body = LyricsBody {
        lyrics: Lyrics {
            lyrics_id: 1,
            lyrics_body: String::new(),
            lyrics_copyright: Some(
                "Unfortunately we're not authorized to show these lyrics".to_string(),
            ),
        },
    };
    let error = body.validate().err().expect("lyrics should be unavailable");
    assert!(matches!(error, Error::NotAvailable));
}

#[test]
fn subtitle_payload_preserves_lrc_text() {
    let payload = r#"{"message":{"header":{"status_code":200,"hint":""},"body":{"subtitle":{"subtitle_id":1,"subtitle_body":"[00:01.23]hello"}}}}"#;
    let (status, hint) = header_of(payload);
    assert!(classify_header(status, &hint).is_ok());
    let value: serde_json::Value = serde_json::from_str(payload).unwrap();
    let subtitle = Subtitle {
        subtitle_id: value["message"]["body"]["subtitle"]["subtitle_id"].as_u64().unwrap(),
        subtitle_body: value["message"]["body"]["subtitle"]["subtitle_body"]
            .as_str()
            .unwrap()
            .to_string(),
    };
    let lrc = subtitle_lrc(&Ok(subtitle)).expect("subtitle body should parse");
    assert_eq!(lrc, "[00:01.23]hello");
}

#[test]
fn musixmatch_errors_and_parameters() {
    assert!(matches!(classify_header(404, ""), Err(Error::NotFound)));
    assert!(classify_header(200, "").is_ok());
    match classify_header(500, "oops") {
        Err(Error::Provider { status_code, msg }) => {
            assert_eq!(status_code, 500);
            assert_eq!(msg, "oops");
        }
        other => panic!("unexpected {other:?}"),
    }
    let e = Error::Provider { status_code: 402, msg: "pay".to_string() };
    assert_eq!(
        e.message(),
        "Error 402 returned by the Musixmatch API. Message: 'pay'"
    );
    assert_eq!(Error::InvalidData("bad".to_string()).message(), "JSON parsing error: bad");
    let (name, value) = TrackId::TrackId(42).to_param();
    assert_eq!((name.as_str(), value.as_str()), ("track_id", "42"));
    let (name, value) = TrackId::Spotify("abc".to_string()).to_param();
    assert_eq!((name.as_str(), value.as_str()), ("track_spotify_id", "abc"));
    let params = TrackSearchQuery::new()
        .q_track("Tell Me")
        .f_has_lyrics()
        .s_track_rating(SortOrder::Desc)
        .params(10, 1);
    let params: Vec<(&str, &str)> = params.iter().map(|(a, b)| (a.as_str(), b.as_str())).collect();
    assert_eq!(
        params,
        vec![
            ("q_track", "Tell Me"),
            ("f_has_lyrics", "1"),
            ("s_track_rating", "desc"),
            ("page_size", "10"),
            ("page", "1"),
        ]
    );
}

#[test]
fn musixmatch_signature_and_ids() {
    assert_eq!(ymd_text(2024, 1, 31), "20240131");
    let sig = url_signature(
        "https://apic.musixmatch.com/ws/1.1/track.get?app_id=android-player-v1.0&format=json",
        "20240131",
    );
    assert_eq!(sig, "r0COJ3cbW34yhamr0neap9siyGo=\n");
    assert_eq!(signature_from_tag(b"Man"), "TWFu\n");
    assert_eq!(signature_from_tag(b"Ma"), "TWE=\n");
    assert_eq!(signature_from_tag(&[]), "\n");
    assert_eq!(guid_text(0xff, 0x0f), "00000000000000f0");
    assert_eq!(uuid_text(0, 0), "00000000-0000-0000-0000-000000000000");
    let a: u64 = 0x1_0000_0001;
    let b: u64 = 0x2_0003;
    let c = a.rotate_left(13) ^ b.rotate_left(7);
    assert_eq!(
        uuid_text(a, b),
        format!(
            "{:08x}-{:04x}-{:04x}-{:04x}-{:012x}",
            (a & 0xffff_ffff) as u32,
            ((a >> 32) & 0xffff) as u16,
            (b & 0xffff) as u16,
            ((b >> 16) & 0xffff) as u16,
            c & 0xffff_ffff_ffff
        )
    );
}

#[test]
fn synced_times_are_read_as_floating_point_text() {
    assert_eq!(parse_synced_lyrics("1e1|x").as_deref(), Some("[00:10.00]x"));
    assert_eq!(parse_synced_lyrics("2E0|x").as_deref(), Some("[00:02.00]x"));
    assert_eq!(parse_synced_lyrics("2.5e-1|x").as_deref(), Some("[00:00.25]x"));
    assert_eq!(parse_synced_lyrics(".5|x").as_deref(), Some("[00:00.50]x"));
    assert_eq!(parse_synced_lyrics("7.|x").as_deref(), Some("[00:07.00]x"));
    assert_eq!(parse_synced_lyrics("+1.234|x").as_deref(), Some("[00:01.23]x"));
    assert_eq!(parse_synced_lyrics("1.235|x").as_deref(), Some("[00:01.24]x"));
    assert_eq!(parse_synced_lyrics("-0|x").as_deref(), Some("[00:00.00]x"));
    assert_eq!(parse_synced_lyrics("-0.0e5|x").as_deref(), Some("[00:00.00]x"));
    assert_eq!(parse_synced_lyrics("1e-400|x").as_deref(), Some("[00:00.00]x"));
    assert_eq!(
        parse_synced_lyrics("inf|x").as_deref(),
        Some("[3074457345618258:36.15]x")
    );
    assert_eq!(
        parse_synced_lyrics("1e400|x").as_deref(),
        Some("[3074457345618258:36.15]x")
    );
    assert_eq!(parse_synced_lyrics("-1|x"), None);
    assert_eq!(parse_synced_lyrics("NaN|x"), None);
    assert_eq!(parse_synced_lyrics("-inf|x"), None);
    assert_eq!(parse_synced_lyrics("1e|x"), None);
    assert_eq!(parse_synced_lyrics(".|x"), None);
    assert_eq!(parse_synced_lyrics("1.2.3|x"), None);
    assert_eq!(
        parse_synced_lyrics("InFiNiTy|x＃3|y").as_deref(),
        Some("[3074457345618258:36.15]x\n[00:03.00]y")
    );
}
