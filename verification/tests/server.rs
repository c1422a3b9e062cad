use ivlyrics_bridge::bugs::BugsError;
use ivlyrics_bridge::cache::{CachedLyrics, LyricsCache, CACHE_TTL_MS, NEGATIVE_CACHE_TTL_MS};
use ivlyrics_bridge::deezer::DeezerError;
use ivlyrics_bridge::genie::GenieError;
use ivlyrics_bridge::logging::{
    backend_log_tag, bool_text, bytes_after_write, display_opt_text, display_opt_u64, display_str,
    log_line, log_timestamp, matched_by_text, needs_rotation, provider_log_tag, rotated_extension,
    tagged_message, translate_log_detail,
};
use ivlyrics_bridge::musixmatch::Error as MxmError;
use ivlyrics_bridge::origin::{
    admin_refusal, allowed_origins, is_loopback_host, is_trusted_origin_str, is_trusted_url_parts,
    UrlParts,
};
use ivlyrics_bridge::payload::{
    auto_outcome, auto_start, choose_auto_payload, is_auto_negative_cacheable,
    is_negative_cacheable_error, map_error, AutoPending, AutoStart, LyricsError, LyricsPayload,
};
use ivlyrics_bridge::resolve::{Query, TrackSearch};
use ivlyrics_bridge::server::{
    build_cache_key, config_payload, current_deezer_arl, lyrics_request, mask_secret,
    next_config, parse_backend_mode, runtime_config_payload, AppConfig, BackendMode,
};
use ivlyrics_bridge::update::{
    addon_download_url, addon_source_kind, addon_step, boolish, compare_versions,
    join_unique_paths, provider_statuses, provider_timeout_secs, restore_summary,
    lists_addon, manifest_subfiles, spicetify_apply_outcome, update_script, versions_comparable,
    AddonFetch, AddonSource, Platform,
};

const PROVIDER_NAME: &str = "musicxmatch";
const DEEZER_PROVIDER_NAME: &str = "deezer";
const BUGS_PROVIDER_NAME: &str = "bugs";

fn test_lyrics_payload(
    provider: &'static str,
    track_id: u64,
    lrc: Option<&str>,
    text: Option<&str>,
) -> LyricsPayload {
    LyricsPayload {
        provider: provider.to_string(),
        track_id: Some(track_id),
        track_name: Some(format!("Track {track_id}")),
        artist_name: Some("Artist".to_string()),
        lrc: lrc.map(str::to_string),
        text: text.map(str::to_string),
        cached: false,
        matched_by: Some("test".to_string()),
        debug: None,
    }
}

#[test]
fn compare_versions_handles_semver_like_strings() {
    assert!(compare_versions("0.3.2", "0.3.1") > 0);
    assert!(compare_versions("0.3.1", "0.3.2") < 0);
    assert_eq!(compare_versions("0.3.1", "0.3.1"), 0);
}

#[test]
fn versions_compare_by_parts_with_missing_parts_as_zero() {
    assert_eq!(compare_versions("1.2", "1.2.0"), 0);
    assert_eq!(compare_versions("1.10", "1.9"), 1);
    assert_eq!(compare_versions("x.1", "0.1"), 0);
    assert_eq!(compare_versions("2", "0.9"), 2);
}

#[test]
fn oversized_version_parts_compare_as_signed_numbers() {
    assert!(versions_comparable("4294967295", "1"));
    assert_eq!(compare_versions("4294967295", "1"), -2);
    assert!(!versions_comparable("2147483648", "1"));
    assert!(versions_comparable("2147483648", "0"));
    assert!(versions_comparable("0.3.1", "0.3.2"));
}

#[test]
fn parse_backend_mode_handles_expected_values() {
    assert_eq!(parse_backend_mode(None), BackendMode::Auto);
    assert_eq!(parse_backend_mode(Some("auto")), BackendMode::Auto);
    assert_eq!(parse_backend_mode(Some("musicxmatch")), BackendMode::Musicxmatch);
    assert_eq!(parse_backend_mode(Some("musixmatch")), BackendMode::Musicxmatch);
    assert_eq!(parse_backend_mode(Some("deezer")), BackendMode::Deezer);
    assert_eq!(parse_backend_mode(Some("bugs")), BackendMode::Bugs);
    assert_eq!(parse_backend_mode(Some("genie")), BackendMode::Genie);
}

#[test]
fn backend_names_ignore_case_and_spaces() {
    assert_eq!(parse_backend_mode(Some("  MXM ")), BackendMode::Musicxmatch);
    assert_eq!(parse_backend_mode(Some("Genie")), BackendMode::Genie);
    assert_eq!(parse_backend_mode(Some("spotify")), BackendMode::Auto);
}

#[test]
fn cache_keys_include_backend_mode() {
    let auto = build_cache_key("Tell Me", "CAMO", "abc", None, BackendMode::Auto);
    let mxm = build_cache_key("Tell Me", "CAMO", "abc", None, BackendMode::Musicxmatch);
    let deezer = build_cache_key("Tell Me", "CAMO", "abc", None, BackendMode::Deezer);
    let bugs = build_cache_key("Tell Me", "CAMO", "abc", None, BackendMode::Bugs);
    let genie = build_cache_key("Tell Me", "CAMO", "abc", None, BackendMode::Genie);
    assert_ne!(auto, mxm);
    assert_ne!(mxm, deezer);
    assert_ne!(auto, deezer);
    assert_ne!(deezer, bugs);
    assert_ne!(mxm, bugs);
    assert_ne!(bugs, genie);
    assert_ne!(deezer, genie);
}

#[test]
fn cache_keys_include_duration_when_available() {
    let short = build_cache_key("Tell Me", "CAMO", "", Some(180_100), BackendMode::Auto);
    let long = build_cache_key("Tell Me", "CAMO", "", Some(240_100), BackendMode::Auto);
    let unknown_duration = build_cache_key("Tell Me", "CAMO", "", None, BackendMode::Auto);

    assert_ne!(short, long);
    assert_ne!(short, unknown_duration);
    assert!(short.ends_with(":duration:180s"));
}

#[test]
fn cache_key_layout() {
    assert_eq!(
        build_cache_key("Tell Me!", "CAMO", "", Some(200), BackendMode::Bugs),
        "bugs:tell me::camo:duration:1s"
    );
    assert_eq!(
        build_cache_key("x", "y", "spot", Some(180_499), BackendMode::Deezer),
        "deezer:spotify:spot:duration:180s"
    );
    assert_eq!(
        build_cache_key("x", "y", "spot", Some(180_500), BackendMode::Deezer),
        "deezer:spotify:spot:duration:181s"
    );
}

#[test]
fn auto_payload_selection_prefers_lrc_after_text_only_candidate() {
    let selected = choose_auto_payload(vec![
        test_lyrics_payload(PROVIDER_NAME, 1, None, Some("plain lyrics")),
        test_lyrics_payload(BUGS_PROVIDER_NAME, 2, Some("[00:01.00]synced"), None),
    ])
    .expect("synced candidate should be selected");

    assert_eq!(selected.provider, BUGS_PROVIDER_NAME);
    assert_eq!(selected.track_id, Some(2));
    assert!(selected.lrc.is_some());
}

#[test]
fn auto_payload_selection_uses_first_text_only_when_no_lrc_exists() {
    let selected = choose_auto_payload(vec![
        test_lyrics_payload(PROVIDER_NAME, 1, None, Some("first plain lyrics")),
        test_lyrics_payload(DEEZER_PROVIDER_NAME, 2, None, Some("second plain lyrics")),
        test_lyrics_payload(BUGS_PROVIDER_NAME, 3, None, Some("third plain lyrics")),
    ])
    .expect("text-only candidate should be selected");

    assert_eq!(selected.provider, PROVIDER_NAME);
    assert_eq!(selected.track_id, Some(1));
    assert_eq!(selected.text.as_deref(), Some("first plain lyrics"));
}

#[test]
fn auto_mode_stops_at_musixmatch_timed_lyrics() {
    let done = auto_start(Ok(test_lyrics_payload(PROVIDER_NAME, 1, Some("[00:01.00]x"), None)));
    assert!(matches!(done, AutoStart::Done(_)));
    let pending = auto_start(Ok(test_lyrics_payload(PROVIDER_NAME, 1, None, Some("plain"))));
    let pending = match pending {
        AutoStart::Pending(p) => p,
        AutoStart::Done(_) => panic!("plain lyrics keep looking"),
    };
    let result = auto_outcome(
        pending,
        None,
        Ok(test_lyrics_payload(BUGS_PROVIDER_NAME, 2, Some("[00:01.00]y"), None)),
        Err(GenieError::NotFound),
    )
    .expect("bugs has timed lyrics");
    assert_eq!(result.provider, BUGS_PROVIDER_NAME);
}

#[test]
fn auto_mode_failure_picks_the_reported_error() {
    let outcome = auto_outcome(
        AutoPending::Failed(MxmError::NotFound),
        None,
        Err(BugsError::NotAvailable),
        Err(GenieError::NotFound),
    );
    match outcome {
        Err(LyricsError::Auto { selected, negative_cacheable }) => {
            assert!(negative_cacheable);
            assert!(matches!(*selected, LyricsError::Bugs(BugsError::NotAvailable)));
            assert_eq!(map_error(*selected).0, 404);
        }
        other => panic!("unexpected {other:?}"),
    }
    let outcome = auto_outcome(
        AutoPending::Failed(MxmError::Ratelimit),
        Some(Err(DeezerError::NotFound)),
        Err(BugsError::NotFound),
        Err(GenieError::NotFound),
    );
    match outcome {
        Err(error) => {
            assert!(!is_negative_cacheable_error(&error));
            assert_eq!(map_error(error), (404, "No tracks found".to_string()));
        }
        Ok(_) => panic!("nothing was found"),
    }
}

#[test]
fn mask_secret_preserves_only_edges() {
    assert_eq!(mask_secret(""), "");
    assert_eq!(mask_secret("abcd"), "••••");
    assert_eq!(mask_secret("abcdefghijkl"), "abcd…ijkl");
}

#[test]
fn trusted_origin_rejects_regular_websites() {
    assert!(is_trusted_origin_str("spicetify://ivlyrics", &[]));
    assert!(is_trusted_origin_str("https://xpui.app.spotify.com", &[]));
    assert!(is_trusted_origin_str("http://127.0.0.1:8092", &[]));
    assert!(!is_trusted_origin_str("null", &[]));
    assert!(!is_trusted_origin_str("https://example.com", &[]));
}

#[test]
fn configured_origins_are_trusted() {
    let allowed = allowed_origins(" https://example.com/ ,, http://a.test//");
    assert_eq!(allowed, vec!["https://example.com".to_string(), "http://a.test".to_string()]);
    assert!(is_trusted_origin_str(" https://example.com ", &allowed));
    assert!(is_trusted_origin_str("https://anything.test", &["*".to_string()]));
    assert!(is_loopback_host("LOCALHOST"));
    assert!(is_loopback_host("127.1.2.3"));
    assert!(!is_loopback_host("127.01.2.3"));
    assert!(!is_loopback_host("128.0.0.1"));
    assert!(!is_trusted_origin_str("http://[::1]:8092", &[]));
}

#[test]
fn ipv6_loopback_texts_are_loopback_hosts() {
    assert!(is_loopback_host("::1"));
    assert!(is_loopback_host("0:0:0:0:0:0:0:1"));
    assert!(is_loopback_host("0000::0001"));
    assert!(is_loopback_host("::0.0.0.1"));
    assert!(is_loopback_host("0:0:0:0:0:0:0.0.0.1"));
    assert!(!is_loopback_host("::2"));
    assert!(!is_loopback_host("1::"));
    assert!(!is_loopback_host("::"));
    assert!(!is_loopback_host("::ffff:127.0.0.1"));
    assert!(!is_loopback_host("::0:0:0:0:0:0:0:1"));
    assert!(!is_loopback_host(":::1"));
    assert!(!is_loopback_host("[::1]"));
    assert!(!is_loopback_host("::00001"));
}

#[test]
fn auto_negative_cache_requires_all_attempted_errors_to_be_misses() {
    assert!(is_auto_negative_cacheable(
        &MxmError::NotFound,
        Some(&DeezerError::NotAvailable),
        Some(&BugsError::NotFound),
        Some(&GenieError::NotAvailable),
    ));
    assert!(!is_auto_negative_cacheable(
        &MxmError::NotFound,
        Some(&DeezerError::NotAvailable),
        Some(&BugsError::Ratelimit),
        Some(&GenieError::NotAvailable),
    ));
    assert!(!is_auto_negative_cacheable(
        &MxmError::Ratelimit,
        Some(&DeezerError::NotAvailable),
        Some(&BugsError::NotFound),
        Some(&GenieError::NotAvailable),
    ));
}

#[test]
fn error_answers() {
    assert_eq!(
        map_error(LyricsError::Deezer(DeezerError::ConfigMissing)),
        (503, "Deezer ARL cookie is not configured.".to_string())
    );
    assert_eq!(
        map_error(LyricsError::Genie(GenieError::Ratelimit)),
        (429, "Genie rate limit reached. Wait a minute and try again.".to_string())
    );
    assert_eq!(
        map_error(LyricsError::Musixmatch(MxmError::Provider { status_code: 402, msg: "x".to_string() })),
        (502, "Musixmatch error 402: x".to_string())
    );
    assert_eq!(
        map_error(LyricsError::Musixmatch(MxmError::TokenExpired)),
        (503, "Musixmatch session expired. Retry in a moment.".to_string())
    );
    assert_eq!(
        map_error(LyricsError::Musixmatch(MxmError::Http("timeout".to_string()))),
        (502, "http error: timeout".to_string())
    );
    assert_eq!(
        map_error(LyricsError::Bugs(BugsError::Provider("down".to_string()))),
        (502, "Bugs error: down".to_string())
    );
}

#[test]
fn get_config_returns_masked_deezer_arl_preview() {
    let config = AppConfig { deezer_arl: Some("abcdefghijklmnop".to_string()) };
    let payload = runtime_config_payload(None, &config);
    assert!(payload.deezer_arl_configured);
    assert_eq!(payload.deezer_arl_preview.as_deref(), Some("abcd…mnop"));
}

#[test]
fn save_config_clears_deezer_arl_and_persists_file() {
    let next = next_config(None);
    assert_eq!(next.deezer_arl, None);
    let payload = config_payload(&next);
    assert!(!payload.deezer_arl_configured);
    assert_eq!(payload.deezer_arl_preview, None);
}

#[test]
fn environment_arl_wins_over_saved_one() {
    let config = AppConfig { deezer_arl: Some("  saved-arl-value  ".to_string()) };
    assert_eq!(current_deezer_arl(Some(" env-arl "), &config), Some("env-arl".to_string()));
    assert_eq!(current_deezer_arl(Some("   "), &config), Some("saved-arl-value".to_string()));
    let payload = runtime_config_payload(Some("0123456789"), &config);
    assert_eq!(payload.deezer_arl_preview.as_deref(), Some("0123…6789"));
    assert_eq!(next_config(Some("  new  ")).deezer_arl, Some("new".to_string()));
}

#[test]
fn health_payload_reports_provider_statuses() {
    let statuses = provider_statuses(false);
    assert_eq!(statuses.musicxmatch, "ready");
    assert_eq!(statuses.deezer, "not-configured");
    assert_eq!(statuses.bugs, "ready");
    assert_eq!(statuses.genie, "ready");
    assert_eq!(provider_statuses(true).deezer, "configured");
}

#[test]
fn get_lyrics_rejects_missing_title_or_artist_without_spotify_id() {
    let result = lyrics_request(Some(""), Some("CAMO"), None, None, None, None);
    assert_eq!(
        result.err().as_deref(),
        Some("title and artist are required when spotifyId is missing")
    );
    let ok = lyrics_request(Some(" Tell Me "), None, Some("abc"), Some(1), Some("bugs"), Some(true))
        .expect("a Spotify id is enough");
    assert_eq!(ok.title, "Tell Me");
    assert_eq!(ok.artist, "");
    assert_eq!(ok.backend, BackendMode::Bugs);
    assert!(ok.include_debug);
}

#[test]
fn get_lyrics_returns_cached_payload_without_network_fetch() {
    let mut cache = LyricsCache::new();
    let cache_key = build_cache_key("Tell Me", "CAMO", "spotify123", None, BackendMode::Deezer);
    let mut payload = test_lyrics_payload("deezer", 42, Some("[00:01.00]hello"), None);
    payload.track_name = Some("Tell Me".to_string());
    cache.store(cache_key.clone(), payload, 1_000);

    let key = build_cache_key("Tell Me", "CAMO", "spotify123", None, BackendMode::Deezer);
    match cache.get(&key, 2_000) {
        Some(CachedLyrics::Success(found)) => {
            assert_eq!(found.provider, "deezer");
            assert_eq!(found.track_id, Some(42));
            assert!(found.cached);
            assert_eq!(found.lrc.as_deref(), Some("[00:01.00]hello"));
        }
        other => panic!("unexpected {other:?}"),
    }
}

#[test]
fn not_found_failures_are_cached_with_original_response() {
    let mut cache = LyricsCache::new();
    let cache_key = build_cache_key("Missing", "Artist", "", None, BackendMode::Bugs);
    let error = LyricsError::Bugs(BugsError::NotFound);

    assert!(is_negative_cacheable_error(&error));
    let (status, detail) = map_error(error);
    cache.store_negative(cache_key.clone(), status, detail.clone(), 0);

    match cache.get(&cache_key, 10) {
        Some(CachedLyrics::Failure(failure)) => {
            assert_eq!(failure.status, 404);
            assert_eq!(failure.detail, detail);
        }
        other => panic!("unexpected {other:?}"),
    }
}

#[test]
fn rate_limit_failures_are_not_negative_cached() {
    let mut cache = LyricsCache::new();
    let cache_key = build_cache_key("Busy", "Artist", "", None, BackendMode::Bugs);
    let error = LyricsError::Bugs(BugsError::Ratelimit);

    assert!(!is_negative_cacheable_error(&error));
    let (status, _detail) = map_error(error);

    assert!(cache.get(&cache_key, 0).is_none());
    assert_eq!(status, 429);
}

#[test]
fn cache_entries_expire() {
    let mut cache = LyricsCache::new();
    cache.store("a".to_string(), test_lyrics_payload("bugs", 1, None, Some("t")), 0);
    cache.store_negative("b".to_string(), 404, "No tracks found".to_string(), 0);
    assert_eq!(cache.len(), 2);
    assert!(cache.get("b", NEGATIVE_CACHE_TTL_MS - 1).is_some());
    assert!(cache.get("b", NEGATIVE_CACHE_TTL_MS).is_none());
    assert_eq!(cache.len(), 1);
    assert_eq!(cache.remove_expired(CACHE_TTL_MS - 1), 0);
    assert_eq!(cache.remove_expired(CACHE_TTL_MS), 1);
    assert_eq!(cache.len(), 0);
    cache.store("c".to_string(), test_lyrics_payload("bugs", 1, None, Some("t")), 5);
    cache.store("c".to_string(), test_lyrics_payload("genie", 2, None, Some("u")), 6);
    assert_eq!(cache.len(), 1);
    assert_eq!(cache.clear(), 1);
}

#[test]
fn log_texts() {
    assert_eq!(backend_log_tag(BackendMode::Musicxmatch), "MusicXMatch");
    assert_eq!(provider_log_tag("genie"), "Genie");
    assert_eq!(provider_log_tag("other"), "Server");
    assert_eq!(display_str("  x "), "x");
    assert_eq!(display_str("   "), "-");
    assert_eq!(display_opt_text(None), "-");
    assert_eq!(display_opt_u64(Some(42)), "42");
    assert_eq!(bool_text(true), "true");
    assert_eq!(matched_by_text(Some("search:title")), "제목 검색");
    assert_eq!(matched_by_text(Some("other")), "-");
    assert_eq!(translate_log_detail(" No tracks found "), "트랙을 찾지 못함");
    assert_eq!(translate_log_detail("Invalid Deezer ARL: bad"), "Deezer ARL 설정 검증 실패");
    assert_eq!(translate_log_detail(" other "), "other");
    assert_eq!(tagged_message("Server", "hi"), "[Server] hi");
    assert_eq!(log_line("2024-01-01 00:00:00", "m"), "[2024-01-01 00:00:00] m\n");
    assert_eq!(log_timestamp(2024, 1, 2, 3, 4, 5), "2024-01-02 03:04:05");
    assert!(!needs_rotation(2 * 1024 * 1024));
    assert!(needs_rotation(2 * 1024 * 1024 + 1));
    assert_eq!(bytes_after_write(u64::MAX - 1, 5), u64::MAX);
    assert_eq!(rotated_extension(Some("log")), "log.1");
    assert_eq!(rotated_extension(None), "1");
}

#[test]
fn track_search_follows_the_stages() {
    let mut search = TrackSearch::new("Tell Me", "CAMO", true);
    match search.next_query() {
        Some(Query::Search { title, artist }) => {
            assert_eq!(title.as_deref(), Some("Tell Me"));
            assert_eq!(artist.as_deref(), Some("CAMO"));
        }
        other => panic!("unexpected {other:?}"),
    }
    assert!(search.record(7, "Tell Me", "CAMO"));
    assert!(!search.record(7, "Tell Me", "CAMO"));
    assert!(search.next_query().is_none());
    assert_eq!(search.matched_by(), "search:title+artist");
    assert_eq!(search.attempted(), vec!["title=Tell Me | artist=CAMO".to_string()]);

    let mut empty = TrackSearch::new("KO", "X", true);
    let mut notes = Vec::new();
    while let Some(query) = empty.next_query() {
        notes.push(query);
    }
    assert_eq!(empty.matched_by(), "matcher:original");
    assert!(matches!(notes.last(), Some(Query::Match { required: true, .. })));
    assert!(empty.attempted().iter().any(|n| n == "title=<none> | artist=X"));
    assert!(!empty.attempted().iter().any(|n| n.ends_with("artist=<none>")));
}

#[test]
fn update_texts() {
    let script = update_script("/home/u", "/usr/bin", true, Platform::Linux);
    assert!(script.starts_with("#!/bin/sh\nset -eu\nexport HOME='/home/u'\n"));
    assert!(script.contains("include_addon=true"));
    assert!(script.ends_with("echo \"[update] 완료\"\n"));
    assert_eq!(
        join_unique_paths(
            vec!["/a".to_string(), "".to_string(), "/b".to_string(), "/a".to_string()],
            ":"
        ),
        "/a:/b"
    );
    assert!(matches!(addon_source_kind("local:/x.js"), AddonSource::Local(p) if p == "/x.js"));
    assert!(matches!(addon_source_kind("https://h/x"), AddonSource::Http(_)));
    assert!(matches!(addon_source_kind("/tmp/x"), AddonSource::File(_)));
    assert_eq!(
        addon_download_url(
            "https://raw.githubusercontent.com/oneulddu/musicxmatch-api/main/addons/a.js",
            Some("abc123")
        ),
        "https://raw.githubusercontent.com/oneulddu/musicxmatch-api/abc123/addons/a.js"
    );
    assert_eq!(addon_download_url("https://other/a.js", Some("abc")), "https://other/a.js");
    let step = addon_step("A.js", false, false, Some(AddonFetch::FetchFailed("boom".to_string())));
    assert!(!step.restored);
    assert_eq!(step.error.as_deref(), Some("A.js: boom"));
    let step = addon_step("B.js", false, true, None);
    assert!(step.restored && step.list_in_manifest);
    assert_eq!(
        restore_summary(vec!["b".to_string(), "a".to_string(), "b".to_string()], vec![]),
        Ok(vec!["a".to_string(), "b".to_string()])
    );
    assert_eq!(
        restore_summary(vec![], vec!["x: 1".to_string(), "y: 2".to_string()]),
        Err("x: 1; y: 2".to_string())
    );
    assert_eq!(boolish(Some(" TRUE ")), Ok(Some(true)));
    assert_eq!(boolish(Some("0")), Ok(Some(false)));
    assert_eq!(boolish(Some("  ")), Ok(None));
    assert_eq!(
        boolish(Some("yes")),
        Err("provided string was not `true` or `false`: yes".to_string())
    );
    assert_eq!(provider_timeout_secs(Some("0"), Some(" 7 "), 10), 7);
    assert_eq!(provider_timeout_secs(None, None, 10), 10);
}

#[test]
fn parsed_origins_are_judged_by_scheme_and_host() {
    let parts = |scheme: &str, host: Option<&str>| {
        Some(UrlParts { scheme: scheme.to_string(), host: host.map(|h| h.to_string()) })
    };
    assert!(is_trusted_url_parts(&parts("http", Some("localhost"))));
    assert!(is_trusted_url_parts(&parts("https", Some("XPUI.app.spotify.com"))));
    assert!(!is_trusted_url_parts(&parts("https", Some("example.com"))));
    assert!(!is_trusted_url_parts(&parts("http", None)));
    assert!(is_trusted_url_parts(&parts("tauri", None)));
    assert!(!is_trusted_url_parts(&parts("ftp", Some("localhost"))));
    assert!(!is_trusted_url_parts(&None));
}

#[test]
fn admin_requests_need_a_local_client_and_a_trusted_origin() {
    let local = "Admin endpoint is only available from loopback clients.".to_string();
    let origin = "Origin is not allowed for admin endpoints.".to_string();
    assert_eq!(admin_refusal(false, None, &[]), Some((403, local)));
    assert_eq!(admin_refusal(true, None, &[]), None);
    assert_eq!(admin_refusal(true, Some(Some("spicetify://ivlyrics")), &[]), None);
    assert_eq!(admin_refusal(true, Some(Some("https://evil.test")), &[]), Some((403, origin.clone())));
    assert_eq!(admin_refusal(true, Some(None), &[]), Some((403, origin)));
    assert_eq!(admin_refusal(true, Some(Some("https://evil.test")), &["*".to_string()]), None);
}

#[test]
fn manifest_lists_are_reset_when_not_lists() {
    let entries = vec![Some("a.js".to_string()), None];
    assert_eq!(manifest_subfiles(true, entries.clone()), (entries.clone(), false));
    assert_eq!(manifest_subfiles(false, entries.clone()), (Vec::new(), true));
    assert!(lists_addon(&entries, "a.js"));
    assert!(!lists_addon(&entries, "b.js"));
    assert!(!lists_addon(&[], "a.js"));
}

#[test]
fn spicetify_apply_failure_wins_over_restart_failure() {
    let failed = |m: &str| Err::<(), String>(m.to_string());
    assert_eq!(spicetify_apply_outcome(Ok(()), None), Ok(()));
    assert_eq!(spicetify_apply_outcome(Ok(()), Some(Ok(()))), Ok(()));
    assert_eq!(spicetify_apply_outcome(Ok(()), Some(failed("restart"))), failed("restart"));
    assert_eq!(spicetify_apply_outcome(failed("apply"), Some(failed("restart"))), failed("apply"));
    assert_eq!(spicetify_apply_outcome(failed("apply"), None), failed("apply"));
}
