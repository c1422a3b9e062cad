use ivlyrics_bridge::bugs::BugsTrack;
use ivlyrics_bridge::deezer::DeezerTrack;
use ivlyrics_bridge::matching::{
    artist_variants, can_use_title_only_fallback, collapse_to_words, duration_score,
    exact_duration_match, exact_title_artist_match, is_acceptable_bugs_match,
    is_acceptable_deezer_match, is_acceptable_match, normalize, normalize_connectors, score_track,
    similarity, simplify, strip_lyrics_footer, title_variants,
};
use ivlyrics_bridge::musixmatch::Track;

fn ratio_value(a: &str, b: &str) -> f32 {
    let r = similarity(a, b);
    if r.total == 0 {
        0.0
    } else {
        r.matches as f32 / r.total as f32
    }
}

fn mxm_track(name: &str, artist: &str, length: u32) -> Track {
    Track {
        track_id: 1,
        track_name: name.to_string(),
        track_length: length,
        artist_name: artist.to_string(),
        has_lyrics: true,
        has_subtitles: true,
        has_richsync: false,
    }
}

#[test]
fn collapse_to_words_preserves_unicode_letters() {
    assert_eq!(collapse_to_words("에픽하이 feat. 융진"), "에픽하이 feat 융진");
    assert_eq!(collapse_to_words("끊었어? (demo)"), "끊었어 demo");
}

#[test]
fn similarity_counts_unicode_characters_not_utf8_bytes() {
    assert_eq!(ratio_value("끊었어", "끊었어"), 1.0);
    assert!(ratio_value("끊었어", "끊었어 demo") > 0.3);
}

#[test]
fn title_variants_include_search_fallback_forms() {
    let variants = title_variants("끊었어? (demo)");
    assert!(variants.iter().any(|value| value == "끊었어? (demo)"));
    assert!(variants.iter().any(|value| value == "끊었어"));
    assert!(variants.iter().any(|value| value == "끊었어 demo"));
}

#[test]
fn artist_variants_strip_featured_and_split_collaborators() {
    let variants = artist_variants("Epik High feat. Yoong Jin of Casker");
    assert!(variants
        .iter()
        .any(|value| value == "Epik High feat. Yoong Jin of Casker"));
    assert!(variants.iter().any(|value| value == "Epik High"));
}

#[test]
fn normalize_connectors_expands_symbols() {
    assert_eq!(normalize_connectors("A&B"), "A and B");
    assert_eq!(normalize_connectors("A/B"), "A B");
    assert_eq!(normalize_connectors("A×B"), "A x B");
}

#[test]
fn simplify_drops_brackets_and_preserves_korean() {
    assert_eq!(simplify("Love Love Love (feat. 융진)"), "love love love");
    assert_eq!(simplify("끊었어? (demo)"), "끊었어");
}

#[test]
fn duration_score_rewards_close_matches_and_penalizes_far_ones() {
    assert_eq!(duration_score(1_000), 18);
    assert_eq!(duration_score(2_500), 10);
    assert_eq!(duration_score(5_000), 4);
    assert_eq!(duration_score(12_000), -8);
    assert_eq!(duration_score(24_000), -20);
    assert_eq!(duration_score(8_000), 0);
}

#[test]
fn short_single_word_titles_do_not_use_title_only_fallback() {
    assert!(!can_use_title_only_fallback("KO"));
    assert!(!can_use_title_only_fallback("VVS"));
    assert!(can_use_title_only_fallback("Love Love Love"));
    assert!(can_use_title_only_fallback("끊었어?"));
}

#[test]
fn deezer_short_titles_follow_same_title_only_rule() {
    assert!(!can_use_title_only_fallback("KO"));
    assert!(can_use_title_only_fallback("신호는 잘 지켜"));
}

#[test]
fn variants_are_distinct_and_start_with_the_trimmed_input() {
    let variants = title_variants("  Tell Me  ");
    assert_eq!(variants[0], "Tell Me");
    for i in 0..variants.len() {
        for j in (i + 1)..variants.len() {
            assert!(!variants[i].eq_ignore_ascii_case(&variants[j]));
        }
    }
    assert!(title_variants("   ").is_empty());
}

#[test]
fn exact_matches_need_titles_and_overlapping_artists() {
    assert!(exact_title_artist_match("Tell Me (feat. X)", "CAMO", "Tell Me", "camo"));
    assert!(exact_title_artist_match("Tell Me", "CAMO & Friend", "Tell Me", "CAMO"));
    assert!(!exact_title_artist_match("Tell You", "CAMO", "Tell Me", "CAMO"));
    assert_eq!(normalize("  A & B  "), "a b");
    assert_eq!(normalize("ÉCOLE Ünter-Wald"), "école ünter wald");
}

#[test]
fn acceptance_follows_the_search_step() {
    let track = mxm_track("Tell Me", "CAMO", 180);
    assert!(is_acceptable_match(&track, "Tell Me", "CAMO", "search:title+artist"));
    assert!(!is_acceptable_match(&track, "Something Else", "Nobody", "search:title+artist"));
    let deezer = DeezerTrack {
        track_id: 2,
        track_name: "Tell Me".to_string(),
        artist_name: "Other".to_string(),
        duration_ms: Some(180_000),
    };
    assert!(is_acceptable_deezer_match(&deezer, "Tell Me", "", "search:title"));
    let bugs = BugsTrack {
        track_id: 3,
        track_name: "Tell Me".to_string(),
        artist_name: "Zzz".to_string(),
        duration_ms: Some(180_500),
    };
    assert!(is_acceptable_bugs_match(&bugs, "Tell Me", "Qqq", "search:title", Some(180_000)));
    assert!(!is_acceptable_bugs_match(&bugs, "Tell Me", "Qqq", "search:title", Some(190_000)));
    assert!(exact_duration_match(Some(1_000), Some(3_500)));
    assert!(!exact_duration_match(Some(1_000), Some(3_501)));
    assert!(!exact_duration_match(None, Some(3_500)));
}

#[test]
fn scores_rank_the_closer_track_higher() {
    // The track length is compared with the wanted duration as if it were milliseconds.
    let close = score_track(&mxm_track("Tell Me", "CAMO", 180), "Tell Me", "CAMO", Some(180));
    let far = score_track(&mxm_track("Tell Me Tonight", "CAMO", 180), "Tell Me", "CAMO", Some(180));
    assert_eq!(close.bonus, 15 + 10 + 18 + 8 + 2);
    assert_eq!(far.bonus, 8 + 10 + 18 + 8 + 2);
    assert_eq!(close.title_sim.matches, close.title_sim.total);
}

#[test]
fn lyrics_footer_is_dropped() {
    assert_eq!(
        strip_lyrics_footer("line one\nline two\n\n******* This Lyrics is NOT for Commercial use *******"),
        "line one\nline two"
    );
    assert_eq!(strip_lyrics_footer("  plain  "), "plain");
}

#[test]
fn featured_artists_are_cut_at_the_marker_in_any_script() {
    let variants = artist_variants("İstanbul feat. Someone");
    assert_eq!(variants[0], "İstanbul feat. Someone");
    assert!(variants.contains(&"İstanbul".to_string()));
    let variants = artist_variants("ÄÖÜ FEAT. X");
    assert!(variants.contains(&"ÄÖÜ".to_string()));
}
