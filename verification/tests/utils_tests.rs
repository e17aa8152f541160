use letras_sync::title::{extract_song_title_candidates, first_of_each_key, numbering_given};
use letras_sync::utils::{extract_video_id, normalize_youtube_url};

#[test]
fn extract_video_id_from_query_param() {
    assert_eq!(
        extract_video_id("https://www.youtube.com/watch?v=abc123"),
        Some("abc123".to_string())
    );
}

#[test]
fn extract_video_id_from_short_url() {
    assert_eq!(
        extract_video_id("https://youtu.be/abc123?t=10"),
        Some("abc123".to_string())
    );
}

#[test]
fn extract_video_id_returns_none_for_unknown_url() {
    assert_eq!(extract_video_id("https://example.com/x"), None);
}

#[test]
fn extracts_video_id_from_query_param() {
    assert_eq!(
        extract_video_id("https://www.youtube.com/watch?v=abc123"),
        Some("abc123".to_string())
    );
}

#[test]
fn extracts_video_id_with_extra_params() {
    assert_eq!(
        extract_video_id("https://www.youtube.com/watch?v=abc123&t=10s"),
        Some("abc123".to_string())
    );
}

#[test]
fn extracts_video_id_from_short_url() {
    assert_eq!(
        extract_video_id("https://youtu.be/abc123"),
        Some("abc123".to_string())
    );
}

#[test]
fn extracts_video_id_from_short_url_with_query() {
    assert_eq!(
        extract_video_id("https://youtu.be/abc123?t=10"),
        Some("abc123".to_string())
    );
}

#[test]
fn extracts_video_id_from_short_url_with_si_param() {
    assert_eq!(
        extract_video_id("https://youtu.be/h3sZG-hOYfQ?si=hQbRlLgdOxC28LG9"),
        Some("h3sZG-hOYfQ".to_string())
    );
}

#[test]
fn normalize_youtube_url_from_watch_with_playlist_params() {
    assert_eq!(
        normalize_youtube_url(
            "https://www.youtube.com/watch?v=kfRTPB1ukMc&list=PLkVD6Kn1p6P4rv1f0eiHwd4PgTuMQOqC1"
        ),
        Some("https://www.youtube.com/watch?v=kfRTPB1ukMc".to_string())
    );
}

#[test]
fn normalize_youtube_url_from_short_link_with_si_param() {
    assert_eq!(
        normalize_youtube_url("https://youtu.be/h3sZG-hOYfQ?si=hQbRlLgdOxC28LG9"),
        Some("https://www.youtube.com/watch?v=h3sZG-hOYfQ".to_string())
    );
}

#[test]
fn normalize_youtube_url_from_music_watch_url() {
    assert_eq!(
        normalize_youtube_url("https://music.youtube.com/watch?v=kfRTPB1ukMc&si=LVBiIBUOCkvS64GM"),
        Some("https://www.youtube.com/watch?v=kfRTPB1ukMc".to_string())
    );
}

#[test]
fn returns_none_for_unrecognized_url() {
    assert_eq!(extract_video_id("https://example.com/video"), None);
}

#[test]
fn normalizing_a_canonical_url_gives_it_back() {
    let once = normalize_youtube_url("https://youtu.be/abc123?t=10").unwrap();
    let twice = normalize_youtube_url(&once).unwrap();
    assert_eq!(once, twice);
    assert_eq!(extract_video_id(&once), Some("abc123".to_string()));
}

#[test]
fn empty_query_id_falls_back_to_short_link() {
    assert_eq!(
        extract_video_id("https://youtu.be/xyz?v=&a=1"),
        Some("xyz".to_string())
    );
    assert_eq!(extract_video_id("https://youtu.be/?v="), None);
}

#[test]
fn extracts_song_name_from_bullet_separated_youtube_title() {
    let candidates = extract_song_title_candidates(
        "Novo Hinário Adventista • Hino 293 • O Sábado Chegou • (Lyrics)",
    );
    assert_eq!(candidates[0], "O Sábado Chegou");
}

#[test]
fn extracts_from_dash_separated_title() {
    let candidates = extract_song_title_candidates("Hillsong - Oceans (Official Video)");
    assert!(candidates.iter().any(|c| c.contains("Oceans")));
}

#[test]
fn single_segment_title_returns_itself() {
    let candidates = extract_song_title_candidates("Oceans");
    assert_eq!(candidates[0], "Oceans");
}

#[test]
fn title_candidates_put_numbering_last_and_drop_repeats() {
    let candidates = extract_song_title_candidates(
        "Novo Hinário Adventista • Hino 293 • O Sábado Chegou • (Lyrics)",
    );
    assert_eq!(
        candidates,
        vec![
            "O Sábado Chegou".to_string(),
            "Novo Hinário Adventista".to_string(),
            "Hino 293".to_string(),
            "Novo Hinário Adventista • Hino 293 • O Sábado Chegou •".to_string(),
        ]
    );
    let dash = extract_song_title_candidates("Hillsong - Oceans (Official Video)");
    assert_eq!(
        dash,
        vec![
            "Hillsong".to_string(),
            "Oceans".to_string(),
            "Hillsong - Oceans".to_string()
        ]
    );
    assert!(extract_song_title_candidates("  (LYRICS) [hd] ").is_empty());
    assert_eq!(
        extract_song_title_candidates("OCEANS | oceans"),
        vec!["oceans".to_string(), "OCEANS | oceans".to_string()]
    );
}

#[test]
fn only_the_v_query_parameter_carries_the_id() {
    assert_eq!(extract_video_id("https://example.com/?nav=1"), None);
    assert_eq!(
        extract_video_id("https://www.youtube.com/watch?feature=share&v=abc123"),
        Some("abc123".to_string())
    );
    assert_eq!(
        extract_video_id("https://www.youtube.com/watch?nav=2&v=abc123&t=1"),
        Some("abc123".to_string())
    );
}

#[test]
fn the_whole_cleaned_title_closes_the_candidates() {
    let candidates = extract_song_title_candidates("Hino 293 | Grandioso es Tu (Lyrics)");
    assert_eq!(candidates.last().map(String::as_str), Some("Hino 293 | Grandioso es Tu"));
    let dashed = extract_song_title_candidates("Artista - Cancao");
    assert_eq!(dashed, vec!["Artista", "Cancao", "Artista - Cancao"]);
}

fn chars(s: &str) -> Vec<char> {
    s.chars().collect()
}

#[test]
fn numberings_are_judged_by_their_lowercase_form() {
    assert!(numbering_given(&chars("HINO 293"), &chars("hino 293")));
    assert!(numbering_given(&chars("Track 4"), &chars("track 4")));
    assert!(!numbering_given(&chars("HINO 293"), &chars("HINO 293")));
    assert!(!numbering_given(&chars("Hino da Harpa"), &chars("hino da harpa")));
    assert!(!numbering_given(&chars("Hino 99999999999"), &chars("hino 99999999999")));
}

#[test]
fn the_first_piece_of_each_key_is_kept() {
    let pieces = vec![chars("Grande"), chars("GRANDE"), chars("Hino 1"), chars("grande!")];
    let keys = vec![chars("grande"), chars("grande"), chars("hino 1"), chars("grande!")];
    let kept = first_of_each_key(&pieces, &keys);
    assert_eq!(kept, vec![chars("Grande"), chars("Hino 1"), chars("grande!")]);
}
