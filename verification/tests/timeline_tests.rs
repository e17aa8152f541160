use letras_sync::controls::{
    can_seek, clamp_seek_seconds, clamp_volume, load_music_action, parse_debug_lyrics_provider,
    playback_state_label, projector_monitor_of, trim_lyric_line_text, DebugLyricsProvider,
    LoadAction, OperatorView,
};
use letras_sync::model::{LyricsLine, Music};
use letras_sync::player::{PlaybackState, PlayerEvent};
use letras_sync::timeline::{
    active_and_next_line, find_active_line, same_line, TimelineEvent, TimelineState,
};

fn line(id: i64, start_ms: i64, end_ms: i64) -> LyricsLine {
    LyricsLine {
        id,
        music_id: "m1".to_string(),
        start_ms,
        end_ms,
        text: format!("linha {id}"),
    }
}

fn sample_lines() -> Vec<LyricsLine> {
    vec![
        line(1, 0, 2000),
        line(2, 2000, 4000),
        // silence between 4 s and 5 s
        line(3, 5000, 7000),
    ]
}

#[test]
fn find_active_line_matches_exact_start() {
    let lines = sample_lines();
    let active = find_active_line(&lines, 0);
    assert_eq!(active.map(|l| l.id), Some(1));
}

#[test]
fn find_active_line_matches_within_range() {
    let lines = sample_lines();
    let active = find_active_line(&lines, 3000);
    assert_eq!(active.map(|l| l.id), Some(2));
}

#[test]
fn find_active_line_end_time_is_exclusive() {
    let lines = sample_lines();
    let active = find_active_line(&lines, 2000);
    assert_eq!(active.map(|l| l.id), Some(2));
}

#[test]
fn find_active_line_returns_none_in_silence_gap() {
    let lines = sample_lines();
    let active = find_active_line(&lines, 4500);
    assert!(active.is_none());
}

#[test]
fn find_active_line_returns_none_before_first_line() {
    let lines = sample_lines();
    let shifted = vec![line(1, 1000, 2000)];
    assert!(find_active_line(&shifted, 500).is_none());
    let _ = lines;
}

#[test]
fn find_active_line_returns_none_after_last_line() {
    let lines = sample_lines();
    let active = find_active_line(&lines, 9000);
    assert!(active.is_none());
}

#[test]
fn find_active_line_returns_none_for_empty_lines() {
    let lines: Vec<LyricsLine> = Vec::new();
    assert!(find_active_line(&lines, 1000).is_none());
}

#[test]
fn find_active_line_handles_backward_seek() {
    let lines = sample_lines();
    assert_eq!(find_active_line(&lines, 6000).map(|l| l.id), Some(3));
    assert_eq!(find_active_line(&lines, 1000).map(|l| l.id), Some(1));
}

#[test]
fn find_active_line_handles_positive_offset_earlier() {
    let lines = vec![line(1, 1000, 2000), line(2, 2000, 3000)];

    assert!(find_active_line(&lines, 500).is_none());
    assert_eq!(find_active_line(&lines, 500 + 1000).map(|l| l.id), Some(1));
}

#[test]
fn same_line_true_for_same_id() {
    let a = Some(line(1, 0, 2000));
    let b = Some(line(1, 0, 2000));
    assert!(same_line(&a, &b));
}

#[test]
fn same_line_false_for_different_id() {
    let a = Some(line(1, 0, 2000));
    let b = Some(line(2, 2000, 4000));
    assert!(!same_line(&a, &b));
}

#[test]
fn same_line_true_for_both_none() {
    assert!(same_line(&None, &None));
}

#[test]
fn same_line_false_for_none_vs_some() {
    let b = Some(line(1, 0, 2000));
    assert!(!same_line(&None, &b));
}

#[test]
fn active_and_next_line_returns_subsequent_line() {
    let lines = sample_lines();
    let (active, next) = active_and_next_line(&lines, 2500);

    assert_eq!(active.as_ref().map(|l| l.id), Some(2));
    assert_eq!(next.as_ref().map(|l| l.id), Some(3));
}

#[test]
fn overlapping_lines_show_the_first() {
    let lines = vec![line(1, 0, 3000), line(2, 1000, 2000)];
    assert_eq!(find_active_line(&lines, 1500).map(|l| l.id), Some(1));
    let (active, next) = active_and_next_line(&lines, 1500);
    assert_eq!(active.map(|l| l.id), Some(1));
    assert_eq!(next.map(|l| l.id), Some(2));
    let (none, after) = active_and_next_line(&lines, 5000);
    assert!(none.is_none() && after.is_none());
}

#[test]
fn timeline_announces_only_changes_of_line() {
    let mut timeline = TimelineState::new();
    let loaded = timeline.handle_player_event(PlayerEvent::MusicLoaded {
        music: Music {
            id: "m1".to_string(),
            title: "t".to_string(),
            artist: None,
            youtube_url: "u".to_string(),
            duration: None,
            thumbnail: None,
            created_at: None,
        },
        lyrics: sample_lines(),
        sync_offset_ms: 0,
    });
    assert!(matches!(
        loaded,
        Some(TimelineEvent::LineChanged { active: None, next: None })
    ));
    let first = timeline.update_active_line(500);
    match first {
        Some(TimelineEvent::LineChanged { active, next }) => {
            assert_eq!(active.map(|l| l.id), Some(1));
            assert_eq!(next.map(|l| l.id), Some(2));
        }
        None => panic!("a new line must be announced"),
    }
    assert!(timeline.update_active_line(1500).is_none());
    assert!(timeline.update_active_line(2500).is_some());
    assert!(timeline.handle_player_event(PlayerEvent::PlaybackFinished).is_some());
    assert!(timeline.lyrics.is_empty());
}

#[test]
fn offset_moves_the_line_on_screen() {
    let mut timeline = TimelineState::new();
    timeline.lyrics = sample_lines();
    timeline.update_active_line(1500);
    assert_eq!(timeline.active_line.as_ref().map(|l| l.id), Some(1));
    let changed = timeline.set_offset(1000);
    assert!(changed.is_some());
    assert_eq!(timeline.get_offset(), 1000);
    assert_eq!(timeline.active_line.as_ref().map(|l| l.id), Some(2));
}

#[test]
fn load_url_resets_clear_screen() {
    let mut view = OperatorView::new(PlaybackState::Idle);
    view.clear_screen = true;

    assert_eq!(
        load_music_action("https://example.com/watch?v=test", ""),
        LoadAction::LoadUrl
    );
    view.begin_load();

    assert!(!view.clear_screen);
}

#[test]
fn can_seek_requires_positive_duration_and_finite_position() {
    assert!(!can_seek(0, 10_000));
    assert!(!can_seek(-1_000, 10_000));
    assert!(!can_seek(120_000, -1_000));
    assert!(!can_seek(120_000, 120_100));
    assert!(can_seek(120_000, 0));
    assert!(can_seek(120_000, 119_500));
}

#[test]
fn clamp_seek_seconds_keeps_position_inside_duration() {
    assert_eq!(clamp_seek_seconds(120_000, 121_000), None);
    assert_eq!(clamp_seek_seconds(120_000, 120_000), Some(119_990));
    assert_eq!(clamp_seek_seconds(120_000, 30_000), Some(30_000));
}

#[test]
fn trim_lyric_line_text_removes_trailing_noise() {
    assert_eq!(trim_lyric_line_text("Linha final!!!   "), "Linha final".to_string());
    assert_eq!(trim_lyric_line_text("Verso 2...??"), "Verso 2".to_string());
}

#[test]
fn parse_debug_lyrics_provider_maps_known_values() {
    assert_eq!(parse_debug_lyrics_provider("lrclib"), Some(DebugLyricsProvider::Lrclib));
    assert_eq!(parse_debug_lyrics_provider("youtube"), Some(DebugLyricsProvider::Youtube));
    assert_eq!(parse_debug_lyrics_provider("netease"), Some(DebugLyricsProvider::Netease));
    assert_eq!(parse_debug_lyrics_provider("whisper"), Some(DebugLyricsProvider::Whisper));
    assert_eq!(parse_debug_lyrics_provider("invalid"), None);
    assert_eq!(parse_debug_lyrics_provider("  WHISPER "), Some(DebugLyricsProvider::Whisper));
}

#[test]
fn load_box_refuses_names_under_a_forced_provider() {
    assert_eq!(load_music_action("O Sábado Chegou", ""), LoadAction::SearchCatalog);
    assert_eq!(
        load_music_action("O Sábado Chegou", "netease"),
        LoadAction::RefuseForcedProvider
    );
    assert_eq!(load_music_action("file:///tmp/a.wav", "netease"), LoadAction::LoadUrl);
}

#[test]
fn operator_view_follows_player_events() {
    let mut view = OperatorView::new(PlaybackState::Idle);
    view.begin_load();
    assert!(view.loading);
    let finished = view.apply_player_event(PlayerEvent::StateChanged(PlaybackState::Paused));
    assert!(!finished);
    assert!(!view.loading);
    assert_eq!(view.playback_state, PlaybackState::Paused);
    assert!(view.apply_player_event(PlayerEvent::PlaybackFinished));
    view.toggle_clear_screen();
    assert!(view.clear_screen);
}

#[test]
fn labels_volume_and_monitor() {
    assert_eq!(playback_state_label(PlaybackState::Playing), "Playing");
    assert_eq!(clamp_volume(-5), 0);
    assert_eq!(clamp_volume(150), 100);
    assert_eq!(clamp_volume(73), 73);
    assert_eq!(projector_monitor_of(-1), None);
    assert_eq!(projector_monitor_of(2), Some(2));
}
