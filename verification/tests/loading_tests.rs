use letras_sync::config::{
    cache_dir_in, config_file_in, default_autoplay, default_volume, project_names, settings_action,
    SettingsAction, SettingsRead,
};
use letras_sync::controls::{
    export_request, export_text, import_lines, import_request, list_music, screen_index_of,
    ExportFormat, ImportFormat, OperatorView, TransferRefusal,
};
use letras_sync::loading::{LoadReply, LoadRequest, LoadStage, RemoteLoad};
use letras_sync::model::{LyricsLine, Music};
use letras_sync::player::{PlaybackState, PlayerError, PlayerEvent, PlayerState};
use letras_sync::text::trimmed_nonblank;

fn music(id: &str) -> Music {
    Music {
        id: id.to_string(),
        title: "Título".to_string(),
        artist: None,
        youtube_url: format!("https://www.youtube.com/watch?v={id}"),
        duration: Some(120),
        thumbnail: None,
        created_at: None,
    }
}

fn line(id: i64, start_ms: i64, end_ms: i64, text: &str) -> LyricsLine {
    LyricsLine {
        id,
        music_id: "m1".to_string(),
        start_ms,
        end_ms,
        text: text.to_string(),
    }
}

#[test]
fn load_youtube_with_invalid_url_returns_error() {
    assert!(matches!(RemoteLoad::start("not-a-url"), Err(PlayerError::UnknownMedia)));
}

#[test]
fn load_with_lyrics_found_first_starts_after_caching_audio() {
    let (mut load, first) = RemoteLoad::start("https://youtu.be/abc?si=x").unwrap();
    match first {
        LoadRequest::ResolveMusic(url) => assert_eq!(url, "https://www.youtube.com/watch?v=abc"),
        _ => panic!("the music record comes first"),
    }
    assert!(matches!(load.advance(LoadReply::Music(music("abc"))), LoadRequest::SearchLyrics));
    match load.advance(LoadReply::Lyrics(vec![line(1, 0, 1000, "a")])) {
        LoadRequest::CacheAudio(url, id) => {
            assert_eq!(url, "https://www.youtube.com/watch?v=abc");
            assert_eq!(id, "abc");
        }
        _ => panic!("the audio is cached next"),
    }
    assert!(matches!(
        load.advance(LoadReply::Audio("/cache/abc.webm".to_string())),
        LoadRequest::Start
    ));
    assert_eq!(load.stage, LoadStage::Ready);
    assert_eq!(load.lyrics.len(), 1);
    assert_eq!(load.audio_path, Some("/cache/abc.webm".to_string()));
    assert!(!load.is_pending());
}

#[test]
fn load_without_lyrics_searches_again_with_the_audio() {
    let (mut load, _) = RemoteLoad::start("https://www.youtube.com/watch?v=abc").unwrap();
    load.advance(LoadReply::Music(music("abc")));
    load.advance(LoadReply::Lyrics(Vec::new()));
    match load.advance(LoadReply::Audio("/cache/abc.mp3".to_string())) {
        LoadRequest::SearchLyricsWithAudio(p) => assert_eq!(p, "/cache/abc.mp3"),
        _ => panic!("a second search with the audio follows"),
    }
    assert!(matches!(
        load.advance(LoadReply::Lyrics(vec![line(0, 0, 1000, "transcrita")])),
        LoadRequest::Start
    ));
    assert_eq!(load.lyrics[0].text, "transcrita");
}

#[test]
fn failed_steps_end_the_load() {
    let (mut load, _) = RemoteLoad::start("https://youtu.be/abc").unwrap();
    assert!(matches!(load.advance(LoadReply::Failed), LoadRequest::Fail));
    assert_eq!(load.stage, LoadStage::Failed);
    let (mut other, _) = RemoteLoad::start("https://youtu.be/abc").unwrap();
    other.advance(LoadReply::Music(music("abc")));
    other.advance(LoadReply::Failed);
    assert!(matches!(other.advance(LoadReply::Failed), LoadRequest::Fail));
}

#[test]
fn settings_file_problems_are_answered() {
    assert_eq!(settings_action(SettingsRead::Parsed), SettingsAction::UseStored);
    assert_eq!(settings_action(SettingsRead::Invalid), SettingsAction::WriteDefaults);
    assert_eq!(settings_action(SettingsRead::Missing), SettingsAction::WriteDefaults);
    assert_eq!(settings_action(SettingsRead::Unreadable), SettingsAction::Fail);
}

#[test]
fn settings_paths_and_defaults() {
    assert_eq!(
        config_file_in("/home/ana/.config/letrassync"),
        "/home/ana/.config/letrassync/config.toml"
    );
    assert_eq!(cache_dir_in("/home/ana/.local/share/letrassync"), "/home/ana/.local/share/letrassync/cache");
    assert_eq!(default_volume(), 100);
    assert!(!default_autoplay());
}

#[test]
fn export_and_import_requests_are_checked() {
    assert_eq!(export_request(" ", "lrc"), Err(TransferRefusal::NoMusicSelected));
    assert_eq!(export_request("m1", "LRC"), Ok(ExportFormat::Lrc));
    assert_eq!(export_request("m1", "srt"), Ok(ExportFormat::Srt));
    assert_eq!(export_request("m1", "vtt"), Err(TransferRefusal::InvalidFormat));
    assert_eq!(import_request("", Some("lrc")), Err(TransferRefusal::NoMusicSelected));
    assert_eq!(import_request("m1", None), Err(TransferRefusal::NoExtension));
    assert_eq!(import_request("m1", Some("VTT")), Ok(ImportFormat::Vtt));
    assert_eq!(import_request("m1", Some("txt")), Err(TransferRefusal::InvalidFormat));
}

#[test]
fn exported_lyrics_are_read_back() {
    let lines = vec![line(7, 1230, 4000, "Primeira"), line(8, 62000, 64000, "Segunda")];
    let srt = export_text(&lines, ExportFormat::Srt);
    let back = import_lines(&srt, "m9", ImportFormat::Srt);
    assert_eq!(back.len(), 2);
    assert_eq!((back[0].start_ms, back[0].end_ms), (1230, 4000));
    assert_eq!(back[1].text, "Segunda");
    assert_eq!(back[1].music_id, "m9");
    let lrc = export_text(&lines, ExportFormat::Lrc);
    assert_eq!(lrc, "[00:01.23]Primeira\n[01:02.00]Segunda\n");
    let from_lrc = import_lines(&lrc, "m9", ImportFormat::Lrc);
    assert_eq!(from_lrc[0].start_ms, 1230);
    assert_eq!(from_lrc[0].end_ms, 62000);
    let vtt = "WEBVTT\n\n00:00:01.500 --> 00:00:03.000\nUm\n";
    assert_eq!(import_lines(vtt, "m", ImportFormat::Vtt)[0].start_ms, 1500);
}

#[test]
fn music_rows_and_queries() {
    let mut m = music("abc");
    let row = list_music(&m, None);
    assert_eq!(row.artist, "");
    assert!(!row.has_lyrics);
    m.artist = Some("Canal".to_string());
    let row = list_music(&m, Some(true));
    assert_eq!(row.artist, "Canal");
    assert!(row.has_lyrics);
    assert_eq!(trimmed_nonblank("  hino  "), Some("hino".to_string()));
    assert_eq!(trimmed_nonblank(" \t "), None);
}

#[test]
fn sync_offset_moves_and_saturates() {
    let mut view = OperatorView::new(PlaybackState::Idle);
    assert_eq!(view.adjust_sync_offset(500), 500);
    assert_eq!(view.adjust_sync_offset(-1500), -1000);
    assert_eq!(view.sync_offset_ms, -1000);
    assert_eq!(view.adjust_sync_offset(i64::MIN), i64::MIN);
}

#[test]
fn loaded_song_carries_its_offset_to_the_screen() {
    let mut state = PlayerState::new();
    let events = state.finish_loading(music("m1"), vec![line(1, 0, 1000, "a")], 250);
    let mut view = OperatorView::new(PlaybackState::Idle);
    for event in events {
        assert!(!view.apply_player_event(event));
    }
    assert_eq!(view.sync_offset_ms, 250);
    assert_eq!(view.current_music_id, "m1");
    assert_eq!(view.music_title, "Título");
    assert_eq!(view.playback_state, PlaybackState::Paused);
    assert!(!view.apply_player_event(PlayerEvent::StateChanged(PlaybackState::Playing)));
    assert_eq!(view.current_music_id, "m1");
    assert_eq!(view.music_title, "Título");
    assert_eq!(view.current_lyrics.len(), 1);
}

#[test]
fn clearing_the_shown_song_keeps_the_rest() {
    let mut view = OperatorView::new(PlaybackState::Idle);
    assert_eq!(view.music_title, "");
    assert_eq!(view.current_time_ms, 0);
    let mut state = PlayerState::new();
    for event in state.finish_loading(music("m1"), vec![line(1, 0, 1000, "a")], 0) {
        assert!(!view.apply_player_event(event));
    }
    view.clear_screen = true;
    view.error_message = "falha".to_string();
    view.clear_shown_song();
    assert!(view.current_lyrics.is_empty());
    assert_eq!(view.current_music_id, "");
    assert_eq!(view.active_line_id, -1);
    assert!(!view.clear_screen);
    assert_eq!(view.error_message, "falha");
    assert!(!view.loading);
}

#[test]
fn editing_an_existing_line_succeeds() {
    let mut state = PlayerState::new();
    state.finish_loading(music("m1"), vec![line(1, 0, 1000, "a"), line(2, 1000, 2000, "b")], 0);
    let ev = state.apply_line_edit(2, "novo").unwrap();
    match ev {
        PlayerEvent::LyricsUpdated(lines) => assert_eq!(lines[1].text, "novo"),
        _ => panic!("the edit must announce the lines"),
    }
    assert_eq!(state.current_lyrics[1].text, "novo");
    assert!(matches!(state.apply_line_edit(9, "x"), Err(PlayerError::LineNotFound(9))));
}

#[test]
fn project_directories_and_file_names() {
    assert_eq!(project_names(), ("", "LetrasSync", "LetrasSync"));
    assert_eq!(config_file_in("/home/ana/.config/letrassync/"), "/home/ana/.config/letrassync/config.toml");
    assert_eq!(config_file_in("/"), "/config.toml");
    assert_eq!(cache_dir_in("/var/data"), "/var/data/cache");
}

#[test]
fn screen_index_of_the_recorded_projector() {
    assert_eq!(screen_index_of(None), -1);
    assert_eq!(screen_index_of(Some(0)), 0);
    assert_eq!(screen_index_of(Some(2)), 2);
}

#[test]
fn status_messages_change_nothing_else() {
    let mut state = PlayerState::new();
    let mut view = OperatorView::new(PlaybackState::Idle);
    for event in state.finish_loading(music("m1"), vec![line(1, 0, 1000, "a")], 40) {
        assert!(!view.apply_player_event(event));
    }
    assert!(!view.apply_player_event(PlayerEvent::LoadingStatus("Baixando...".to_string())));
    assert_eq!(view.loading_status, "Baixando...");
    assert_eq!(view.music_title, "Título");
    assert_eq!(view.current_music_id, "m1");
    assert_eq!(view.current_lyrics.len(), 1);
    assert_eq!(view.sync_offset_ms, 40);
    assert_eq!(view.playback_state, PlaybackState::Paused);
    assert!(!view.apply_player_event(PlayerEvent::PositionUpdated {
        position_ms: 1500,
        duration_ms: None,
    }));
    assert_eq!(view.current_time_ms, 1500);
    assert_eq!(view.duration_ms, 120_000);
    assert_eq!(view.current_lyrics.len(), 1);
}
