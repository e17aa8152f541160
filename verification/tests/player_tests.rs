use letras_sync::model::{LyricsLine, Music};
use letras_sync::player::{
    decode_file_uri_path, file_uri_path, local_music, local_music_id, media_music_id,
    remote_media_ids, should_emit_position, PlaybackState, PlayerError, PlayerEvent, PlayerState,
};
use letras_sync::playlist::Playlist;

fn music(id: &str) -> Music {
    Music {
        id: id.to_string(),
        title: format!("Música {id}"),
        artist: None,
        youtube_url: format!("https://youtu.be/{id}"),
        duration: None,
        thumbnail: None,
        created_at: None,
    }
}

fn line(id: i64, start_ms: i64, end_ms: i64, text: &str) -> LyricsLine {
    LyricsLine {
        id,
        music_id: "m1".to_string(),
        start_ms,
        end_ms,
        text: text.to_string(),
    }
}

#[test]
fn should_emit_position_on_first_read() {
    assert!(should_emit_position(None, 0));
}

#[test]
fn should_emit_position_when_change_is_significant() {
    assert!(should_emit_position(Some(1000), 1050));
}

#[test]
fn should_not_emit_position_when_change_is_negligible() {
    assert!(!should_emit_position(Some(1000), 1005));
}

#[test]
fn position_change_of_exactly_ten_ms_is_announced_both_ways() {
    assert!(should_emit_position(Some(1000), 1010));
    assert!(should_emit_position(Some(1010), 1000));
    assert!(!should_emit_position(Some(1010), 1001));
}

#[test]
fn decode_file_uri_path_unescapes_spaces() {
    assert_eq!(decode_file_uri_path("/tmp/Meu%20Arquivo.wav"), "/tmp/Meu Arquivo.wav");
}

#[test]
fn decode_file_uri_path_keeps_invalid_escapes() {
    assert_eq!(decode_file_uri_path("/tmp/100%zz"), "/tmp/100%zz");
    assert_eq!(decode_file_uri_path("/tmp/a%2"), "/tmp/a%2");
    assert_eq!(decode_file_uri_path("/tmp/%C3%A1"), "/tmp/á");
}

#[test]
fn file_uri_path_strips_scheme_and_decodes() {
    assert_eq!(
        file_uri_path("file:///tmp/Meu%20Arquivo.wav"),
        Some("/tmp/Meu Arquivo.wav".to_string())
    );
    assert_eq!(file_uri_path("/tmp/x.wav"), None);
}

#[test]
fn local_music_id_depends_on_absolute_path() {
    let path_a = "/tmp/letras_sync_a.wav";
    let path_b = "/tmp/letras_sync_b.wav";

    assert_eq!(local_music_id(path_a), local_music_id(path_a));
    assert_ne!(local_music_id(path_a), local_music_id(path_b));
}

#[test]
fn local_music_id_is_fnv1a_in_hex() {
    // FNV-1a of the empty input is the offset basis.
    assert_eq!(local_music_id(""), "local-cbf29ce484222325");
    assert_eq!(local_music_id("a"), "local-af63dc4c8601ec8c");
}

#[test]
fn media_music_id_prefers_local_path_then_video_id() {
    assert_eq!(
        media_music_id(Some("/tmp/letras_sync_a.wav"), "ignored"),
        Ok(local_music_id("/tmp/letras_sync_a.wav"))
    );
    assert_eq!(
        media_music_id(None, "https://youtu.be/abc123"),
        Ok("abc123".to_string())
    );
    assert_eq!(media_music_id(None, "not-a-url"), Err(PlayerError::UnknownMedia));
}

#[test]
fn remote_media_ids_give_canonical_url_and_id() {
    assert_eq!(
        remote_media_ids("https://youtu.be/h3sZG-hOYfQ?si=abc"),
        Some((
            "https://www.youtube.com/watch?v=h3sZG-hOYfQ".to_string(),
            "h3sZG-hOYfQ".to_string()
        ))
    );
    assert_eq!(remote_media_ids("not-a-url"), None);
}

#[test]
fn local_music_uses_file_stem_and_local_artist() {
    let m = local_music("/tmp/canto.wav", Some("canto"));
    assert_eq!(m.title, "canto");
    assert_eq!(m.artist, Some("Arquivo Local".to_string()));
    assert_eq!(m.youtube_url, "/tmp/canto.wav");
    assert_eq!(m.id, local_music_id("/tmp/canto.wav"));
    let unnamed = local_music("/", None);
    assert_eq!(unnamed.title, "Arquivo Local");
}

#[test]
fn music_loaded_event_preserves_lyrics_payload() {
    let music = Music {
        id: "m1".to_string(),
        title: "Título".to_string(),
        artist: Some("Artista".to_string()),
        youtube_url: "https://youtu.be/m1".to_string(),
        duration: Some(180),
        thumbnail: None,
        created_at: None,
    };
    let lyrics = vec![line(1, 0, 1000, "linha 1"), line(2, 1000, 2000, "linha 2")];

    let mut state = PlayerState::new();
    let events = state.finish_loading(music, lyrics.clone(), 0);

    match &events[0] {
        PlayerEvent::MusicLoaded { lyrics: payload, .. } => {
            assert_eq!(payload.len(), lyrics.len());
            for (left, right) in payload.iter().zip(lyrics.iter()) {
                assert_eq!(left.id, right.id);
                assert_eq!(left.music_id, right.music_id);
                assert_eq!(left.start_ms, right.start_ms);
                assert_eq!(left.end_ms, right.end_ms);
                assert_eq!(left.text, right.text);
            }
        }
        _ => panic!("evento inesperado"),
    }
    assert!(matches!(events[1], PlayerEvent::StateChanged(PlaybackState::Paused)));
    assert_eq!(state.status, PlaybackState::Paused);
}

#[test]
fn initial_status_is_idle() {
    let state = PlayerState::new();
    assert_eq!(state.status, PlaybackState::Idle);
    assert!(state.current_music.is_none());
}

#[test]
fn stop_clears_state_and_transitions_to_stopped() {
    let mut state = PlayerState::new();
    state.finish_loading(music("m1"), vec![line(1, 0, 1000, "a")], 0);
    let ev = state.stop();
    assert!(matches!(ev, PlayerEvent::StateChanged(PlaybackState::Stopped)));
    assert_eq!(state.status, PlaybackState::Stopped);
    assert!(state.current_music.is_none());
    assert!(state.current_lyrics.is_empty());
}

#[test]
fn line_edit_needs_a_loaded_song_and_an_existing_line() {
    let mut state = PlayerState::new();
    assert_eq!(state.require_active_music(), Err(PlayerError::NoActiveMusic));
    assert!(matches!(
        state.apply_line_edit(1, "x"),
        Err(PlayerError::NoActiveMusic)
    ));
    state.finish_loading(
        music("m1"),
        vec![line(1, 0, 1000, "linha original"), line(2, 1000, 2000, "linha seguinte")],
        0,
    );
    assert!(matches!(
        state.apply_line_edit(9, "x"),
        Err(PlayerError::LineNotFound(9))
    ));
    match state.apply_line_edit(1, "linha corrigida") {
        Ok(PlayerEvent::LyricsUpdated(lines)) => {
            assert_eq!(lines[0].text, "linha corrigida");
            assert_eq!(lines[1].text, "linha seguinte");
        }
        _ => panic!("evento inesperado"),
    }
    assert_eq!(state.current_lyrics[0].text, "linha corrigida");
}

#[test]
fn replacing_lyrics_only_touches_the_loaded_song() {
    let mut state = PlayerState::new();
    assert!(state.replace_current_lyrics("m1", vec![line(1, 0, 1000, "a")]).is_none());
    state.finish_loading(music("m1"), Vec::new(), 0);
    assert!(state.replace_current_lyrics("m2", vec![line(1, 0, 1000, "a")]).is_none());
    assert!(state.replace_current_lyrics("m1", vec![line(1, 0, 1000, "a")]).is_some());
    assert_eq!(state.current_lyrics.len(), 1);
}

#[test]
fn update_sync_offset_needs_a_loaded_song() {
    let mut state = PlayerState::new();
    assert_eq!(state.update_sync_offset(250), Err(PlayerError::NoActiveMusic));
    state.finish_loading(music("offset-music"), Vec::new(), 0);
    assert_eq!(state.update_sync_offset(250), Ok("offset-music".to_string()));
    assert_eq!(state.sync_offset_ms, 250);
}

#[test]
fn add_appends_items_in_order() {
    let mut playlist = Playlist::new();
    playlist.add(music("a"));
    playlist.add(music("b"));

    let items = playlist.get_items();
    assert_eq!(items.len(), 2);
    assert_eq!(items[0].id, "a");
    assert_eq!(items[1].id, "b");
}

#[test]
fn remove_deletes_item_and_shifts_current() {
    let mut playlist = Playlist::new();
    playlist.add(music("a"));
    playlist.add(music("b"));
    playlist.add(music("c"));
    playlist.set_current_index(Some(2));

    playlist.remove(0);

    let items = playlist.get_items();
    assert_eq!(items.len(), 2);
    assert_eq!(items[0].id, "b");
    assert_eq!(playlist.current_index(), Some(1));
}

#[test]
fn remove_current_clears_active_index() {
    let mut playlist = Playlist::new();
    playlist.add(music("a"));
    playlist.set_current_index(Some(0));

    playlist.remove(0);

    assert_eq!(playlist.current_index(), None);
}

#[test]
fn next_advances_through_items() {
    let mut playlist = Playlist::new();
    playlist.add(music("a"));
    playlist.add(music("b"));

    assert_eq!(playlist.next().map(|m| m.id), Some("a".to_string()));
    assert_eq!(playlist.current_index(), Some(0));
    assert_eq!(playlist.next().map(|m| m.id), Some("b".to_string()));
    assert_eq!(playlist.current_index(), Some(1));
    assert_eq!(playlist.next().map(|m| m.id), None);
    assert_eq!(playlist.current_index(), Some(1));
}

#[test]
fn prev_returns_to_previous_item() {
    let mut playlist = Playlist::new();
    playlist.add(music("a"));
    playlist.add(music("b"));
    playlist.set_current_index(Some(1));

    assert_eq!(playlist.prev().map(|m| m.id), Some("a".to_string()));
    assert_eq!(playlist.current_index(), Some(0));
    assert_eq!(playlist.prev().map(|m| m.id), None);
    assert_eq!(playlist.current_index(), Some(0));
}

#[test]
fn prev_after_next_comes_back() {
    let mut playlist = Playlist::new();
    playlist.add(music("a"));
    playlist.add(music("b"));
    playlist.add(music("c"));
    playlist.set_current_index(Some(0));
    playlist.next();
    assert_eq!(playlist.current_index(), Some(1));
    playlist.prev();
    assert_eq!(playlist.current_index(), Some(0));
}

#[test]
fn removing_another_song_keeps_the_active_one() {
    let mut playlist = Playlist::new();
    playlist.add(music("a"));
    playlist.add(music("b"));
    playlist.add(music("c"));
    playlist.set_current_index(Some(1));
    playlist.remove(2);
    assert_eq!(playlist.current_music().map(|m| m.id), Some("b".to_string()));
    playlist.remove(0);
    assert_eq!(playlist.current_music().map(|m| m.id), Some("b".to_string()));
    playlist.remove(7);
    assert_eq!(playlist.get_items().len(), 1);
}
