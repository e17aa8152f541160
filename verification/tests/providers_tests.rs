use letras_sync::lyrics_search::{
    caption_lines, first_synced_lyrics, LyricsReply, LyricsRequest, LyricsSearch, SearchStage,
};
use letras_sync::model::LyricsLine;
use letras_sync::providers::{
    NeteaseProvider, TranscriptionError, TranscriptionExit, WhisperService, YoutubeService,
    EXIT_MISSING_PACKAGE, TRANSCRIBE_SCRIPT,
};

const WHISPER_LANGUAGE: &str = "pt";

fn line(start_ms: i64, text: &str) -> LyricsLine {
    LyricsLine {
        id: 0,
        music_id: "m1".to_string(),
        start_ms,
        end_ms: start_ms + 1000,
        text: text.to_string(),
    }
}

#[test]
fn new_instance_does_not_panic() {
    let _ = NeteaseProvider::new();
}

#[test]
fn transcribe_script_is_pinned_to_portuguese() {
    assert!(TRANSCRIBE_SCRIPT.contains(r#"language="pt""#));
    assert!(TRANSCRIBE_SCRIPT.contains(r#"task="transcribe""#));
    assert!(TRANSCRIBE_SCRIPT.contains(r#"vad_filter=True"#));
    assert!(TRANSCRIBE_SCRIPT.contains(r#"temperature=0.0"#));
    assert!(TRANSCRIBE_SCRIPT.contains(r#"condition_on_previous_text=False"#));
    assert!(TRANSCRIBE_SCRIPT.contains(r#"initial_prompt"#));
    assert!(TRANSCRIBE_SCRIPT.contains(r#"QUALITY_THRESHOLD = 18"#));
    assert_eq!(WHISPER_LANGUAGE, "pt");
}

#[test]
fn transcription_script_exit_codes() {
    assert_eq!(EXIT_MISSING_PACKAGE, 3);
    assert!(TRANSCRIBE_SCRIPT.contains("sys.exit(3)"));
    assert_eq!(WhisperService::transcription_exit(Some(3)), TranscriptionExit::MissingPackage);
    assert_eq!(WhisperService::transcription_exit(Some(0)), TranscriptionExit::Completed);
    assert_eq!(WhisperService::transcription_exit(Some(1)), TranscriptionExit::Failed);
    assert_eq!(WhisperService::transcription_exit(None), TranscriptionExit::Failed);
}

#[test]
fn transcription_results() {
    let vtt = "WEBVTT\n\n00:00:01.000 --> 00:00:02.500\nOlá mundo\n\n".to_string();
    let lines = WhisperService::transcribe(Some(0), Some(vtt), "whisper-test").unwrap();
    assert_eq!(lines.len(), 1);
    assert_eq!(lines[0].start_ms, 1000);
    assert_eq!(lines[0].end_ms, 2500);
    assert_eq!(lines[0].text, "Olá mundo");
    assert_eq!(lines[0].music_id, "whisper-test");
    assert!(matches!(
        WhisperService::transcribe(Some(3), None, "m"),
        Err(TranscriptionError::MissingPackage)
    ));
    assert!(matches!(
        WhisperService::transcribe(Some(2), None, "m"),
        Err(TranscriptionError::Failed(Some(2)))
    ));
    assert!(matches!(
        WhisperService::transcribe(Some(0), None, "m"),
        Err(TranscriptionError::OutputUnreadable)
    ));
}

#[test]
fn whisper_temporary_files_share_a_stem() {
    let stem = WhisperService::temp_stem(42, 1_700_000_000_123_456_789);
    assert_eq!(stem, "letras_sync_whisper_42_1700000000123456789");
    let (py, vtt, audio) = WhisperService::temp_file_names(&stem, Some("wav"));
    assert_eq!(py, format!("{stem}.py"));
    assert_eq!(vtt, format!("{stem}.vtt"));
    assert_eq!(audio, format!("{stem}.wav"));
    let (_, _, plain) = WhisperService::temp_file_names("s", None);
    assert_eq!(plain, "s.input");
    let (_, _, empty) = WhisperService::temp_file_names("s", Some(""));
    assert_eq!(empty, "s.input");
}

#[test]
fn audio_download_args_do_not_request_ffmpeg_transcoding() {
    let output_path = "/tmp/letras_sync_download_test.%(ext)s";
    let args = YoutubeService::audio_download_args("https://youtu.be/abc123", output_path);

    assert!(args.iter().any(|arg| arg == "ba"));
    assert!(!args.iter().any(|arg| arg == "-x"));
    assert!(!args.iter().any(|arg| arg == "--audio-format"));
    assert_eq!(args[5], output_path);
    assert_eq!(args[8], "https://youtu.be/abc123");
}

#[test]
fn node_runtime_arguments_lead_every_call() {
    assert_eq!(
        YoutubeService::base_args(true),
        vec!["--js-runtimes".to_string(), "node".to_string()]
    );
    assert!(YoutubeService::base_args(false).is_empty());
}

#[test]
fn caption_arguments_and_files() {
    let args = YoutubeService::caption_args("abc123", "/tmp/abc123");
    assert_eq!(args[3], "pt,pt-BR,en");
    assert_eq!(args[9], "/tmp/abc123");
    assert_eq!(args[10], "https://www.youtube.com/watch?v=abc123");
    assert!(YoutubeService::is_caption_file("abc123.pt.vtt", "abc123"));
    assert!(!YoutubeService::is_caption_file("abc123.pt.srt", "abc123"));
    assert!(!YoutubeService::is_caption_file("xyz.pt.vtt", "abc123"));
}

#[test]
fn yt_dlp_gets_canonical_addresses() {
    assert_eq!(
        YoutubeService::request_url("https://youtu.be/abc123?si=x"),
        "https://www.youtube.com/watch?v=abc123"
    );
    assert_eq!(YoutubeService::request_url("https://example.com/a"), "https://example.com/a");
}

#[test]
fn downloaded_path_is_the_last_printed_line() {
    assert_eq!(
        YoutubeService::download_audio(b"[info] x\n  /tmp/abc.webm  \n\n"),
        Some("/tmp/abc.webm".to_string())
    );
    assert_eq!(YoutubeService::download_audio(b"\n \r\n"), None);
    assert_eq!(YoutubeService::download_audio(b""), None);
}

#[test]
fn metadata_becomes_a_music_record() {
    let m = YoutubeService::fetch_metadata(
        "abc".to_string(),
        "Título".to_string(),
        Some("Canal".to_string()),
        Some(215),
        None,
        None,
        "https://www.youtube.com/watch?v=abc",
    );
    assert_eq!(m.youtube_url, "https://www.youtube.com/watch?v=abc");
    assert_eq!(m.duration, Some(215));
    assert_eq!(m.artist, Some("Canal".to_string()));
    let with_page = YoutubeService::fetch_metadata(
        "abc".to_string(),
        "t".to_string(),
        None,
        None,
        None,
        Some("https://youtube.com/x".to_string()),
        "ignored",
    );
    assert_eq!(with_page.youtube_url, "https://youtube.com/x");
}

#[test]
fn netease_reads_its_answers() {
    assert_eq!(NeteaseProvider::search_query("  Oceans "), Some("Oceans".to_string()));
    assert_eq!(NeteaseProvider::search_query("   "), None);
    assert_eq!(NeteaseProvider::song_to_fetch(&[7, 9]), Some(7));
    assert_eq!(NeteaseProvider::song_to_fetch(&[]), None);
    assert!(NeteaseProvider::fetch_synced_lyrics(None, "m").is_none());
    assert!(NeteaseProvider::fetch_synced_lyrics(Some("  \n".to_string()), "m").is_none());
    assert!(NeteaseProvider::fetch_synced_lyrics(Some("[ar:x]\n".to_string()), "m").is_none());
    let lines = NeteaseProvider::fetch_synced_lyrics(
        Some("[00:01.00]Primeira\n[00:03.50]Segunda\n".to_string()),
        "m",
    )
    .unwrap();
    assert_eq!(lines.len(), 2);
    assert_eq!(lines[0].start_ms, 1000);
    assert_eq!(lines[0].end_ms, 3500);
    assert_eq!(lines[1].end_ms, 8500);
}

#[test]
fn captions_are_read_as_webvtt_or_srt() {
    let vtt = caption_lines("  WEBVTT\n\n00:00:01.000 --> 00:00:02.000\nUm\n", "m");
    assert_eq!(vtt.len(), 1);
    assert_eq!(vtt[0].text, "Um");
    let srt = caption_lines("1\n00:00:01,000 --> 00:00:02,000\nDois\n", "m");
    assert_eq!(srt.len(), 1);
    assert_eq!(srt[0].text, "Dois");
    assert!(caption_lines("WEBVTT\n\n00:00:01,000 --> 00:00:02,000\nX\n", "m").is_empty());
}

#[test]
fn lrclib_takes_the_first_non_empty_synced_lyrics() {
    let results = vec![None, Some(String::new()), Some("[00:01.00]a".to_string()), Some("b".to_string())];
    assert_eq!(first_synced_lyrics(&results), Some("[00:01.00]a".to_string()));
    assert_eq!(first_synced_lyrics(&vec![None, Some(String::new())]), None);
}

#[test]
fn cached_lyrics_end_the_search_at_once() {
    let (mut search, first) = LyricsSearch::start("m1", "https://youtu.be/abc", false);
    assert!(matches!(first, LyricsRequest::ReadCache));
    let cached = vec![line(0, "guardada")];
    match search.advance(LyricsReply::Lines(cached)) {
        LyricsRequest::Finish(lines) => assert_eq!(lines[0].text, "guardada"),
        _ => panic!("the stored lines must be returned"),
    }
    assert!(!search.is_waiting());
}

#[test]
fn search_walks_the_providers_in_order() {
    let (mut search, _) = LyricsSearch::start("m1", "https://youtu.be/abc", true);
    match search.advance(LyricsReply::Lines(Vec::new())) {
        LyricsRequest::FetchCaptions(id) => assert_eq!(id, "abc"),
        _ => panic!("captions come after the cache"),
    }
    assert!(matches!(search.advance(LyricsReply::Text(None)), LyricsRequest::LookupTitle));
    match search.advance(LyricsReply::Text(Some("Hillsong - Oceans".to_string()))) {
        LyricsRequest::QueryLouvorJa(c) => assert_eq!(c, "Hillsong"),
        _ => panic!("LouvorJA comes after the title"),
    }
    assert_eq!(search.candidates.len(), 3);
    match search.advance(LyricsReply::Lines(Vec::new())) {
        LyricsRequest::QueryNetease(c) => assert_eq!(c, "Hillsong"),
        _ => panic!("NetEase comes after LouvorJA"),
    }
    match search.advance(LyricsReply::Lines(Vec::new())) {
        LyricsRequest::QueryLouvorJa(c) => assert_eq!(c, "Oceans"),
        _ => panic!("the next candidate comes next"),
    }
    search.advance(LyricsReply::Lines(Vec::new()));
    search.advance(LyricsReply::Lines(Vec::new()));
    search.advance(LyricsReply::Lines(Vec::new()));
    match search.advance(LyricsReply::Lines(Vec::new())) {
        LyricsRequest::QueryLrclib(q) => assert_eq!(q, "m1"),
        _ => panic!("LRCLib comes after the candidates"),
    }
    assert!(matches!(search.advance(LyricsReply::Text(None)), LyricsRequest::Transcribe));
    let found = vec![line(0, "transcrita")];
    match search.advance(LyricsReply::Lines(found)) {
        LyricsRequest::Persist(lines) => assert_eq!(lines[0].text, "transcrita"),
        _ => panic!("found lines are stored"),
    }
    let mut saved = line(0, "transcrita");
    saved.id = 17;
    match search.advance(LyricsReply::Lines(vec![saved])) {
        LyricsRequest::Finish(lines) => assert_eq!(lines[0].id, 17),
        _ => panic!("the stored lines are returned"),
    }
}

#[test]
fn search_without_audio_or_video_id_ends_empty() {
    let (mut search, _) = LyricsSearch::start("local1", "/tmp/a.wav", false);
    assert!(matches!(search.advance(LyricsReply::Lines(Vec::new())), LyricsRequest::LookupTitle));
    match search.advance(LyricsReply::Text(Some("   ".to_string()))) {
        LyricsRequest::QueryLouvorJa(c) => assert_eq!(c, "local1"),
        _ => panic!("a blank title falls back to the music id"),
    }
    search.advance(LyricsReply::Lines(Vec::new()));
    assert!(matches!(
        search.advance(LyricsReply::Lines(Vec::new())),
        LyricsRequest::QueryLrclib(_)
    ));
    let lrc = "[00:02.00]Linha\n".to_string();
    match search.advance(LyricsReply::Text(Some(lrc))) {
        LyricsRequest::Persist(lines) => {
            assert_eq!(lines[0].start_ms, 2000);
            assert_eq!(lines[0].end_ms, 7000);
        }
        _ => panic!("LRCLib lines are stored"),
    }
    match search.advance(LyricsReply::Lines(Vec::new())) {
        LyricsRequest::Finish(lines) => assert_eq!(lines[0].text, "Linha"),
        _ => panic!("when nothing is read back, the found lines are returned"),
    }
    assert!(matches!(search.stage, SearchStage::Done));

    let (mut nothing, _) = LyricsSearch::start("x", "/tmp/b.wav", false);
    nothing.advance(LyricsReply::Lines(Vec::new()));
    nothing.advance(LyricsReply::Text(None));
    nothing.advance(LyricsReply::Lines(Vec::new()));
    nothing.advance(LyricsReply::Lines(Vec::new()));
    match nothing.advance(LyricsReply::Text(None)) {
        LyricsRequest::Finish(lines) => assert!(lines.is_empty()),
        _ => panic!("without audio the search ends after LRCLib"),
    }
}

#[test]
fn captions_found_are_stored() {
    let (mut search, _) = LyricsSearch::start("abc", "https://www.youtube.com/watch?v=abc", false);
    search.advance(LyricsReply::Lines(Vec::new()));
    let srt = "1\n00:00:01,000 --> 00:00:02,000\nLegenda\n".to_string();
    match search.advance(LyricsReply::Text(Some(srt))) {
        LyricsRequest::Persist(lines) => assert_eq!(lines[0].text, "Legenda"),
        _ => panic!("captions with lines are stored"),
    }
}
