use letras_sync::export::{format_lrc, format_srt};
use letras_sync::lrc;
use letras_sync::model::LyricsLine;
use letras_sync::srt;

fn line(start_ms: i64, end_ms: i64, text: &str) -> LyricsLine {
    LyricsLine {
        id: 0,
        music_id: "music-1".to_string(),
        start_ms,
        end_ms,
        text: text.to_string(),
    }
}

#[test]
fn parses_three_lines_with_end_time_from_next_start() {
    let content = "[00:01.00]Primeira linha\n\
[00:04.50]Segunda linha\n\
[00:08.00]Terceira linha\n";

    let lines = lrc::parse(content, "music-1");

    assert_eq!(lines.len(), 3);

    assert_eq!(lines[0].text, "Primeira linha");
    assert_eq!(lines[0].start_ms, 1000);
    assert_eq!(lines[0].end_ms, 4500);
    assert_eq!(lines[0].music_id, "music-1");
    assert_eq!(lines[0].id, 0);

    assert_eq!(lines[1].text, "Segunda linha");
    assert_eq!(lines[1].start_ms, 4500);
    assert_eq!(lines[1].end_ms, 8000);
}

#[test]
fn ignores_metadata_tags() {
    let content = "[ar:Artista]\n\
[ti:Título]\n\
[00:01.00]Primeira linha\n";

    let lines = lrc::parse(content, "music-1");

    assert_eq!(lines.len(), 1);
    assert_eq!(lines[0].text, "Primeira linha");
    assert_eq!(lines[0].start_ms, 1000);
}

#[test]
fn last_line_gets_start_time_plus_five() {
    let content = "[00:10.00]Única linha\n";

    let lines = lrc::parse(content, "music-1");

    assert_eq!(lines.len(), 1);
    assert_eq!(lines[0].start_ms, 10000);
    assert_eq!(lines[0].end_ms, 15000);
}

#[test]
fn lrc_accepts_crlf_and_missing_fraction() {
    let lines = lrc::parse("[01:02]Um\r\n\r\n[xx:01]Não\r\n[01:03.5]  Dois  ", "m");
    assert_eq!(lines.len(), 2);
    assert_eq!(lines[0].start_ms, 62000);
    assert_eq!(lines[0].end_ms, 63050);
    assert_eq!(lines[1].text, "Dois");
    assert_eq!(lines[1].end_ms, 68050);
}

#[test]
fn parses_two_blocks_with_correct_timecodes() {
    let content = "1\n\
00:00:01,000 --> 00:00:04,000\n\
Primeira linha\n\n\
2\n\
00:00:05,500 --> 00:00:08,250\n\
Segunda linha\n";

    let lines = srt::parse(content, "music-1");

    assert_eq!(lines.len(), 2);

    assert_eq!(lines[0].text, "Primeira linha");
    assert_eq!(lines[0].start_ms, 1000);
    assert_eq!(lines[0].end_ms, 4000);
    assert_eq!(lines[0].music_id, "music-1");
    assert_eq!(lines[0].id, 0);

    assert_eq!(lines[1].text, "Segunda linha");
    assert_eq!(lines[1].start_ms, 5500);
    assert_eq!(lines[1].end_ms, 8250);
}

#[test]
fn removes_inline_html_tags() {
    let content = "1\n\
00:00:01,000 --> 00:00:04,000\n\
<i>Olá</i> <font color=\"#ffffff\">mundo</font>\n";

    let lines = srt::parse(content, "music-1");

    assert_eq!(lines.len(), 1);
    assert_eq!(lines[0].text, "Olá mundo");
}

#[test]
fn concatenates_multiple_text_lines_with_space() {
    let content = "1\n\
00:00:01,000 --> 00:00:04,000\n\
Primeira parte\n\
segunda parte\n";

    let lines = srt::parse(content, "music-1");

    assert_eq!(lines.len(), 1);
    assert_eq!(lines[0].text, "Primeira parte segunda parte");
}

#[test]
fn srt_accepts_minutes_only_and_trailing_settings() {
    let lines = srt::parse("01:02 --> 01:03,5 align:start\nTexto\n\n00:00:09,000 --> 00:00:10,000\n<b></b>\n", "m");
    assert_eq!(lines.len(), 1);
    assert_eq!(lines[0].start_ms, 62000);
    assert_eq!(lines[0].end_ms, 63005);
}

#[test]
fn formats_lrc_with_centisecond_precision() {
    let lines = vec![line(1234, 2000, "Primeira"), line(61998, 64000, "Segunda")];

    assert_eq!(format_lrc(&lines), "[00:01.23]Primeira\n[01:02.00]Segunda\n");
}

#[test]
fn formats_srt_with_sequential_numbers_and_timestamp_precision() {
    let lines = vec![line(1234, 2500, "Primeira"), line(3661999, 3664250, "Segunda")];

    assert_eq!(
        format_srt(&lines),
        "1\n00:00:01,234 --> 00:00:02,500\nPrimeira\n\n\
2\n01:01:01,999 --> 01:01:04,250\nSegunda\n\n"
    );
}

#[test]
fn returns_empty_string_for_empty_inputs() {
    assert!(format_lrc(&[]).is_empty());
    assert!(format_srt(&[]).is_empty());
}

#[test]
fn negative_times_are_written_as_zero() {
    let lines = vec![line(-5, 1000, "x")];
    assert_eq!(format_lrc(&lines), "[00:00.00]x\n");
    assert_eq!(format_srt(&lines), "1\n00:00:00,000 --> 00:00:01,000\nx\n\n");
    let long = vec![line(6_000_000 * 10, 0, "y")];
    assert_eq!(format_lrc(&long), "[1000:00.00]y\n");
}

#[test]
fn srt_written_then_read_gives_the_lines_back() {
    let lines = vec![line(1000, 2500, "Primeira"), line(3000, 4000, "Segunda")];
    let back = srt::parse(&format_srt(&lines), "music-1");
    assert_eq!(back, lines);
}

#[test]
fn lrc_written_then_read_gives_starts_and_texts_back() {
    let lines = vec![line(1000, 2500, "Primeira"), line(3000, 4000, "Segunda")];
    let back = lrc::parse(&format_lrc(&lines), "music-1");
    assert_eq!(back.len(), 2);
    assert_eq!(back[0].start_ms, 1000);
    assert_eq!(back[0].end_ms, 3000);
    assert_eq!(back[1].text, "Segunda");
    assert_eq!(back[1].end_ms, 8000);
}
