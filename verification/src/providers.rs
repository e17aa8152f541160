//! The lyrics and media providers that reach outside services. Their
//! network and process work happens around the library; what they decide,
//! what they send and how they read the answers is here.
use vstd::prelude::*;
use crate::lrc;
use crate::lyrics_search::lines_of_triples;
use crate::srt;
use crate::srt::vtt_lines;
use crate::lrc::lrc_cues;
use crate::model::{lines_of_cues, LyricsLine, Music};
use crate::text::{
    concat_chars, from_utf8_lossy, has_prefix, has_suffix, lines, split_lines, starts_with,
    ends_with, str_chars, string_from_chars, string_views, to_decimal, trimmed_nonblank, decimal, trim, trim_chars,
    utf8_lossy, views,
};
use crate::title::last_nonempty;
use crate::utils::{canonical_url, normalize_youtube_url, video_id_of};

verus! {

/// The NetEase Cloud Music lyrics provider.
pub struct NeteaseProvider;

impl NeteaseProvider {
    pub fn new() -> Self {
        NeteaseProvider
    }

    /// The search term sent to NetEase: the query without surrounding
    /// whitespace; `None` (nothing is searched) when that is empty.
    pub fn search_query(query: &str) -> (res: Option<String>)
        ensures
            match res {
                Some(q) => q@ == trim(query@) && q@.len() > 0,
                None => trim(query@).len() == 0,
            },
    {
        trimmed_nonblank(query)
    }

    /// The song whose lyrics are fetched: the first search hit.
    pub fn song_to_fetch(song_ids: &[i64]) -> (res: Option<i64>)
        ensures
            res == (if song_ids@.len() > 0 { Some(song_ids@[0]) } else { None::<i64> }),
    {
        if song_ids.len() > 0 {
            Some(song_ids[0])
        } else {
            None
        }
    }

    /// The lyrics found on NetEase, from the LRC text it returned for the
    /// song: `None` when there is no text, when it is blank, or when it
    /// holds no synchronized line.
    pub fn fetch_synced_lyrics(lrc_text: Option<String>, music_id: &str) -> (res: Option<
        Vec<LyricsLine>,
    >)
        ensures
            match res {
                Some(ls) => lrc_text matches Some(t) && trim(t@).len() > 0 && lrc_cues(
                    lines(t@),
                ).len() > 0 && lines_of_cues(ls@, lrc_cues(lines(t@)), music_id@),
                None => match lrc_text {
                    Some(t) => trim(t@).len() == 0 || lrc_cues(lines(t@)).len() == 0,
                    None => true,
                },
            },
    {
        let text = match lrc_text {
            Some(t) => t,
            None => return None,
        };
        let trimmed = trim_chars(str_chars(text.as_str()).as_slice());
        if trimmed.len() == 0 {
            return None;
        }
        let ls = lrc::parse(text.as_str(), music_id);
        if ls.len() == 0 {
            None
        } else {
            Some(ls)
        }
    }
}

/// The exit code with which the transcription script reports that the
/// `faster_whisper` package is missing.
pub const EXIT_MISSING_PACKAGE: i32 = 3;

/// What the end of a transcription run means.
#[derive(Debug, Clone, Copy, PartialEq, Eq, Structural)]
pub enum TranscriptionExit {
    /// `faster_whisper` is not installed.
    MissingPackage,
    /// The script failed.
    Failed,
    /// The script wrote its WebVTT file.
    Completed,
}

/// The Python script that transcribes audio with `faster-whisper` and
/// writes the result as WebVTT. It takes `<audio_path> <vtt_output>` as
/// arguments, is pinned to Portuguese, retries with a wider beam search
/// when the first pass scores below its quality threshold, and exits with
/// code 3 when the package is missing.
pub const TRANSCRIBE_SCRIPT: &'static str = r#"import re
import sys

try:
    from faster_whisper import WhisperModel
except ImportError:
    sys.exit(3)

PRIMARY_BEAM_SIZE = 1
RETRY_BEAM_SIZE = 5
QUALITY_THRESHOLD = 18
PRIMARY_PROMPT = "Letra de música em português brasileiro."
RETRY_PROMPT = "Letra de música em português brasileiro. Preserve nomes próprios e mantenha versos curtos."


def format_timestamp(seconds):
    millis = int(round(seconds * 1000))
    hours, millis = divmod(millis, 3600000)
    minutes, millis = divmod(millis, 60000)
    secs, millis = divmod(millis, 1000)
    return f"{hours:02d}:{minutes:02d}:{secs:02d}.{millis:03d}"


def count_words(text):
    return len(re.findall(r"[A-Za-zÀ-ÿ']+", text))


def quality_score(rows, avg_logprob, avg_no_speech_prob, avg_compression_ratio, language_probability):
    if not rows:
        return 0

    text = " ".join(row[2] for row in rows).lower()
    words = sum(count_words(row[2]) for row in rows)
    score = min(words, 20)

    if len(rows) >= 3:
        score += 3
    if avg_logprob > -1.0:
        score += 6
    if avg_logprob > -0.6:
        score += 4
    if avg_no_speech_prob < 0.4:
        score += 2
    if avg_compression_ratio < 2.4:
        score += 3
    if language_probability >= 0.75:
        score += 4

    hints = [
        "você",
        "não",
        "pra",
        "amor",
        "paz",
        "vida",
        "hoje",
        "deus",
        "coração",
        "meu",
        "minha",
        "nosso",
        "nossa",
    ]
    score += min(sum(1 for hint in hints if hint in text), 6)

    if any(len(word) > 18 for word in re.findall(r"[A-Za-zÀ-ÿ']+", text)):
        score -= 2

    return max(score, 0)


def transcribe_once(model, audio_path, beam_size, prompt):
    segments, info = model.transcribe(
        audio_path,
        language="pt",
        task="transcribe",
        vad_filter=True,
        temperature=0.0,
        beam_size=beam_size,
        condition_on_previous_text=False,
        initial_prompt=prompt,
    )

    rows = []
    logprob_sum = 0.0
    no_speech_sum = 0.0
    compression_sum = 0.0
    count = 0

    for segment in segments:
        text = segment.text.strip()
        if not text:
            continue

        rows.append((segment.start, segment.end, text))
        count += 1
        logprob_sum += float(getattr(segment, "avg_logprob", -5.0))
        no_speech_sum += float(getattr(segment, "no_speech_prob", 0.0))
        compression_sum += float(getattr(segment, "compression_ratio", 0.0))

    avg_logprob = logprob_sum / count if count else -10.0
    avg_no_speech_prob = no_speech_sum / count if count else 1.0
    avg_compression_ratio = compression_sum / count if count else 99.0
    language_probability = float(getattr(info, "language_probability", 0.0))
    score = quality_score(
        rows,
        avg_logprob,
        avg_no_speech_prob,
        avg_compression_ratio,
        language_probability,
    )

    return rows, score


def write_vtt(output_path, rows):
    with open(output_path, "w", encoding="utf-8") as handle:
        handle.write("WEBVTT\\n\\n")
        for start, end, text in rows:
            handle.write(f"{format_timestamp(start)} --> {format_timestamp(end)}\\n{text}\\n\\n")


def main():
    audio_path = sys.argv[1]
    output_path = sys.argv[2]

    model = WhisperModel("small", device="cpu", compute_type="int8")
    rows, score = transcribe_once(model, audio_path, PRIMARY_BEAM_SIZE, PRIMARY_PROMPT)

    if score < QUALITY_THRESHOLD:
        retry_rows, retry_score = transcribe_once(model, audio_path, RETRY_BEAM_SIZE, RETRY_PROMPT)
        if retry_score >= score:
            rows = retry_rows

    write_vtt(output_path, rows)


if __name__ == "__main__":
    main()
"#;

/// Why a transcription gave no lines.
#[derive(Debug, Clone, Copy, PartialEq, Eq, Structural)]
pub enum TranscriptionError {
    /// `faster_whisper` is not installed.
    MissingPackage,
    /// The script failed, with this exit code (`None`: ended by a signal).
    Failed(Option<i32>),
    /// The script succeeded but its WebVTT file could not be read.
    OutputUnreadable,
}

/// Transcription of local audio with `faster-whisper`, the last resort for
/// lyrics.
pub struct WhisperService;

impl WhisperService {
    pub fn new() -> Self {
        WhisperService
    }

    /// Reads the exit code of the transcription script (`None` when it was
    /// ended by a signal): the missing-package code, another failure, or
    /// success (code 0).
    pub fn transcription_exit(code: Option<i32>) -> (res: TranscriptionExit)
        ensures
            res == (if code == Some(EXIT_MISSING_PACKAGE) {
                TranscriptionExit::MissingPackage
            } else if code == Some(0i32) {
                TranscriptionExit::Completed
            } else {
                TranscriptionExit::Failed
            }),
    {
        match code {
            Some(c) => {
                if c == EXIT_MISSING_PACKAGE {
                    TranscriptionExit::MissingPackage
                } else if c == 0 {
                    TranscriptionExit::Completed
                } else {
                    TranscriptionExit::Failed
                }
            },
            None => TranscriptionExit::Failed,
        }
    }

    /// The lines of a finished transcription run: the exit code of the
    /// script decides (see `transcription_exit`), and on success the
    /// WebVTT file it wrote (`None` when it could not be read) is read.
    pub fn transcribe(exit_code: Option<i32>, vtt_content: Option<String>, music_id: &str) -> (res:
        Result<Vec<LyricsLine>, TranscriptionError>)
        ensures
            exit_code == Some(EXIT_MISSING_PACKAGE) ==> res == Err::<Vec<LyricsLine>, _>(
                TranscriptionError::MissingPackage,
            ),
            exit_code != Some(EXIT_MISSING_PACKAGE) && exit_code != Some(0i32) ==> res == Err::<
                Vec<LyricsLine>,
                _,
            >(TranscriptionError::Failed(exit_code)),
            exit_code == Some(0i32) ==> match vtt_content {
                Some(c) => res matches Ok(ls) && lines_of_triples(ls@, vtt_lines(c@), music_id@),
                None => res == Err::<Vec<LyricsLine>, _>(TranscriptionError::OutputUnreadable),
            },
    {
        match Self::transcription_exit(exit_code) {
            TranscriptionExit::MissingPackage => Err(TranscriptionError::MissingPackage),
            TranscriptionExit::Failed => Err(TranscriptionError::Failed(exit_code)),
            TranscriptionExit::Completed => match vtt_content {
                Some(c) => Ok(srt::parse_vtt(c.as_str(), music_id)),
                None => Err(TranscriptionError::OutputUnreadable),
            },
        }
    }

    /// The stem shared by the temporary files of one run:
    /// `letras_sync_whisper_<pid>_<nanos>`.
    pub fn temp_stem(pid: u32, nanos: u128) -> (res: String)
        ensures
            res@ == "letras_sync_whisper_"@ + decimal(pid as nat) + seq!['_'] + decimal(
                nanos as nat,
            ),
    {
        let a = str_chars("letras_sync_whisper_");
        let p = to_decimal(pid as u128);
        let u = vec!['_'];
        let n = to_decimal(nanos);
        let ap = concat_chars(a.as_slice(), p.as_slice());
        let apu = concat_chars(ap.as_slice(), u.as_slice());
        let all = concat_chars(apu.as_slice(), n.as_slice());
        string_from_chars(all.as_slice())
    }

    /// The names of the temporary script, WebVTT output and audio copy of a
    /// run: `<stem>.py`, `<stem>.vtt` and `<stem>.<ext>`, where `<ext>` is
    /// the audio file's extension, or `input` when it has none.
    pub fn temp_file_names(stem: &str, audio_extension: Option<&str>) -> (res: (
        String,
        String,
        String,
    ))
        ensures
            res.0@ == stem@ + ".py"@,
            res.1@ == stem@ + ".vtt"@,
            res.2@ == stem@ + seq!['.'] + match audio_extension {
                Some(e) => if e@.len() > 0 {
                    e@
                } else {
                    "input"@
                },
                None => "input"@,
            },
    {
        let s = str_chars(stem);
        let py = concat_chars(s.as_slice(), str_chars(".py").as_slice());
        let vtt = concat_chars(s.as_slice(), str_chars(".vtt").as_slice());
        let ext = match audio_extension {
            Some(e) => {
                if e.unicode_len() > 0 {
                    str_chars(e)
                } else {
                    str_chars("input")
                }
            },
            None => str_chars("input"),
        };
        let dotted = concat_chars(s.as_slice(), vec!['.'].as_slice());
        let audio = concat_chars(dotted.as_slice(), ext.as_slice());
        (
            string_from_chars(py.as_slice()),
            string_from_chars(vtt.as_slice()),
            string_from_chars(audio.as_slice()),
        )
    }
}

/// The address handed to `yt-dlp`: the canonical form of a recognised
/// YouTube address, any other address as it is.
pub open spec fn request_url_of(url: Seq<char>) -> Seq<char> {
    match video_id_of(url) {
        Some(id) => canonical_url(id),
        None => url,
    }
}

/// The arguments that every `yt-dlp` call starts with: the Node.js
/// JavaScript runtime when one is installed.
pub open spec fn base_args(node_available: bool) -> Seq<Seq<char>> {
    if node_available {
        seq!["--js-runtimes"@, "node"@]
    } else {
        Seq::empty()
    }
}

/// The last non-blank line of what `yt-dlp` printed, trimmed.
pub open spec fn printed_path(stdout: Seq<u8>) -> Option<Seq<char>> {
    last_nonempty(lines(utf8_lossy(stdout)).map_values(|l: Seq<char>| trim(l)))
}

/// Metadata, captions and audio from YouTube through `yt-dlp`.
pub struct YoutubeService;

impl YoutubeService {
    pub fn new() -> Self {
        YoutubeService
    }

    /// The address handed to `yt-dlp` for `url`.
    pub fn request_url(url: &str) -> (res: String)
        ensures
            res@ == request_url_of(url@),
    {
        match normalize_youtube_url(url) {
            Some(c) => c,
            None => String::from_str(url),
        }
    }

    /// The leading arguments of every `yt-dlp` call.
    pub fn base_args(node_available: bool) -> (res: Vec<String>)
        ensures
            string_views(res@) == base_args(node_available),
    {
        if node_available {
            let res = vec![String::from_str("--js-runtimes"), String::from_str("node")];
            assert(string_views(res@) =~= base_args(node_available));
            res
        } else {
            let res: Vec<String> = Vec::new();
            assert(string_views(res@) =~= base_args(node_available));
            res
        }
    }

    /// The arguments that download the best audio stream of `url` as it is
    /// (no transcoding, so no `ffmpeg`) into `output_template`, and print
    /// the final file's path.
    pub fn audio_download_args(url: &str, output_template: &str) -> (res: Vec<String>)
        ensures
            string_views(res@) == seq![
                "-f"@,
                "ba"@,
                "--no-playlist"@,
                "--no-progress"@,
                "-o"@,
                output_template@,
                "-O"@,
                "after_move:filepath"@,
                url@,
            ],
    {
        let res = vec![
            String::from_str("-f"),
            String::from_str("ba"),
            String::from_str("--no-playlist"),
            String::from_str("--no-progress"),
            String::from_str("-o"),
            String::from_str(output_template),
            String::from_str("-O"),
            String::from_str("after_move:filepath"),
            String::from_str(url),
        ];
        assert(string_views(res@) =~= seq![
            "-f"@,
            "ba"@,
            "--no-playlist"@,
            "--no-progress"@,
            "-o"@,
            output_template@,
            "-O"@,
            "after_move:filepath"@,
            url@,
        ]);
        res
    }

    /// The arguments that write the Portuguese or English subtitles of a
    /// video (automatic ones too) as WebVTT next to `output_template`,
    /// without downloading the video.
    pub fn caption_args(video_id: &str, output_template: &str) -> (res: Vec<String>)
        ensures
            string_views(res@) == seq![
                "--write-auto-subs"@,
                "--write-subs"@,
                "--sub-langs"@,
                "pt,pt-BR,en"@,
                "--sub-format"@,
                "vtt"@,
                "--skip-download"@,
                "--no-playlist"@,
                "-o"@,
                output_template@,
                canonical_url(video_id@),
            ],
    {
        let prefix = str_chars("https://www.youtube.com/watch?v=");
        proof {
            reveal_strlit("https://www.youtube.com/watch?v=");
            assert(prefix@ =~= crate::utils::canonical_prefix());
        }
        let watch = concat_chars(prefix.as_slice(), str_chars(video_id).as_slice());
        let res = vec![
            String::from_str("--write-auto-subs"),
            String::from_str("--write-subs"),
            String::from_str("--sub-langs"),
            String::from_str("pt,pt-BR,en"),
            String::from_str("--sub-format"),
            String::from_str("vtt"),
            String::from_str("--skip-download"),
            String::from_str("--no-playlist"),
            String::from_str("-o"),
            String::from_str(output_template),
            string_from_chars(watch.as_slice()),
        ];
        assert(string_views(res@) =~= seq![
            "--write-auto-subs"@,
            "--write-subs"@,
            "--sub-langs"@,
            "pt,pt-BR,en"@,
            "--sub-format"@,
            "vtt"@,
            "--skip-download"@,
            "--no-playlist"@,
            "-o"@,
            output_template@,
            canonical_url(video_id@),
        ]);
        res
    }

    /// Whether a file of the temporary directory holds captions of the
    /// video: its name starts with the video id and ends in `.vtt`.
    pub fn is_caption_file(name: &str, video_id: &str) -> (res: bool)
        ensures
            res == (starts_with(name@, video_id@) && ends_with(name@, ".vtt"@)),
    {
        let n = str_chars(name);
        has_prefix(n.as_slice(), str_chars(video_id).as_slice()) && has_suffix(
            n.as_slice(),
            str_chars(".vtt").as_slice(),
        )
    }

    /// The path of the downloaded audio file, read from what `yt-dlp`
    /// printed: its last non-blank line, trimmed. `None` when it printed
    /// nothing.
    pub fn download_audio(stdout: &[u8]) -> (res: Option<String>)
        ensures
            match res {
                Some(p) => printed_path(stdout@) == Some(p@),
                None => printed_path(stdout@) is None,
            },
    {
        let text = from_utf8_lossy(stdout);
        let ls = split_lines(text.as_slice());
        let ghost t = lines(utf8_lossy(stdout@)).map_values(|l: Seq<char>| trim(l));
        let mut i: usize = ls.len();
        assert(t.take(i as int) =~= t);
        while i > 0
            invariant
                i <= ls@.len(),
                views(ls@) == lines(utf8_lossy(stdout@)),
                t == lines(utf8_lossy(stdout@)).map_values(|l: Seq<char>| trim(l)),
                last_nonempty(t) == last_nonempty(t.take(i as int)),
            decreases i,
        {
            let line = trim_chars(ls[i - 1].as_slice());
            assert(t.take(i as int).last() == line@);
            if line.len() > 0 {
                return Some(string_from_chars(line.as_slice()));
            }
            assert(t.take(i as int).drop_last() =~= t.take(i - 1));
            i = i - 1;
        }
        None
    }

    /// The music record of a video, from the metadata `yt-dlp` printed; the
    /// record's address is the video page `yt-dlp` reported, or else the
    /// address that was asked for.
    pub fn fetch_metadata(
        id: String,
        title: String,
        uploader: Option<String>,
        duration_secs: Option<i64>,
        thumbnail: Option<String>,
        webpage_url: Option<String>,
        requested_url: &str,
    ) -> (res: Music)
        ensures
            res.id == id,
            res.title == title,
            res.artist == uploader,
            res.duration == duration_secs,
            res.thumbnail == thumbnail,
            res.created_at is None,
            res.youtube_url@ == match webpage_url {
                Some(w) => w@,
                None => requested_url@,
            },
    {
        let youtube_url = match webpage_url {
            Some(w) => w,
            None => String::from_str(requested_url),
        };
        Music {
            id,
            title,
            artist: uploader,
            youtube_url,
            duration: duration_secs,
            thumbnail,
            created_at: None,
        }
    }
}

} // verus!
