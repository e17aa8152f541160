//! The library's data: synchronized lyric lines and music records.
//!
//! Times are whole milliseconds.
use vstd::prelude::*;

verus! {

/// One synchronized lyric line: shown from `start_ms` (inclusive) to
/// `end_ms` (exclusive).
#[derive(Debug, Clone, PartialEq, Eq)]
pub struct LyricsLine {
    pub id: i64,
    pub music_id: String,
    pub start_ms: i64,
    pub end_ms: i64,
    pub text: String,
}

/// A music record, as the local catalogue stores it.
#[derive(Debug, Clone, PartialEq, Eq)]
pub struct Music {
    pub id: String,
    pub title: String,
    pub artist: Option<String>,
    pub youtube_url: String,
    pub duration: Option<i64>,
    pub thumbnail: Option<String>,
    pub created_at: Option<String>,
}

/// How long the last line of a file without end times stays on screen.
pub const LAST_LINE_DURATION_MS: i64 = 5000;

/// The largest start time that a parser accepts for a line.
pub const MAX_CUE_MS: i64 = 4_000_000_000_000_000_000;

pub fn copy_string(s: &String) -> (res: String)
    ensures
        res@ == s@,
        res == *s,
{
    s.clone()
}

pub fn copy_opt_string(s: &Option<String>) -> (res: Option<String>)
    ensures
        res == *s,
{
    match s {
        Some(v) => Some(v.clone()),
        None => None,
    }
}

/// A field-by-field copy of a line.
pub fn copy_line(l: &LyricsLine) -> (res: LyricsLine)
    ensures
        res == *l,
{
    LyricsLine {
        id: l.id,
        music_id: l.music_id.clone(),
        start_ms: l.start_ms,
        end_ms: l.end_ms,
        text: l.text.clone(),
    }
}

/// A copy of every line.
pub fn copy_lines(lines: &[LyricsLine]) -> (res: Vec<LyricsLine>)
    ensures
        res@ == lines@,
{
    let mut res: Vec<LyricsLine> = Vec::new();
    let mut i: usize = 0;
    while i < lines.len()
        invariant
            i <= lines@.len(),
            res@ == lines@.take(i as int),
        decreases lines.len() - i,
    {
        res.push(copy_line(&lines[i]));
        assert(res@ =~= lines@.take(i + 1));
        i = i + 1;
    }
    assert(lines@.take(lines@.len() as int) =~= lines@);
    res
}

/// A field-by-field copy of a music record.
pub fn copy_music(m: &Music) -> (res: Music)
    ensures
        res == *m,
{
    Music {
        id: m.id.clone(),
        title: m.title.clone(),
        artist: copy_opt_string(&m.artist),
        youtube_url: m.youtube_url.clone(),
        duration: m.duration,
        thumbnail: copy_opt_string(&m.thumbnail),
        created_at: copy_opt_string(&m.created_at),
    }
}

/// A timed text without an end: its start and its text.
pub struct Cue {
    pub start_ms: i64,
    pub text: Vec<char>,
}

pub open spec fn cue_view(c: Cue) -> (int, Seq<char>) {
    (c.start_ms as int, c.text@)
}

pub open spec fn cue_views(cs: Seq<Cue>) -> Seq<(int, Seq<char>)> {
    cs.map_values(|c: Cue| cue_view(c))
}

/// Where the `i`-th cue ends: where the next one starts, or five seconds
/// after its own start for the last one.
pub open spec fn cue_end(cues: Seq<(int, Seq<char>)>, i: int) -> int {
    if i + 1 < cues.len() {
        cues[i + 1].0
    } else {
        cues[i].0 + LAST_LINE_DURATION_MS
    }
}

/// Whether `lines` are exactly the lines that `cues` give for `music_id`:
/// one per cue, in order, numbered 0, each ending where the next starts.
pub open spec fn lines_of_cues(
    lines: Seq<LyricsLine>,
    cues: Seq<(int, Seq<char>)>,
    music_id: Seq<char>,
) -> bool {
    &&& lines.len() == cues.len()
    &&& forall|i: int|
        0 <= i < lines.len() ==> {
            &&& (#[trigger] lines[i]).id == 0
            &&& lines[i].music_id@ == music_id
            &&& lines[i].start_ms == cues[i].0
            &&& lines[i].end_ms == cue_end(cues, i)
            &&& lines[i].text@ == cues[i].1
        }
}

/// Turns cues into lines for `music_id`.
pub fn lines_from_cues(cues: &Vec<Cue>, music_id: &str) -> (res: Vec<LyricsLine>)
    requires
        forall|i: int| 0 <= i < cues@.len() ==> 0 <= #[trigger] cues@[i].start_ms <= MAX_CUE_MS,
    ensures
        lines_of_cues(res@, cue_views(cues@), music_id@),
{
    let ghost cv = cue_views(cues@);
    let mut res: Vec<LyricsLine> = Vec::new();
    let n = cues.len();
    let mut i: usize = 0;
    while i < n
        invariant
            n == cues@.len(),
            i <= n,
            cv == cue_views(cues@),
            forall|k: int| 0 <= k < cues@.len() ==> 0 <= #[trigger] cues@[k].start_ms <= MAX_CUE_MS,
            res@.len() == i,
            forall|k: int|
                0 <= k < i ==> {
                    &&& (#[trigger] res@[k]).id == 0
                    &&& res@[k].music_id@ == music_id@
                    &&& res@[k].start_ms == cv[k].0
                    &&& res@[k].end_ms == cue_end(cv, k)
                    &&& res@[k].text@ == cv[k].1
                },
        decreases n - i,
    {
        let start = cues[i].start_ms;
        let end = if i + 1 < n {
            cues[i + 1].start_ms
        } else {
            start + LAST_LINE_DURATION_MS
        };
        let music = String::from_str(music_id);
        let text = crate::text::string_from_chars(cues[i].text.as_slice());
        res.push(LyricsLine { id: 0, music_id: music, start_ms: start, end_ms: end, text });
        i = i + 1;
    }
    res
}

} // verus!
