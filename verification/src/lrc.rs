//! Reading LRC files: lines of the form `[MM:SS.xx]text`.
use vstd::prelude::*;
use crate::model::{Cue, LyricsLine, lines_from_cues, lines_of_cues, cue_views, MAX_CUE_MS};
use crate::text::{
    find, find_sub, lemma_find_sub_bounds, lines, parse_unsigned, parse_unsigned_chars, split_lines,
    split_once, split_once_at, str_chars, sub_chars, trim, trim_chars, views,
};

verus! {

/// The largest value a single timecode field may hold.
pub open spec fn field_max() -> nat {
    u32::MAX as nat
}

/// The start time, in milliseconds, that an LRC timecode `MM:SS[.xx]` gives;
/// the part after the dot counts hundredths of a second.
pub open spec fn lrc_timecode(tc: Seq<char>) -> Option<int> {
    match split_once(tc, seq![':']) {
        None => None,
        Some((mp, rest)) => {
            let (sp, cp) = match split_once(rest, seq!['.']) {
                Some((a, b)) => (a, Some(b)),
                None => (rest, None::<Seq<char>>),
            };
            match (parse_unsigned(mp, field_max()), parse_unsigned(sp, field_max())) {
                (Some(m), Some(s)) => match cp {
                    None => Some((m * 60000 + s * 1000) as int),
                    Some(c) => match parse_unsigned(c, field_max()) {
                        Some(cv) => Some((m * 60000 + s * 1000 + cv * 10) as int),
                        None => None,
                    },
                },
                _ => None,
            }
        },
    }
}

/// The cue that one (already trimmed) LRC line holds: a line that starts
/// with `[`, whose bracket holds a timecode, followed by non-empty text.
pub open spec fn lrc_line(line: Seq<char>) -> Option<(int, Seq<char>)> {
    if !(line.len() > 0 && line[0] == '[') {
        None
    } else {
        match find_sub(line, seq![']']) {
            None => None,
            Some(close) => {
                let text = trim(line.skip(close + 1));
                match lrc_timecode(line.subrange(1, close)) {
                    None => None,
                    Some(t) => if text.len() == 0 {
                        None
                    } else {
                        Some((t, text))
                    },
                }
            },
        }
    }
}

/// The cues of a sequence of lines, each line trimmed first.
pub open spec fn lrc_cues(ls: Seq<Seq<char>>) -> Seq<(int, Seq<char>)>
    decreases ls.len(),
{
    if ls.len() == 0 {
        seq![]
    } else {
        let r = lrc_cues(ls.drop_last());
        match lrc_line(trim(ls.last())) {
            Some(c) => r.push(c),
            None => r,
        }
    }
}

fn parse_field(s: &[char]) -> (res: Option<u64>)
    ensures
        match res {
            Some(v) => parse_unsigned(s@, field_max()) == Some(v as nat) && v <= u32::MAX,
            None => parse_unsigned(s@, field_max()) is None,
        },
{
    parse_unsigned_chars(s, u32::MAX as u64)
}

fn parse_timecode(tc: &[char]) -> (res: Option<i64>)
    ensures
        match res {
            Some(v) => lrc_timecode(tc@) == Some(v as int) && 0 <= v <= MAX_CUE_MS,
            None => lrc_timecode(tc@) is None,
        },
{
    let colon = vec![':'];
    let dot = vec!['.'];
    assert(colon@ =~= seq![':']);
    assert(dot@ =~= seq!['.']);
    let (mp, rest) = match split_once_at(tc, colon.as_slice()) {
        Some(parts) => parts,
        None => return None,
    };
    let (sp, cp) = match split_once_at(rest.as_slice(), dot.as_slice()) {
        Some((a, b)) => (a, Some(b)),
        None => (rest, None),
    };
    let m = match parse_field(mp.as_slice()) {
        Some(v) => v,
        None => return None,
    };
    let s = match parse_field(sp.as_slice()) {
        Some(v) => v,
        None => return None,
    };
    let base = (m as i64) * 60000 + (s as i64) * 1000;
    match cp {
        None => Some(base),
        Some(c) => match parse_field(c.as_slice()) {
            Some(cv) => Some(base + (cv as i64) * 10),
            None => None,
        },
    }
}

fn parse_line(line: &[char]) -> (res: Option<Cue>)
    ensures
        match res {
            Some(c) => lrc_line(line@) == Some((c.start_ms as int, c.text@)) && 0 <= c.start_ms
                <= MAX_CUE_MS,
            None => lrc_line(line@) is None,
        },
{
    if !(line.len() > 0 && line[0] == '[') {
        return None;
    }
    let bracket = vec![']'];
    assert(bracket@ =~= seq![']']);
    let close = match find(line, bracket.as_slice()) {
        Some(i) => i,
        None => return None,
    };
    proof {
        lemma_find_sub_bounds(line@, bracket@);
        assert(line@.subrange(close as int, close + 1)[0] == ']');
    }
    let tc = sub_chars(line, 1, close);
    let after = sub_chars(line, close + 1, line.len());
    assert(after@ =~= line@.skip(close + 1));
    let text = trim_chars(after.as_slice());
    let start = match parse_timecode(tc.as_slice()) {
        Some(t) => t,
        None => return None,
    };
    if text.len() == 0 {
        return None;
    }
    Some(Cue { start_ms: start, text })
}

/// Reads the synchronized lines of an LRC file for `music_id`.
///
/// Every line is trimmed; a line counts when it starts with a bracketed
/// `MM:SS[.xx]` timecode followed by non-empty text, and other lines
/// (metadata tags such as `[ar:...]`, blank lines, plain text) are skipped.
/// Each line ends where the next starts; the last one five seconds after
/// its start. Lines are numbered 0 (not yet stored).
pub fn parse(lrc_content: &str, music_id: &str) -> (res: Vec<LyricsLine>)
    ensures
        lines_of_cues(res@, lrc_cues(lines(lrc_content@)), music_id@),
        forall|i: int| 0 <= i < res@.len() ==> (#[trigger] res@[i]).text@.len() > 0,
{
    let content = str_chars(lrc_content);
    let ls = split_lines(content.as_slice());
    let ghost lv = views(ls@);
    let mut cues: Vec<Cue> = Vec::new();
    let mut i: usize = 0;
    while i < ls.len()
        invariant
            i <= ls@.len(),
            lv == views(ls@),
            lv == lines(lrc_content@),
            cue_views(cues@) == lrc_cues(lv.take(i as int)),
            forall|k: int| 0 <= k < cues@.len() ==> 0 <= #[trigger] cues@[k].start_ms <= MAX_CUE_MS,
        decreases ls.len() - i,
    {
        let line = trim_chars(ls[i].as_slice());
        assert(lv.take(i + 1).drop_last() =~= lv.take(i as int));
        assert(lv.take(i + 1).last() == ls@[i as int]@);
        let ghost before = cue_views(cues@);
        match parse_line(line.as_slice()) {
            Some(c) => {
                let ghost cv = (c.start_ms as int, c.text@);
                cues.push(c);
                assert(cue_views(cues@) =~= before.push(cv));
            },
            None => {},
        }
        i = i + 1;
    }
    assert(lv.take(ls@.len() as int) =~= lv);
    let res = lines_from_cues(&cues, music_id);
    proof {
        lemma_lrc_lines_have_text(lrc_content@, music_id@, res@);
    }
    res
}

/// Every cue read from LRC lines carries text: a timestamp whose text is
/// blank (an instrumental break) gives no cue.
proof fn lemma_lrc_cues_have_text(ls: Seq<Seq<char>>)
    ensures
        forall|i: int| 0 <= i < lrc_cues(ls).len() ==> (#[trigger] lrc_cues(ls)[i]).1.len() > 0,
    decreases ls.len(),
{
    if ls.len() > 0 {
        let r = lrc_cues(ls.drop_last());
        lemma_lrc_cues_have_text(ls.drop_last());
        let res = lrc_cues(ls);
        assert forall|i: int| 0 <= i < res.len() implies (#[trigger] res[i]).1.len() > 0 by {
            if i < r.len() {
                assert(res[i] == r[i]);
            }
        }
    }
}

/// Every line read from an LRC file has non-empty text, whatever the file
/// holds: timestamped lines with blank text yield no line.
pub proof fn lemma_lrc_lines_have_text(content: Seq<char>, music_id: Seq<char>, res: Seq<LyricsLine>)
    requires
        lines_of_cues(res, lrc_cues(lines(content)), music_id),
    ensures
        forall|i: int| 0 <= i < res.len() ==> (#[trigger] res[i]).text@.len() > 0,
{
    lemma_lrc_cues_have_text(lines(content));
    assert forall|i: int| 0 <= i < res.len() implies (#[trigger] res[i]).text@.len() > 0 by {
        assert(res[i].text@ == lrc_cues(lines(content))[i].1);
    }
}

} // verus!
