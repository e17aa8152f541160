//! Reading SRT files: numbered blocks of `HH:MM:SS,mmm --> HH:MM:SS,mmm`
//! followed by text lines.
use vstd::prelude::*;
use crate::model::{LyricsLine, MAX_CUE_MS};
use crate::text::{
    first_nonempty, first_nonempty_piece, join, join_chars, lines, one_of, parse_unsigned,
    parse_unsigned_chars, split_lines, split_on, split_on_whitespace, split_once, split_once_at,
    split_when, str_chars, string_from_chars, trim, trim_chars, views, whitespace_pred,
};

verus! {

/// The largest value a single timestamp field may hold.
pub open spec fn field_max() -> nat {
    u32::MAX as nat
}

/// Scans `s` for `<...>` tags: what is left outside them, and whether the
/// scan ends inside a tag.
pub open spec fn tag_scan(s: Seq<char>) -> (Seq<char>, bool)
    decreases s.len(),
{
    if s.len() == 0 {
        (seq![], false)
    } else {
        let (out, inside) = tag_scan(s.drop_last());
        let c = s.last();
        if c == '<' {
            (out, true)
        } else if c == '>' {
            (out, false)
        } else if !inside {
            (out.push(c), inside)
        } else {
            (out, inside)
        }
    }
}

/// `s` with every `<...>` tag removed (`<i>`, `<b>`, `<font ...>`).
pub open spec fn strip_tags_spec(s: Seq<char>) -> Seq<char> {
    tag_scan(s).0
}

/// The milliseconds that a timestamp `[HH:]MM:SS[<sep>mmm]` gives (`,` in
/// SRT, `.` in WebVTT).
pub open spec fn srt_timestamp(ts: Seq<char>, sep: char) -> Option<int> {
    let (tp, mp) = match split_once(ts, seq![sep]) {
        Some((t, m)) => (t, Some(m)),
        None => (ts, None::<Seq<char>>),
    };
    let c = split_when(tp, one_of(seq![':']));
    let hms = if c.len() == 3 {
        match (
            parse_unsigned(c[0], field_max()),
            parse_unsigned(c[1], field_max()),
            parse_unsigned(c[2], field_max()),
        ) {
            (Some(h), Some(m), Some(s)) => Some((h, m, s)),
            _ => None,
        }
    } else if c.len() == 2 {
        match (parse_unsigned(c[0], field_max()), parse_unsigned(c[1], field_max())) {
            (Some(m), Some(s)) => Some((0nat, m, s)),
            _ => None,
        }
    } else {
        None
    };
    match hms {
        None => None,
        Some((h, m, s)) => match mp {
            None => Some((h * 3600000 + m * 60000 + s * 1000) as int),
            Some(x) => match parse_unsigned(x, field_max()) {
                Some(ms) => Some((h * 3600000 + m * 60000 + s * 1000 + ms) as int),
                None => None,
            },
        },
    }
}

/// The start and end of a cue line `start --> end ...`.
pub open spec fn srt_timecode(line: Seq<char>, sep: char) -> Option<(int, int)> {
    match split_once(line, seq!['-', '-', '>']) {
        None => None,
        Some((l, r)) => match first_nonempty(split_when(r, whitespace_pred())) {
            None => None,
            Some(et) => match (srt_timestamp(trim(l), sep), srt_timestamp(et, sep)) {
                (Some(s), Some(e)) => Some((s, e)),
                _ => None,
            },
        },
    }
}

/// The reader's state between lines: the lines read so far, the text
/// lines of the open block, and the open block's times.
pub struct SrtState {
    pub out: Seq<(int, int, Seq<char>)>,
    pub cue: Seq<Seq<char>>,
    pub times: Option<(int, int)>,
}

/// The text of a block: its lines without tags, joined by spaces, trimmed.
pub open spec fn block_text(cue: Seq<Seq<char>>) -> Seq<char> {
    trim(join(cue.map_values(|l: Seq<char>| strip_tags_spec(l)), seq![' ']))
}

/// Closes the open block: it becomes a line when it has times and its text
/// is not empty.
pub open spec fn srt_flush(st: SrtState) -> SrtState {
    match st.times {
        None => SrtState { out: st.out, cue: seq![], times: None },
        Some((s, e)) => {
            let text = block_text(st.cue);
            SrtState {
                out: if text.len() == 0 {
                    st.out
                } else {
                    st.out.push((s, e, text))
                },
                cue: seq![],
                times: None,
            }
        },
    }
}

/// Reads one raw line.
pub open spec fn srt_step(st: SrtState, raw: Seq<char>, sep: char) -> SrtState {
    let line = trim(raw);
    match srt_timecode(line, sep) {
        Some((s, e)) => {
            let f = srt_flush(st);
            SrtState { out: f.out, cue: f.cue, times: Some((s, e)) }
        },
        None => if line.len() == 0 {
            srt_flush(st)
        } else if st.times is Some {
            SrtState { out: st.out, cue: st.cue.push(line), times: st.times }
        } else {
            st
        },
    }
}

/// The state after reading `ls` from the start.
pub open spec fn srt_run(ls: Seq<Seq<char>>, sep: char) -> SrtState
    decreases ls.len(),
{
    if ls.len() == 0 {
        SrtState { out: seq![], cue: seq![], times: None }
    } else {
        srt_step(srt_run(ls.drop_last(), sep), ls.last(), sep)
    }
}

/// The lines (start, end, text) that a text of timed blocks holds, with
/// `sep` before the milliseconds.
pub open spec fn block_lines(content: Seq<char>, sep: char) -> Seq<(int, int, Seq<char>)> {
    srt_flush(srt_run(lines(content), sep)).out
}

/// The lines (start, end, text) that an SRT text holds.
pub open spec fn srt_lines(content: Seq<char>) -> Seq<(int, int, Seq<char>)> {
    block_lines(content, ',')
}

/// The lines (start, end, text) that a WebVTT text holds.
pub open spec fn vtt_lines(content: Seq<char>) -> Seq<(int, int, Seq<char>)> {
    block_lines(content, '.')
}

/// Removes `<...>` tags from `text`.
pub fn strip_tags(text: &[char]) -> (res: Vec<char>)
    ensures
        res@ == strip_tags_spec(text@),
{
    let mut res: Vec<char> = Vec::new();
    let mut inside = false;
    let mut i: usize = 0;
    while i < text.len()
        invariant
            i <= text@.len(),
            (res@, inside) == tag_scan(text@.take(i as int)),
        decreases text.len() - i,
    {
        let c = text[i];
        assert(text@.take(i + 1).drop_last() =~= text@.take(i as int));
        if c == '<' {
            inside = true;
        } else if c == '>' {
            inside = false;
        } else if !inside {
            res.push(c);
        }
        i = i + 1;
    }
    assert(text@.take(text@.len() as int) =~= text@);
    res
}

fn parse_field(s: &[char]) -> (res: Option<u64>)
    ensures
        match res {
            Some(v) => parse_unsigned(s@, field_max()) == Some(v as nat) && v <= u32::MAX,
            None => parse_unsigned(s@, field_max()) is None,
        },
{
    parse_unsigned_chars(s, u32::MAX as u64)
}

fn parse_timestamp(ts: &[char], sep: char) -> (res: Option<i64>)
    ensures
        match res {
            Some(v) => srt_timestamp(ts@, sep) == Some(v as int) && 0 <= v <= MAX_CUE_MS,
            None => srt_timestamp(ts@, sep) is None,
        },
{
    let comma = vec![sep];
    let colon = vec![':'];
    assert(comma@ =~= seq![sep]);
    assert(colon@ =~= seq![':']);
    let (tp, mp) = match split_once_at(ts, comma.as_slice()) {
        Some((t, m)) => (t, Some(m)),
        None => (crate::text::sub_chars(ts, 0, ts.len()), None),
    };
    assert(ts@.subrange(0, ts@.len() as int) =~= ts@);
    let c = split_on(tp.as_slice(), colon.as_slice());
    let (h, m, s) = if c.len() == 3 {
        let h = match parse_field(c[0].as_slice()) {
            Some(v) => v,
            None => return None,
        };
        let m = match parse_field(c[1].as_slice()) {
            Some(v) => v,
            None => return None,
        };
        let s = match parse_field(c[2].as_slice()) {
            Some(v) => v,
            None => return None,
        };
        (h, m, s)
    } else if c.len() == 2 {
        let m = match parse_field(c[0].as_slice()) {
            Some(v) => v,
            None => return None,
        };
        let s = match parse_field(c[1].as_slice()) {
            Some(v) => v,
            None => return None,
        };
        (0, m, s)
    } else {
        return None;
    };
    let base = (h as i64) * 3600000 + (m as i64) * 60000 + (s as i64) * 1000;
    match mp {
        None => Some(base),
        Some(x) => match parse_field(x.as_slice()) {
            Some(ms) => Some(base + ms as i64),
            None => None,
        },
    }
}

fn parse_timecode(line: &[char], sep: char) -> (res: Option<(i64, i64)>)
    ensures
        match res {
            Some((s, e)) => srt_timecode(line@, sep) == Some((s as int, e as int)) && 0 <= s
                <= MAX_CUE_MS && 0 <= e <= MAX_CUE_MS,
            None => srt_timecode(line@, sep) is None,
        },
{
    let arrow = vec!['-', '-', '>'];
    assert(arrow@ =~= seq!['-', '-', '>']);
    let (l, r) = match split_once_at(line, arrow.as_slice()) {
        Some(parts) => parts,
        None => return None,
    };
    let words = split_on_whitespace(r.as_slice());
    let end_token = match first_nonempty_piece(&words) {
        Some(w) => w,
        None => return None,
    };
    let left = trim_chars(l.as_slice());
    let start = match parse_timestamp(left.as_slice(), sep) {
        Some(v) => v,
        None => return None,
    };
    let end = match parse_timestamp(end_token.as_slice(), sep) {
        Some(v) => v,
        None => return None,
    };
    Some((start, end))
}

/// The reader's state in executable form.
struct Reader {
    out: Vec<(i64, i64, Vec<char>)>,
    cue: Vec<Vec<char>>,
    times: Option<(i64, i64)>,
}

spec fn out_view(out: Seq<(i64, i64, Vec<char>)>) -> Seq<(int, int, Seq<char>)> {
    out.map_values(|o: (i64, i64, Vec<char>)| (o.0 as int, o.1 as int, o.2@))
}

spec fn reader_view(r: Reader) -> SrtState {
    SrtState {
        out: out_view(r.out@),
        cue: views(r.cue@),
        times: match r.times {
            Some((s, e)) => Some((s as int, e as int)),
            None => None,
        },
    }
}

spec fn reader_bounded(r: Reader) -> bool {
    &&& forall|k: int|
        0 <= k < r.out@.len() ==> 0 <= (#[trigger] r.out@[k]).0 <= MAX_CUE_MS && 0
            <= r.out@[k].1 <= MAX_CUE_MS
    &&& match r.times {
        Some((s, e)) => 0 <= s <= MAX_CUE_MS && 0 <= e <= MAX_CUE_MS,
        None => true,
    }
}

fn flush(r: Reader) -> (res: Reader)
    requires
        reader_bounded(r),
    ensures
        reader_view(res) == srt_flush(reader_view(r)),
        reader_bounded(res),
{
    let Reader { mut out, cue, times } = r;
    match times {
        None => {
            let res = Reader { out, cue: Vec::new(), times: None };
            assert(reader_view(res).cue =~= seq![]);
            res
        },
        Some((s, e)) => {
            let ghost cv = views(cue@);
            let mut stripped: Vec<Vec<char>> = Vec::new();
            let mut i: usize = 0;
            while i < cue.len()
                invariant
                    i <= cue@.len(),
                    cv == views(cue@),
                    views(stripped@) == cv.take(i as int).map_values(
                        |l: Seq<char>| strip_tags_spec(l),
                    ),
                decreases cue.len() - i,
            {
                let t = strip_tags(cue[i].as_slice());
                let ghost before = views(stripped@);
                let ghost tv = t@;
                stripped.push(t);
                assert(views(stripped@) =~= before.push(tv));
                assert(views(stripped@) =~= cv.take(i + 1).map_values(
                    |l: Seq<char>| strip_tags_spec(l),
                ));
                i = i + 1;
            }
            assert(cv.take(cue@.len() as int) =~= cv);
            let space = vec![' '];
            assert(space@ =~= seq![' ']);
            let joined = join_chars(&stripped, space.as_slice());
            let text = trim_chars(joined.as_slice());
            let ghost old_out = out_view(out@);
            if text.len() > 0 {
                let ghost tv = text@;
                out.push((s, e, text));
                assert(out_view(out@) =~= old_out.push((s as int, e as int, tv)));
            }
            let res = Reader { out, cue: Vec::new(), times: None };
            assert(reader_view(res).cue =~= seq![]);
            res
        },
    }
}

fn parse_blocks(srt_content: &str, music_id: &str, sep: char) -> (res: Vec<LyricsLine>)
    ensures
        res@.len() == block_lines(srt_content@, sep).len(),
        forall|i: int|
            0 <= i < res@.len() ==> {
                &&& (#[trigger] res@[i]).id == 0
                &&& res@[i].music_id@ == music_id@
                &&& res@[i].start_ms == block_lines(srt_content@, sep)[i].0
                &&& res@[i].end_ms == block_lines(srt_content@, sep)[i].1
                &&& res@[i].text@ == block_lines(srt_content@, sep)[i].2
            },
{
    let content = str_chars(srt_content);
    let ls = split_lines(content.as_slice());
    let ghost lv = views(ls@);
    let mut r = Reader { out: Vec::new(), cue: Vec::new(), times: None };
    assert(out_view(r.out@) =~= seq![]);
    assert(views(r.cue@) =~= seq![]);
    assert(reader_view(r) == srt_run(lv.take(0), sep));
    let mut i: usize = 0;
    while i < ls.len()
        invariant
            i <= ls@.len(),
            lv == views(ls@),
            lv == lines(srt_content@),
            reader_view(r) == srt_run(lv.take(i as int), sep),
            reader_bounded(r),
        decreases ls.len() - i,
    {
        assert(lv.take(i + 1).drop_last() =~= lv.take(i as int));
        assert(lv.take(i + 1).last() == ls@[i as int]@);
        let line = trim_chars(ls[i].as_slice());
        match parse_timecode(line.as_slice(), sep) {
            Some((s, e)) => {
                let f = flush(r);
                r = Reader { out: f.out, cue: f.cue, times: Some((s, e)) };
            },
            None => {
                if line.len() == 0 {
                    r = flush(r);
                } else if r.times.is_some() {
                    let ghost before = views(r.cue@);
                    let ghost lv2 = line@;
                    r.cue.push(line);
                    assert(views(r.cue@) =~= before.push(lv2));
                }
            },
        }
        i = i + 1;
    }
    assert(lv.take(ls@.len() as int) =~= lv);
    let r = flush(r);
    let ghost outv = out_view(r.out@);
    let mut res: Vec<LyricsLine> = Vec::new();
    let mut k: usize = 0;
    while k < r.out.len()
        invariant
            k <= r.out@.len(),
            outv == out_view(r.out@),
            outv == block_lines(srt_content@, sep),
            res@.len() == k,
            forall|j: int|
                0 <= j < k ==> {
                    &&& (#[trigger] res@[j]).id == 0
                    &&& res@[j].music_id@ == music_id@
                    &&& res@[j].start_ms == outv[j].0
                    &&& res@[j].end_ms == outv[j].1
                    &&& res@[j].text@ == outv[j].2
                },
        decreases r.out.len() - k,
    {
        let text = string_from_chars(r.out[k].2.as_slice());
        res.push(
            LyricsLine {
                id: 0,
                music_id: String::from_str(music_id),
                start_ms: r.out[k].0,
                end_ms: r.out[k].1,
                text,
            },
        );
        k = k + 1;
    }
    res
}

/// Reads the lines of an SRT file for `music_id`.
///
/// A timecode line `start --> end` opens a block (closing the one before);
/// a blank line closes the open block; other lines are the open block's
/// text, and lines outside a block (sequence numbers) are skipped. A closed
/// block becomes a line when its text, with tags removed and lines joined
/// by spaces, is not empty. Lines are numbered 0 (not yet stored).
pub fn parse(srt_content: &str, music_id: &str) -> (res: Vec<LyricsLine>)
    ensures
        res@.len() == srt_lines(srt_content@).len(),
        forall|i: int|
            0 <= i < res@.len() ==> {
                &&& (#[trigger] res@[i]).id == 0
                &&& res@[i].music_id@ == music_id@
                &&& res@[i].start_ms == srt_lines(srt_content@)[i].0
                &&& res@[i].end_ms == srt_lines(srt_content@)[i].1
                &&& res@[i].text@ == srt_lines(srt_content@)[i].2
            },
{
    parse_blocks(srt_content, music_id, ',')
}

/// Reads the lines of a WebVTT file for `music_id`: the same blocks as SRT,
/// with `.` before the milliseconds; the `WEBVTT` header, cue identifiers
/// and notes lie outside blocks and are skipped, and cue settings after the
/// end time are ignored.
pub fn parse_vtt(vtt_content: &str, music_id: &str) -> (res: Vec<LyricsLine>)
    ensures
        res@.len() == vtt_lines(vtt_content@).len(),
        forall|i: int|
            0 <= i < res@.len() ==> {
                &&& (#[trigger] res@[i]).id == 0
                &&& res@[i].music_id@ == music_id@
                &&& res@[i].start_ms == vtt_lines(vtt_content@)[i].0
                &&& res@[i].end_ms == vtt_lines(vtt_content@)[i].1
                &&& res@[i].text@ == vtt_lines(vtt_content@)[i].2
            },
{
    parse_blocks(vtt_content, music_id, '.')
}

} // verus!
