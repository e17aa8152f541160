//! Writing synchronized lines as LRC or SRT text.
use vstd::prelude::*;
use crate::model::LyricsLine;
use crate::text::{concat_chars, decimal, join, join_chars, padded_decimal, string_from_chars, views, zero_pad};

verus! {

/// `ms` with negative values taken as zero.
pub open spec fn non_negative(ms: int) -> nat {
    if ms < 0 {
        0
    } else {
        ms as nat
    }
}

/// An LRC timestamp `MM:SS.cc`: the time rounded to the nearest hundredth of
/// a second (halves up), negative times as zero.
pub open spec fn lrc_time_text(ms: int) -> Seq<char> {
    let tc = (non_negative(ms) + 5) / 10;
    zero_pad(decimal(tc / 6000), 2) + seq![':'] + zero_pad(decimal((tc % 6000) / 100), 2)
        + seq!['.'] + zero_pad(decimal(tc % 100), 2)
}

/// An SRT timestamp `HH:MM:SS,mmm`, negative times as zero.
pub open spec fn srt_time_text(ms: int) -> Seq<char> {
    let t = non_negative(ms);
    zero_pad(decimal(t / 3600000), 2) + seq![':'] + zero_pad(decimal((t % 3600000) / 60000), 2)
        + seq![':'] + zero_pad(decimal((t % 60000) / 1000), 2) + seq![','] + zero_pad(
        decimal(t % 1000),
        3,
    )
}

/// The LRC line of one lyric line: `[MM:SS.cc]text` and a newline.
pub open spec fn lrc_entry(l: LyricsLine) -> Seq<char> {
    seq!['['] + lrc_time_text(l.start_ms as int) + seq![']'] + l.text@ + seq!['\n']
}

/// The LRC text of `lines`: their entries, in order.
pub open spec fn lrc_text(lines: Seq<LyricsLine>) -> Seq<char>
    decreases lines.len(),
{
    if lines.len() == 0 {
        seq![]
    } else {
        lrc_text(lines.drop_last()) + lrc_entry(lines.last())
    }
}

/// The SRT block of the `i`-th line: its number (from 1), its times, its
/// text.
pub open spec fn srt_block(i: int, l: LyricsLine) -> Seq<char> {
    decimal((i + 1) as nat) + seq!['\n'] + srt_time_text(l.start_ms as int) + seq![
        ' ',
        '-',
        '-',
        '>',
        ' ',
    ] + srt_time_text(l.end_ms as int) + seq!['\n'] + l.text@
}

/// The SRT text of `lines`: the blocks separated by a blank line, with a
/// blank line after the last; empty for no lines.
pub open spec fn srt_text(lines: Seq<LyricsLine>) -> Seq<char> {
    if lines.len() == 0 {
        seq![]
    } else {
        join(Seq::new(lines.len(), |i: int| srt_block(i, lines[i])), seq!['\n', '\n']) + seq![
            '\n',
            '\n',
        ]
    }
}

fn clamp_non_negative(ms: i64) -> (res: u64)
    ensures
        res as nat == non_negative(ms as int),
{
    if ms < 0 {
        0
    } else {
        ms as u64
    }
}

/// The LRC timestamp of `ms`.
pub fn format_lrc_time(ms: i64) -> (res: Vec<char>)
    ensures
        res@ == lrc_time_text(ms as int),
{
    let tc = (clamp_non_negative(ms) + 5) / 10;
    let a = padded_decimal(tc / 6000, 2);
    let b = padded_decimal((tc % 6000) / 100, 2);
    let c = padded_decimal(tc % 100, 2);
    let colon = vec![':'];
    let dot = vec!['.'];
    let r1 = concat_chars(a.as_slice(), colon.as_slice());
    let r2 = concat_chars(r1.as_slice(), b.as_slice());
    let r3 = concat_chars(r2.as_slice(), dot.as_slice());
    let r4 = concat_chars(r3.as_slice(), c.as_slice());
    assert(r4@ =~= lrc_time_text(ms as int));
    r4
}

/// The SRT timestamp of `ms`.
pub fn format_srt_time(ms: i64) -> (res: Vec<char>)
    ensures
        res@ == srt_time_text(ms as int),
{
    let t = clamp_non_negative(ms);
    let h = padded_decimal(t / 3600000, 2);
    let m = padded_decimal((t % 3600000) / 60000, 2);
    let s = padded_decimal((t % 60000) / 1000, 2);
    let f = padded_decimal(t % 1000, 3);
    let colon = vec![':'];
    let comma = vec![','];
    let r1 = concat_chars(h.as_slice(), colon.as_slice());
    let r2 = concat_chars(r1.as_slice(), m.as_slice());
    let r3 = concat_chars(r2.as_slice(), colon.as_slice());
    let r4 = concat_chars(r3.as_slice(), s.as_slice());
    let r5 = concat_chars(r4.as_slice(), comma.as_slice());
    let r6 = concat_chars(r5.as_slice(), f.as_slice());
    assert(r6@ =~= srt_time_text(ms as int));
    r6
}

/// Writes `lines` as LRC text: one `[MM:SS.cc]text` line each.
pub fn format_lrc(lines: &[LyricsLine]) -> (res: String)
    ensures
        res@ == lrc_text(lines@),
{
    let mut out: Vec<char> = Vec::new();
    let mut i: usize = 0;
    while i < lines.len()
        invariant
            i <= lines@.len(),
            out@ == lrc_text(lines@.take(i as int)),
        decreases lines.len() - i,
    {
        let open = vec!['['];
        let close = vec![']'];
        let nl = vec!['\n'];
        let time = format_lrc_time(lines[i].start_ms);
        let text = crate::text::str_chars(lines[i].text.as_str());
        let e1 = concat_chars(open.as_slice(), time.as_slice());
        let e2 = concat_chars(e1.as_slice(), close.as_slice());
        let e3 = concat_chars(e2.as_slice(), text.as_slice());
        let entry = concat_chars(e3.as_slice(), nl.as_slice());
        assert(entry@ =~= lrc_entry(lines@[i as int]));
        out = concat_chars(out.as_slice(), entry.as_slice());
        assert(lines@.take(i + 1).drop_last() =~= lines@.take(i as int));
        i = i + 1;
    }
    assert(lines@.take(lines@.len() as int) =~= lines@);
    string_from_chars(out.as_slice())
}

/// Writes `lines` as SRT text: numbered blocks with `start --> end` and the
/// text, separated by blank lines.
pub fn format_srt(lines: &[LyricsLine]) -> (res: String)
    ensures
        res@ == srt_text(lines@),
{
    if lines.len() == 0 {
        let empty: Vec<char> = Vec::new();
        return string_from_chars(empty.as_slice());
    }
    let ghost want = Seq::new(lines@.len(), |i: int| srt_block(i, lines@[i]));
    let mut blocks: Vec<Vec<char>> = Vec::new();
    let mut i: usize = 0;
    while i < lines.len()
        invariant
            i <= lines@.len(),
            want == Seq::new(lines@.len(), |k: int| srt_block(k, lines@[k])),
            views(blocks@) == want.take(i as int),
        decreases lines.len() - i,
    {
        let nl = vec!['\n'];
        let arrow = vec![' ', '-', '-', '>', ' '];
        let number = crate::text::to_decimal(i as u128 + 1);
        let start = format_srt_time(lines[i].start_ms);
        let end = format_srt_time(lines[i].end_ms);
        let text = crate::text::str_chars(lines[i].text.as_str());
        let b1 = concat_chars(number.as_slice(), nl.as_slice());
        let b2 = concat_chars(b1.as_slice(), start.as_slice());
        let b3 = concat_chars(b2.as_slice(), arrow.as_slice());
        let b4 = concat_chars(b3.as_slice(), end.as_slice());
        let b5 = concat_chars(b4.as_slice(), nl.as_slice());
        let block = concat_chars(b5.as_slice(), text.as_slice());
        assert(block@ =~= srt_block(i as int, lines@[i as int]));
        let ghost before = views(blocks@);
        let ghost bv = block@;
        blocks.push(block);
        assert(views(blocks@) =~= before.push(bv));
        assert(views(blocks@) =~= want.take(i + 1));
        i = i + 1;
    }
    assert(want.take(lines@.len() as int) =~= want);
    let sep = vec!['\n', '\n'];
    let body = join_chars(&blocks, sep.as_slice());
    let out = concat_chars(body.as_slice(), sep.as_slice());
    assert(out@ =~= srt_text(lines@));
    string_from_chars(out.as_slice())
}

} // verus!
