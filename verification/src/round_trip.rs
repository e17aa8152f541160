//! Reading back what was written: SRT text written by `format_srt` reads
//! back, through the SRT reader, as the lines it was written from; LRC
//! text written by `format_lrc` reads back with the same texts and the
//! starts rounded to hundredths of a second.
use vstd::prelude::*;
use crate::export::{lrc_entry, lrc_text, lrc_time_text, srt_block, srt_text, srt_time_text, non_negative};
use crate::lrc::{lrc_cues, lrc_line, lrc_timecode};
use crate::model::LyricsLine;
use crate::srt::{
    block_text, field_max, srt_flush, srt_lines, srt_run, srt_step, srt_timecode, srt_timestamp,
    strip_tags_spec, tag_scan, SrtState,
};
use crate::text::{
    all_digits, decimal, digit_char, digit_value, digits_value, find_sub, first_nonempty, is_digit, is_ws,
    join, lemma_find_sub_absent, lemma_split_append, lemma_split_piece, lemma_find_sub_first, lemma_split_clean, lines, occurs_at, one_of, parse_unsigned,
    split_once, split_when, strip_cr, trim, trim_end, trim_start, whitespace_pred, zero_pad,
};

verus! {

/// A text that neither starts nor ends with whitespace is its own trim.
proof fn lemma_trim_plain(s: Seq<char>)
    requires
        s.len() > 0,
        !is_ws(s[0]),
        !is_ws(s.last()),
    ensures
        trim(s) == s,
{
}

/// A decimal representation is made of digits and spells its number.
proof fn lemma_decimal_digits(n: nat)
    ensures
        decimal(n).len() > 0,
        all_digits(decimal(n)),
        digits_value(decimal(n)) == n,
    decreases n,
{
    if n < 10 {
        assert(digit_value(digit_char(n)) == n);
        assert(decimal(n).drop_last() =~= Seq::<char>::empty());
        assert(digits_value(Seq::<char>::empty()) == 0);
        assert(digits_value(decimal(n)) == digits_value(decimal(n).drop_last()) * 10 + digit_value(
            decimal(n).last(),
        ));
    } else {
        lemma_decimal_digits(n / 10);
        let d = decimal(n / 10);
        assert(decimal(n) == d.push(digit_char(n % 10)));
        assert(digit_value(digit_char(n % 10)) == n % 10);
        assert((n / 10) * 10 + n % 10 == n);
        assert(decimal(n).drop_last() =~= d);
        assert(digits_value(decimal(n)) == digits_value(d) * 10 + digit_value(digit_char(n % 10)));
        assert(decimal(n).drop_last() =~= d);
        assert forall|i: int| 0 <= i < decimal(n).len() implies is_digit(#[trigger] decimal(n)[i]) by {
            if i < d.len() {
                assert(decimal(n)[i] == d[i]);
            }
        }
    }
}

/// Zeros in front of digits change neither that they are digits nor the
/// number they spell.
proof fn lemma_zero_pad_digits(d: Seq<char>, width: nat)
    requires
        all_digits(d),
    ensures
        all_digits(zero_pad(d, width)),
        digits_value(zero_pad(d, width)) == digits_value(d),
        zero_pad(d, width).len() >= d.len(),
{
    if d.len() < width {
        let z = Seq::new((width - d.len()) as nat, |i: int| '0');
        lemma_leading_zeros(z, d);
        assert forall|i: int| 0 <= i < (z + d).len() implies is_digit(#[trigger] (z + d)[i]) by {
            if i >= z.len() {
                assert((z + d)[i] == d[i - z.len()]);
            }
        }
    }
}

proof fn lemma_leading_zeros(z: Seq<char>, d: Seq<char>)
    requires
        forall|i: int| 0 <= i < z.len() ==> z[i] == '0',
    ensures
        digits_value(z + d) == digits_value(d),
    decreases d.len(),
{
    if d.len() == 0 {
        assert(z + d =~= z);
        lemma_zeros_value(z);
    } else {
        lemma_leading_zeros(z, d.drop_last());
        assert((z + d).drop_last() =~= z + d.drop_last());
        assert((z + d).last() == d.last());
    }
}

proof fn lemma_zeros_value(z: Seq<char>)
    requires
        forall|i: int| 0 <= i < z.len() ==> z[i] == '0',
    ensures
        digits_value(z) == 0,
    decreases z.len(),
{
    if z.len() > 0 {
        lemma_zeros_value(z.drop_last());
    }
}

/// A zero-padded decimal number reads back as that number.
proof fn lemma_parse_padded(n: nat, width: nat, max: nat)
    requires
        n <= max,
    ensures
        parse_unsigned(zero_pad(decimal(n), width), max) == Some(n),
        zero_pad(decimal(n), width).len() > 0,
        all_digits(zero_pad(decimal(n), width)),
{
    lemma_decimal_digits(n);
    lemma_zero_pad_digits(decimal(n), width);
    let p = zero_pad(decimal(n), width);
    assert(is_digit(p[0]));
}

/// The largest time (exclusive) whose hours field the SRT reader accepts.
pub open spec fn srt_time_limit() -> int {
    (u32::MAX as int + 1) * 3600000
}

/// A time is whole hours, minutes, seconds and milliseconds.
proof fn lemma_time_fields(t: int)
    requires
        0 <= t,
    ensures
        t == (t / 3600000) * 3600000 + ((t % 3600000) / 60000) * 60000 + ((t % 60000) / 1000) * 1000
            + t % 1000,
        (t % 3600000) / 60000 < 60,
        (t % 60000) / 1000 < 60,
{
    vstd::arithmetic::div_mod::lemma_fundamental_div_mod(t, 3600000);
    vstd::arithmetic::div_mod::lemma_fundamental_div_mod(t % 3600000, 60000);
    vstd::arithmetic::div_mod::lemma_fundamental_div_mod(t % 60000, 1000);
    vstd::arithmetic::div_mod::lemma_mod_mod(t, 60000, 60);
    vstd::arithmetic::div_mod::lemma_mod_mod(t, 1000, 60);
    assert(60000 * 60 == 3600000);
    assert(1000 * 60 == 60000);
}

/// A character that is a decimal digit is neither a separator of the
/// timestamp nor whitespace.
proof fn lemma_digits_plain(d: Seq<char>)
    requires
        all_digits(d),
    ensures
        forall|k: int| 0 <= k < d.len() ==> !one_of(seq![':'])(#[trigger] d[k]),
        forall|k: int| 0 <= k < d.len() ==> !is_ws(#[trigger] d[k]),
        forall|k: int| 0 <= k < d.len() ==> d[k] != ',' && d[k] != '-' && d[k] != '.' && d[k]
            != '>',
{
    assert forall|k: int| 0 <= k < d.len() implies !one_of(seq![':'])(#[trigger] d[k]) by {
        assert(is_digit(d[k]));
        if seq![':'].contains(d[k]) {
            let j = choose|j: int| 0 <= j < 1 && seq![':'][j] == d[k];
            assert(seq![':'][j] == ':');
        }
    }
    assert forall|k: int| 0 <= k < d.len() implies !is_ws(#[trigger] d[k]) by {
        assert(is_digit(d[k]));
    }
    assert forall|k: int| 0 <= k < d.len() implies d[k] != ',' && d[k] != '-' && d[k] != '.'
        && d[k] != '>' by {
        assert(is_digit(d[k]));
    }
}

/// An SRT timestamp reads back as the time it was written from.
proof fn lemma_srt_timestamp_round_trip(t: int)
    requires
        0 <= t < srt_time_limit(),
    ensures
        srt_timestamp(srt_time_text(t), ',') == Some(t),
{
    let tn = non_negative(t);
    assert(tn == t);
    let h = tn / 3600000;
    let m = (tn % 3600000) / 60000;
    let sec = (tn % 60000) / 1000;
    let ms = tn % 1000;
    lemma_time_fields(t);
    assert(h <= u32::MAX) by {
        assert(t < (u32::MAX as int + 1) * 3600000);
    }
    let ph = zero_pad(decimal(h), 2);
    let pm = zero_pad(decimal(m), 2);
    let ps = zero_pad(decimal(sec), 2);
    let pms = zero_pad(decimal(ms), 3);
    lemma_parse_padded(h, 2, field_max());
    lemma_parse_padded(m, 2, field_max());
    lemma_parse_padded(sec, 2, field_max());
    lemma_parse_padded(ms, 3, field_max());
    lemma_digits_plain(ph);
    lemma_digits_plain(pm);
    lemma_digits_plain(ps);
    lemma_digits_plain(pms);
    let rest = pm + seq![':'] + ps;
    let a = ph + seq![':'] + rest;
    let ts = srt_time_text(t);
    assert(ts =~= a + seq![','] + pms);
    // The first comma ends the seconds.
    assert forall|k: int| 0 <= k < a.len() implies a[k] != ',' by {
        if k < ph.len() {
            assert(a[k] == ph[k]);
        } else if k == ph.len() {
        } else if k < ph.len() + 1 + pm.len() {
            assert(a[k] == pm[k - ph.len() - 1]);
        } else if k == ph.len() + 1 + pm.len() {
        } else {
            assert(a[k] == ps[k - ph.len() - 2 - pm.len()]);
        }
    }
    assert forall|k: int| 0 <= k < a.len() implies !occurs_at(ts, seq![','], k) by {
        if occurs_at(ts, seq![','], k) {
            assert(ts.subrange(k, k + 1)[0] == ts[k]);
            assert(ts[k] == a[k]);
        }
    }
    assert(ts.subrange(a.len() as int, a.len() + 1int) =~= seq![',']);
    lemma_find_sub_first(ts, seq![','], a.len() as int);
    assert(split_once(ts, seq![',']) == Some((ts.take(a.len() as int), ts.skip(a.len() + 1int))));
    assert(ts.take(a.len() as int) =~= a);
    assert(ts.skip(a.len() + 1int) =~= pms);
    // The fields before the comma.
    assert(seq![':'][0] == ':');
    assert(one_of(seq![':'])(':'));
    lemma_split_piece(pm, ':', ps, one_of(seq![':']));
    lemma_split_clean(ps, one_of(seq![':']));
    lemma_split_piece(ph, ':', rest, one_of(seq![':']));
    let c = split_when(a, one_of(seq![':']));
    assert(c =~= seq![ph, pm, ps]);
}

/// What a written SRT timestamp is made of: digits, `:` and `,`, starting
/// and ending with a digit.
proof fn lemma_time_text_shape(t: int)
    ensures
        srt_time_text(t).len() > 0,
        is_digit(srt_time_text(t)[0]),
        is_digit(srt_time_text(t).last()),
        forall|k: int|
            0 <= k < srt_time_text(t).len() ==> !is_ws(#[trigger] srt_time_text(t)[k])
                && srt_time_text(t)[k] != '-' && srt_time_text(t)[k] != '>',
{
    let tn = non_negative(t);
    let ph = zero_pad(decimal(tn / 3600000), 2);
    let pm = zero_pad(decimal((tn % 3600000) / 60000), 2);
    let ps = zero_pad(decimal((tn % 60000) / 1000), 2);
    let pms = zero_pad(decimal(tn % 1000), 3);
    lemma_parse_padded(tn / 3600000, 2, tn / 3600000);
    lemma_parse_padded((tn % 3600000) / 60000, 2, (tn % 3600000) / 60000);
    lemma_parse_padded((tn % 60000) / 1000, 2, (tn % 60000) / 1000);
    lemma_parse_padded(tn % 1000, 3, tn % 1000);
    lemma_digits_plain(ph);
    lemma_digits_plain(pm);
    lemma_digits_plain(ps);
    lemma_digits_plain(pms);
    let ts = srt_time_text(t);
    assert(ts =~= ph + seq![':'] + pm + seq![':'] + ps + seq![','] + pms);
    assert(ts[0] == ph[0]);
    assert(ts.last() == pms.last());
    assert(is_digit(ph[0]));
    assert(is_digit(pms[pms.len() - 1]));
    let o1 = ph.len() as int;
    let o2 = o1 + 1 + pm.len();
    let o3 = o2 + 1 + ps.len();
    assert forall|k: int| 0 <= k < ts.len() implies !is_ws(#[trigger] ts[k]) && ts[k] != '-'
        && ts[k] != '>' by {
        if k < o1 {
            assert(ts[k] == ph[k]);
        } else if k == o1 {
            assert(ts[k] == ':');
        } else if k < o2 {
            assert(ts[k] == pm[k - o1 - 1]);
        } else if k == o2 {
            assert(ts[k] == ':');
        } else if k < o3 {
            assert(ts[k] == ps[k - o2 - 1]);
        } else if k == o3 {
            assert(ts[k] == ',');
        } else {
            assert(ts[k] == pms[k - o3 - 1]);
        }
    }
}

/// The timecode line of a written block reads back as its start and end.
proof fn lemma_srt_timecode_round_trip(s: int, e: int)
    requires
        0 <= s < srt_time_limit(),
        0 <= e < srt_time_limit(),
    ensures
        trim(srt_time_text(s) + seq![' ', '-', '-', '>', ' '] + srt_time_text(e))
            == srt_time_text(s) + seq![' ', '-', '-', '>', ' '] + srt_time_text(e),
        srt_timecode(
            srt_time_text(s) + seq![' ', '-', '-', '>', ' '] + srt_time_text(e),
            ',',
        ) == Some((s, e)),
{
    let ts = srt_time_text(s);
    let te = srt_time_text(e);
    let arrow = seq!['-', '-', '>'];
    let line = ts + seq![' ', '-', '-', '>', ' '] + te;
    lemma_time_text_shape(s);
    lemma_time_text_shape(e);
    lemma_srt_timestamp_round_trip(s);
    lemma_srt_timestamp_round_trip(e);
    // The line is its own trim.
    assert(line[0] == ts[0]);
    assert(line.last() == te.last());
    lemma_trim_plain(line);
    // The arrow first occurs after the start time and a space.
    let n = ts.len() as int;
    assert forall|k: int| 0 <= k < n + 1 implies !occurs_at(line, arrow, k) by {
        if occurs_at(line, arrow, k) {
            assert(line.subrange(k, k + 3)[0] == line[k]);
            if k < n {
                assert(line[k] == ts[k]);
            } else {
                assert(line[k] == ' ');
            }
        }
    }
    assert(line.subrange(n + 1, n + 4) =~= arrow);
    lemma_find_sub_first(line, arrow, n + 1);
    let l = line.take(n + 1);
    let r = line.skip(n + 4);
    assert(split_once(line, arrow) == Some((l, r)));
    assert(l =~= ts + seq![' ']);
    assert(r =~= Seq::<char>::empty() + seq![' '] + te);
    // The start: the text before the arrow, trimmed.
    assert(trim_start(l) == l);
    assert(l.drop_last() =~= ts);
    assert(trim_end(l) == trim_end(ts));
    assert(trim_end(ts) == ts);
    // The end: the first word after the arrow.
    assert(whitespace_pred()(' '));
    lemma_split_piece(Seq::<char>::empty(), ' ', te, whitespace_pred());
    lemma_split_clean(te, whitespace_pred());
    let words = split_when(r, whitespace_pred());
    assert(words =~= seq![Seq::<char>::empty(), te]);
    assert(words.drop_first() =~= seq![te]);
    assert(first_nonempty(seq![te]) == Some(te));
    assert(first_nonempty(words) == Some(te));
}

/// After a text that ends a line, the lines of what follows are simply
/// added.
proof fn lemma_lines_append(x: Seq<char>, y: Seq<char>)
    requires
        x.len() == 0 || x.last() == '\n',
    ensures
        lines(x + y) == lines(x) + lines(y),
{
    let nl = one_of(seq!['\n']);
    assert(seq!['\n'][0] == '\n');
    assert(nl('\n'));
    lemma_split_append(x, y, nl);
    crate::text::lemma_split_when_nonempty(x, nl);
    crate::text::lemma_split_when_nonempty(y, nl);
    let px = split_when(x, nl);
    let py = split_when(y, nl);
    if x.len() == 0 {
        assert(px =~= seq![Seq::<char>::empty()]);
    } else {
        assert(px == split_when(x.drop_last(), nl).push(Seq::<char>::empty()));
    }
    assert(px.last() =~= Seq::<char>::empty());
    assert(px.last() + py[0] =~= py[0]);
    let p = split_when(x + y, nl);
    assert(p =~= px.drop_last() + py);
    assert(lines(x) =~= px.drop_last().map_values(|l: Seq<char>| strip_cr(l)));
    assert(p.drop_last() =~= px.drop_last() + py.drop_last());
    assert(p.last() == py.last());
    assert(p.drop_last().map_values(|l: Seq<char>| strip_cr(l)) =~= px.drop_last().map_values(
        |l: Seq<char>| strip_cr(l),
    ) + py.drop_last().map_values(|l: Seq<char>| strip_cr(l)));
    if py.last().len() == 0 {
        assert(lines(x + y) =~= lines(x) + lines(y));
    } else {
        assert(lines(x + y) =~= lines(x) + lines(y));
    }
}

/// A text that holds no line break, and does not end with a carriage
/// return, is one line.
pub open spec fn one_line(s: Seq<char>) -> bool {
    &&& s.len() > 0
    &&& s.last() != '\r'
    &&& forall|k: int| 0 <= k < s.len() ==> #[trigger] s[k] != '\n'
}

/// The lines of a written block and the blank line after it.
proof fn lemma_block_lines(a: Seq<char>, b: Seq<char>, c: Seq<char>)
    requires
        one_line(a),
        one_line(b),
        one_line(c),
    ensures
        lines(a + seq!['\n'] + b + seq!['\n'] + c + seq!['\n', '\n']) == seq![
            a,
            b,
            c,
            Seq::<char>::empty(),
        ],
{
    let nl = one_of(seq!['\n']);
    assert(seq!['\n'][0] == '\n');
    assert(nl('\n'));
    assert forall|k: int| 0 <= k < a.len() implies !nl(#[trigger] a[k]) by {
        if seq!['\n'].contains(a[k]) {
            let j = choose|j: int| 0 <= j < 1 && seq!['\n'][j] == a[k];
        }
    }
    assert forall|k: int| 0 <= k < b.len() implies !nl(#[trigger] b[k]) by {
        if seq!['\n'].contains(b[k]) {
            let j = choose|j: int| 0 <= j < 1 && seq!['\n'][j] == b[k];
        }
    }
    assert forall|k: int| 0 <= k < c.len() implies !nl(#[trigger] c[k]) by {
        if seq!['\n'].contains(c[k]) {
            let j = choose|j: int| 0 <= j < 1 && seq!['\n'][j] == c[k];
        }
    }
    let e = Seq::<char>::empty();
    let tail = e + seq!['\n'] + e;
    let t3 = c + seq!['\n'] + tail;
    let t2 = b + seq!['\n'] + t3;
    let whole = a + seq!['\n'] + t2;
    assert(whole =~= a + seq!['\n'] + b + seq!['\n'] + c + seq!['\n', '\n']);
    lemma_split_piece(e, '\n', e, nl);
    assert(split_when(e, nl) =~= seq![e]);
    assert(split_when(tail, nl) =~= seq![e, e]);
    lemma_split_piece(c, '\n', tail, nl);
    lemma_split_piece(b, '\n', t3, nl);
    lemma_split_piece(a, '\n', t2, nl);
    let p = split_when(whole, nl);
    assert(p =~= seq![a, b, c, e, e]);
    assert(p.drop_last() =~= seq![a, b, c, e]);
    assert(strip_cr(a) == a);
    assert(strip_cr(b) == b);
    assert(strip_cr(c) == c);
    assert(strip_cr(e) == e);
    assert(p.drop_last().map_values(|l: Seq<char>| strip_cr(l)) =~= seq![a, b, c, e]);
}

/// One more line written as SRT: its block and a blank line after the
/// text of the lines before.
proof fn lemma_srt_text_push(ls: Seq<LyricsLine>, l: LyricsLine)
    ensures
        srt_text(ls.push(l)) == srt_text(ls) + srt_block(ls.len() as int, l) + seq!['\n', '\n'],
        srt_text(ls).len() == 0 || srt_text(ls).last() == '\n',
{
    let all = ls.push(l);
    let blocks = Seq::new(all.len(), |i: int| srt_block(i, all[i]));
    let sep = seq!['\n', '\n'];
    if ls.len() == 0 {
        assert(blocks =~= seq![srt_block(0, l)]);
        assert(srt_text(ls) =~= Seq::<char>::empty());
        assert(srt_text(all) =~= srt_text(ls) + srt_block(ls.len() as int, l) + sep);
    } else {
        let before = Seq::new(ls.len(), |i: int| srt_block(i, ls[i]));
        assert(blocks.drop_last() =~= before);
        assert(blocks.last() == srt_block(ls.len() as int, l));
        assert(join(blocks, sep) == join(before, sep) + sep + srt_block(ls.len() as int, l));
        assert(srt_text(all) =~= srt_text(ls) + srt_block(ls.len() as int, l) + sep);
    }
}

/// A text without `<` or `>` holds no tag.
proof fn lemma_tag_free(s: Seq<char>)
    requires
        forall|k: int| 0 <= k < s.len() ==> #[trigger] s[k] != '<' && s[k] != '>',
    ensures
        tag_scan(s) == (s, false),
    decreases s.len(),
{
    if s.len() > 0 {
        lemma_tag_free(s.drop_last());
        assert(s.drop_last().push(s.last()) =~= s);
    } else {
        assert(s =~= Seq::<char>::empty());
    }
}

/// A line that SRT writes and reads back unchanged: its text is not
/// empty, has no whitespace around it, and holds no line break and no tag
/// bracket (`<`, `>`); its times lie between zero and the largest time
/// whose hours the reader accepts.
pub open spec fn srt_safe(l: LyricsLine) -> bool {
    &&& l.text@.len() > 0
    &&& !is_ws(l.text@[0])
    &&& !is_ws(l.text@.last())
    &&& forall|k: int|
        0 <= k < l.text@.len() ==> #[trigger] l.text@[k] != '\n' && l.text@[k] != '<'
            && l.text@[k] != '>'
    &&& 0 <= l.start_ms < srt_time_limit()
    &&& 0 <= l.end_ms < srt_time_limit()
}

/// The (start, end, text) of each line.
pub open spec fn srt_triples(ls: Seq<LyricsLine>) -> Seq<(int, int, Seq<char>)> {
    ls.map_values(|l: LyricsLine| (l.start_ms as int, l.end_ms as int, l.text@))
}

/// Reading the four lines of one written block: the number is skipped,
/// the timecode opens the block, the text fills it and the blank line
/// closes it into a line.
proof fn lemma_block_steps(st: SrtState, k: nat, l: LyricsLine)
    requires
        srt_safe(l),
        st.cue.len() == 0,
        st.times is None,
    ensures
        srt_step(
            srt_step(
                srt_step(
                    srt_step(st, decimal(k), ','),
                    srt_time_text(l.start_ms as int) + seq![' ', '-', '-', '>', ' ']
                        + srt_time_text(l.end_ms as int),
                    ',',
                ),
                l.text@,
                ',',
            ),
            Seq::<char>::empty(),
            ',',
        ) == (SrtState {
            out: st.out.push((l.start_ms as int, l.end_ms as int, l.text@)),
            cue: seq![],
            times: None,
        }),
{
    let arrow = seq!['-', '-', '>'];
    // The number.
    let num = decimal(k);
    lemma_decimal_digits(k);
    lemma_digits_plain(num);
    assert(is_digit(num[0]));
    assert(is_digit(num[num.len() - 1]));
    lemma_trim_plain(num);
    lemma_find_sub_absent(num, arrow, 0);
    assert(srt_timecode(num, ',') is None);
    let s1 = srt_step(st, num, ',');
    assert(s1 == st);
    // The timecode.
    let tc = srt_time_text(l.start_ms as int) + seq![' ', '-', '-', '>', ' '] + srt_time_text(
        l.end_ms as int,
    );
    lemma_srt_timecode_round_trip(l.start_ms as int, l.end_ms as int);
    let s2 = srt_step(s1, tc, ',');
    assert(srt_flush(s1) == SrtState { out: st.out, cue: seq![], times: None });
    assert(s2 == SrtState { out: st.out, cue: seq![], times: Some((l.start_ms as int, l.end_ms as int)) });
    // The text.
    let text = l.text@;
    lemma_trim_plain(text);
    lemma_find_sub_absent(text, arrow, 2);
    assert(srt_timecode(text, ',') is None);
    let s3 = srt_step(s2, text, ',');
    assert(s3 == SrtState { out: st.out, cue: seq![text], times: Some((l.start_ms as int, l.end_ms as int)) });
    // The blank line.
    let e = Seq::<char>::empty();
    assert(trim(e) =~= e);
    assert(find_sub(e, arrow) is None);
    assert(srt_timecode(e, ',') is None);
    lemma_tag_free(text);
    assert(strip_tags_spec(text) == text);
    assert(seq![text].map_values(|x: Seq<char>| strip_tags_spec(x)) =~= seq![text]);
    assert(join(seq![text], seq![' ']) == text);
    assert(block_text(seq![text]) == text);
}

/// The timecode line written for `l`.
pub open spec fn timecode_text(l: LyricsLine) -> Seq<char> {
    srt_time_text(l.start_ms as int) + seq![' ', '-', '-', '>', ' '] + srt_time_text(
        l.end_ms as int,
    )
}

/// A written number is one line.
proof fn lemma_number_one_line(k: nat)
    ensures
        one_line(decimal(k)),
{
    let num = decimal(k);
    lemma_decimal_digits(k);
    lemma_digits_plain(num);
    assert(is_digit(num[num.len() - 1]));
    assert forall|j: int| 0 <= j < num.len() implies #[trigger] num[j] != '\n' by {
        assert(is_digit(num[j]));
    }
}

/// A written timecode is one line.
proof fn lemma_timecode_one_line(l: LyricsLine)
    ensures
        one_line(timecode_text(l)),
{
    let tc = timecode_text(l);
    let ts = srt_time_text(l.start_ms as int);
    let te = srt_time_text(l.end_ms as int);
    lemma_time_text_shape(l.end_ms as int);
    lemma_time_text_shape(l.start_ms as int);
    assert(tc.last() == te.last());
    assert(is_digit(te.last()));
    assert forall|j: int| 0 <= j < tc.len() implies #[trigger] tc[j] != '\n' by {
        let n1 = ts.len() as int;
        if j < n1 {
            assert(tc[j] == ts[j]);
        } else if j < n1 + 5 {
        } else {
            assert(tc[j] == te[j - n1 - 5]);
        }
    }
}

/// The lines of SRT text with one more line written: those before, then
/// the new block's number, timecode and text, and a blank line.
proof fn lemma_written_lines(init: Seq<LyricsLine>, l: LyricsLine)
    requires
        srt_safe(l),
    ensures
        lines(srt_text(init.push(l))) == lines(srt_text(init)) + seq![
            decimal((init.len() + 1) as nat),
            timecode_text(l),
            l.text@,
            Seq::<char>::empty(),
        ],
{
    lemma_srt_text_push(init, l);
    let before = srt_text(init);
    let num = decimal((init.len() + 1) as nat);
    let tc = timecode_text(l);
    let text = l.text@;
    assert(srt_block(init.len() as int, l) =~= num + seq!['\n'] + tc + seq!['\n'] + text);
    lemma_lines_append(before, srt_block(init.len() as int, l) + seq!['\n', '\n']);
    lemma_number_one_line((init.len() + 1) as nat);
    lemma_timecode_one_line(l);
    assert(one_line(text));
    lemma_block_lines(num, tc, text);
    let y = srt_block(init.len() as int, l) + seq!['\n', '\n'];
    assert(y =~= num + seq!['\n'] + tc + seq!['\n'] + text + seq!['\n', '\n']);
    assert(srt_text(init.push(l)) == before + y);
}

/// Reading four more lines is four more steps.
proof fn lemma_run_four(
    ls: Seq<Seq<char>>,
    a: Seq<char>,
    b: Seq<char>,
    c: Seq<char>,
    d: Seq<char>,
    sep: char,
)
    ensures
        srt_run(ls + seq![a, b, c, d], sep) == srt_step(
            srt_step(srt_step(srt_step(srt_run(ls, sep), a, sep), b, sep), c, sep),
            d,
            sep,
        ),
{
    let l1 = ls + seq![a];
    let l2 = ls + seq![a, b];
    let l3 = ls + seq![a, b, c];
    let l4 = ls + seq![a, b, c, d];
    assert(l4.drop_last() =~= l3);
    assert(l4.last() == d);
    assert(srt_run(l4, sep) == srt_step(srt_run(l3, sep), d, sep));
    assert(l3.drop_last() =~= l2);
    assert(l3.last() == c);
    assert(srt_run(l3, sep) == srt_step(srt_run(l2, sep), c, sep));
    assert(l2.drop_last() =~= l1);
    assert(l2.last() == b);
    assert(srt_run(l2, sep) == srt_step(srt_run(l1, sep), b, sep));
    assert(l1.drop_last() =~= ls);
    assert(l1.last() == a);
    assert(srt_run(l1, sep) == srt_step(srt_run(ls, sep), a, sep));
}

/// Reading the lines of written SRT text: every block becomes its line,
/// and no block is left open.
proof fn lemma_srt_run_written(ls: Seq<LyricsLine>)
    requires
        forall|i: int| 0 <= i < ls.len() ==> srt_safe(#[trigger] ls[i]),
    ensures
        srt_run(lines(srt_text(ls)), ',') == (SrtState {
            out: srt_triples(ls),
            cue: seq![],
            times: None,
        }),
    decreases ls.len(),
{
    if ls.len() == 0 {
        assert(srt_text(ls) =~= Seq::<char>::empty());
        let p = split_when(Seq::<char>::empty(), one_of(seq!['\n']));
        assert(p =~= seq![Seq::<char>::empty()]);
        assert(lines(srt_text(ls)) =~= Seq::<Seq<char>>::empty());
        assert(srt_triples(ls) =~= Seq::<(int, int, Seq<char>)>::empty());
    } else {
        let init = ls.drop_last();
        let l = ls.last();
        assert(init.push(l) =~= ls);
        assert forall|i: int| 0 <= i < init.len() implies srt_safe(#[trigger] init[i]) by {
            assert(init[i] == ls[i]);
        }
        lemma_srt_run_written(init);
        let k = (init.len() + 1) as nat;
        lemma_written_lines(init, l);
        lemma_run_four(
            lines(srt_text(init)),
            decimal(k),
            timecode_text(l),
            l.text@,
            Seq::<char>::empty(),
            ',',
        );
        lemma_block_steps(srt_run(lines(srt_text(init)), ','), k, l);
        assert(srt_triples(ls) =~= srt_triples(init).push(
            (l.start_ms as int, l.end_ms as int, l.text@),
        ));
    }
}

/// SRT text written from lines reads back as those lines: the same
/// starts, ends and texts, in order. This holds of lines whose texts are
/// single lines without surrounding whitespace or tag brackets and whose
/// times are not negative and lie within what the reader accepts (see
/// `srt_safe`); other texts are changed by reading (tags are removed,
/// whitespace is trimmed) and negative times are written as zero.
pub proof fn lemma_srt_round_trip(ls: Seq<LyricsLine>)
    requires
        forall|i: int| 0 <= i < ls.len() ==> srt_safe(#[trigger] ls[i]),
    ensures
        srt_lines(srt_text(ls)) == srt_triples(ls),
{
    lemma_srt_run_written(ls);
}

/// The largest start (exclusive) whose minutes the LRC reader accepts once
/// written.
pub open spec fn lrc_time_limit() -> int {
    (u32::MAX as int + 1) * 60000 - 5
}

/// The start an LRC timestamp keeps: rounded to the nearest hundredth of a
/// second (halves up), negative times as zero.
pub open spec fn lrc_start(ms: int) -> int {
    ((non_negative(ms) + 5) / 10) as int * 10
}

/// The fields of an LRC timestamp: minutes, seconds and hundredths.
proof fn lemma_lrc_fields(ms: int)
    requires
        ms < lrc_time_limit(),
    ensures
        ({
            let tc = (non_negative(ms) + 5) / 10;
            &&& tc / 6000 <= u32::MAX
            &&& (tc % 6000) / 100 < 60
            &&& tc % 100 < 100
            &&& (tc / 6000) * 60000 + ((tc % 6000) / 100) * 1000 + (tc % 100) * 10 == lrc_start(ms)
        }),
{
    let tc = (non_negative(ms) + 5) / 10;
    vstd::arithmetic::div_mod::lemma_fundamental_div_mod(tc as int, 6000);
    vstd::arithmetic::div_mod::lemma_fundamental_div_mod((tc % 6000) as int, 100);
}

/// What a written LRC timestamp is made of: digits, `:` and `.`.
proof fn lemma_lrc_time_text_shape(ms: int)
    ensures
        forall|k: int| 0 <= k < lrc_time_text(ms).len() ==> #[trigger] lrc_time_text(ms)[k] != ']'
            && lrc_time_text(ms)[k] != '\n',
{
    let tc = (non_negative(ms) + 5) / 10;
    let pm = zero_pad(decimal(tc / 6000), 2);
    let ps = zero_pad(decimal((tc % 6000) / 100), 2);
    let pc = zero_pad(decimal(tc % 100), 2);
    lemma_parse_padded(tc / 6000, 2, tc / 6000);
    lemma_parse_padded((tc % 6000) / 100, 2, (tc % 6000) / 100);
    lemma_parse_padded(tc % 100, 2, tc % 100);
    let t = lrc_time_text(ms);
    assert(t =~= pm + seq![':'] + ps + seq!['.'] + pc);
    assert forall|k: int| 0 <= k < t.len() implies #[trigger] t[k] != ']' && t[k] != '\n' by {
        if k < pm.len() {
            assert(t[k] == pm[k]);
            assert(is_digit(pm[k]));
        } else if k == pm.len() {
        } else if k < pm.len() + 1 + ps.len() {
            assert(t[k] == ps[k - pm.len() - 1]);
            assert(is_digit(ps[k - pm.len() - 1]));
        } else if k == pm.len() + 1 + ps.len() {
        } else {
            assert(t[k] == pc[k - pm.len() - 2 - ps.len()]);
            assert(is_digit(pc[k - pm.len() - 2 - ps.len()]));
        }
    }
}

/// An LRC timestamp reads back as the start it keeps.
#[verifier::spinoff_prover]
#[verifier::rlimit(40)]
proof fn lemma_lrc_timecode_round_trip(ms: int)
    requires
        ms < lrc_time_limit(),
    ensures
        lrc_timecode(lrc_time_text(ms)) == Some(lrc_start(ms)),
        lrc_time_text(ms).len() > 0,
        forall|k: int| 0 <= k < lrc_time_text(ms).len() ==> #[trigger] lrc_time_text(ms)[k] != ']'
            && lrc_time_text(ms)[k] != '\n',
{
    let tc = (non_negative(ms) + 5) / 10;
    let m = tc / 6000;
    let sec = (tc % 6000) / 100;
    let c = tc % 100;
    lemma_lrc_fields(ms);
    lemma_lrc_time_text_shape(ms);
    let pm = zero_pad(decimal(m), 2);
    let ps = zero_pad(decimal(sec), 2);
    let pc = zero_pad(decimal(c), 2);
    lemma_parse_padded(m, 2, crate::lrc::field_max());
    lemma_parse_padded(sec, 2, crate::lrc::field_max());
    lemma_parse_padded(c, 2, crate::lrc::field_max());
    lemma_digits_plain(pm);
    lemma_digits_plain(ps);
    let t = lrc_time_text(ms);
    let rest = ps + seq!['.'] + pc;
    assert(t =~= pm + seq![':'] + rest);
    // The colon after the minutes.
    assert forall|k: int| 0 <= k < pm.len() implies !occurs_at(t, seq![':'], k) by {
        if occurs_at(t, seq![':'], k) {
            assert(t.subrange(k, k + 1)[0] == t[k]);
            assert(t[k] == pm[k]);
            assert(is_digit(pm[k]));
        }
    }
    assert(t.subrange(pm.len() as int, pm.len() + 1int) =~= seq![':']);
    lemma_find_sub_first(t, seq![':'], pm.len() as int);
    assert(t.take(pm.len() as int) =~= pm);
    assert(t.skip(pm.len() + 1int) =~= rest);
    // The dot after the seconds.
    assert forall|k: int| 0 <= k < ps.len() implies !occurs_at(rest, seq!['.'], k) by {
        if occurs_at(rest, seq!['.'], k) {
            assert(rest.subrange(k, k + 1)[0] == rest[k]);
            assert(rest[k] == ps[k]);
        }
    }
    assert(rest.subrange(ps.len() as int, ps.len() + 1int) =~= seq!['.']);
    lemma_find_sub_first(rest, seq!['.'], ps.len() as int);
    assert(rest.take(ps.len() as int) =~= ps);
    assert(rest.skip(ps.len() + 1int) =~= pc);
}

/// A line that LRC writes and reads back: its text is not empty, has no
/// whitespace around it and no line break; its start lies below the
/// largest one whose minutes the reader accepts.
pub open spec fn lrc_safe(l: LyricsLine) -> bool {
    &&& l.text@.len() > 0
    &&& !is_ws(l.text@[0])
    &&& !is_ws(l.text@.last())
    &&& forall|k: int| 0 <= k < l.text@.len() ==> #[trigger] l.text@[k] != '\n'
    &&& l.start_ms < lrc_time_limit()
}

/// The (start kept, text) of each line.
pub open spec fn lrc_pairs(ls: Seq<LyricsLine>) -> Seq<(int, Seq<char>)> {
    ls.map_values(|l: LyricsLine| (lrc_start(l.start_ms as int), l.text@))
}

/// The written LRC line of `l` reads back as its kept start and its text.
proof fn lemma_lrc_entry_round_trip(l: LyricsLine)
    requires
        lrc_safe(l),
    ensures
        lines(lrc_entry(l)) == seq![lrc_entry(l).drop_last()],
        trim(lrc_entry(l).drop_last()) == lrc_entry(l).drop_last(),
        lrc_line(lrc_entry(l).drop_last()) == Some((lrc_start(l.start_ms as int), l.text@)),
{
    let t = lrc_time_text(l.start_ms as int);
    let text = l.text@;
    lemma_lrc_timecode_round_trip(l.start_ms as int);
    let e = seq!['['] + t + seq![']'] + text;
    assert(lrc_entry(l) =~= e + seq!['\n']);
    assert(lrc_entry(l).drop_last() =~= e);
    // One line.
    let nl = one_of(seq!['\n']);
    assert(seq!['\n'][0] == '\n');
    assert(nl('\n'));
    assert forall|k: int| 0 <= k < e.len() implies !nl(#[trigger] e[k]) by {
        if k == 0 {
        } else if k <= t.len() {
            assert(e[k] == t[k - 1]);
        } else if k == t.len() + 1 {
        } else {
            assert(e[k] == text[k - t.len() - 2]);
        }
        if seq!['\n'].contains(e[k]) {
            let j = choose|j: int| 0 <= j < 1 && seq!['\n'][j] == e[k];
        }
    }
    let empty = Seq::<char>::empty();
    lemma_split_piece(e, '\n', empty, nl);
    assert(e + seq!['\n'] + empty =~= lrc_entry(l));
    assert(split_when(empty, nl) =~= seq![empty]);
    assert(split_when(lrc_entry(l), nl) =~= seq![e, empty]);
    assert(e.last() == text.last());
    assert(strip_cr(e) == e);
    assert(seq![e, empty].drop_last().map_values(|x: Seq<char>| strip_cr(x)) =~= seq![e]);
    // Its own trim.
    lemma_trim_plain(e);
    // The first closing bracket ends the timestamp.
    let close = t.len() as int + 1;
    assert forall|k: int| 0 <= k < close implies !occurs_at(e, seq![']'], k) by {
        if occurs_at(e, seq![']'], k) {
            assert(e.subrange(k, k + 1)[0] == e[k]);
            if k > 0 {
                assert(e[k] == t[k - 1]);
            }
        }
    }
    assert(e.subrange(close, close + 1) =~= seq![']']);
    lemma_find_sub_first(e, seq![']'], close);
    assert(e.subrange(1, close) =~= t);
    assert(e.skip(close + 1) =~= text);
    lemma_trim_plain(text);
}

/// LRC text written from lines reads back, line by line, as the texts
/// with their starts rounded to hundredths of a second (see `lrc_start`).
/// This holds of lines whose texts are single lines without surrounding
/// whitespace and whose starts lie within what the reader accepts (see
/// `lrc_safe`); other texts are trimmed by reading, and the ends are not
/// written (the reader derives them from the next start).
pub proof fn lemma_lrc_round_trip(ls: Seq<LyricsLine>)
    requires
        forall|i: int| 0 <= i < ls.len() ==> lrc_safe(#[trigger] ls[i]),
    ensures
        lrc_cues(lines(lrc_text(ls))) == lrc_pairs(ls),
    decreases ls.len(),
{
    if ls.len() == 0 {
        let p = split_when(Seq::<char>::empty(), one_of(seq!['\n']));
        assert(p =~= seq![Seq::<char>::empty()]);
        assert(lines(lrc_text(ls)) =~= Seq::<Seq<char>>::empty());
        assert(lrc_pairs(ls) =~= Seq::<(int, Seq<char>)>::empty());
    } else {
        let init = ls.drop_last();
        let l = ls.last();
        assert forall|i: int| 0 <= i < init.len() implies lrc_safe(#[trigger] init[i]) by {
            assert(init[i] == ls[i]);
        }
        lemma_lrc_round_trip(init);
        let before = lrc_text(init);
        assert(lrc_text(ls) == before + lrc_entry(l));
        if init.len() > 0 {
            assert(before == lrc_text(init.drop_last()) + lrc_entry(init.last()));
            assert(before.last() == '\n');
        } else {
            assert(before =~= Seq::<char>::empty());
        }
        lemma_lines_append(before, lrc_entry(l));
        lemma_lrc_entry_round_trip(l);
        let e = lrc_entry(l).drop_last();
        let all = lines(before) + seq![e];
        assert(lines(lrc_text(ls)) == all);
        assert(all.drop_last() =~= lines(before));
        assert(all.last() == e);
        assert(lrc_pairs(ls) =~= lrc_pairs(init).push((lrc_start(l.start_ms as int), l.text@)));
    }
}

} // verus!
