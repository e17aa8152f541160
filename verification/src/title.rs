//! Guessing the song name inside a video title.
use vstd::prelude::*;
use crate::text::{
    ascii_lower, ascii_lowered, chars_eq, chars_within, is_ascii_text, lemma_nonempty_only_from,
    lemma_split_piece_sizes, lemma_trim_within, lemma_within_ascii, lemma_within_trans, find, find_sub, has_prefix, lemma_find_sub_bounds,
    lemma_split_when_nonempty, lowercase, one_of, parse_unsigned, parse_unsigned_chars, split_on,
    split_on_whitespace, split_once, split_once_at, split_when, starts_with, str_chars,
    string_from_chars, sub_chars, concat_chars, to_ascii_lower, trim, trim_chars, unicode_lowercase,
    views, whitespace_pred, nonempty_only, is_ws, trim_start, trim_end, lemma_split_clean,
    lemma_split_piece,
};

verus! {


/// Decorations that video titles carry and song names do not, matched
/// ignoring ASCII case, removed in this order of preference.
pub open spec fn noise_patterns() -> Seq<Seq<char>> {
    seq![
        "(lyrics)"@,
        "(lyric video)"@,
        "(official video)"@,
        "(official music video)"@,
        "(official audio)"@,
        "(audio)"@,
        "(visualizer)"@,
        "(clipe oficial)"@,
        "(clipe)"@,
        "(ao vivo)"@,
        "(live)"@,
        "(hd)"@,
        "(4k)"@,
        "[lyrics]"@,
        "[official]"@,
        "[hd]"@,
        "[ao vivo]"@,
        "[live]"@,
    ]
}

fn noise_patterns_exec() -> (res: Vec<Vec<char>>)
    ensures
        views(res@) == noise_patterns(),
{
    let res = vec![
        str_chars("(lyrics)"),
        str_chars("(lyric video)"),
        str_chars("(official video)"),
        str_chars("(official music video)"),
        str_chars("(official audio)"),
        str_chars("(audio)"),
        str_chars("(visualizer)"),
        str_chars("(clipe oficial)"),
        str_chars("(clipe)"),
        str_chars("(ao vivo)"),
        str_chars("(live)"),
        str_chars("(hd)"),
        str_chars("(4k)"),
        str_chars("[lyrics]"),
        str_chars("[official]"),
        str_chars("[hd]"),
        str_chars("[ao vivo]"),
        str_chars("[live]"),
    ];
    assert(views(res@) =~= noise_patterns());
    res
}

/// First position where `needle` occurs in `hay` ignoring ASCII case; an
/// empty needle is never found.
pub open spec fn find_ci(hay: Seq<char>, needle: Seq<char>) -> Option<int> {
    if needle.len() == 0 {
        None
    } else {
        find_sub(ascii_lowered(hay), ascii_lowered(needle))
    }
}

/// Position and length of the first occurrence of the first noise pattern,
/// from the `j`-th on, that occurs in `s`.
pub open spec fn first_noise_from(s: Seq<char>, j: int) -> Option<(int, int)>
    decreases noise_patterns().len() - j,
{
    if j < 0 || j >= noise_patterns().len() {
        None
    } else {
        match find_ci(s, noise_patterns()[j]) {
            Some(p) => Some((p, noise_patterns()[j].len() as int)),
            None => first_noise_from(s, j + 1),
        }
    }
}

/// `s` with noise patterns removed one at a time, always the first pattern
/// of the list that still occurs, until none occurs.
pub open spec fn remove_noise(s: Seq<char>) -> Seq<char>
    decreases s.len(),
{
    match first_noise_from(s, 0) {
        Some((p, l)) => if 0 <= p && l > 0 && p + l <= s.len() {
            remove_noise(s.take(p) + s.skip(p + l))
        } else {
            s
        },
        None => s,
    }
}

/// A title trimmed and stripped of its decorations.
pub open spec fn strip_noise(title: Seq<char>) -> Seq<char> {
    trim(remove_noise(trim(title)))
}

/// Prefixes of a track numbering such as "Hino 293".
pub open spec fn numbering_prefixes() -> Seq<Seq<char>> {
    seq!["hino "@, "hymn "@, "track "@, "faixa "@, "música "@]
}

/// The last non-empty piece.
pub open spec fn last_nonempty(ps: Seq<Seq<char>>) -> Option<Seq<char>>
    decreases ps.len(),
{
    if ps.len() == 0 {
        None
    } else if ps.last().len() > 0 {
        Some(ps.last())
    } else {
        last_nonempty(ps.drop_last())
    }
}

/// Whether a segment whose lowercase form is `lowered` is a numbering
/// ("Hino 293", "Track 4"): `lowered` starts with a numbering prefix and the
/// segment's last word is a number.
pub open spec fn numbering_with(s: Seq<char>, lowered: Seq<char>) -> bool {
    &&& exists|k: int|
        0 <= k < numbering_prefixes().len() && starts_with(
            lowered,
            #[trigger] numbering_prefixes()[k],
        )
    &&& match last_nonempty(split_when(s, whitespace_pred())) {
        Some(w) => parse_unsigned(w, u32::MAX as nat) is Some,
        None => false,
    }
}

/// Whether a segment is a numbering, judged by its lowercase form.
pub open spec fn is_numbering(s: Seq<char>) -> bool {
    numbering_with(s, unicode_lowercase(s))
}

/// Separators between the parts of a title, in order of preference.
pub open spec fn title_separators() -> Seq<char> {
    seq!['•', '|', '—', '–']
}

/// The trimmed, non-empty parts of `s` between occurrences of `sep`.
pub open spec fn trimmed_parts(s: Seq<char>, sep: char) -> Seq<Seq<char>> {
    nonempty_only(split_when(s, one_of(seq![sep])).map_values(|p: Seq<char>| trim(p)))
}

/// `ps` in reverse order.
pub open spec fn rev(ps: Seq<Seq<char>>) -> Seq<Seq<char>> {
    Seq::new(ps.len(), |i: int| ps[ps.len() - 1 - i])
}

/// The parts, last first, for the first separator (from the `j`-th on)
/// that cuts `s` into more than one part.
pub open spec fn separated_from(s: Seq<char>, j: int) -> Option<Seq<Seq<char>>>
    decreases title_separators().len() - j,
{
    if j < 0 || j >= title_separators().len() {
        None
    } else {
        let parts = trimmed_parts(s, title_separators()[j]);
        if parts.len() > 1 {
            Some(rev(parts))
        } else {
            separated_from(s, j + 1)
        }
    }
}

/// The segments of a cleaned title: its parts by separator, last first;
/// else the two sides of its first `-` when both are non-empty; else the
/// whole title.
pub open spec fn title_segments(cleaned: Seq<char>) -> Seq<Seq<char>> {
    match separated_from(cleaned, 0) {
        Some(p) => p,
        None => match split_once(cleaned, seq!['-']) {
            Some((l, r)) => if trim(l).len() > 0 && trim(r).len() > 0 {
                seq![trim(l), trim(r)]
            } else {
                seq![cleaned]
            },
            None => seq![cleaned],
        },
    }
}

/// The segments that are (or are not) numberings, in order.
pub open spec fn with_numbering(ps: Seq<Seq<char>>, numbering: bool) -> Seq<Seq<char>>
    decreases ps.len(),
{
    if ps.len() == 0 {
        seq![]
    } else {
        let r = with_numbering(ps.drop_last(), numbering);
        if is_numbering(ps.last()) == numbering {
            r.push(ps.last())
        } else {
            r
        }
    }
}

/// `ps` keeping only the first of the pieces that share a lowercase form.
pub open spec fn dedup_lower(ps: Seq<Seq<char>>) -> Seq<Seq<char>>
    decreases ps.len(),
{
    if ps.len() == 0 {
        seq![]
    } else {
        let r = dedup_lower(ps.drop_last());
        if ps.drop_last().map_values(|p: Seq<char>| unicode_lowercase(p)).contains(
            unicode_lowercase(ps.last()),
        ) {
            r
        } else {
            r.push(ps.last())
        }
    }
}

/// The candidates for the song name in a video title, most likely first:
/// the segments that are not numberings, then the numberings, then the
/// whole cleaned title, without repeats up to case.
pub open spec fn title_candidates(title: Seq<char>) -> Seq<Seq<char>> {
    let cleaned = strip_noise(title);
    if cleaned.len() == 0 {
        seq![]
    } else {
        let segs = title_segments(cleaned);
        dedup_lower(with_numbering(segs, false) + with_numbering(segs, true) + seq![cleaned])
    }
}

fn lower_all(s: &[char]) -> (res: Vec<char>)
    ensures
        res@ == ascii_lowered(s@),
{
    let mut res: Vec<char> = Vec::new();
    let mut i: usize = 0;
    while i < s.len()
        invariant
            i <= s@.len(),
            res@ == ascii_lowered(s@.take(i as int)),
        decreases s.len() - i,
    {
        res.push(to_ascii_lower(s[i]));
        assert(res@ =~= ascii_lowered(s@.take(i + 1)));
        i = i + 1;
    }
    assert(s@.take(s@.len() as int) =~= s@);
    res
}

/// First position of `needle` in `hay`, ignoring ASCII case.
fn find_ascii_case_insensitive(hay: &[char], needle: &[char]) -> (res: Option<usize>)
    ensures
        match res {
            Some(i) => find_ci(hay@, needle@) == Some(i as int) && i + needle@.len() <= hay@.len(),
            None => find_ci(hay@, needle@) is None,
        },
{
    if needle.len() == 0 {
        return None;
    }
    let h = lower_all(hay);
    let n = lower_all(needle);
    let r = find(h.as_slice(), n.as_slice());
    proof {
        lemma_find_sub_bounds(h@, n@);
    }
    r
}

fn first_noise(s: &[char], patterns: &Vec<Vec<char>>) -> (res: Option<(usize, usize)>)
    requires
        views(patterns@) == noise_patterns(),
    ensures
        match res {
            Some((p, l)) => first_noise_from(s@, 0) == Some((p as int, l as int)) && p + l
                <= s@.len(),
            None => first_noise_from(s@, 0) is None,
        },
{
    let mut j: usize = 0;
    while j < patterns.len()
        invariant
            views(patterns@) == noise_patterns(),
            j <= patterns@.len(),
            first_noise_from(s@, 0) == first_noise_from(s@, j as int),
        decreases patterns.len() - j,
    {
        assert(patterns@[j as int]@ == noise_patterns()[j as int]);
        match find_ascii_case_insensitive(s, patterns[j].as_slice()) {
            Some(p) => {
                return Some((p, patterns[j].len()));
            },
            None => {},
        }
        j = j + 1;
    }
    None
}

/// Removes the decorations of `title` (see `strip_noise`).
fn strip_noise_patterns(title: &[char]) -> (res: Vec<char>)
    ensures
        res@ == strip_noise(title@),
{
    let patterns = noise_patterns_exec();
    let mut result = trim_chars(title);
    let ghost start = result@;
    loop
        invariant
            views(patterns@) == noise_patterns(),
            remove_noise(start) == remove_noise(result@),
            start == trim(title@),
        ensures
            remove_noise(start) == result@,
        decreases result@.len(),
    {
        match first_noise(result.as_slice(), &patterns) {
            Some((p, l)) => {
                if l == 0 {
                    break;
                }
                let a = sub_chars(result.as_slice(), 0, p);
                let n = result.len();
                let b = sub_chars(result.as_slice(), p + l, n);
                let next = concat_chars(a.as_slice(), b.as_slice());
                assert(next@ =~= result@.take(p as int) + result@.skip(p + l));
                result = next;
            },
            None => {
                break;
            },
        }
    }
    trim_chars(result.as_slice())
}

fn numbering_prefixes_exec() -> (res: Vec<Vec<char>>)
    ensures
        views(res@) == numbering_prefixes(),
{
    let res = vec![
        str_chars("hino "),
        str_chars("hymn "),
        str_chars("track "),
        str_chars("faixa "),
        str_chars("música "),
    ];
    assert(views(res@) =~= numbering_prefixes());
    res
}

fn last_nonempty_piece(ps: &Vec<Vec<char>>) -> (res: Option<Vec<char>>)
    ensures
        match res {
            Some(w) => last_nonempty(views(ps@)) == Some(w@),
            None => last_nonempty(views(ps@)) is None,
        },
{
    let ghost pv = views(ps@);
    let mut j: usize = ps.len();
    assert(pv.take(j as int) =~= pv);
    while j > 0 && ps[j - 1].len() == 0
        invariant
            j <= ps@.len(),
            pv == views(ps@),
            last_nonempty(pv) == last_nonempty(pv.take(j as int)),
        decreases j,
    {
        assert(pv.take(j as int).drop_last() =~= pv.take(j - 1));
        j = j - 1;
    }
    if j == 0 {
        return None;
    }
    let w = sub_chars(ps[j - 1].as_slice(), 0, ps[j - 1].len());
    assert(w@ =~= pv.take(j as int).last());
    Some(w)
}

/// Whether `segment`, whose lowercase form is `lowered`, is a numbering
/// such as "Hino 293" (see `numbering_with`).
pub fn numbering_given(segment: &[char], lowered: &[char]) -> (res: bool)
    ensures
        res == numbering_with(segment@, lowered@),
{
    let prefixes = numbering_prefixes_exec();
    let mut k: usize = 0;
    let mut found = false;
    while k < prefixes.len()
        invariant
            views(prefixes@) == numbering_prefixes(),
            k <= prefixes@.len(),
            found ==> exists|m: int|
                0 <= m < numbering_prefixes().len() && starts_with(
                    lowered@,
                    #[trigger] numbering_prefixes()[m],
                ),
            !found ==> forall|m: int|
                0 <= m < k ==> !starts_with(lowered@, #[trigger] numbering_prefixes()[m]),
        decreases prefixes.len() - k,
    {
        if !found {
            assert(prefixes@[k as int]@ == numbering_prefixes()[k as int]);
            if has_prefix(lowered, prefixes[k].as_slice()) {
                found = true;
            }
        }
        k = k + 1;
    }
    if !found {
        return false;
    }
    let words = split_on_whitespace(segment);
    match last_nonempty_piece(&words) {
        Some(w) => parse_unsigned_chars(w.as_slice(), u32::MAX as u64).is_some(),
        None => false,
    }
}

fn segment_is_numbering(s: &[char]) -> (res: bool)
    ensures
        res == is_numbering(s@),
{
    let lower = lowercase(s);
    numbering_given(s, lower.as_slice())
}

fn trimmed_parts_exec(s: &[char], sep: char) -> (res: Vec<Vec<char>>)
    ensures
        views(res@) == trimmed_parts(s@, sep),
{
    let seps = vec![sep];
    assert(seps@ =~= seq![sep]);
    let pieces = split_on(s, seps.as_slice());
    let ghost mapped = split_when(s@, one_of(seq![sep])).map_values(|p: Seq<char>| trim(p));
    let mut res: Vec<Vec<char>> = Vec::new();
    let mut i: usize = 0;
    while i < pieces.len()
        invariant
            i <= pieces@.len(),
            views(pieces@) == split_when(s@, one_of(seq![sep])),
            mapped == split_when(s@, one_of(seq![sep])).map_values(|p: Seq<char>| trim(p)),
            views(res@) == nonempty_only(mapped.take(i as int)),
        decreases pieces.len() - i,
    {
        let tp = trim_chars(pieces[i].as_slice());
        assert(tp@ == mapped[i as int]);
        assert(mapped.take(i + 1).drop_last() =~= mapped.take(i as int));
        if tp.len() > 0 {
            let ghost before = views(res@);
            let ghost tv = tp@;
            res.push(tp);
            assert(views(res@) =~= before.push(tv));
        }
        i = i + 1;
    }
    assert(mapped.take(pieces@.len() as int) =~= mapped);
    res
}

fn reversed(ps: Vec<Vec<char>>) -> (res: Vec<Vec<char>>)
    ensures
        views(res@) == rev(views(ps@)),
{
    let ghost pv = views(ps@);
    let mut ps = ps;
    let mut res: Vec<Vec<char>> = Vec::new();
    let n = ps.len();
    while ps.len() > 0
        invariant
            ps@.len() <= n,
            n == pv.len(),
            views(ps@) == pv.take(ps@.len() as int),
            views(res@) == rev(pv).take(n - ps@.len()),
        decreases ps.len(),
    {
        let ghost before = views(res@);
        let ghost m = ps@.len();
        let ghost old_ps = ps@;
        assert(views(old_ps)[m - 1] == pv[m - 1]);
        let last = ps.pop().unwrap();
        assert(last == old_ps[m - 1]);
        let ghost lv = last@;
        assert(lv == pv[m - 1]);
        res.push(last);
        assert(views(res@) =~= before.push(lv));
        assert(views(res@) =~= rev(pv).take(n - ps@.len()));
        assert(views(ps@) =~= pv.take(ps@.len() as int));
    }
    assert(rev(pv).take(n as int) =~= rev(pv));
    res
}

fn segments_of(cleaned: &[char]) -> (res: Vec<Vec<char>>)
    ensures
        views(res@) == title_segments(cleaned@),
{
    let seps = vec!['•', '|', '—', '–'];
    assert(seps@ =~= title_separators());
    let mut j: usize = 0;
    while j < seps.len()
        invariant
            seps@ == title_separators(),
            j <= seps@.len(),
            separated_from(cleaned@, 0) == separated_from(cleaned@, j as int),
        decreases seps.len() - j,
    {
        let parts = trimmed_parts_exec(cleaned, seps[j]);
        if parts.len() > 1 {
            return reversed(parts);
        }
        j = j + 1;
    }
    let dash = vec!['-'];
    assert(dash@ =~= seq!['-']);
    match split_once_at(cleaned, dash.as_slice()) {
        Some((l, r)) => {
            let lt = trim_chars(l.as_slice());
            let rt = trim_chars(r.as_slice());
            if lt.len() > 0 && rt.len() > 0 {
                let res = vec![lt, rt];
                assert(views(res@) =~= title_segments(cleaned@));
                return res;
            }
        },
        None => {},
    }
    let whole = sub_chars(cleaned, 0, cleaned.len());
    assert(whole@ =~= cleaned@);
    let res = vec![whole];
    assert(views(res@) =~= title_segments(cleaned@));
    res
}

fn copy_pieces(ps: &Vec<Vec<char>>) -> (res: Vec<Vec<char>>)
    ensures
        views(res@) == views(ps@),
{
    let mut res: Vec<Vec<char>> = Vec::new();
    let mut i: usize = 0;
    while i < ps.len()
        invariant
            i <= ps@.len(),
            views(res@) == views(ps@).take(i as int),
        decreases ps.len() - i,
    {
        let c = sub_chars(ps[i].as_slice(), 0, ps[i].len());
        let ghost before = views(res@);
        let ghost cv = c@;
        assert(cv =~= views(ps@)[i as int]);
        res.push(c);
        assert(views(res@) =~= before.push(cv));
        assert(views(res@) =~= views(ps@).take(i + 1));
        i = i + 1;
    }
    assert(views(ps@).take(ps@.len() as int) =~= views(ps@));
    res
}

fn partition_numbering(segs: &Vec<Vec<char>>, numbering: bool) -> (res: Vec<Vec<char>>)
    ensures
        views(res@) == with_numbering(views(segs@), numbering),
{
    let ghost sv = views(segs@);
    let mut res: Vec<Vec<char>> = Vec::new();
    let mut i: usize = 0;
    while i < segs.len()
        invariant
            i <= segs@.len(),
            sv == views(segs@),
            views(res@) == with_numbering(sv.take(i as int), numbering),
        decreases segs.len() - i,
    {
        assert(sv.take(i + 1).drop_last() =~= sv.take(i as int));
        assert(sv.take(i + 1).last() == segs@[i as int]@);
        if segment_is_numbering(segs[i].as_slice()) == numbering {
            let c = sub_chars(segs[i].as_slice(), 0, segs[i].len());
            let ghost before = views(res@);
            let ghost cv = c@;
            assert(cv == sv[i as int]);
            res.push(c);
            assert(views(res@) =~= before.push(cv));
        }
        i = i + 1;
    }
    assert(sv.take(segs@.len() as int) =~= sv);
    res
}

fn contains_piece(ps: &Vec<Vec<char>>, p: &[char]) -> (res: bool)
    ensures
        res == views(ps@).contains(p@),
{
    let mut i: usize = 0;
    while i < ps.len()
        invariant
            i <= ps@.len(),
            forall|k: int| 0 <= k < i ==> views(ps@)[k] != p@,
        decreases ps.len() - i,
    {
        if chars_eq(ps[i].as_slice(), p) {
            assert(views(ps@)[i as int] == p@);
            return true;
        }
        i = i + 1;
    }
    false
}

/// `ps` keeping only the first piece of each key, where `keys[i]` is the
/// key of `ps[i]`.
pub open spec fn dedup_keyed(ps: Seq<Seq<char>>, keys: Seq<Seq<char>>) -> Seq<Seq<char>>
    decreases ps.len(),
{
    if ps.len() == 0 {
        seq![]
    } else {
        let n = ps.len() - 1;
        let r = dedup_keyed(ps.drop_last(), keys.take(n));
        if keys.take(n).contains(keys[n]) {
            r
        } else {
            r.push(ps.last())
        }
    }
}

/// Keying each piece by its lowercase form is dropping repeats up to case.
proof fn lemma_dedup_keyed_lower(ps: Seq<Seq<char>>)
    ensures
        dedup_keyed(ps, ps.map_values(|p: Seq<char>| unicode_lowercase(p))) == dedup_lower(ps),
    decreases ps.len(),
{
    if ps.len() > 0 {
        let n = ps.len() - 1;
        let keys = ps.map_values(|p: Seq<char>| unicode_lowercase(p));
        lemma_dedup_keyed_lower(ps.drop_last());
        assert(keys.take(n) =~= ps.drop_last().map_values(|p: Seq<char>| unicode_lowercase(p)));
        assert(keys[n] == unicode_lowercase(ps.last()));
    }
}

/// Keeps the first piece of each key (`keys[i]` being the key of
/// `pieces[i]`), in order: the candidates without repeats once their
/// lowercase forms are known.
pub fn first_of_each_key(pieces: &Vec<Vec<char>>, keys: &Vec<Vec<char>>) -> (res: Vec<Vec<char>>)
    requires
        keys@.len() == pieces@.len(),
    ensures
        views(res@) == dedup_keyed(views(pieces@), views(keys@)),
{
    let ghost pv = views(pieces@);
    let ghost kv = views(keys@);
    let mut seen: Vec<Vec<char>> = Vec::new();
    let mut res: Vec<Vec<char>> = Vec::new();
    let mut i: usize = 0;
    while i < pieces.len()
        invariant
            i <= pieces@.len(),
            keys@.len() == pieces@.len(),
            pv == views(pieces@),
            kv == views(keys@),
            views(seen@) == kv.take(i as int),
            views(res@) == dedup_keyed(pv.take(i as int), kv.take(i as int)),
        decreases pieces.len() - i,
    {
        assert(pv.take(i + 1).drop_last() =~= pv.take(i as int));
        assert(pv.take(i + 1).last() == pv[i as int]);
        assert(kv.take(i + 1).take(i as int) =~= kv.take(i as int));
        assert(kv.take(i + 1)[i as int] == kv[i as int]);
        assert(keys[i as int]@ == kv[i as int]);
        let found = contains_piece(&seen, keys[i].as_slice());
        if !found {
            let c = sub_chars(pieces[i].as_slice(), 0, pieces[i].len());
            let ghost before = views(res@);
            let ghost cv = c@;
            assert(cv == pv[i as int]);
            res.push(c);
            assert(views(res@) =~= before.push(cv));
        }
        let k = sub_chars(keys[i].as_slice(), 0, keys[i].len());
        let ghost sb = views(seen@);
        let ghost kc = k@;
        assert(kc =~= kv[i as int]);
        seen.push(k);
        assert(views(seen@) =~= sb.push(kc));
        assert(views(seen@) =~= kv.take(i + 1));
        i = i + 1;
    }
    assert(pv.take(pieces@.len() as int) =~= pv);
    assert(kv.take(pieces@.len() as int) =~= kv);
    res
}

fn dedup_by_lowercase(ps: &Vec<Vec<char>>) -> (res: Vec<Vec<char>>)
    ensures
        views(res@) == dedup_lower(views(ps@)),
        forall|i: int|
            0 <= i < ps@.len() && is_ascii_text(#[trigger] views(ps@)[i]) ==> unicode_lowercase(
                views(ps@)[i],
            ) == ascii_lowered(views(ps@)[i]),
{
    let ghost pv = views(ps@);
    let mut keys: Vec<Vec<char>> = Vec::new();
    let mut i: usize = 0;
    while i < ps.len()
        invariant
            i <= ps@.len(),
            pv == views(ps@),
            views(keys@) == pv.take(i as int).map_values(|p: Seq<char>| unicode_lowercase(p)),
            forall|j: int|
                0 <= j < i && is_ascii_text(#[trigger] pv[j]) ==> unicode_lowercase(pv[j])
                    == ascii_lowered(pv[j]),
        decreases ps.len() - i,
    {
        let key = lowercase(ps[i].as_slice());
        assert(ps[i as int]@ == pv[i as int]);
        let ghost kb = views(keys@);
        let ghost kv = key@;
        keys.push(key);
        assert(views(keys@) =~= kb.push(kv));
        assert(views(keys@) =~= pv.take(i + 1).map_values(|p: Seq<char>| unicode_lowercase(p)));
        i = i + 1;
    }
    assert(pv.take(ps@.len() as int) =~= pv);
    let res = first_of_each_key(ps, &keys);
    proof {
        lemma_dedup_keyed_lower(pv);
    }
    res
}

/// Splits a typical YouTube title into candidates for the real song name,
/// most likely first (see `title_candidates`): decorations such as
/// "(Lyrics)" are removed, the title is cut at `•`, `|`, `—` or `–` (last
/// part first) or else at its first `-`, numberings such as "Hino 293" go
/// last, and the whole cleaned title closes the list; repeats (ignoring
/// case) are dropped. An empty list for a title that is only decoration.
pub fn extract_song_title_candidates(title: &str) -> (res: Vec<String>)
    ensures
        res@.map_values(|s: String| s@) == title_candidates(title@),
        strip_noise(title@).len() > 0 && is_ascii_text(strip_noise(title@)) ==> res@.len() > 0
            && res@[res@.len() - 1]@ == strip_noise(title@),
{
    let t = str_chars(title);
    let cleaned = strip_noise_patterns(t.as_slice());
    if cleaned.len() == 0 {
        let res: Vec<String> = Vec::new();
        assert(res@.map_values(|s: String| s@) =~= title_candidates(title@));
        return res;
    }
    let segs = segments_of(cleaned.as_slice());
    let plain = partition_numbering(&segs, false);
    let numbered = partition_numbering(&segs, true);
    let mut ordered = copy_pieces(&plain);
    let mut k: usize = 0;
    while k < numbered.len()
        invariant
            k <= numbered@.len(),
            views(ordered@) == views(plain@) + views(numbered@).take(k as int),
        decreases numbered.len() - k,
    {
        let c = sub_chars(numbered[k].as_slice(), 0, numbered[k].len());
        let ghost before = views(ordered@);
        let ghost cv = c@;
        assert(cv =~= views(numbered@)[k as int]);
        ordered.push(c);
        assert(views(ordered@) =~= before.push(cv));
        assert(views(ordered@) =~= views(plain@) + views(numbered@).take(k + 1));
        k = k + 1;
    }
    assert(views(numbered@).take(numbered@.len() as int) =~= views(numbered@));
    let ghost before = views(ordered@);
    let ghost clv = cleaned@;
    ordered.push(cleaned);
    assert(views(ordered@) =~= before.push(clv));
    assert(views(ordered@) =~= with_numbering(title_segments(strip_noise(title@)), false)
        + with_numbering(title_segments(strip_noise(title@)), true) + seq![strip_noise(title@)]);
    let unique = dedup_by_lowercase(&ordered);
    proof {
        let c = strip_noise(title@);
        if is_ascii_text(c) {
            lemma_cleaned_title_last(c, views(ordered@));
        }
    }
    let mut res: Vec<String> = Vec::new();
    let mut i: usize = 0;
    while i < unique.len()
        invariant
            i <= unique@.len(),
            res@.map_values(|s: String| s@) == views(unique@).take(i as int),
        decreases unique.len() - i,
    {
        let s = string_from_chars(unique[i].as_slice());
        let ghost before = res@.map_values(|s: String| s@);
        let ghost sv = s@;
        assert(sv =~= views(unique@)[i as int]);
        res.push(s);
        assert(res@.map_values(|s: String| s@) =~= before.push(sv));
        assert(res@.map_values(|s: String| s@) =~= views(unique@).take(i + 1));
        i = i + 1;
    }
    assert(views(unique@).take(unique@.len() as int) =~= views(unique@));
    assert(res@.len() == unique@.len());
    proof {
        if res@.len() > 0 {
            assert(res@[res@.len() - 1]@ == res@.map_values(|s: String| s@)[res@.len() - 1]);
        }
    }
    res
}

/// The pieces kept when dropping repeats come from `ps`.
proof fn lemma_dedup_lower_from(ps: Seq<Seq<char>>)
    ensures
        forall|i: int| 0 <= i < dedup_lower(ps).len() ==> ps.contains(#[trigger] dedup_lower(ps)[i]),
    decreases ps.len(),
{
    if ps.len() > 0 {
        let init = ps.drop_last();
        lemma_dedup_lower_from(init);
        let r = dedup_lower(init);
        let res = dedup_lower(ps);
        assert forall|i: int| 0 <= i < res.len() implies ps.contains(#[trigger] res[i]) by {
            if i < r.len() {
                assert(res[i] == r[i]);
                let k = choose|k: int| 0 <= k < init.len() && init[k] == r[i];
                assert(ps[k] == init[k]);
            } else {
                assert(res[i] == ps.last());
                assert(ps[ps.len() - 1] == ps.last());
            }
        }
    }
}

/// Dropping repeats up to case keeps one piece of each lowercase form: no
/// two kept pieces share one.
pub proof fn lemma_dedup_lower_distinct(ps: Seq<Seq<char>>)
    ensures
        forall|i: int, j: int|
            0 <= i < j < dedup_lower(ps).len() ==> unicode_lowercase(#[trigger] dedup_lower(ps)[i])
                != unicode_lowercase(#[trigger] dedup_lower(ps)[j]),
    decreases ps.len(),
{
    if ps.len() > 0 {
        let init = ps.drop_last();
        let last = ps.last();
        lemma_dedup_lower_distinct(init);
        lemma_dedup_lower_from(init);
        let r = dedup_lower(init);
        let lows = init.map_values(|p: Seq<char>| unicode_lowercase(p));
        if !lows.contains(unicode_lowercase(last)) {
            let res = r.push(last);
            assert forall|i: int, j: int|
                0 <= i < j < res.len() implies unicode_lowercase(#[trigger] res[i])
                    != unicode_lowercase(#[trigger] res[j]) by {
                assert(res[i] == r[i]);
                if j == r.len() {
                    let k = choose|k: int| 0 <= k < init.len() && init[k] == r[i];
                    assert(lows[k] == unicode_lowercase(init[k]));
                    assert(res[j] == last);
                } else {
                    assert(res[j] == r[j]);
                }
            }
        }
    }
}

/// Dropping repeats up to case loses no lowercase form: every piece has a
/// kept piece with its lowercase form.
pub proof fn lemma_dedup_lower_covers(ps: Seq<Seq<char>>)
    ensures
        forall|k: int|
            0 <= k < ps.len() ==> exists|i: int|
                0 <= i < dedup_lower(ps).len() && unicode_lowercase(#[trigger] dedup_lower(ps)[i])
                    == unicode_lowercase(#[trigger] ps[k]),
    decreases ps.len(),
{
    if ps.len() > 0 {
        let init = ps.drop_last();
        let last = ps.last();
        lemma_dedup_lower_covers(init);
        let r = dedup_lower(init);
        let res = dedup_lower(ps);
        let lows = init.map_values(|p: Seq<char>| unicode_lowercase(p));
        assert forall|k: int| 0 <= k < ps.len() implies exists|i: int|
            0 <= i < res.len() && unicode_lowercase(#[trigger] res[i]) == unicode_lowercase(
                #[trigger] ps[k],
            ) by {
            if k < init.len() {
                assert(ps[k] == init[k]);
                let i = choose|i: int|
                    0 <= i < r.len() && unicode_lowercase(#[trigger] r[i]) == unicode_lowercase(
                        #[trigger] init[k],
                    );
                assert(res[i] == r[i]);
            } else if lows.contains(unicode_lowercase(last)) {
                let m = choose|m: int| 0 <= m < lows.len() && lows[m] == unicode_lowercase(last);
                assert(lows[m] == unicode_lowercase(init[m]));
                let i = choose|i: int|
                    0 <= i < r.len() && unicode_lowercase(#[trigger] r[i]) == unicode_lowercase(
                        #[trigger] init[m],
                    );
                assert(ps[k] == last);
            } else {
                assert(res[r.len() as int] == last);
                assert(ps[k] == last);
            }
        }
    }
}

/// No two title candidates are the same text up to case.
pub proof fn lemma_title_candidates_distinct(title: Seq<char>)
    ensures
        forall|i: int, j: int|
            0 <= i < j < title_candidates(title).len() ==> unicode_lowercase(
                #[trigger] title_candidates(title)[i],
            ) != unicode_lowercase(#[trigger] title_candidates(title)[j]),
{
    let cleaned = strip_noise(title);
    if cleaned.len() > 0 {
        let segs = title_segments(cleaned);
        lemma_dedup_lower_distinct(
            with_numbering(segs, false) + with_numbering(segs, true) + seq![cleaned],
        );
    }
}

/// The whole cleaned title is always among the candidates, up to case,
/// unless the title is only decoration.
pub proof fn lemma_title_candidates_keep_whole_title(title: Seq<char>)
    requires
        strip_noise(title).len() > 0,
    ensures
        exists|i: int|
            0 <= i < title_candidates(title).len() && unicode_lowercase(
                #[trigger] title_candidates(title)[i],
            ) == unicode_lowercase(strip_noise(title)),
{
    let cleaned = strip_noise(title);
    let segs = title_segments(cleaned);
    let all = with_numbering(segs, false) + with_numbering(segs, true) + seq![cleaned];
    lemma_dedup_lower_covers(all);
    assert(all[all.len() - 1] == cleaned);
    assert(title_candidates(title) == dedup_lower(all));
    let k = all.len() - 1;
    let i = choose|i: int|
        0 <= i < dedup_lower(all).len() && unicode_lowercase(#[trigger] dedup_lower(all)[i])
            == unicode_lowercase(#[trigger] all[k]);
    assert(unicode_lowercase(title_candidates(title)[i]) == unicode_lowercase(cleaned));
}

/// The segments picked out by numbering are segments.
proof fn lemma_with_numbering_from(ps: Seq<Seq<char>>, numbering: bool)
    ensures
        forall|i: int|
            0 <= i < with_numbering(ps, numbering).len() ==> ps.contains(
                #[trigger] with_numbering(ps, numbering)[i],
            ),
    decreases ps.len(),
{
    if ps.len() > 0 {
        let init = ps.drop_last();
        lemma_with_numbering_from(init, numbering);
        let r = with_numbering(init, numbering);
        let res = with_numbering(ps, numbering);
        assert forall|i: int| 0 <= i < res.len() implies ps.contains(#[trigger] res[i]) by {
            if i < r.len() {
                assert(res[i] == r[i]);
                let k = choose|k: int| 0 <= k < init.len() && init[k] == r[i];
                assert(ps[k] == init[k]);
            } else {
                assert(ps[ps.len() - 1] == ps.last());
            }
        }
    }
}

/// The parts found at a separator are shorter than the title and made of
/// its characters.
proof fn lemma_separated_within(s: Seq<char>, j: int)
    ensures
        separated_from(s, j) matches Some(p) ==> forall|i: int|
            0 <= i < p.len() ==> (#[trigger] p[i]).len() < s.len() && chars_within(p[i], s),
    decreases title_separators().len() - j,
{
    if 0 <= j < title_separators().len() {
        let sep = one_of(seq![title_separators()[j]]);
        let sp = split_when(s, sep);
        let tr = sp.map_values(|p: Seq<char>| trim(p));
        let parts = nonempty_only(tr);
        assert(trimmed_parts(s, title_separators()[j]) == parts);
        if parts.len() > 1 {
            lemma_nonempty_only_from(tr);
            lemma_split_piece_sizes(s, sep);
            let p = rev(parts);
            assert forall|i: int| 0 <= i < p.len() implies (#[trigger] p[i]).len() < s.len()
                && chars_within(p[i], s) by {
                let x = parts[parts.len() - 1 - i];
                assert(p[i] == x);
                assert(tr.contains(x));
                let q = choose|q: int| 0 <= q < tr.len() && tr[q] == x;
                assert(tr[q] == trim(sp[q]));
                lemma_trim_within(sp[q]);
                lemma_within_trans(x, sp[q], s);
            }
        } else {
            lemma_separated_within(s, j + 1);
        }
    }
}

/// A cleaned title is its only segment, or every segment is shorter and
/// made of its characters.
proof fn lemma_segments_within(c: Seq<char>)
    ensures
        title_segments(c) == seq![c] || forall|i: int|
            0 <= i < title_segments(c).len() ==> (#[trigger] title_segments(c)[i]).len() < c.len()
                && chars_within(title_segments(c)[i], c),
{
    lemma_separated_within(c, 0);
    if separated_from(c, 0) is None {
        if let Some((l, r)) = split_once(c, seq!['-']) {
            if trim(l).len() > 0 && trim(r).len() > 0 {
                lemma_find_sub_bounds(c, seq!['-']);
                let i = find_sub(c, seq!['-'])->0;
                assert(l == c.take(i));
                assert(r == c.skip(i + 1));
                lemma_trim_within(l);
                lemma_trim_within(r);
                assert(chars_within(l, c)) by {
                    assert forall|k: int| 0 <= k < l.len() implies c.contains(#[trigger] l[k]) by {
                        assert(c[k] == l[k]);
                    }
                }
                assert(chars_within(r, c)) by {
                    assert forall|k: int| 0 <= k < r.len() implies c.contains(#[trigger] r[k]) by {
                        assert(c[i + 1 + k] == r[k]);
                    }
                }
                lemma_within_trans(trim(l), l, c);
                lemma_within_trans(trim(r), r, c);
                let segs = title_segments(c);
                assert(segs == seq![trim(l), trim(r)]);
                assert forall|k: int| 0 <= k < segs.len() implies (#[trigger] segs[k]).len()
                    < c.len() && chars_within(segs[k], c) by {
                    if k == 0 {
                        assert(segs[k] == trim(l));
                    } else {
                        assert(segs[k] == trim(r));
                    }
                }
            }
        }
    }
}

/// For an ASCII title, given the lowercase forms that were computed (ASCII
/// text lowers letter by letter), the whole cleaned title closes the list
/// of candidates.
proof fn lemma_cleaned_title_last(c: Seq<char>, all: Seq<Seq<char>>)
    requires
        c.len() > 0,
        is_ascii_text(c),
        all == with_numbering(title_segments(c), false) + with_numbering(title_segments(c), true)
            + seq![c],
        forall|i: int|
            0 <= i < all.len() && is_ascii_text(#[trigger] all[i]) ==> unicode_lowercase(all[i])
                == ascii_lowered(all[i]),
    ensures
        dedup_lower(all).len() > 0,
        dedup_lower(all).last() == c,
{
    let segs = title_segments(c);
    let a = with_numbering(segs, false) + with_numbering(segs, true);
    assert(all.drop_last() =~= a);
    assert(all.last() == c);
    lemma_segments_within(c);
    let lows = a.map_values(|p: Seq<char>| unicode_lowercase(p));
    if segs == seq![c] {
        assert(segs.drop_last() =~= Seq::<Seq<char>>::empty());
        assert(with_numbering(segs.drop_last(), false) == Seq::<Seq<char>>::empty());
        assert(with_numbering(segs.drop_last(), true) == Seq::<Seq<char>>::empty());
        assert(a =~= seq![c]);
        assert(lows[0] == unicode_lowercase(c));
        assert(lows.contains(unicode_lowercase(c)));
        assert(seq![c].drop_last() =~= Seq::<Seq<char>>::empty());
        assert(dedup_lower(Seq::<Seq<char>>::empty()) == Seq::<Seq<char>>::empty());
        assert(dedup_lower(seq![c]) =~= seq![c]);
    } else {
        lemma_with_numbering_from(segs, false);
        lemma_with_numbering_from(segs, true);
        assert(unicode_lowercase(c) == ascii_lowered(c)) by {
            assert(all[all.len() - 1] == c);
        }
        if lows.contains(unicode_lowercase(c)) {
            let m = choose|m: int| 0 <= m < lows.len() && lows[m] == unicode_lowercase(c);
            let x = a[m];
            assert(segs.contains(x)) by {
                if m < with_numbering(segs, false).len() {
                    assert(x == with_numbering(segs, false)[m]);
                } else {
                    assert(x == with_numbering(segs, true)[m - with_numbering(segs, false).len()]);
                }
            }
            let q = choose|q: int| 0 <= q < segs.len() && segs[q] == x;
            assert(x.len() < c.len() && chars_within(x, c));
            lemma_within_ascii(x, c);
            assert(all[m] == x);
            assert(unicode_lowercase(x) == ascii_lowered(x));
            assert(ascii_lowered(x).len() == x.len());
            assert(ascii_lowered(c).len() == c.len());
            assert(false);
        }
    }
}

/// Text that can stand on one side of a title separator: not empty, no
/// whitespace around it, and none of the separators `•`, `|`, `—`, `–`.
pub open spec fn plain_part(s: Seq<char>) -> bool {
    &&& s.len() > 0
    &&& !is_ws(s[0])
    &&& !is_ws(s.last())
    &&& forall|k: int|
        0 <= k < s.len() ==> #[trigger] s[k] != '•' && s[k] != '|' && s[k] != '—' && s[k] != '–'
}

proof fn lemma_trim_of_plain(s: Seq<char>)
    requires
        s.len() > 0,
        !is_ws(s[0]),
        !is_ws(s.last()),
    ensures
        trim(s) == s,
        trim(s + seq![' ']) == s,
        trim(seq![' '] + s) == s,
{
    assert(trim_start(s) == s);
    assert(trim_end(s) == s);
    let sp = s + seq![' '];
    assert(sp[0] == s[0]);
    assert(trim_start(sp) == sp);
    assert(sp.last() == ' ');
    assert(is_ws(' '));
    assert(sp.drop_last() =~= s);
    assert(trim_end(sp) == trim_end(s));
    let ps = seq![' '] + s;
    assert(ps[0] == ' ');
    assert(ps.drop_first() =~= s);
    assert(trim_start(ps) == trim_start(s));
}

/// A title cut at `sep` around ` sep `: its parts are the two sides.
proof fn lemma_parts_at_separator(a: Seq<char>, b: Seq<char>, sep: char)
    requires
        plain_part(a),
        plain_part(b),
        sep == '•' || sep == '|' || sep == '—' || sep == '–',
    ensures
        trimmed_parts(a + seq![' ', sep, ' '] + b, sep) == seq![a, b],
{
    let c = a + seq![' ', sep, ' '] + b;
    let pred = one_of(seq![sep]);
    assert(seq![sep][0] == sep);
    assert(pred(sep));
    let left = a + seq![' '];
    let right = seq![' '] + b;
    assert(c =~= left + seq![sep] + right);
    assert forall|k: int| 0 <= k < left.len() implies !pred(#[trigger] left[k]) by {
        if seq![sep].contains(left[k]) {
            let m = choose|m: int| 0 <= m < 1 && seq![sep][m] == left[k];
            if k < a.len() {
                assert(left[k] == a[k]);
            }
        }
    }
    assert forall|k: int| 0 <= k < right.len() implies !pred(#[trigger] right[k]) by {
        if seq![sep].contains(right[k]) {
            let m = choose|m: int| 0 <= m < 1 && seq![sep][m] == right[k];
            if k > 0 {
                assert(right[k] == b[k - 1]);
            }
        }
    }
    lemma_split_piece(left, sep, right, pred);
    lemma_split_clean(right, pred);
    let pieces = split_when(c, pred);
    assert(pieces =~= seq![left, right]);
    lemma_trim_of_plain(a);
    lemma_trim_of_plain(b);
    let tr = pieces.map_values(|p: Seq<char>| trim(p));
    assert(tr =~= seq![a, b]);
    let e = Seq::<Seq<char>>::empty();
    assert(nonempty_only(e) =~= e);
    assert(seq![a, b].drop_last() =~= seq![a]);
    assert(seq![a].drop_last() =~= e);
    assert(seq![a].last() == a);
    assert(nonempty_only(seq![a]) =~= e.push(a));
    assert(seq![a, b].last() == b);
    assert(nonempty_only(seq![a, b]) =~= seq![a].push(b));
}

/// A title without `other` is one part when cut at `other`.
proof fn lemma_parts_without_separator(a: Seq<char>, b: Seq<char>, sep: char, other: char)
    requires
        plain_part(a),
        plain_part(b),
        sep == '•' || sep == '|' || sep == '—' || sep == '–',
        other == '•' || other == '|' || other == '—' || other == '–',
        other != sep,
    ensures
        trimmed_parts(a + seq![' ', sep, ' '] + b, other).len() == 1,
{
    let c = a + seq![' ', sep, ' '] + b;
    let pred = one_of(seq![other]);
    assert forall|k: int| 0 <= k < c.len() implies !pred(#[trigger] c[k]) by {
        if seq![other].contains(c[k]) {
            let m = choose|m: int| 0 <= m < 1 && seq![other][m] == c[k];
            if k < a.len() {
                assert(c[k] == a[k]);
            } else if k >= a.len() + 3 {
                assert(c[k] == b[k - a.len() - 3]);
            }
        }
    }
    lemma_split_clean(c, pred);
    assert(c[0] == a[0]);
    assert(c.last() == b.last());
    lemma_trim_of_plain(c);
    let tr = split_when(c, pred).map_values(|p: Seq<char>| trim(p));
    assert(tr =~= seq![c]);
    let e = Seq::<Seq<char>>::empty();
    assert(nonempty_only(e) =~= e);
    assert(seq![c].drop_last() =~= e);
    assert(seq![c].last() == c);
    assert(nonempty_only(seq![c]) =~= e.push(c));
}

/// The separator search passes over separators that cut nothing.
proof fn lemma_separated_reaches(c: Seq<char>, j: int, k: int)
    requires
        0 <= j <= k < title_separators().len(),
        forall|m: int| j <= m < k ==> (#[trigger] trimmed_parts(c, title_separators()[m])).len() <= 1,
        trimmed_parts(c, title_separators()[k]).len() > 1,
    ensures
        separated_from(c, j) == Some(rev(trimmed_parts(c, title_separators()[k]))),
    decreases k - j,
{
    if j < k {
        assert(trimmed_parts(c, title_separators()[j]).len() <= 1);
        lemma_separated_reaches(c, j + 1, k);
    }
}

/// A title of two plain parts around one of the separators `•`, `|`, `—`,
/// `–` (spaced) proposes its second part, then its first, before anything
/// else, when neither part is a numbering and the two differ beyond case:
/// "Hillsong – Oceans" proposes "Oceans", then "Hillsong".
pub proof fn lemma_separated_title_candidates(title: Seq<char>, a: Seq<char>, b: Seq<char>, sep: char)
    requires
        sep == '•' || sep == '|' || sep == '—' || sep == '–',
        plain_part(a),
        plain_part(b),
        strip_noise(title) == a + seq![' ', sep, ' '] + b,
        !is_numbering(a),
        !is_numbering(b),
        unicode_lowercase(a) != unicode_lowercase(b),
    ensures
        title_candidates(title).len() >= 2,
        title_candidates(title)[0] == b,
        title_candidates(title)[1] == a,
{
    let c = a + seq![' ', sep, ' '] + b;
    let seps = title_separators();
    assert(seps[0] == '•' && seps[1] == '|' && seps[2] == '—' && seps[3] == '–');
    let k: int = if sep == '•' { 0 } else if sep == '|' { 1 } else if sep == '—' { 2 } else { 3 };
    assert(seps[k] == sep);
    assert forall|m: int| 0 <= m < k implies (#[trigger] trimmed_parts(c, seps[m])).len() <= 1 by {
        lemma_parts_without_separator(a, b, sep, seps[m]);
    }
    lemma_parts_at_separator(a, b, sep);
    lemma_separated_reaches(c, 0, k);
    let segs = title_segments(c);
    assert(segs =~= seq![b, a]);
    assert(segs.drop_last() =~= seq![b]);
    let e = Seq::<Seq<char>>::empty();
    assert(seq![b].drop_last() =~= e);
    assert(seq![b].last() == b);
    assert(segs.last() == a);
    assert(with_numbering(e, false) =~= e);
    assert(with_numbering(e, true) =~= e);
    assert(with_numbering(seq![b], false) =~= e.push(b));
    assert(with_numbering(segs, false) =~= seq![b].push(a));
    assert(with_numbering(seq![b], true) =~= e);
    assert(with_numbering(segs, true) =~= e);
    let all = with_numbering(segs, false) + with_numbering(segs, true) + seq![c];
    assert(all =~= seq![b, a, c]);
    assert(all.drop_last() =~= seq![b, a]);
    assert(dedup_lower(e) =~= e);
    assert(!e.map_values(|p: Seq<char>| unicode_lowercase(p)).contains(unicode_lowercase(b)));
    assert(dedup_lower(seq![b]) =~= e.push(b));
    assert(seq![b, a].drop_last() =~= seq![b]);
    assert(seq![b, a].last() == a);
    let lows = seq![b].map_values(|p: Seq<char>| unicode_lowercase(p));
    assert(lows =~= seq![unicode_lowercase(b)]);
    assert(!lows.contains(unicode_lowercase(a)));
    assert(dedup_lower(seq![b, a]) =~= seq![b].push(a));
    let d = dedup_lower(all);
    assert(d == seq![b, a] || d == seq![b, a].push(c));
    assert(c.len() > 0);
}

} // verus!
