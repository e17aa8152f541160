//! The LouvorJA catalogue: matching song names, reading album names from
//! audio addresses, and turning timed lyrics into lines.
use vstd::prelude::*;
use vstd::string::StringSliceAdditionalSpecFns;
use crate::model::{Cue, LyricsLine, MAX_CUE_MS, lines_from_cues, lines_of_cues, cue_views, copy_string};
use crate::text::{
    ascii_lower, ascii_lowered, chars_eq, chars_within, contains, contains_sub, from_utf8_lossy, is_ascii_text,
    is_ws, join, join_chars, lemma_nonempty_only_from, lemma_split_append, lemma_split_clean,
    lemma_split_piece_sizes, lemma_split_pieces_clean, lowercase, nonempty_only,
    nonempty_pieces, one_of, parse_unsigned, parse_unsigned_chars, split_on, split_on_whitespace,
    split_when, str_bytes, str_chars, string_from_chars, sub_chars, trim, trim_chars,
    unicode_lowercase, utf8_lossy, views, whitespace_pred, concat_chars, to_decimal, decimal,
};

verus! {

/// One song of the catalogue: its LouvorJA id, its name and its album.
#[derive(Debug, Clone, PartialEq, Eq)]
pub struct CatalogEntry {
    pub id: String,
    pub name: String,
    pub album: String,
}

/// The LouvorJA lyrics provider.
pub struct LouvorJaProvider;

impl LouvorJaProvider {
    pub fn new() -> Self {
        LouvorJaProvider
    }
}

/// The catalogue's song id, which the service sends as text or as a number.
pub enum CatalogIdMusic {
    String(String),
    Number(i64),
    Unsigned(u64),
}

/// One song of a catalogue page, as the service sends it.
pub struct CatalogPageItem {
    pub id_music: CatalogIdMusic,
    pub name: String,
    pub url_music: Option<String>,
}

/// One timed lyric of a song, as the service sends it: `time` is
/// `HH:MM:SS`.
pub struct LyricItem {
    pub lyric: Option<String>,
    pub time: String,
}

/// A song's details: its id, title, album, official audio address and
/// lines.
pub struct LouvorJaDetailResult {
    pub id: String,
    pub title: String,
    pub album: Option<String>,
    pub audio_url: Option<String>,
    pub lines: Vec<LyricsLine>,
}

/// The largest number of search results.
pub const MAX_SEARCH_RESULTS: usize = 15;

/// How long a stored catalogue stays fresh, in seconds (a week).
pub const CATALOG_MAX_AGE_SECS: u64 = 604800;

/// A combining diacritical mark (U+0300 to U+036F).
pub open spec fn is_combining_mark(c: char) -> bool {
    0x300 <= (c as u32) && (c as u32) <= 0x36F
}

/// `s` without combining marks.
pub open spec fn remove_marks(s: Seq<char>) -> Seq<char>
    decreases s.len(),
{
    if s.len() == 0 {
        seq![]
    } else {
        let r = remove_marks(s.drop_last());
        if is_combining_mark(s.last()) {
            r
        } else {
            r.push(s.last())
        }
    }
}

/// A lowercase character with its accent removed; ASCII letters, digits
/// and spaces kept; anything else a space.
pub open spec fn fold_char(c: char) -> char {
    if c == 'á' || c == 'à' || c == 'ã' || c == 'â' || c == 'ä' {
        'a'
    } else if c == 'é' || c == 'è' || c == 'ê' || c == 'ë' {
        'e'
    } else if c == 'í' || c == 'ì' || c == 'î' || c == 'ï' {
        'i'
    } else if c == 'ó' || c == 'ò' || c == 'õ' || c == 'ô' || c == 'ö' {
        'o'
    } else if c == 'ú' || c == 'ù' || c == 'û' || c == 'ü' {
        'u'
    } else if c == 'ç' {
        'c'
    } else if ('a' <= c && c <= 'z') || ('0' <= c && c <= '9') || c == ' ' {
        c
    } else {
        ' '
    }
}

/// A song name reduced for comparison: combining marks removed, lowercase,
/// accents folded, other symbols as spaces, words separated by one space.
pub open spec fn normalize_text(s: Seq<char>) -> Seq<char> {
    normalize_lowered(unicode_lowercase(remove_marks(s)))
}

/// The normalized form of text already lowercased: accents folded, other
/// symbols as spaces, words separated by one space.
pub open spec fn normalize_lowered(lowered: Seq<char>) -> Seq<char> {
    let folded = lowered.map_values(|c: char| fold_char(c));
    join(nonempty_only(split_when(folded, whitespace_pred())), seq![' '])
}

/// The base letter of an accented lowercase Portuguese letter (`á à ã â ä`
/// → `a`, `é è ê ë` → `e`, `í ì î ï` → `i`, `ó ò õ ô ö` → `o`, `ú ù û ü` →
/// `u`, `ç` → `c`); any other character is itself.
pub open spec fn base_letter(c: char) -> char {
    if c == 'á' || c == 'à' || c == 'ã' || c == 'â' || c == 'ä' {
        'a'
    } else if c == 'é' || c == 'è' || c == 'ê' || c == 'ë' {
        'e'
    } else if c == 'í' || c == 'ì' || c == 'î' || c == 'ï' {
        'i'
    } else if c == 'ó' || c == 'ò' || c == 'õ' || c == 'ô' || c == 'ö' {
        'o'
    } else if c == 'ú' || c == 'ù' || c == 'û' || c == 'ü' {
        'u'
    } else if c == 'ç' {
        'c'
    } else {
        c
    }
}

/// Normalizing ignores accents: lowercased text normalizes exactly as the
/// same text with every accented letter replaced by its base letter does,
/// so "coração" and "coracao" compare equal.
pub proof fn lemma_normalize_ignores_accents(lowered: Seq<char>)
    ensures
        normalize_lowered(lowered) == normalize_lowered(
            lowered.map_values(|c: char| base_letter(c)),
        ),
{
    let unaccented = lowered.map_values(|c: char| base_letter(c));
    assert(lowered.map_values(|c: char| fold_char(c)) =~= unaccented.map_values(
        |c: char| fold_char(c),
    )) by {
        assert forall|k: int| 0 <= k < lowered.len() implies fold_char(lowered[k]) == fold_char(
            #[trigger] unaccented[k],
        ) by {
            assert(unaccented[k] == base_letter(lowered[k]));
        }
    }
}

/// Folding keeps lowercase ASCII letters and digits, and turns each accented
/// letter into its base letter.
pub proof fn lemma_fold_keeps_base_letters(c: char)
    ensures
        ('a' <= c && c <= 'z') || ('0' <= c && c <= '9') ==> fold_char(c) == c,
        base_letter(c) != c ==> fold_char(c) == base_letter(c),
{
}

/// A character of a normalized word: a lowercase ASCII letter or a digit.
pub open spec fn is_word_char(c: char) -> bool {
    ('a' <= c && c <= 'z') || ('0' <= c && c <= '9')
}

/// Non-empty words of lowercase ASCII letters and digits.
pub open spec fn normalized_words(ws: Seq<Seq<char>>) -> bool {
    forall|i: int|
        0 <= i < ws.len() ==> (#[trigger] ws[i]).len() > 0 && forall|k: int|
            0 <= k < ws[i].len() ==> is_word_char(#[trigger] ws[i][k])
}

/// Normalized text: such words separated by single spaces.
pub open spec fn is_normalized(t: Seq<char>) -> bool {
    exists|ws: Seq<Seq<char>>| normalized_words(ws) && t == join(ws, seq![' '])
}

/// Normalized text holds only word characters and spaces.
proof fn lemma_join_words_chars(ws: Seq<Seq<char>>)
    requires
        normalized_words(ws),
    ensures
        forall|k: int|
            0 <= k < join(ws, seq![' ']).len() ==> is_word_char(#[trigger] join(ws, seq![' '])[k])
                || join(ws, seq![' '])[k] == ' ',
    decreases ws.len(),
{
    if ws.len() == 1 {
        assert(ws[0].len() > 0);
    } else if ws.len() > 1 {
        let init = ws.drop_last();
        assert(normalized_words(init)) by {
            assert forall|i: int| 0 <= i < init.len() implies (#[trigger] init[i]).len() > 0
                && forall|k: int| 0 <= k < init[i].len() ==> is_word_char(#[trigger] init[i][k]) by {
                assert(init[i] == ws[i]);
            }
        }
        lemma_join_words_chars(init);
        let a = join(init, seq![' ']);
        let w = ws.last();
        assert(w == ws[ws.len() - 1]);
        let t = join(ws, seq![' ']);
        assert(t == a + seq![' '] + w);
        assert forall|k: int| 0 <= k < t.len() implies is_word_char(#[trigger] t[k]) || t[k] == ' ' by {
            if k < a.len() {
                assert(t[k] == a[k]);
            } else if k > a.len() {
                assert(t[k] == w[k - a.len() - 1]);
            }
        }
    }
}

/// Splitting words joined by single spaces at whitespace gives the words.
proof fn lemma_split_join_words(ws: Seq<Seq<char>>)
    requires
        ws.len() >= 1,
        normalized_words(ws),
    ensures
        split_when(join(ws, seq![' ']), whitespace_pred()) == ws,
    decreases ws.len(),
{
    let sp = whitespace_pred();
    let w = ws.last();
    assert(w == ws[ws.len() - 1]);
    assert forall|k: int| 0 <= k < w.len() implies !sp(#[trigger] w[k]) by {
        assert(is_word_char(w[k]));
    }
    lemma_split_clean(w, sp);
    if ws.len() == 1 {
        assert(seq![w] =~= ws);
    } else {
        let init = ws.drop_last();
        assert(normalized_words(init)) by {
            assert forall|i: int| 0 <= i < init.len() implies (#[trigger] init[i]).len() > 0
                && forall|k: int| 0 <= k < init[i].len() ==> is_word_char(#[trigger] init[i][k]) by {
                assert(init[i] == ws[i]);
            }
        }
        lemma_split_join_words(init);
        let a = join(init, seq![' ']);
        let b = a + seq![' '];
        assert(b.drop_last() =~= a);
        assert(b.last() == ' ');
        assert(sp(' '));
        assert(split_when(b, sp) == init.push(Seq::<char>::empty()));
        lemma_split_append(b, w, sp);
        assert(join(ws, seq![' ']) == b + w);
        assert(Seq::<char>::empty() + w =~= w);
        assert(seq![w].skip(1) =~= Seq::<Seq<char>>::empty());
        assert(init.push(Seq::<char>::empty()).drop_last() =~= init);
        assert(init + seq![w] =~= ws);
    }
}

/// Non-empty words are kept whole by `nonempty_only`.
proof fn lemma_nonempty_only_keeps(ws: Seq<Seq<char>>)
    requires
        forall|i: int| 0 <= i < ws.len() ==> (#[trigger] ws[i]).len() > 0,
    ensures
        nonempty_only(ws) == ws,
    decreases ws.len(),
{
    if ws.len() > 0 {
        let init = ws.drop_last();
        assert forall|i: int| 0 <= i < init.len() implies (#[trigger] init[i]).len() > 0 by {
            assert(init[i] == ws[i]);
        }
        lemma_nonempty_only_keeps(init);
        assert(ws.last() == ws[ws.len() - 1]);
        assert(init.push(ws.last()) =~= ws);
    }
}

/// Text without combining marks loses nothing to `remove_marks`.
proof fn lemma_remove_no_marks(s: Seq<char>)
    requires
        forall|k: int| 0 <= k < s.len() ==> !is_combining_mark(#[trigger] s[k]),
    ensures
        remove_marks(s) == s,
    decreases s.len(),
{
    if s.len() > 0 {
        lemma_remove_no_marks(s.drop_last());
        assert(s.drop_last().push(s.last()) =~= s);
    }
}

/// What `normalize` gives is normalized: words of lowercase ASCII letters
/// and digits separated by single spaces. Normalizing such text again
/// gives it back, wherever `str::to_lowercase` leaves it as ASCII
/// lowercasing does (which it does for ASCII text).
pub proof fn lemma_normalize_form(s: Seq<char>)
    ensures
        is_normalized(normalize_text(s)),
        unicode_lowercase(normalize_text(s)) == ascii_lowered(normalize_text(s)) ==> normalize_text(
            normalize_text(s),
        ) == normalize_text(s),
{
    let folded = unicode_lowercase(remove_marks(s)).map_values(|c: char| fold_char(c));
    let sp = whitespace_pred();
    let pieces = split_when(folded, sp);
    let ws = nonempty_only(pieces);
    lemma_nonempty_only_from(pieces);
    lemma_split_piece_sizes(folded, sp);
    lemma_split_pieces_clean(folded, sp);
    assert forall|i: int| 0 <= i < ws.len() implies (#[trigger] ws[i]).len() > 0 && forall|k: int|
        0 <= k < ws[i].len() ==> is_word_char(#[trigger] ws[i][k]) by {
        let q = choose|q: int| 0 <= q < pieces.len() && pieces[q] == ws[i];
        assert forall|k: int| 0 <= k < ws[i].len() implies is_word_char(#[trigger] ws[i][k]) by {
            assert(pieces[q][k] == ws[i][k]);
            assert(!sp(pieces[q][k]));
            assert(chars_within(pieces[q], folded));
            assert(folded.contains(pieces[q][k]));
            let m = choose|m: int| 0 <= m < folded.len() && folded[m] == pieces[q][k];
            assert(folded[m] == fold_char(unicode_lowercase(remove_marks(s))[m]));
        }
    }
    assert(normalized_words(ws));
    let t = normalize_text(s);
    assert(t == join(ws, seq![' ']));
    if unicode_lowercase(t) == ascii_lowered(t) {
        lemma_normalize_fixed(t);
    }
}

/// Normalized text normalizes to itself, where `str::to_lowercase` leaves
/// it as ASCII lowercasing does.
proof fn lemma_normalize_fixed(t: Seq<char>)
    requires
        is_normalized(t),
        unicode_lowercase(t) == ascii_lowered(t),
    ensures
        normalize_text(t) == t,
{
    let ws = choose|ws: Seq<Seq<char>>| normalized_words(ws) && t == join(ws, seq![' ']);
    lemma_join_words_chars(ws);
    assert forall|k: int| 0 <= k < t.len() implies !is_combining_mark(#[trigger] t[k]) by {
        assert(is_word_char(t[k]) || t[k] == ' ');
    }
    lemma_remove_no_marks(t);
    let folded = unicode_lowercase(remove_marks(t)).map_values(|c: char| fold_char(c));
    assert(folded =~= t) by {
        assert forall|k: int| 0 <= k < t.len() implies folded[k] == t[k] by {
            assert(is_word_char(t[k]) || t[k] == ' ');
            assert(ascii_lowered(t)[k] == ascii_lower(t[k]));
        }
    }
    if ws.len() == 0 {
        assert(t =~= Seq::<char>::empty());
        assert(split_when(t, whitespace_pred()) =~= seq![Seq::<char>::empty()]);
        let e = seq![Seq::<char>::empty()];
        assert(e.drop_last() =~= Seq::<Seq<char>>::empty());
        assert(nonempty_only(e.drop_last()) =~= Seq::<Seq<char>>::empty());
        assert(e.last().len() == 0);
        assert(nonempty_only(e) =~= Seq::<Seq<char>>::empty());
        assert(join(Seq::<Seq<char>>::empty(), seq![' ']) =~= Seq::<char>::empty());
    } else {
        lemma_split_join_words(ws);
        assert forall|i: int| 0 <= i < ws.len() implies (#[trigger] ws[i]).len() > 0 by {}
        lemma_nonempty_only_keeps(ws);
    }
}

/// Normalized text is ASCII.
proof fn lemma_normalized_ascii(t: Seq<char>)
    requires
        is_normalized(t),
    ensures
        is_ascii_text(t),
{
    let ws = choose|ws: Seq<Seq<char>>| normalized_words(ws) && t == join(ws, seq![' ']);
    lemma_join_words_chars(ws);
    assert forall|k: int| 0 <= k < t.len() implies (#[trigger] t[k] as u32) < 128 by {
        assert(is_word_char(t[k]) || t[k] == ' ');
    }
}

fn fold(c: char) -> (res: char)
    ensures
        res == fold_char(c),
{
    if c == 'á' || c == 'à' || c == 'ã' || c == 'â' || c == 'ä' {
        'a'
    } else if c == 'é' || c == 'è' || c == 'ê' || c == 'ë' {
        'e'
    } else if c == 'í' || c == 'ì' || c == 'î' || c == 'ï' {
        'i'
    } else if c == 'ó' || c == 'ò' || c == 'õ' || c == 'ô' || c == 'ö' {
        'o'
    } else if c == 'ú' || c == 'ù' || c == 'û' || c == 'ü' {
        'u'
    } else if c == 'ç' {
        'c'
    } else if ('a' <= c && c <= 'z') || ('0' <= c && c <= '9') || c == ' ' {
        c
    } else {
        ' '
    }
}

fn normalize_chars(s: &[char]) -> (res: Vec<char>)
    ensures
        res@ == normalize_text(s@),
        is_normalized(s@) ==> res@ == s@,
{
    let mut kept: Vec<char> = Vec::new();
    let mut i: usize = 0;
    while i < s.len()
        invariant
            i <= s@.len(),
            kept@ == remove_marks(s@.take(i as int)),
        decreases s.len() - i,
    {
        let c = s[i];
        assert(s@.take(i + 1).drop_last() =~= s@.take(i as int));
        let u = c as u32;
        if !(0x300 <= u && u <= 0x36F) {
            kept.push(c);
        }
        i = i + 1;
    }
    assert(s@.take(s@.len() as int) =~= s@);
    let lower = lowercase(kept.as_slice());
    proof {
        if is_normalized(s@) {
            let ws = choose|ws: Seq<Seq<char>>| normalized_words(ws) && s@ == join(ws, seq![' ']);
            lemma_join_words_chars(ws);
            assert forall|k: int| 0 <= k < s@.len() implies !is_combining_mark(#[trigger] s@[k]) by {
                assert(is_word_char(s@[k]) || s@[k] == ' ');
            }
            lemma_remove_no_marks(s@);
            lemma_normalized_ascii(s@);
            lemma_normalize_fixed(s@);
        }
    }
    let mut folded: Vec<char> = Vec::new();
    let mut k: usize = 0;
    while k < lower.len()
        invariant
            k <= lower@.len(),
            folded@ == lower@.take(k as int).map_values(|c: char| fold_char(c)),
        decreases lower.len() - k,
    {
        folded.push(fold(lower[k]));
        assert(folded@ =~= lower@.take(k + 1).map_values(|c: char| fold_char(c)));
        k = k + 1;
    }
    assert(lower@.take(lower@.len() as int) =~= lower@);
    let words = split_on_whitespace(folded.as_slice());
    let kept_words = nonempty_pieces(&words);
    let space = vec![' '];
    assert(space@ =~= seq![' ']);
    join_chars(&kept_words, space.as_slice())
}

/// Reduces a song name for comparison (see `normalize_text`); text that is
/// already normalized comes back unchanged, so normalizing twice is the
/// same as normalizing once (see `lemma_normalize_form`).
pub fn normalize(s: &str) -> (res: String)
    ensures
        res@ == normalize_text(s@),
        is_normalized(s@) ==> res@ == s@,
{
    let c = str_chars(s);
    let n = normalize_chars(c.as_slice());
    string_from_chars(n.as_slice())
}

/// The value of a hexadecimal digit.
pub open spec fn hex_value(b: u8) -> Option<nat> {
    if 48 <= b && b <= 57 {
        Some((b - 48) as nat)
    } else if 97 <= b && b <= 102 {
        Some((b - 87) as nat)
    } else if 65 <= b && b <= 70 {
        Some((b - 55) as nat)
    } else {
        None
    }
}

/// What `u8::from_str_radix(.., 16)` gives for the two characters that the
/// bytes `h1`, `h2` stand for: two hex digits, or `+` and one hex digit.
pub open spec fn hex_pair(h1: u8, h2: u8) -> Option<nat> {
    if h1 == 43 {
        hex_value(h2)
    } else {
        match (hex_value(h1), hex_value(h2)) {
            (Some(a), Some(b)) => Some(a * 16 + b),
            _ => None,
        }
    }
}

/// Percent-decoding as the album reader does it: `%` and two more bytes
/// become the byte they spell when they spell one, and `%` alone
/// otherwise (the two bytes are dropped); a `%` with fewer than two bytes
/// after it ends the text.
pub open spec fn percent_decode(bs: Seq<u8>) -> Seq<u8>
    decreases bs.len(),
{
    if bs.len() == 0 {
        seq![]
    } else if bs[0] == 37 {
        if bs.len() >= 3 {
            match hex_pair(bs[1], bs[2]) {
                Some(v) => seq![v as u8] + percent_decode(bs.skip(3)),
                None => seq![37u8] + percent_decode(bs.skip(3)),
            }
        } else {
            seq![37u8]
        }
    } else {
        seq![bs[0]] + percent_decode(bs.drop_first())
    }
}

/// The album name in a LouvorJA audio address: the last folder of its
/// percent-decoded path (the address read as UTF-8 bytes), unless that
/// folder is empty, `pt`, `musics`, `file`, or the service's host.
pub open spec fn album_of_text(url: Seq<char>) -> Option<Seq<char>> {
    album_of_decoded(utf8_lossy(percent_decode(vstd::utf8::encode_utf8(url))))
}

/// The album name in a decoded audio path: its last folder, trimmed,
/// unless that is empty, `pt`, `musics`, `file`, or the service's host.
pub open spec fn album_of_decoded(decoded: Seq<char>) -> Option<Seq<char>> {
    let parts = nonempty_only(split_when(decoded, one_of(seq!['/'])));
    if parts.len() >= 2 {
        let c = trim(parts[parts.len() - 2]);
        if c.len() > 0 && c != "pt"@ && c != "musics"@ && c != "file"@ && !contains_sub(
            c,
            "api.louvorja.com.br"@,
        ) {
            Some(c)
        } else {
            None
        }
    } else {
        None
    }
}

fn hex_digit(b: u8) -> (res: Option<u8>)
    ensures
        match res {
            Some(v) => hex_value(b) == Some(v as nat),
            None => hex_value(b) is None,
        },
{
    if 48 <= b && b <= 57 {
        Some(b - 48)
    } else if 97 <= b && b <= 102 {
        Some(b - 87)
    } else if 65 <= b && b <= 70 {
        Some(b - 55)
    } else {
        None
    }
}

fn decode_pair(h1: u8, h2: u8) -> (res: Option<u8>)
    ensures
        match res {
            Some(v) => hex_pair(h1, h2) == Some(v as nat),
            None => hex_pair(h1, h2) is None,
        },
{
    if h1 == 43 {
        hex_digit(h2)
    } else {
        match (hex_digit(h1), hex_digit(h2)) {
            (Some(a), Some(b)) => Some(a * 16 + b),
            _ => None,
        }
    }
}

fn percent_decode_bytes(bs: &[u8]) -> (res: Vec<u8>)
    ensures
        res@ == percent_decode(bs@),
{
    let n = bs.len();
    let mut out: Vec<u8> = Vec::new();
    let mut i: usize = 0;
    assert(bs@.skip(0) =~= bs@);
    assert(out@ + percent_decode(bs@) =~= percent_decode(bs@));
    while i < n
        invariant
            n == bs@.len(),
            i <= n,
            out@ + percent_decode(bs@.skip(i as int)) == percent_decode(bs@),
        decreases n - i,
    {
        let ghost rest = bs@.skip(i as int);
        if bs[i] == 37 {
            if n - i >= 3 {
                assert(rest.skip(3) =~= bs@.skip(i + 3));
                let v = match decode_pair(bs[i + 1], bs[i + 2]) {
                    Some(v) => v,
                    None => 37,
                };
                out.push(v);
                i = i + 3;
            } else {
                out.push(37);
                assert(out@ =~= percent_decode(bs@));
                return out;
            }
        } else {
            assert(rest.drop_first() =~= bs@.skip(i + 1));
            out.push(bs[i]);
            i = i + 1;
        }
    }
    assert(bs@.skip(n as int) =~= Seq::<u8>::empty());
    assert(out@ + seq![] =~= out@);
    out
}

/// Reads the album name from a LouvorJA audio address (see
/// `album_of_text`).
pub fn extract_album_from_url(url: &str) -> (res: Option<String>)
    ensures
        match res {
            Some(a) => album_of_text(url@) == Some(a@),
            None => album_of_text(url@) is None,
        },
        vstd::utf8::valid_utf8(percent_decode(vstd::utf8::encode_utf8(url@))) ==> match res {
            Some(a) => album_of_decoded(
                vstd::utf8::decode_utf8(percent_decode(vstd::utf8::encode_utf8(url@))),
            ) == Some(a@),
            None => album_of_decoded(
                vstd::utf8::decode_utf8(percent_decode(vstd::utf8::encode_utf8(url@))),
            ) is None,
        },
{
    let bytes = str_bytes(url);
    let decoded_bytes = percent_decode_bytes(bytes.as_slice());
    let decoded = from_utf8_lossy(decoded_bytes.as_slice());
    let slash = vec!['/'];
    assert(slash@ =~= seq!['/']);
    let pieces = split_on(decoded.as_slice(), slash.as_slice());
    let parts = nonempty_pieces(&pieces);
    if parts.len() >= 2 {
        let c = trim_chars(parts[parts.len() - 2].as_slice());
        let pt = str_chars("pt");
        let musics = str_chars("musics");
        let file = str_chars("file");
        let host = str_chars("api.louvorja.com.br");
        if c.len() > 0 && !chars_eq(c.as_slice(), pt.as_slice()) && !chars_eq(
            c.as_slice(),
            musics.as_slice(),
        ) && !chars_eq(c.as_slice(), file.as_slice()) && !contains(
            c.as_slice(),
            host.as_slice(),
        ) {
            return Some(string_from_chars(c.as_slice()));
        }
    }
    None
}

/// Whether no entry of a stored catalogue has an album (a catalogue saved
/// before albums were recorded).
pub fn catalog_needs_album_refresh(entries: &[CatalogEntry]) -> (res: bool)
    ensures
        res == forall|i: int| 0 <= i < entries@.len() ==> trim(#[trigger] entries@[i].album@).len()
            == 0,
{
    let mut i: usize = 0;
    while i < entries.len()
        invariant
            i <= entries@.len(),
            forall|k: int| 0 <= k < i ==> trim(#[trigger] entries@[k].album@).len() == 0,
        decreases entries.len() - i,
    {
        let a = str_chars(entries[i].album.as_str());
        let t = trim_chars(a.as_slice());
        if t.len() > 0 {
            return false;
        }
        i = i + 1;
    }
    true
}

/// The number an entry id spells, or 0 when it is not a number (its sort
/// key).
pub open spec fn id_key(id: Seq<char>) -> nat {
    match parse_unsigned(id, u64::MAX as nat) {
        Some(v) => v,
        None => 0,
    }
}

/// Whether an entry's normalized name equals the normalized query.
pub open spec fn exact_match(e: CatalogEntry, q: Seq<char>) -> bool {
    normalize_text(e.name@) == q
}

/// Whether an entry's normalized name and the normalized query contain one
/// another.
pub open spec fn partial_match(e: CatalogEntry, q: Seq<char>) -> bool {
    contains_sub(normalize_text(e.name@), q) || contains_sub(q, normalize_text(e.name@))
}

/// The position of the matching entry with the highest id key, the latest
/// one among equal keys.
pub open spec fn latest_best(cat: Seq<CatalogEntry>, q: Seq<char>, exact: bool) -> Option<int>
    decreases cat.len(),
{
    if cat.len() == 0 {
        None
    } else {
        let b = latest_best(cat.drop_last(), q, exact);
        let i = cat.len() - 1;
        let m = if exact {
            exact_match(cat[i], q)
        } else {
            partial_match(cat[i], q)
        };
        if m && (match b {
            None => true,
            Some(j) => id_key(cat[i].id@) >= id_key(cat[j].id@),
        }) {
            Some(i)
        } else {
            b
        }
    }
}

/// The catalogue position of the best match for `query`: among the entries
/// whose name matches exactly (after normalizing), else among those whose
/// name contains or is contained in the query, the one with the highest id
/// (the newest version). `None` for an empty query or no match.
pub open spec fn best_match_index(cat: Seq<CatalogEntry>, query: Seq<char>) -> Option<int> {
    let q = normalize_text(query);
    if q.len() == 0 {
        None
    } else {
        match latest_best(cat, q, true) {
            Some(i) => Some(i),
            None => latest_best(cat, q, false),
        }
    }
}

proof fn lemma_latest_best_bounds(cat: Seq<CatalogEntry>, q: Seq<char>, exact: bool)
    ensures
        latest_best(cat, q, exact) matches Some(i) ==> 0 <= i < cat.len(),
    decreases cat.len(),
{
    if cat.len() > 0 {
        lemma_latest_best_bounds(cat.drop_last(), q, exact);
    }
}

fn entry_key(e: &CatalogEntry) -> (res: u64)
    ensures
        res as nat == id_key(e.id@),
{
    let id = str_chars(e.id.as_str());
    match parse_unsigned_chars(id.as_slice(), u64::MAX) {
        Some(v) => v,
        None => 0,
    }
}

fn best_among(cat: &[CatalogEntry], q: &[char], exact: bool) -> (res: Option<usize>)
    ensures
        match res {
            Some(i) => latest_best(cat@, q@, exact) == Some(i as int) && i < cat@.len(),
            None => latest_best(cat@, q@, exact) is None,
        },
{
    let mut best: Option<usize> = None;
    let mut best_key: u64 = 0;
    let mut i: usize = 0;
    while i < cat.len()
        invariant
            i <= cat@.len(),
            match best {
                Some(j) => latest_best(cat@.take(i as int), q@, exact) == Some(j as int) && j < i
                    && best_key as nat == id_key(cat@[j as int].id@),
                None => latest_best(cat@.take(i as int), q@, exact) is None,
            },
        decreases cat.len() - i,
    {
        assert(cat@.take(i + 1).drop_last() =~= cat@.take(i as int));
        assert(cat@.take(i + 1)[i as int] == cat@[i as int]);
        let name = str_chars(cat[i].name.as_str());
        let n = normalize_chars(name.as_slice());
        let m = if exact {
            chars_eq(n.as_slice(), q)
        } else {
            contains(n.as_slice(), q) || contains(q, n.as_slice())
        };
        if m {
            let k = entry_key(&cat[i]);
            let better = match best {
                None => true,
                Some(_) => k >= best_key,
            };
            if better {
                best = Some(i);
                best_key = k;
            }
        }
        proof {
            if let Some(j) = best {
                assert(cat@.take(i + 1)[j as int] == cat@[j as int]);
            }
        }
        i = i + 1;
    }
    assert(cat@.take(cat@.len() as int) =~= cat@);
    best
}

/// Finds the catalogue entry that best matches a song name (see
/// `best_match_index`).
pub fn find_best_match<'a>(catalog: &'a [CatalogEntry], query: &str) -> (res: Option<
    &'a CatalogEntry,
>)
    ensures
        match res {
            Some(e) => best_match_index(catalog@, query@) matches Some(i) && 0 <= i
                < catalog@.len() && *e == catalog@[i],
            None => best_match_index(catalog@, query@) is None,
        },
{
    let qc = str_chars(query);
    let q = normalize_chars(qc.as_slice());
    if q.len() == 0 {
        return None;
    }
    match best_among(catalog, q.as_slice(), true) {
        Some(i) => Some(&catalog[i]),
        None => match best_among(catalog, q.as_slice(), false) {
            Some(i) => Some(&catalog[i]),
            None => None,
        },
    }
}

/// The start time, in milliseconds, of a LouvorJA time `HH:MM:SS`: exactly
/// three numbers; `None` when the time exceeds the largest cue time.
pub open spec fn louvorja_time(t: Seq<char>) -> Option<int> {
    let p = split_when(t, one_of(seq![':']));
    if p.len() != 3 {
        None
    } else {
        match (
            parse_unsigned(p[0], u64::MAX as nat),
            parse_unsigned(p[1], u64::MAX as nat),
            parse_unsigned(p[2], u64::MAX as nat),
        ) {
            (Some(h), Some(m), Some(s)) => {
                let ms = (h * 3600 + m * 60 + s) * 1000;
                if ms <= MAX_CUE_MS {
                    Some(ms as int)
                } else {
                    None
                }
            },
            _ => None,
        }
    }
}

/// Reads a LouvorJA time `HH:MM:SS` as milliseconds.
pub fn parse_time(time: &str) -> (res: Option<i64>)
    ensures
        match res {
            Some(v) => louvorja_time(time@) == Some(v as int) && 0 <= v <= MAX_CUE_MS,
            None => louvorja_time(time@) is None,
        },
{
    let t = str_chars(time);
    let colon = vec![':'];
    assert(colon@ =~= seq![':']);
    let p = split_on(t.as_slice(), colon.as_slice());
    if p.len() != 3 {
        return None;
    }
    let h = match parse_unsigned_chars(p[0].as_slice(), u64::MAX) {
        Some(v) => v,
        None => return None,
    };
    let m = match parse_unsigned_chars(p[1].as_slice(), u64::MAX) {
        Some(v) => v,
        None => return None,
    };
    let s = match parse_unsigned_chars(p[2].as_slice(), u64::MAX) {
        Some(v) => v,
        None => return None,
    };
    let limit: u64 = 4_000_000_000_000_000;
    if h > limit || m > limit || s > limit {
        assert((h * 3600 + m * 60 + s) * 1000 > MAX_CUE_MS);
        return None;
    }
    let ms: u128 = ((h as u128) * 3600 + (m as u128) * 60 + (s as u128)) * 1000;
    if ms > MAX_CUE_MS as u128 {
        return None;
    }
    Some(ms as i64)
}

/// The cue of a timed lyric: its trimmed text, when not empty, at its time.
pub open spec fn lyric_cue(item: LyricItem) -> Option<(int, Seq<char>)> {
    let text = trim(
        match item.lyric {
            Some(l) => l@,
            None => seq![],
        },
    );
    if text.len() == 0 {
        None
    } else {
        match louvorja_time(item.time@) {
            Some(t) => Some((t, text)),
            None => None,
        }
    }
}

/// The cues of a song's timed lyrics, in order.
pub open spec fn lyric_cues(items: Seq<LyricItem>) -> Seq<(int, Seq<char>)>
    decreases items.len(),
{
    if items.len() == 0 {
        seq![]
    } else {
        let r = lyric_cues(items.drop_last());
        match lyric_cue(items.last()) {
            Some(c) => r.push(c),
            None => r,
        }
    }
}

/// Turns a song's timed lyrics into lines for `music_id`: lyrics with empty
/// text or an unreadable time are skipped; each line ends where the next
/// starts, the last one five seconds after its start.
pub fn build_lines(music_id: &str, items: Vec<LyricItem>) -> (res: Vec<LyricsLine>)
    ensures
        lines_of_cues(res@, lyric_cues(items@), music_id@),
{
    let mut cues: Vec<Cue> = Vec::new();
    let mut i: usize = 0;
    while i < items.len()
        invariant
            i <= items@.len(),
            cue_views(cues@) == lyric_cues(items@.take(i as int)),
            forall|k: int| 0 <= k < cues@.len() ==> 0 <= #[trigger] cues@[k].start_ms <= MAX_CUE_MS,
        decreases items.len() - i,
    {
        assert(items@.take(i + 1).drop_last() =~= items@.take(i as int));
        assert(items@.take(i + 1).last() == items@[i as int]);
        let raw = match &items[i].lyric {
            Some(l) => str_chars(l.as_str()),
            None => Vec::new(),
        };
        assert(raw@ =~= match items@[i as int].lyric {
            Some(l) => l@,
            None => seq![],
        });
        let text = trim_chars(raw.as_slice());
        if text.len() > 0 {
            match parse_time(items[i].time.as_str()) {
                Some(t) => {
                    let ghost before = cue_views(cues@);
                    let ghost tv = text@;
                    cues.push(Cue { start_ms: t, text });
                    assert(cue_views(cues@) =~= before.push((t as int, tv)));
                },
                None => {},
            }
        }
        i = i + 1;
    }
    assert(items@.take(items@.len() as int) =~= items@);
    lines_from_cues(&cues, music_id)
}

/// The text of a catalogue id.
pub open spec fn id_text(id: CatalogIdMusic) -> Seq<char> {
    match id {
        CatalogIdMusic::String(v) => v@,
        CatalogIdMusic::Number(v) => if v < 0 {
            seq!['-'] + decimal((-v) as nat)
        } else {
            decimal(v as nat)
        },
        CatalogIdMusic::Unsigned(v) => decimal(v as nat),
    }
}

impl CatalogIdMusic {
    /// The id as text, numbers in decimal.
    pub fn into_string(self) -> (res: String)
        ensures
            res@ == id_text(self),
    {
        match self {
            CatalogIdMusic::String(value) => value,
            CatalogIdMusic::Number(value) => {
                if value < 0 {
                    let magnitude: u64 = ((-(value + 1)) as u64) + 1;
                    let digits = to_decimal(magnitude as u128);
                    let minus = vec!['-'];
                    let all = concat_chars(minus.as_slice(), digits.as_slice());
                    string_from_chars(all.as_slice())
                } else {
                    let digits = to_decimal(value as u128);
                    string_from_chars(digits.as_slice())
                }
            },
            CatalogIdMusic::Unsigned(value) => {
                let digits = to_decimal(value as u128);
                string_from_chars(digits.as_slice())
            },
        }
    }
}

/// The entries whose normalized name partially matches `q`, in catalogue
/// order.
pub open spec fn matching_entries(cat: Seq<CatalogEntry>, q: Seq<char>) -> Seq<CatalogEntry>
    decreases cat.len(),
{
    if cat.len() == 0 {
        Seq::empty()
    } else {
        let m = matching_entries(cat.drop_last(), q);
        if partial_match(cat.last(), q) {
            m.push(cat.last())
        } else {
            m
        }
    }
}

/// Where an entry with id key `k` goes in a list ordered newest first:
/// after the leading entries whose key is at least `k`.
pub open spec fn newest_first_pos(sorted: Seq<CatalogEntry>, k: nat) -> int
    decreases sorted.len(),
{
    if sorted.len() == 0 {
        0
    } else if id_key(sorted[0].id@) >= k {
        1 + newest_first_pos(sorted.drop_first(), k)
    } else {
        0
    }
}

/// `entries` ordered by decreasing id key (the newest version first);
/// among equal keys, later entries come first.
pub open spec fn newest_first(entries: Seq<CatalogEntry>) -> Seq<CatalogEntry>
    decreases entries.len(),
{
    if entries.len() == 0 {
        Seq::empty()
    } else {
        let rest = newest_first(entries.drop_first());
        rest.insert(newest_first_pos(rest, id_key(entries[0].id@)), entries[0])
    }
}

/// What a catalogue search gives: the entries whose normalized name
/// contains or is contained in the normalized query, newest first, at most
/// `MAX_SEARCH_RESULTS` of them; nothing for a query that normalizes to
/// empty text.
pub open spec fn search_results(cat: Seq<CatalogEntry>, query: Seq<char>) -> Seq<CatalogEntry> {
    let q = normalize_text(query);
    if q.len() == 0 {
        Seq::empty()
    } else {
        let s = newest_first(matching_entries(cat, q));
        if s.len() > MAX_SEARCH_RESULTS {
            s.take(MAX_SEARCH_RESULTS as int)
        } else {
            s
        }
    }
}

proof fn lemma_newest_first_pos_bounds(sorted: Seq<CatalogEntry>, k: nat)
    ensures
        0 <= newest_first_pos(sorted, k) <= sorted.len(),
    decreases sorted.len(),
{
    if sorted.len() > 0 {
        lemma_newest_first_pos_bounds(sorted.drop_first(), k);
    }
}

/// A copy of an entry.
pub fn copy_entry(e: &CatalogEntry) -> (res: CatalogEntry)
    ensures
        res == *e,
{
    CatalogEntry { id: copy_string(&e.id), name: copy_string(&e.name), album: copy_string(&e.album) }
}

fn matching_in(cat: &[CatalogEntry], q: &[char]) -> (res: Vec<CatalogEntry>)
    ensures
        res@ == matching_entries(cat@, q@),
{
    let mut res: Vec<CatalogEntry> = Vec::new();
    let mut i: usize = 0;
    while i < cat.len()
        invariant
            i <= cat@.len(),
            res@ == matching_entries(cat@.take(i as int), q@),
        decreases cat.len() - i,
    {
        assert(cat@.take(i + 1).drop_last() =~= cat@.take(i as int));
        assert(cat@.take(i + 1).last() == cat@[i as int]);
        let name = str_chars(cat[i].name.as_str());
        let n = normalize_chars(name.as_slice());
        if contains(n.as_slice(), q) || contains(q, n.as_slice()) {
            res.push(copy_entry(&cat[i]));
        }
        i = i + 1;
    }
    assert(cat@.take(cat@.len() as int) =~= cat@);
    res
}

fn insertion_pos(sorted: &Vec<CatalogEntry>, k: u64) -> (res: usize)
    ensures
        res as int == newest_first_pos(sorted@, k as nat),
        res <= sorted@.len(),
{
    let mut j: usize = 0;
    assert(sorted@.skip(0) =~= sorted@);
    while j < sorted.len() && entry_key(&sorted[j]) >= k
        invariant
            j <= sorted@.len(),
            newest_first_pos(sorted@, k as nat) == j + newest_first_pos(
                sorted@.skip(j as int),
                k as nat,
            ),
        decreases sorted.len() - j,
    {
        assert(sorted@.skip(j as int)[0] == sorted@[j as int]);
        assert(sorted@.skip(j as int).drop_first() =~= sorted@.skip(j + 1));
        j = j + 1;
    }
    if j < sorted.len() {
        assert(sorted@.skip(j as int)[0] == sorted@[j as int]);
    }
    j
}

fn order_newest_first(entries: &Vec<CatalogEntry>) -> (res: Vec<CatalogEntry>)
    ensures
        res@ == newest_first(entries@),
{
    let mut res: Vec<CatalogEntry> = Vec::new();
    let mut i: usize = entries.len();
    assert(entries@.skip(i as int) =~= Seq::<CatalogEntry>::empty());
    while i > 0
        invariant
            i <= entries@.len(),
            res@ == newest_first(entries@.skip(i as int)),
        decreases i,
    {
        let e = copy_entry(&entries[i - 1]);
        let k = entry_key(&e);
        let pos = insertion_pos(&res, k);
        let ghost rest = res@;
        res.insert(pos, e);
        assert(entries@.skip(i - 1).drop_first() =~= entries@.skip(i as int));
        assert(entries@.skip(i - 1)[0] == entries@[i - 1]);
        i = i - 1;
    }
    assert(entries@.skip(0) =~= entries@);
    res
}

impl LouvorJaProvider {
    /// Searches the catalogue for a song name (see `search_results`).
    pub fn search_catalog(catalog: &[CatalogEntry], query: &str) -> (res: Vec<CatalogEntry>)
        ensures
            res@ == search_results(catalog@, query@),
    {
        let qc = str_chars(query);
        let q = normalize_chars(qc.as_slice());
        if q.len() == 0 {
            return Vec::new();
        }
        let matches = matching_in(catalog, q.as_slice());
        let mut ordered = order_newest_first(&matches);
        ordered.truncate(MAX_SEARCH_RESULTS);
        ordered
    }
}

/// How many times a request to the service is tried.
pub const LOUVORJA_MAX_RETRIES: u32 = 3;

/// How long to wait, in seconds, after the failed try number `attempt`
/// (counted from 1) before the next one: 1, 2, 4, ... seconds; `None`
/// after the last try.
pub fn retry_delay_secs(attempt: u32) -> (res: Option<u64>)
    requires
        1 <= attempt <= LOUVORJA_MAX_RETRIES,
    ensures
        attempt < LOUVORJA_MAX_RETRIES ==> res == Some(
            vstd::arithmetic::power2::pow2((attempt - 1) as nat) as u64,
        ),
        attempt == LOUVORJA_MAX_RETRIES ==> res is None,
{
    proof {
        vstd::arithmetic::power2::lemma2_to64();
    }
    if attempt == 1 {
        Some(1)
    } else if attempt == 2 {
        Some(2)
    } else {
        None
    }
}

/// Whether the stored catalogue must be fetched again: when it is missing
/// (or its age is unknown), or older than `CATALOG_MAX_AGE_SECS`. The age
/// is in nanoseconds.
pub fn catalog_is_stale(age_nanos: Option<u128>) -> (res: bool)
    ensures
        res == match age_nanos {
            Some(a) => a > CATALOG_MAX_AGE_SECS * 1_000_000_000,
            None => true,
        },
{
    match age_nanos {
        Some(a) => a > (CATALOG_MAX_AGE_SECS as u128) * 1_000_000_000,
        None => true,
    }
}

/// Whether a fresh stored catalogue is used as it is: unless it holds
/// entries and none of them has an album.
pub fn use_stored_catalog(entries: &[CatalogEntry]) -> (res: bool)
    ensures
        res == (entries@.len() == 0 || !(forall|i: int|
            0 <= i < entries@.len() ==> trim(#[trigger] entries@[i].album@).len() == 0)),
{
    entries.len() == 0 || !catalog_needs_album_refresh(entries)
}

/// The page fetched after `page`: none once the last page (1 when the
/// service does not say) is reached.
pub fn next_catalog_page(page: u32, last_page: Option<u32>) -> (res: Option<u32>)
    ensures
        res == (if page >= (match last_page {
            Some(l) => l,
            None => 1u32,
        }) {
            None::<u32>
        } else {
            Some((page + 1) as u32)
        }),
{
    let last = match last_page {
        Some(l) => l,
        None => 1,
    };
    if page >= last {
        None
    } else {
        Some(page + 1)
    }
}

/// The (id, name, album) of a catalogue entry.
pub open spec fn entry_view(e: CatalogEntry) -> (Seq<char>, Seq<char>, Seq<char>) {
    (e.id@, e.name@, e.album@)
}

/// The entry a catalogue page item gives: its id as text, its trimmed name
/// and the album read from its audio address (empty when none is read);
/// none for an item whose name is blank.
pub open spec fn page_entry(item: CatalogPageItem) -> Option<(Seq<char>, Seq<char>, Seq<char>)> {
    let name = trim(item.name@);
    if name.len() == 0 {
        None
    } else {
        Some(
            (
                id_text(item.id_music),
                name,
                match item.url_music {
                    Some(u) => match album_of_text(u@) {
                        Some(a) => a,
                        None => Seq::empty(),
                    },
                    None => Seq::empty(),
                },
            ),
        )
    }
}

/// The entries of a catalogue page, in order.
pub open spec fn page_entries(items: Seq<CatalogPageItem>) -> Seq<(Seq<char>, Seq<char>, Seq<char>)>
    decreases items.len(),
{
    if items.len() == 0 {
        Seq::empty()
    } else {
        let r = page_entries(items.drop_last());
        match page_entry(items.last()) {
            Some(e) => r.push(e),
            None => r,
        }
    }
}

/// Turns the items of a catalogue page into entries (see `page_entry`).
pub fn entries_from_page(items: Vec<CatalogPageItem>) -> (res: Vec<CatalogEntry>)
    ensures
        res@.map_values(|e: CatalogEntry| entry_view(e)) == page_entries(items@),
{
    let ghost all = items@;
    let mut items = items;
    let mut res: Vec<CatalogEntry> = Vec::new();
    let mut k: usize = 0;
    assert(all.skip(0) =~= all);
    let n = items.len();
    while items.len() > 0
        invariant
            n == all.len(),
            k <= all.len(),
            items@ == all.skip(k as int),
            res@.map_values(|e: CatalogEntry| entry_view(e)) == page_entries(all.take(k as int)),
        decreases items.len(),
    {
        let item = items.remove(0);
        assert(item == all[k as int]);
        assert(all.take(k + 1).drop_last() =~= all.take(k as int));
        assert(all.take(k + 1).last() == all[k as int]);
        assert(all.skip(k as int).remove(0) =~= all.skip(k + 1));
        let name = trim_chars(str_chars(item.name.as_str()).as_slice());
        let ghost url = item.url_music;
        if name.len() > 0 {
            let album = match &item.url_music {
                Some(u) => match extract_album_from_url(u.as_str()) {
                    Some(a) => a,
                    None => String::new(),
                },
                None => String::new(),
            };
            let id = item.id_music.into_string();
            let e = CatalogEntry { id, name: string_from_chars(name.as_slice()), album };
            let ghost before = res@.map_values(|e: CatalogEntry| entry_view(e));
            res.push(e);
            assert(res@.map_values(|e: CatalogEntry| entry_view(e)) =~= before.push(entry_view(e)));
        }
        k = k + 1;
    }
    assert(all.take(k as int) =~= all);
    res
}

/// The trimmed official audio address of a song, when it is not blank.
pub fn official_audio_url(url_music: &Option<String>) -> (res: Option<String>)
    ensures
        match url_music {
            Some(u) => if trim(u@).len() > 0 {
                res matches Some(r) && r@ == trim(u@)
            } else {
                res is None
            },
            None => res is None,
        },
{
    match url_music {
        Some(u) => {
            let t = trim_chars(str_chars(u.as_str()).as_slice());
            if t.len() > 0 {
                Some(string_from_chars(t.as_slice()))
            } else {
                None
            }
        },
        None => None,
    }
}

/// The file under which the official audio of a music is stored in the
/// cache: `<music_id>.mp3`.
pub fn official_audio_file_name(music_id: &str) -> (res: String)
    ensures
        res@ == music_id@ + ".mp3"@,
{
    let all = concat_chars(str_chars(music_id).as_slice(), str_chars(".mp3").as_slice());
    string_from_chars(all.as_slice())
}

/// The cached audio files of a music that the official audio replaces:
/// `<music_id>.webm` and `<music_id>.m4a`.
pub fn replaced_audio_file_names(music_id: &str) -> (res: Vec<String>)
    ensures
        res@.map_values(|s: String| s@) == seq![music_id@ + ".webm"@, music_id@ + ".m4a"@],
{
    let id = str_chars(music_id);
    let webm = concat_chars(id.as_slice(), str_chars(".webm").as_slice());
    let m4a = concat_chars(id.as_slice(), str_chars(".m4a").as_slice());
    let res = vec![string_from_chars(webm.as_slice()), string_from_chars(m4a.as_slice())];
    assert(res@.map_values(|s: String| s@) =~= seq![music_id@ + ".webm"@, music_id@ + ".m4a"@]);
    res
}

/// The album read from an official audio address.
pub open spec fn album_of_address(url_music: Option<String>) -> Option<Seq<char>> {
    match url_music {
        Some(u) => album_of_text(u@),
        None => None,
    }
}

impl LouvorJaProvider {
    /// The song name looked up in the catalogue: the query without
    /// surrounding whitespace; `None` when that is empty, in which case
    /// nothing is fetched (no catalogue, no request) and no lyrics are found.
    pub fn search_query(query: &str) -> (res: Option<String>)
        ensures
            match res {
                Some(q) => q@ == trim(query@) && q@.len() > 0,
                None => trim(query@).len() == 0,
            },
    {
        crate::text::trimmed_nonblank(query)
    }

    /// The catalogue entry for a song name: the best match (see
    /// `best_match_index`) for the trimmed name; `None` for a blank name.
    pub fn entry_for_query<'a>(catalog: &'a [CatalogEntry], query: &str) -> (res: Option<
        &'a CatalogEntry,
    >)
        ensures
            trim(query@).len() == 0 ==> res is None,
            trim(query@).len() > 0 ==> match res {
                Some(e) => best_match_index(catalog@, trim(query@)) matches Some(i) && 0 <= i
                    < catalog@.len() && *e == catalog@[i],
                None => best_match_index(catalog@, trim(query@)) is None,
            },
    {
        let t = trim_chars(str_chars(query).as_slice());
        if t.len() == 0 {
            return None;
        }
        let q = string_from_chars(t.as_slice());
        find_best_match(catalog, q.as_str())
    }

    /// The lyrics found on LouvorJA, from the timed lyrics of the matched
    /// song's details: `None` when the details have none or none gives a
    /// line (see `build_lines`).
    pub fn fetch_synced_lyrics(music_id: &str, lyric: Option<Vec<LyricItem>>) -> (res: Option<
        Vec<LyricsLine>,
    >)
        ensures
            match lyric {
                Some(items) => if lyric_cues(items@).len() > 0 {
                    res matches Some(ls) && lines_of_cues(ls@, lyric_cues(items@), music_id@)
                } else {
                    res is None
                },
                None => res is None,
            },
    {
        match lyric {
            Some(items) => {
                let ghost iv = items@;
                let lines = build_lines(music_id, items);
                if lines.len() > 0 {
                    Some(lines)
                } else {
                    None
                }
            },
            None => None,
        }
    }

    /// A song's details from what the service returned for `louvorja_id`:
    /// its name (`LouvorJA #<id>` when missing), the album read from its
    /// audio address, the trimmed audio address and its lines. `None` when
    /// the details give no line.
    pub fn fetch_song_by_id(
        louvorja_id: &str,
        music_id: &str,
        name: Option<String>,
        url_music: Option<String>,
        lyric: Option<Vec<LyricItem>>,
    ) -> (res: Option<LouvorJaDetailResult>)
        ensures
            match lyric {
                Some(items) => if lyric_cues(items@).len() > 0 {
                    res matches Some(d) && {
                        &&& d.id@ == louvorja_id@
                        &&& d.title@ == match name {
                            Some(n) => n@,
                            None => "LouvorJA #"@ + louvorja_id@,
                        }
                        &&& match d.album {
                            Some(a) => album_of_address(url_music) == Some(a@),
                            None => album_of_address(url_music) is None,
                        }
                        &&& match url_music {
                            Some(u) => if trim(u@).len() > 0 {
                                d.audio_url matches Some(r) && r@ == trim(u@)
                            } else {
                                d.audio_url is None
                            },
                            None => d.audio_url is None,
                        }
                        &&& lines_of_cues(d.lines@, lyric_cues(items@), music_id@)
                    }
                } else {
                    res is None
                },
                None => res is None,
            },
    {
        let lines = match Self::fetch_synced_lyrics(music_id, lyric) {
            Some(l) => l,
            None => return None,
        };
        let title = match name {
            Some(n) => n,
            None => {
                let all = concat_chars(
                    str_chars("LouvorJA #").as_slice(),
                    str_chars(louvorja_id).as_slice(),
                );
                string_from_chars(all.as_slice())
            },
        };
        let album = match &url_music {
            Some(u) => extract_album_from_url(u.as_str()),
            None => None,
        };
        let audio_url = official_audio_url(&url_music);
        Some(
            LouvorJaDetailResult {
                id: String::from_str(louvorja_id),
                title,
                album,
                audio_url,
                lines,
            },
        )
    }
}

/// Whether an entry matches `q` exactly or partially, as asked.
pub open spec fn matches_as(e: CatalogEntry, q: Seq<char>, exact: bool) -> bool {
    if exact {
        exact_match(e, q)
    } else {
        partial_match(e, q)
    }
}

/// The chosen position matches, no matching entry has a higher id key,
/// and no later matching entry has the same key; without a choice, no
/// entry matches.
proof fn lemma_latest_best(cat: Seq<CatalogEntry>, q: Seq<char>, exact: bool)
    ensures
        match latest_best(cat, q, exact) {
            Some(i) => {
                &&& 0 <= i < cat.len()
                &&& matches_as(cat[i], q, exact)
                &&& forall|j: int|
                    0 <= j < cat.len() && matches_as(#[trigger] cat[j], q, exact) ==> id_key(
                        cat[j].id@,
                    ) <= id_key(cat[i].id@)
                &&& forall|j: int|
                    i < j < cat.len() && matches_as(#[trigger] cat[j], q, exact) ==> id_key(
                        cat[j].id@,
                    ) < id_key(cat[i].id@)
            },
            None => forall|j: int| 0 <= j < cat.len() ==> !matches_as(#[trigger] cat[j], q, exact),
        },
    decreases cat.len(),
{
    if cat.len() > 0 {
        let init = cat.drop_last();
        lemma_latest_best(init, q, exact);
        assert forall|j: int| 0 <= j < init.len() implies init[j] == #[trigger] cat[j] by {}
    }
}

/// The best match for a song name is the newest version: among the
/// entries whose name matches exactly (or, when none does, partially),
/// none has a higher id, and none after it has the same id. Without a best
/// match, the query normalizes to empty text or no entry matches even
/// partially.
pub proof fn lemma_best_match_is_newest(cat: Seq<CatalogEntry>, query: Seq<char>)
    ensures
        ({
            let q = normalize_text(query);
            match best_match_index(cat, query) {
                Some(i) => {
                    let exact = exists|j: int| 0 <= j < cat.len() && exact_match(#[trigger] cat[j], q);
                    &&& 0 <= i < cat.len()
                    &&& matches_as(cat[i], q, exact)
                    &&& forall|j: int|
                        0 <= j < cat.len() && matches_as(#[trigger] cat[j], q, exact) ==> id_key(
                            cat[j].id@,
                        ) <= id_key(cat[i].id@)
                    &&& forall|j: int|
                        i < j < cat.len() && matches_as(#[trigger] cat[j], q, exact) ==> id_key(
                            cat[j].id@,
                        ) < id_key(cat[i].id@)
                },
                None => q.len() == 0 || forall|j: int|
                    0 <= j < cat.len() ==> !partial_match(#[trigger] cat[j], q),
            }
        }),
{
    let q = normalize_text(query);
    lemma_latest_best(cat, q, true);
    lemma_latest_best(cat, q, false);
    if q.len() > 0 {
        match latest_best(cat, q, true) {
            Some(i) => {
                assert(exact_match(cat[i], q));
            },
            None => {
                assert forall|j: int| 0 <= j < cat.len() implies !exact_match(#[trigger] cat[j], q) by {
                    assert(!matches_as(cat[j], q, true));
                }
                match latest_best(cat, q, false) {
                    Some(i) => {},
                    None => {
                        assert forall|j: int| 0 <= j < cat.len() implies !partial_match(
                            #[trigger] cat[j],
                            q,
                        ) by {
                            assert(!matches_as(cat[j], q, false));
                        }
                    },
                }
            },
        }
    }
}

/// Whether entries are ordered newest first: id keys never increase.
pub open spec fn ordered_newest_first(s: Seq<CatalogEntry>) -> bool {
    forall|i: int, j: int| 0 <= i < j < s.len() ==> id_key((#[trigger] s[i]).id@) >= id_key(
        (#[trigger] s[j]).id@,
    )
}

proof fn lemma_newest_first_pos_splits(sorted: Seq<CatalogEntry>, k: nat)
    requires
        ordered_newest_first(sorted),
    ensures
        forall|j: int| 0 <= j < newest_first_pos(sorted, k) ==> id_key((#[trigger] sorted[j]).id@) >= k,
        forall|j: int|
            newest_first_pos(sorted, k) <= j < sorted.len() ==> id_key((#[trigger] sorted[j]).id@) < k,
    decreases sorted.len(),
{
    lemma_newest_first_pos_bounds(sorted, k);
    if sorted.len() > 0 {
        let rest = sorted.drop_first();
        assert forall|i: int, j: int| 0 <= i < j < rest.len() implies id_key((#[trigger] rest[i]).id@)
            >= id_key((#[trigger] rest[j]).id@) by {
            assert(rest[i] == sorted[i + 1]);
            assert(rest[j] == sorted[j + 1]);
        }
        lemma_newest_first_pos_splits(rest, k);
        if id_key(sorted[0].id@) >= k {
            assert forall|j: int| 0 <= j < newest_first_pos(sorted, k) implies id_key(
                (#[trigger] sorted[j]).id@,
            ) >= k by {
                if j > 0 {
                    assert(sorted[j] == rest[j - 1]);
                }
            }
            assert forall|j: int| newest_first_pos(sorted, k) <= j < sorted.len() implies id_key(
                (#[trigger] sorted[j]).id@,
            ) < k by {
                assert(sorted[j] == rest[j - 1]);
            }
        } else {
            assert forall|j: int| 0 <= j < sorted.len() implies id_key((#[trigger] sorted[j]).id@)
                < k by {
                if j > 0 {
                    assert(sorted[0] == sorted[0]);
                    assert(id_key(sorted[0].id@) >= id_key(sorted[j].id@));
                }
            }
        }
    }
}

/// Ordering newest first keeps the entries (the same entries, each as
/// often) and orders them by decreasing id key.
pub proof fn lemma_newest_first_ordered(entries: Seq<CatalogEntry>)
    ensures
        newest_first(entries).len() == entries.len(),
        newest_first(entries).to_multiset() == entries.to_multiset(),
        ordered_newest_first(newest_first(entries)),
        forall|i: int|
            0 <= i < newest_first(entries).len() ==> entries.contains(
                #[trigger] newest_first(entries)[i],
            ),
    decreases entries.len(),
{
    if entries.len() > 0 {
        let tail = entries.drop_first();
        lemma_newest_first_ordered(tail);
        let rest = newest_first(tail);
        let e = entries[0];
        let k = id_key(e.id@);
        let pos = newest_first_pos(rest, k);
        lemma_newest_first_pos_bounds(rest, k);
        lemma_newest_first_pos_splits(rest, k);
        let res = rest.insert(pos, e);
        assert(newest_first(entries) == res);
        assert(res.to_multiset() == entries.to_multiset()) by {
            vstd::seq_lib::to_multiset_insert(rest, pos, e);
            vstd::seq_lib::to_multiset_insert(tail, 0, e);
            assert(tail.insert(0, e) =~= entries);
        }
        assert forall|i: int, j: int| 0 <= i < j < res.len() implies id_key((#[trigger] res[i]).id@)
            >= id_key((#[trigger] res[j]).id@) by {
            if j < pos {
                assert(res[i] == rest[i]);
                assert(res[j] == rest[j]);
            } else if j == pos {
                assert(res[i] == rest[i]);
                assert(res[j] == e);
            } else if i < pos {
                assert(res[i] == rest[i]);
                assert(res[j] == rest[j - 1]);
            } else if i == pos {
                assert(res[i] == e);
                assert(res[j] == rest[j - 1]);
            } else {
                assert(res[i] == rest[i - 1]);
                assert(res[j] == rest[j - 1]);
            }
        }
        assert forall|i: int| 0 <= i < res.len() implies entries.contains(#[trigger] res[i]) by {
            if i == pos {
                assert(entries[0] == e);
            } else {
                let r = if i < pos { rest[i] } else { rest[i - 1] };
                assert(res[i] == r);
                assert(tail.contains(r));
                let m = choose|m: int| 0 <= m < tail.len() && tail[m] == r;
                assert(entries[m + 1] == tail[m]);
            }
        }
    } else {
        assert(entries =~= Seq::<CatalogEntry>::empty());
    }
}

/// The entries kept by matching all match, and all matching entries are
/// kept, in order.
proof fn lemma_matching_entries(cat: Seq<CatalogEntry>, q: Seq<char>)
    ensures
        forall|i: int|
            0 <= i < matching_entries(cat, q).len() ==> partial_match(
                #[trigger] matching_entries(cat, q)[i],
                q,
            ) && cat.contains(matching_entries(cat, q)[i]),
    decreases cat.len(),
{
    if cat.len() > 0 {
        let init = cat.drop_last();
        lemma_matching_entries(init, q);
        let m = matching_entries(init, q);
        let res = matching_entries(cat, q);
        assert forall|i: int| 0 <= i < res.len() implies partial_match(#[trigger] res[i], q)
            && cat.contains(res[i]) by {
            if i < m.len() {
                assert(res[i] == m[i]);
                let k = choose|k: int| 0 <= k < init.len() && init[k] == m[i];
                assert(cat[k] == init[k]);
            } else {
                assert(res[i] == cat.last());
                assert(cat[cat.len() - 1] == cat.last());
            }
        }
    }
}

/// A catalogue search gives as many entries of the catalogue as match the
/// query (contained in it or containing it, after normalizing), but at
/// most `MAX_SEARCH_RESULTS`; all of them match, ordered newest first, and
/// every matching entry left out is no newer than any entry given.
pub proof fn lemma_search_results_ordered(cat: Seq<CatalogEntry>, query: Seq<char>)
    ensures
        normalize_text(query).len() > 0 ==> exists|left_out: Seq<CatalogEntry>|
            (search_results(cat, query) + left_out).to_multiset() == matching_entries(
                cat,
                normalize_text(query),
            ).to_multiset() && forall|i: int, j: int|
                0 <= i < search_results(cat, query).len() && 0 <= j < left_out.len() ==> id_key(
                    (#[trigger] search_results(cat, query)[i]).id@,
                ) >= id_key((#[trigger] left_out[j]).id@),
        normalize_text(query).len() > 0 ==> search_results(cat, query).len() == (if matching_entries(
            cat,
            normalize_text(query),
        ).len() > MAX_SEARCH_RESULTS {
            MAX_SEARCH_RESULTS as nat
        } else {
            matching_entries(cat, normalize_text(query)).len()
        }),
        search_results(cat, query).len() <= MAX_SEARCH_RESULTS,
        ordered_newest_first(search_results(cat, query)),
        forall|i: int|
            0 <= i < search_results(cat, query).len() ==> partial_match(
                #[trigger] search_results(cat, query)[i],
                normalize_text(query),
            ) && cat.contains(search_results(cat, query)[i]),
{
    let q = normalize_text(query);
    if q.len() > 0 {
        let m = matching_entries(cat, q);
        lemma_matching_entries(cat, q);
        lemma_newest_first_ordered(m);
        let s = newest_first(m);
        let res = search_results(cat, query);
        assert forall|i: int| 0 <= i < res.len() implies partial_match(#[trigger] res[i], q)
            && cat.contains(res[i]) by {
            assert(res[i] == s[i]);
            assert(m.contains(s[i]));
            let k = choose|k: int| 0 <= k < m.len() && m[k] == s[i];
        }
        assert forall|i: int, j: int| 0 <= i < j < res.len() implies id_key((#[trigger] res[i]).id@)
            >= id_key((#[trigger] res[j]).id@) by {
            assert(res[i] == s[i]);
            assert(res[j] == s[j]);
        }
        let left_out = s.skip(res.len() as int);
        assert(res + left_out =~= s);
        assert forall|i: int, j: int|
            0 <= i < res.len() && 0 <= j < left_out.len() implies id_key((#[trigger] res[i]).id@)
            >= id_key((#[trigger] left_out[j]).id@) by {
            assert(res[i] == s[i]);
            assert(left_out[j] == s[res.len() + j]);
        }
        assert((res + left_out).to_multiset() == m.to_multiset());
    }
}

} // verus!
