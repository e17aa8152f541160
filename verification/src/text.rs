//! Character-level text operations shared by the parsers and formatters.
//!
//! Text is handled as sequences of Unicode scalar values (`char`). Every
//! pattern the library searches for is ASCII, so a search over characters
//! finds exactly what a search over the UTF-8 bytes would find.
use vstd::prelude::*;
use vstd::string::StringSliceAdditionalSpecFns;

verus! {

/// The characters of `s`, in order.
pub fn str_chars(s: &str) -> (res: Vec<char>)
    ensures
        res@ == s@,
{
    let mut res: Vec<char> = Vec::new();
    for c in it: s.chars()
        invariant
            res@ == it.seq().take(it.index() as int),
            it.seq() == s@,
    {
        res.push(c);
    }
    res
}

/// The texts of a sequence of strings.
pub open spec fn string_views(v: Seq<String>) -> Seq<Seq<char>> {
    v.map_values(|s: String| s@)
}

/// Collects characters into a `String` (std's `FromIterator<char>`).
#[verifier::external_body]
pub(crate) fn string_from_chars(chars: &[char]) -> (res: String)
    ensures
        res@ == chars@,
{
    chars.iter().collect()
}

/// A copy of `s[from..to]`.
pub fn sub_chars(s: &[char], from: usize, to: usize) -> (res: Vec<char>)
    requires
        from <= to <= s@.len(),
    ensures
        res@ == s@.subrange(from as int, to as int),
{
    let mut res: Vec<char> = Vec::new();
    let mut i = from;
    while i < to
        invariant
            from <= i <= to <= s@.len(),
            res@ == s@.subrange(from as int, i as int),
        decreases to - i,
    {
        res.push(s[i]);
        i = i + 1;
    }
    res
}

/// `a` followed by `b`.
pub fn concat_chars(a: &[char], b: &[char]) -> (res: Vec<char>)
    ensures
        res@ == a@ + b@,
{
    let mut res: Vec<char> = Vec::new();
    let mut i: usize = 0;
    while i < a.len()
        invariant
            i <= a@.len(),
            res@ == a@.take(i as int),
        decreases a.len() - i,
    {
        res.push(a[i]);
        i = i + 1;
    }
    let mut j: usize = 0;
    while j < b.len()
        invariant
            j <= b@.len(),
            res@ == a@ + b@.take(j as int),
        decreases b.len() - j,
    {
        res.push(b[j]);
        j = j + 1;
    }
    res
}

/// Whether two character slices are equal.
pub fn chars_eq(a: &[char], b: &[char]) -> (res: bool)
    ensures
        res == (a@ == b@),
{
    if a.len() != b.len() {
        return false;
    }
    let mut i: usize = 0;
    while i < a.len()
        invariant
            a@.len() == b@.len(),
            i <= a@.len(),
            forall|k: int| 0 <= k < i ==> a@[k] == b@[k],
        decreases a.len() - i,
    {
        if a[i] != b[i] {
            return false;
        }
        i = i + 1;
    }
    assert(a@ =~= b@);
    true
}

/// Unicode `White_Space`, as `char::is_whitespace` defines it.
pub open spec fn is_ws(c: char) -> bool {
    let u = c as u32;
    (0x9 <= u && u <= 0xD) || u == 0x20 || u == 0x85 || u == 0xA0 || u == 0x1680 || (0x2000
        <= u && u <= 0x200A) || u == 0x2028 || u == 0x2029 || u == 0x202F || u == 0x205F || u
        == 0x3000
}

pub fn is_whitespace(c: char) -> (res: bool)
    ensures
        res == is_ws(c),
{
    let u = c as u32;
    (0x9 <= u && u <= 0xD) || u == 0x20 || u == 0x85 || u == 0xA0 || u == 0x1680 || (0x2000
        <= u && u <= 0x200A) || u == 0x2028 || u == 0x2029 || u == 0x202F || u == 0x205F || u
        == 0x3000
}

/// `s` without its leading whitespace.
pub open spec fn trim_start(s: Seq<char>) -> Seq<char>
    decreases s.len(),
{
    if s.len() > 0 && is_ws(s[0]) {
        trim_start(s.drop_first())
    } else {
        s
    }
}

/// `s` without its trailing whitespace.
pub open spec fn trim_end(s: Seq<char>) -> Seq<char>
    decreases s.len(),
{
    if s.len() > 0 && is_ws(s.last()) {
        trim_end(s.drop_last())
    } else {
        s
    }
}

/// `s` without leading and trailing whitespace (`str::trim`).
pub open spec fn trim(s: Seq<char>) -> Seq<char> {
    trim_end(trim_start(s))
}

proof fn lemma_trim_start_skip(s: Seq<char>, i: int)
    requires
        0 <= i <= s.len(),
        forall|k: int| 0 <= k < i ==> is_ws(#[trigger] s[k]),
    ensures
        trim_start(s) == trim_start(s.skip(i)),
    decreases i,
{
    if i > 0 {
        assert(s.drop_first().skip(i - 1) =~= s.skip(i));
        lemma_trim_start_skip(s.drop_first(), i - 1);
    } else {
        assert(s.skip(0) =~= s);
    }
}

proof fn lemma_trim_end_take(s: Seq<char>, j: int)
    requires
        0 <= j <= s.len(),
        forall|k: int| j <= k < s.len() ==> is_ws(#[trigger] s[k]),
    ensures
        trim_end(s) == trim_end(s.take(j)),
    decreases s.len() - j,
{
    if j < s.len() {
        assert(s.drop_last().take(j) =~= s.take(j));
        lemma_trim_end_take(s.drop_last(), j);
    } else {
        assert(s.take(j) =~= s);
    }
}

/// A copy of `s` with leading and trailing whitespace removed.
pub fn trim_chars(s: &[char]) -> (res: Vec<char>)
    ensures
        res@ == trim(s@),
{
    let n = s.len();
    let mut i: usize = 0;
    while i < n && is_whitespace(s[i])
        invariant
            n == s@.len(),
            i <= n,
            forall|k: int| 0 <= k < i ==> is_ws(#[trigger] s@[k]),
        decreases n - i,
    {
        i = i + 1;
    }
    proof {
        lemma_trim_start_skip(s@, i as int);
    }
    let mut j: usize = n;
    while j > i && is_whitespace(s[j - 1])
        invariant
            n == s@.len(),
            i <= j <= n,
            forall|k: int| j <= k < n ==> is_ws(#[trigger] s@[k]),
        decreases j,
    {
        j = j - 1;
    }
    proof {
        let t = s@.skip(i as int);
        assert(t.len() == 0 || !is_ws(t[0]));
        assert(trim_start(t) == t);
        assert forall|k: int| j - i <= k < t.len() implies is_ws(#[trigger] t[k]) by {
            assert(t[k] == s@[k + i]);
        }
        lemma_trim_end_take(t, j - i);
        let u = t.take(j - i);
        assert(u =~= s@.subrange(i as int, j as int));
        assert(u.len() == 0 || !is_ws(u.last()));
    }
    sub_chars(s, i, j)
}

/// A copy of `s` with leading whitespace removed (`str::trim_start`).
pub fn trim_start_chars(s: &[char]) -> (res: Vec<char>)
    ensures
        res@ == trim_start(s@),
{
    let n = s.len();
    let mut i: usize = 0;
    while i < n && is_whitespace(s[i])
        invariant
            n == s@.len(),
            i <= n,
            forall|k: int| 0 <= k < i ==> is_ws(#[trigger] s@[k]),
        decreases n - i,
    {
        i = i + 1;
    }
    proof {
        lemma_trim_start_skip(s@, i as int);
        let t = s@.skip(i as int);
        assert(t.len() == 0 || !is_ws(t[0]));
        assert(trim_start(t) == t);
        assert(t =~= s@.subrange(i as int, n as int));
    }
    sub_chars(s, i, n)
}

/// The text without surrounding whitespace, or `None` when that is empty
/// (a blank query).
pub fn trimmed_nonblank(s: &str) -> (res: Option<String>)
    ensures
        match res {
            Some(t) => t@ == trim(s@) && t@.len() > 0,
            None => trim(s@).len() == 0,
        },
{
    let t = trim_chars(str_chars(s).as_slice());
    if t.len() == 0 {
        None
    } else {
        Some(string_from_chars(t.as_slice()))
    }
}

/// A copy of `s` with trailing whitespace removed (`str::trim_end`).
pub fn trim_end_chars(s: &[char]) -> (res: Vec<char>)
    ensures
        res@ == trim_end(s@),
{
    let n = s.len();
    let mut j: usize = n;
    while j > 0 && is_whitespace(s[j - 1])
        invariant
            n == s@.len(),
            j <= n,
            forall|k: int| j <= k < n ==> is_ws(#[trigger] s@[k]),
        decreases j,
    {
        j = j - 1;
    }
    proof {
        lemma_trim_end_take(s@, j as int);
        assert(s@.take(j as int) =~= s@.subrange(0, j as int));
    }
    sub_chars(s, 0, j)
}

/// Whether `p` is a prefix of `s`.
pub open spec fn starts_with(s: Seq<char>, p: Seq<char>) -> bool {
    p.len() <= s.len() && s.take(p.len() as int) == p
}

/// Whether `p` is a suffix of `s`.
pub open spec fn ends_with(s: Seq<char>, p: Seq<char>) -> bool {
    p.len() <= s.len() && s.skip(s.len() - p.len()) == p
}

pub fn has_prefix(s: &[char], p: &[char]) -> (res: bool)
    ensures
        res == starts_with(s@, p@),
{
    if p.len() > s.len() {
        return false;
    }
    let mut i: usize = 0;
    while i < p.len()
        invariant
            p@.len() <= s@.len(),
            i <= p@.len(),
            forall|k: int| 0 <= k < i ==> s@[k] == p@[k],
        decreases p.len() - i,
    {
        if s[i] != p[i] {
            return false;
        }
        i = i + 1;
    }
    assert(s@.take(p@.len() as int) =~= p@);
    true
}

pub fn has_suffix(s: &[char], p: &[char]) -> (res: bool)
    ensures
        res == ends_with(s@, p@),
{
    if p.len() > s.len() {
        return false;
    }
    let n = s.len();
    let off = n - p.len();
    let mut i: usize = 0;
    while i < p.len()
        invariant
            n == s@.len(),
            p@.len() <= s@.len(),
            off + p@.len() == n,
            i <= p@.len(),
            forall|k: int| 0 <= k < i ==> s@[off + k] == p@[k],
        decreases p.len() - i,
    {
        if s[off + i] != p[i] {
            assert(s@.skip(off as int)[i as int] != p@[i as int]);
            return false;
        }
        i = i + 1;
    }
    assert(s@.skip(off as int) =~= p@);
    true
}

/// Whether `p` occurs in `s` starting at position `i`.
pub open spec fn occurs_at(s: Seq<char>, p: Seq<char>, i: int) -> bool {
    0 <= i && i + p.len() <= s.len() && s.subrange(i, i + p.len()) == p
}

/// Position of the first occurrence of `p` in `s` (`str::find`).
pub open spec fn find_sub(s: Seq<char>, p: Seq<char>) -> Option<int>
    decreases s.len(),
{
    if s.len() < p.len() {
        None
    } else if s.take(p.len() as int) == p {
        Some(0)
    } else if s.len() == 0 {
        None
    } else {
        match find_sub(s.drop_first(), p) {
            Some(k) => Some(k + 1),
            None => None,
        }
    }
}

/// Whether `p` occurs in `s` (`str::contains`).
pub open spec fn contains_sub(s: Seq<char>, p: Seq<char>) -> bool {
    find_sub(s, p) is Some
}

pub proof fn lemma_find_sub_skip(s: Seq<char>, p: Seq<char>, i: int)
    requires
        0 <= i <= s.len(),
        forall|k: int| 0 <= k < i ==> !occurs_at(s, p, k),
    ensures
        find_sub(s, p) == (match find_sub(s.skip(i), p) {
            Some(k) => Some(k + i),
            None => None::<int>,
        }),
    decreases i,
{
    if i == 0 {
        assert(s.skip(0) =~= s);
        match find_sub(s, p) {
            Some(k) => {},
            None => {},
        }
    } else {
        assert(!occurs_at(s, p, 0));
        if s.len() >= p.len() {
            assert(s.take(p.len() as int) =~= s.subrange(0, p.len() as int));
        }
        assert forall|k: int| 0 <= k < i - 1 implies !occurs_at(s.drop_first(), p, k) by {
            if occurs_at(s.drop_first(), p, k) {
                assert(s.drop_first().subrange(k, k + p.len()) =~= s.subrange(
                    k + 1,
                    k + 1 + p.len(),
                ));
                assert(occurs_at(s, p, k + 1));
            }
        }
        lemma_find_sub_skip(s.drop_first(), p, i - 1);
        assert(s.drop_first().skip(i - 1) =~= s.skip(i));
    }
}

proof fn lemma_find_sub_at(s: Seq<char>, p: Seq<char>)
    requires
        occurs_at(s, p, 0),
    ensures
        find_sub(s, p) == Some(0int),
{
    assert(s.take(p.len() as int) =~= s.subrange(0, p.len() as int));
}

proof fn lemma_find_sub_none(s: Seq<char>, p: Seq<char>)
    requires
        s.len() < p.len(),
    ensures
        find_sub(s, p) == None::<int>,
{
}

/// Whether `p` occurs in `s` at position `i`.
pub fn matches_at(s: &[char], p: &[char], i: usize) -> (res: bool)
    ensures
        res == occurs_at(s@, p@, i as int),
{
    let n = s.len();
    if i > n || p.len() > n - i {
        return false;
    }
    let mut k: usize = 0;
    while k < p.len()
        invariant
            n == s@.len(),
            i + p@.len() <= n,
            k <= p@.len(),
            forall|m: int| 0 <= m < k ==> s@[i + m] == p@[m],
        decreases p.len() - k,
    {
        if s[i + k] != p[k] {
            assert(s@.subrange(i as int, i + p@.len())[k as int] != p@[k as int]);
            return false;
        }
        k = k + 1;
    }
    assert(s@.subrange(i as int, i + p@.len()) =~= p@);
    true
}

/// First position of `p` in `s`.
pub fn find(s: &[char], p: &[char]) -> (res: Option<usize>)
    ensures
        res matches Some(i) ==> find_sub(s@, p@) == Some(i as int),
        res is None ==> find_sub(s@, p@) is None,
{
    let n = s.len();
    let mut i: usize = 0;
    loop
        invariant
            n == s@.len(),
            i <= n,
            forall|k: int| 0 <= k < i ==> !occurs_at(s@, p@, k),
        decreases n - i,
    {
        if matches_at(s, p, i) {
            proof {
                lemma_find_sub_skip(s@, p@, i as int);
                assert(s@.skip(i as int).subrange(0, p@.len() as int) =~= s@.subrange(
                    i as int,
                    i + p@.len(),
                ));
                lemma_find_sub_at(s@.skip(i as int), p@);
            }
            return Some(i);
        }
        if i == n {
            proof {
                lemma_find_sub_skip(s@, p@, n as int);
                if p@.len() > 0 {
                    lemma_find_sub_none(s@.skip(n as int), p@);
                } else {
                    assert(s@.subrange(n as int, n as int) =~= p@);
                }
            }
            return None;
        }
        i = i + 1;
    }
}

/// Whether `p` occurs in `s`.
pub fn contains(s: &[char], p: &[char]) -> (res: bool)
    ensures
        res == contains_sub(s@, p@),
{
    find(s, p).is_some()
}


/// The views of a sequence of character vectors.
pub open spec fn views(v: Seq<Vec<char>>) -> Seq<Seq<char>> {
    v.map_values(|x: Vec<char>| x@)
}

/// `s` cut at every character that satisfies `sep` (`str::split` with a
/// character predicate); the separators themselves are dropped.
pub open spec fn split_when(s: Seq<char>, sep: spec_fn(char) -> bool) -> Seq<Seq<char>>
    decreases s.len(),
{
    if s.len() == 0 {
        seq![Seq::empty()]
    } else {
        let r = split_when(s.drop_last(), sep);
        if sep(s.last()) {
            r.push(Seq::empty())
        } else {
            r.update(r.len() - 1, r.last().push(s.last()))
        }
    }
}

pub proof fn lemma_split_when_nonempty(s: Seq<char>, sep: spec_fn(char) -> bool)
    ensures
        split_when(s, sep).len() >= 1,
    decreases s.len(),
{
    if s.len() > 0 {
        lemma_split_when_nonempty(s.drop_last(), sep);
    }
}

/// The predicate "is one of `seps`".
pub open spec fn one_of(seps: Seq<char>) -> spec_fn(char) -> bool {
    |c: char| seps.contains(c)
}

/// The predicate "is whitespace".
pub open spec fn whitespace_pred() -> spec_fn(char) -> bool {
    |c: char| is_ws(c)
}

fn is_one_of(c: char, seps: &[char]) -> (res: bool)
    ensures
        res == seps@.contains(c),
{
    let mut i: usize = 0;
    while i < seps.len()
        invariant
            i <= seps@.len(),
            forall|k: int| 0 <= k < i ==> seps@[k] != c,
        decreases seps.len() - i,
    {
        if seps[i] == c {
            assert(seps@[i as int] == c);
            return true;
        }
        i = i + 1;
    }
    false
}

/// `s` cut at every occurrence of a character of `seps`.
pub fn split_on(s: &[char], seps: &[char]) -> (res: Vec<Vec<char>>)
    ensures
        views(res@) == split_when(s@, one_of(seps@)),
{
    split_general(s, seps, false)
}

/// `s` cut at every whitespace character.
pub fn split_on_whitespace(s: &[char]) -> (res: Vec<Vec<char>>)
    ensures
        views(res@) == split_when(s@, whitespace_pred()),
{
    let empty: Vec<char> = Vec::new();
    split_general(s, empty.as_slice(), true)
}

fn split_general(s: &[char], seps: &[char], ws: bool) -> (res: Vec<Vec<char>>)
    ensures
        ws ==> views(res@) == split_when(s@, whitespace_pred()),
        !ws ==> views(res@) == split_when(s@, one_of(seps@)),
{
    let ghost pred = if ws {
        whitespace_pred()
    } else {
        one_of(seps@)
    };
    let mut pieces: Vec<Vec<char>> = Vec::new();
    let mut cur: Vec<char> = Vec::new();
    let n = s.len();
    let mut i: usize = 0;
    assert(s@.take(0) =~= Seq::<char>::empty());
    assert(views(pieces@).push(cur@) =~= seq![Seq::<char>::empty()]);
    while i < n
        invariant
            n == s@.len(),
            i <= n,
            pred == (if ws {
                whitespace_pred()
            } else {
                one_of(seps@)
            }),
            views(pieces@).push(cur@) == split_when(s@.take(i as int), pred),
        decreases n - i,
    {
        let c = s[i];
        let is_sep = if ws {
            is_whitespace(c)
        } else {
            is_one_of(c, seps)
        };
        let ghost before = views(pieces@).push(cur@);
        assert(s@.take(i + 1).drop_last() =~= s@.take(i as int));
        assert(s@.take(i + 1).last() == c);
        if is_sep {
            let old_cur = cur;
            pieces.push(old_cur);
            cur = Vec::new();
            assert(views(pieces@).push(cur@) =~= before.push(Seq::empty()));
        } else {
            cur.push(c);
            assert(views(pieces@).push(cur@) =~= before.update(
                before.len() - 1,
                before.last().push(c),
            ));
        }
        i = i + 1;
    }
    assert(s@.take(n as int) =~= s@);
    pieces.push(cur);
    assert(views(pieces@) =~= split_when(s@, pred));
    pieces
}

/// `l` without a final carriage return.
pub open spec fn strip_cr(l: Seq<char>) -> Seq<char> {
    if l.len() > 0 && l.last() == '\r' {
        l.drop_last()
    } else {
        l
    }
}

/// The lines of `s`, as `str::lines` gives them: cut at `\n`, a final empty
/// piece dropped, and a `\r` removed before each `\n` that ends a line.
pub open spec fn lines(s: Seq<char>) -> Seq<Seq<char>> {
    let p = split_when(s, one_of(seq!['\n']));
    let ended = p.drop_last().map_values(|l: Seq<char>| strip_cr(l));
    if p.last().len() == 0 {
        ended
    } else {
        ended.push(p.last())
    }
}

fn strip_cr_chars(l: Vec<char>) -> (res: Vec<char>)
    ensures
        res@ == strip_cr(l@),
{
    let mut l = l;
    if l.len() > 0 && l[l.len() - 1] == '\r' {
        l.pop();
    }
    l
}

/// The lines of `s` (`str::lines`).
pub fn split_lines(s: &[char]) -> (res: Vec<Vec<char>>)
    ensures
        views(res@) == lines(s@),
{
    let nl = vec!['\n'];
    let pieces = split_on(s, nl.as_slice());
    proof {
        lemma_split_when_nonempty(s@, one_of(nl@));
        assert(nl@ =~= seq!['\n']);
    }
    let ghost p = views(pieces@);
    let m = pieces.len();
    let mut res: Vec<Vec<char>> = Vec::new();
    let mut i: usize = 0;
    while i + 1 < m
        invariant
            m == pieces@.len(),
            m >= 1,
            p == views(pieces@),
            i + 1 <= m,
            views(res@) == p.take(i as int).map_values(|l: Seq<char>| strip_cr(l)),
        decreases m - i,
    {
        let piece = sub_chars(pieces[i].as_slice(), 0, pieces[i].len());
        assert(piece@ =~= p[i as int]);
        let stripped = strip_cr_chars(piece);
        let ghost old_views = views(res@);
        let ghost sv = stripped@;
        res.push(stripped);
        assert(views(res@) =~= old_views.push(sv));
        assert(views(res@) =~= p.take(i + 1).map_values(|l: Seq<char>| strip_cr(l)));
        i = i + 1;
    }
    assert(p.take(i as int) =~= p.drop_last());
    let last_len = pieces[m - 1].len();
    if last_len > 0 {
        let last = sub_chars(pieces[m - 1].as_slice(), 0, last_len);
        assert(last@ =~= p.last());
        res.push(last);
        assert(views(res@) =~= lines(s@));
    } else {
        assert(views(res@) =~= lines(s@));
    }
    res
}

/// `Some((before, after))` around the first occurrence of `pat`
/// (`str::split_once`).
pub open spec fn split_once(s: Seq<char>, pat: Seq<char>) -> Option<(Seq<char>, Seq<char>)> {
    match find_sub(s, pat) {
        Some(i) => Some((s.take(i), s.skip(i + pat.len()))),
        None => None,
    }
}

pub proof fn lemma_find_sub_bounds(s: Seq<char>, p: Seq<char>)
    ensures
        find_sub(s, p) matches Some(i) ==> occurs_at(s, p, i),
    decreases s.len(),
{
    if s.len() >= p.len() && s.take(p.len() as int) != p && s.len() > 0 {
        lemma_find_sub_bounds(s.drop_first(), p);
        if let Some(k) = find_sub(s.drop_first(), p) {
            assert(s.drop_first().subrange(k, k + p.len()) =~= s.subrange(k + 1, k + 1 + p.len()));
        }
    } else if s.len() >= p.len() && s.take(p.len() as int) == p {
        assert(s.take(p.len() as int) =~= s.subrange(0, p.len() as int));
    }
}

/// Splits `s` around the first occurrence of `pat`.
pub fn split_once_at(s: &[char], pat: &[char]) -> (res: Option<(Vec<char>, Vec<char>)>)
    ensures
        match res {
            Some((a, b)) => split_once(s@, pat@) == Some((a@, b@)),
            None => split_once(s@, pat@) is None,
        },
{
    match find(s, pat) {
        Some(i) => {
            proof {
                lemma_find_sub_bounds(s@, pat@);
            }
            let n = s.len();
            assert(i + pat@.len() <= n);
            let a = sub_chars(s, 0, i);
            let b = sub_chars(s, i + pat.len(), n);
            assert(a@ =~= s@.take(i as int));
            assert(b@ =~= s@.skip(i + pat@.len()));
            Some((a, b))
        },
        None => None,
    }
}

/// ASCII decimal digit.
pub open spec fn is_digit(c: char) -> bool {
    '0' <= c && c <= '9'
}

/// Value of an ASCII decimal digit.
pub open spec fn digit_value(c: char) -> nat {
    (c as u32 - '0' as u32) as nat
}

/// The number that a string of decimal digits spells.
pub open spec fn digits_value(s: Seq<char>) -> nat
    decreases s.len(),
{
    if s.len() == 0 {
        0
    } else {
        digits_value(s.drop_last()) * 10 + digit_value(s.last())
    }
}

/// Whether every character of `s` is a decimal digit.
pub open spec fn all_digits(s: Seq<char>) -> bool {
    forall|i: int| 0 <= i < s.len() ==> is_digit(#[trigger] s[i])
}

/// How std parses an unsigned integer whose largest value is `max`: an
/// optional `+`, then at least one decimal digit, the value at most `max`.
pub open spec fn parse_unsigned(s: Seq<char>, max: nat) -> Option<nat> {
    let d = if s.len() > 0 && s[0] == '+' {
        s.drop_first()
    } else {
        s
    };
    if d.len() > 0 && all_digits(d) && digits_value(d) <= max {
        Some(digits_value(d))
    } else {
        None
    }
}

proof fn lemma_digits_value_grows(s: Seq<char>, i: int)
    requires
        0 <= i <= s.len(),
        all_digits(s),
    ensures
        digits_value(s.take(i)) <= digits_value(s),
    decreases s.len() - i,
{
    if i < s.len() {
        lemma_digits_value_grows(s, i + 1);
        assert(s.take(i + 1).drop_last() =~= s.take(i));
    } else {
        assert(s.take(i) =~= s);
    }
}

/// Parses an unsigned integer no larger than `max`, as `str::parse` does
/// for an unsigned integer type whose largest value is `max`.
pub fn parse_unsigned_chars(s: &[char], max: u64) -> (res: Option<u64>)
    ensures
        match res {
            Some(v) => parse_unsigned(s@, max as nat) == Some(v as nat),
            None => parse_unsigned(s@, max as nat) is None,
        },
{
    let n = s.len();
    let start: usize = if n > 0 && s[0] == '+' {
        1
    } else {
        0
    };
    let ghost d = if s@.len() > 0 && s@[0] == '+' {
        s@.drop_first()
    } else {
        s@
    };
    assert(d =~= s@.skip(start as int));
    if start >= n {
        return None;
    }
    let mut v: u64 = 0;
    let mut i = start;
    while i < n
        invariant
            n == s@.len(),
            start <= i <= n,
            d =~= s@.skip(start as int),
            d == (if s@.len() > 0 && s@[0] == '+' {
                s@.drop_first()
            } else {
                s@
            }),
            start < n,
            all_digits(d.take(i - start)),
            v as nat == digits_value(d.take(i - start)),
            v <= max,
        decreases n - i,
    {
        let c = s[i];
        assert(d.take(i - start + 1).drop_last() =~= d.take(i - start));
        assert(d[i - start] == c);
        if !('0' <= c && c <= '9') {
            assert(!is_digit(d[i - start]));
            assert(!all_digits(d));
            assert(parse_unsigned(s@, max as nat) is None);
            return None;
        }
        let dv = (c as u32 - '0' as u32) as u64;
        assert(dv as nat == digit_value(c));
        if dv > max || v > (max - dv) / 10 {
            proof {
                assert(digits_value(d.take(i - start + 1)) > max);
                if all_digits(d) {
                    lemma_digits_value_grows(d, i - start + 1);
                }
                assert(parse_unsigned(s@, max as nat) is None);
            }
            return None;
        }
        v = v * 10 + dv;
        i = i + 1;
    }
    assert(d.take(n - start) =~= d);
    Some(v)
}

/// The character of a decimal digit.
pub open spec fn digit_char(d: nat) -> char {
    ('0' as u32 + d) as char
}

/// Decimal representation of `n`, without leading zeros.
pub open spec fn decimal(n: nat) -> Seq<char>
    decreases n,
{
    if n < 10 {
        seq![digit_char(n)]
    } else {
        decimal(n / 10).push(digit_char(n % 10))
    }
}

/// `s` left-padded with `'0'` up to `width` characters (`{:0width}`).
pub open spec fn zero_pad(s: Seq<char>, width: nat) -> Seq<char> {
    if s.len() >= width {
        s
    } else {
        Seq::new((width - s.len()) as nat, |i: int| '0') + s
    }
}

/// Decimal representation of `n`.
pub fn to_decimal(n: u128) -> (res: Vec<char>)
    ensures
        res@ == decimal(n as nat),
    decreases n,
{
    if n < 10 {
        let c = char_of_digit(n);
        vec![c]
    } else {
        let mut r = to_decimal(n / 10);
        let c = char_of_digit(n % 10);
        r.push(c);
        r
    }
}

fn char_of_digit(d: u128) -> (c: char)
    requires
        d < 10,
    ensures
        c == digit_char(d as nat),
{
    if d == 0 { '0' }
    else if d == 1 { '1' }
    else if d == 2 { '2' }
    else if d == 3 { '3' }
    else if d == 4 { '4' }
    else if d == 5 { '5' }
    else if d == 6 { '6' }
    else if d == 7 { '7' }
    else if d == 8 { '8' }
    else { '9' }
}

/// `{n:0width}`: the decimal digits of `n`, left-padded with zeros.
pub fn padded_decimal(n: u64, width: usize) -> (res: Vec<char>)
    ensures
        res@ == zero_pad(decimal(n as nat), width as nat),
{
    let digits = to_decimal(n as u128);
    if digits.len() >= width {
        return digits;
    }
    let mut res: Vec<char> = Vec::new();
    let pad = width - digits.len();
    let mut i: usize = 0;
    while i < pad
        invariant
            i <= pad,
            res@ == Seq::new(i as nat, |k: int| '0'),
        decreases pad - i,
    {
        res.push('0');
        assert(res@ =~= Seq::new((i + 1) as nat, |k: int| '0'));
        i = i + 1;
    }
    let out = concat_chars(res.as_slice(), digits.as_slice());
    out
}

/// ASCII lowercase of a character (`char::to_ascii_lowercase`).
pub open spec fn ascii_lower(c: char) -> char {
    if 'A' <= c && c <= 'Z' {
        ((c as u32) + 32) as char
    } else {
        c
    }
}

pub fn to_ascii_lower(c: char) -> (res: char)
    ensures
        res == ascii_lower(c),
{
    if 'A' <= c && c <= 'Z' {
        let b = c as u8;
        assert(b as u32 == c as u32);
        (b + 32) as char
    } else {
        c
    }
}

/// `s` with ASCII letters lowered.
pub open spec fn ascii_lowered(s: Seq<char>) -> Seq<char> {
    s.map_values(|c: char| ascii_lower(c))
}

/// Whether every character of `s` is ASCII.
pub open spec fn is_ascii_text(s: Seq<char>) -> bool {
    forall|k: int| 0 <= k < s.len() ==> (#[trigger] s[k] as u32) < 128
}

/// What `str::to_lowercase` returns for `s` (Unicode lowercase mapping).
pub uninterp spec fn unicode_lowercase(s: Seq<char>) -> Seq<char>;

/// Calls `str::to_lowercase`; its result is the Unicode lowercase mapping of
/// the input, which this contract names and does not spell out, except for
/// ASCII text: there the Unicode mapping lowers `A`..`Z` to `a`..`z` and
/// keeps every other character.
#[verifier::external_body]
pub(crate) fn lowercase(s: &[char]) -> (res: Vec<char>)
    ensures
        res@ == unicode_lowercase(s@),
        is_ascii_text(s@) ==> res@ == ascii_lowered(s@),
{
    let text: String = s.iter().collect();
    text.to_lowercase().chars().collect()
}

/// Whether `char::is_alphanumeric` holds of `c` (Unicode Alphabetic or
/// Numeric).
pub uninterp spec fn unicode_alphanumeric(c: char) -> bool;

/// Calls `char::is_alphanumeric`. The contract names the Unicode property and
/// states only what the documentation gives for ASCII: there it holds
/// exactly of letters and digits.
#[verifier::external_body]
pub(crate) fn is_alphanumeric(c: char) -> (res: bool)
    ensures
        res == unicode_alphanumeric(c),
        (c as u32) < 128 ==> (res <==> (('a' <= c && c <= 'z') || ('A' <= c && c <= 'Z') || (
        '0' <= c && c <= '9'))),
{
    c.is_alphanumeric()
}

/// The pieces of `ps` with `sep` between consecutive ones (`join`).
pub open spec fn join(ps: Seq<Seq<char>>, sep: Seq<char>) -> Seq<char>
    decreases ps.len(),
{
    if ps.len() == 0 {
        seq![]
    } else if ps.len() == 1 {
        ps[0]
    } else {
        join(ps.drop_last(), sep) + sep + ps.last()
    }
}

/// Joins `ps` with `sep` between consecutive pieces.
pub fn join_chars(ps: &Vec<Vec<char>>, sep: &[char]) -> (res: Vec<char>)
    ensures
        res@ == join(views(ps@), sep@),
{
    let ghost pv = views(ps@);
    let mut res: Vec<char> = Vec::new();
    let mut i: usize = 0;
    while i < ps.len()
        invariant
            i <= ps@.len(),
            pv == views(ps@),
            res@ == join(pv.take(i as int), sep@),
        decreases ps.len() - i,
    {
        assert(pv.take(i + 1).drop_last() =~= pv.take(i as int));
        if i == 0 {
            res = concat_chars(res.as_slice(), ps[i].as_slice());
            assert(res@ =~= pv.take(1)[0]);
        } else {
            let with_sep = concat_chars(res.as_slice(), sep);
            res = concat_chars(with_sep.as_slice(), ps[i].as_slice());
        }
        i = i + 1;
    }
    assert(pv.take(ps@.len() as int) =~= pv);
    res
}

/// The first non-empty piece of `ps`.
pub open spec fn first_nonempty(ps: Seq<Seq<char>>) -> Option<Seq<char>>
    decreases ps.len(),
{
    if ps.len() == 0 {
        None
    } else if ps[0].len() > 0 {
        Some(ps[0])
    } else {
        first_nonempty(ps.drop_first())
    }
}

proof fn lemma_first_nonempty_skip(ps: Seq<Seq<char>>, i: int)
    requires
        0 <= i <= ps.len(),
        forall|k: int| 0 <= k < i ==> (#[trigger] ps[k]).len() == 0,
    ensures
        first_nonempty(ps) == first_nonempty(ps.skip(i)),
    decreases i,
{
    if i > 0 {
        assert(ps.drop_first().skip(i - 1) =~= ps.skip(i));
        lemma_first_nonempty_skip(ps.drop_first(), i - 1);
    } else {
        assert(ps.skip(0) =~= ps);
    }
}

/// The first non-empty piece of `ps`, copied.
pub fn first_nonempty_piece(ps: &Vec<Vec<char>>) -> (res: Option<Vec<char>>)
    ensures
        match res {
            Some(w) => first_nonempty(views(ps@)) == Some(w@),
            None => first_nonempty(views(ps@)) is None,
        },
{
    let ghost pv = views(ps@);
    let mut i: usize = 0;
    while i < ps.len()
        invariant
            i <= ps@.len(),
            pv == views(ps@),
            forall|k: int| 0 <= k < i ==> (#[trigger] pv[k]).len() == 0,
        decreases ps.len() - i,
    {
        if ps[i].len() > 0 {
            proof {
                lemma_first_nonempty_skip(pv, i as int);
            }
            let w = sub_chars(ps[i].as_slice(), 0, ps[i].len());
            assert(w@ =~= pv[i as int]);
            return Some(w);
        }
        i = i + 1;
    }
    proof {
        lemma_first_nonempty_skip(pv, i as int);
    }
    None
}

/// No piece of a split holds a separator.
pub proof fn lemma_split_pieces_clean(s: Seq<char>, sep: spec_fn(char) -> bool)
    ensures
        forall|j: int, k: int|
            0 <= j < split_when(s, sep).len() && 0 <= k < split_when(s, sep)[j].len() ==> !sep(
                #[trigger] split_when(s, sep)[j][k],
            ),
    decreases s.len(),
{
    if s.len() > 0 {
        lemma_split_pieces_clean(s.drop_last(), sep);
        lemma_split_when_nonempty(s.drop_last(), sep);
        let r = split_when(s.drop_last(), sep);
        if !sep(s.last()) {
            let res = split_when(s, sep);
            assert forall|j: int, k: int|
                0 <= j < res.len() && 0 <= k < res[j].len() implies !sep(#[trigger] res[j][k]) by {
                if j == r.len() - 1 {
                    if k < r.last().len() {
                        assert(res[j][k] == r[j][k]);
                    }
                } else {
                    assert(res[j] == r[j]);
                }
            }
        } else {
            let res = split_when(s, sep);
            assert forall|j: int, k: int|
                0 <= j < res.len() && 0 <= k < res[j].len() implies !sep(#[trigger] res[j][k]) by {
                assert(res[j] == r[j]);
            }
        }
    }
}

/// A text without separators splits into itself.
pub proof fn lemma_split_clean(s: Seq<char>, sep: spec_fn(char) -> bool)
    requires
        forall|k: int| 0 <= k < s.len() ==> !sep(#[trigger] s[k]),
    ensures
        split_when(s, sep) == seq![s],
    decreases s.len(),
{
    if s.len() > 0 {
        lemma_split_clean(s.drop_last(), sep);
        assert(s.drop_last().push(s.last()) =~= s);
        assert(seq![s.drop_last()].update(0, s.drop_last().push(s.last())) =~= seq![s]);
    } else {
        assert(s =~= Seq::<char>::empty());
    }
}

/// Splitting a concatenation: the pieces of `s`, the last one joined with
/// the first piece of `t`, then the other pieces of `t`.
pub proof fn lemma_split_append(s: Seq<char>, t: Seq<char>, sep: spec_fn(char) -> bool)
    ensures
        split_when(s + t, sep) == split_when(s, sep).drop_last() + seq![
            split_when(s, sep).last() + split_when(t, sep)[0],
        ] + split_when(t, sep).skip(1),
    decreases t.len(),
{
    lemma_split_when_nonempty(s, sep);
    if t.len() == 0 {
        assert(s + t =~= s);
        let a = split_when(s, sep);
        assert(split_when(t, sep) =~= seq![Seq::<char>::empty()]);
        assert(a.last() + Seq::<char>::empty() =~= a.last());
        assert(a.drop_last() + seq![a.last()] =~= a);
        assert(a.drop_last() + seq![a.last() + split_when(t, sep)[0]] + split_when(t, sep).skip(1)
            =~= a);
    } else {
        let t1 = t.drop_last();
        let c = t.last();
        lemma_split_append(s, t1, sep);
        lemma_split_when_nonempty(t1, sep);
        assert((s + t).drop_last() =~= s + t1);
        assert((s + t).last() == c);
        let a = split_when(s, sep);
        let b1 = split_when(t1, sep);
        let r1 = split_when(s + t1, sep);
        if sep(c) {
            assert(split_when(t, sep) == b1.push(Seq::<char>::empty()));
            assert(split_when(s + t, sep) == r1.push(Seq::<char>::empty()));
            assert(b1.push(Seq::<char>::empty())[0] == b1[0]);
            assert(b1.push(Seq::<char>::empty()).skip(1) =~= b1.skip(1).push(Seq::<char>::empty()));
            assert(split_when(s + t, sep) =~= a.drop_last() + seq![a.last() + split_when(t, sep)[0]]
                + split_when(t, sep).skip(1));
        } else {
            let bt = b1.update(b1.len() - 1, b1.last().push(c));
            assert(split_when(t, sep) == bt);
            assert(split_when(s + t, sep) == r1.update(r1.len() - 1, r1.last().push(c)));
            if b1.len() == 1 {
                assert(bt[0] == b1[0].push(c));
                assert(bt.skip(1) =~= Seq::<Seq<char>>::empty());
                assert(b1.skip(1) =~= Seq::<Seq<char>>::empty());
                assert((a.last() + b1[0]).push(c) =~= a.last() + b1[0].push(c));
                assert(r1.update(r1.len() - 1, r1.last().push(c)) =~= a.drop_last() + seq![
                    a.last() + bt[0],
                ] + bt.skip(1));
            } else {
                assert(bt[0] == b1[0]);
                assert(bt.skip(1) =~= b1.skip(1).update(
                    b1.skip(1).len() - 1,
                    b1.skip(1).last().push(c),
                ));
                assert(r1.update(r1.len() - 1, r1.last().push(c)) =~= a.drop_last() + seq![
                    a.last() + bt[0],
                ] + bt.skip(1));
            }
        }
    }
}

/// A piece without separators, a separator, then the rest: the piece is
/// the first of the split.
pub proof fn lemma_split_piece(a: Seq<char>, c: char, t: Seq<char>, sep: spec_fn(char) -> bool)
    requires
        forall|k: int| 0 <= k < a.len() ==> !sep(#[trigger] a[k]),
        sep(c),
    ensures
        split_when(a + seq![c] + t, sep) == seq![a] + split_when(t, sep),
{
    lemma_split_clean(a, sep);
    assert((a + seq![c]).drop_last() =~= a);
    assert((a + seq![c]).last() == c);
    assert(split_when(a + seq![c], sep) == seq![a].push(Seq::<char>::empty()));
    lemma_split_append(a + seq![c], t, sep);
    lemma_split_when_nonempty(t, sep);
    let b = split_when(t, sep);
    assert(Seq::<char>::empty() + b[0] =~= b[0]);
    assert(seq![a, Seq::<char>::empty()].drop_last() + seq![Seq::<char>::empty() + b[0]]
        + b.skip(1) =~= seq![a] + b);
    assert(seq![a].push(Seq::<char>::empty()) =~= seq![a, Seq::<char>::empty()]);
}

/// `p` does not occur in `s` when one of its characters never does.
pub proof fn lemma_find_sub_absent(s: Seq<char>, p: Seq<char>, j: int)
    requires
        0 <= j < p.len(),
        forall|k: int| 0 <= k < s.len() ==> s[k] != p[j],
    ensures
        find_sub(s, p) is None,
{
    assert forall|k: int| 0 <= k < s.len() implies !occurs_at(s, p, k) by {
        if occurs_at(s, p, k) {
            assert(s.subrange(k, k + p.len())[j] == s[k + j]);
        }
    }
    lemma_find_sub_skip(s, p, s.len() as int);
    assert(s.skip(s.len() as int) =~= Seq::<char>::empty());
}

/// The position of `p` in `s` when `p` occurs there and nowhere before.
pub proof fn lemma_find_sub_first(s: Seq<char>, p: Seq<char>, i: int)
    requires
        occurs_at(s, p, i),
        forall|k: int| 0 <= k < i ==> !occurs_at(s, p, k),
    ensures
        find_sub(s, p) == Some(i),
{
    lemma_find_sub_skip(s, p, i);
    assert(s.skip(i).subrange(0, p.len() as int) =~= s.subrange(i, i + p.len()));
    lemma_find_sub_at(s.skip(i), p);
}

/// The non-empty pieces.
pub open spec fn nonempty_only(ps: Seq<Seq<char>>) -> Seq<Seq<char>>
    decreases ps.len(),
{
    if ps.len() == 0 {
        seq![]
    } else {
        let r = nonempty_only(ps.drop_last());
        if ps.last().len() > 0 {
            r.push(ps.last())
        } else {
            r
        }
    }
}

/// Every character of `x` is a character of `s`.
pub open spec fn chars_within(x: Seq<char>, s: Seq<char>) -> bool {
    forall|k: int| 0 <= k < x.len() ==> s.contains(#[trigger] x[k])
}

pub proof fn lemma_within_self(s: Seq<char>)
    ensures
        chars_within(s, s),
{
    assert forall|k: int| 0 <= k < s.len() implies s.contains(#[trigger] s[k]) by {}
}

pub proof fn lemma_within_trans(x: Seq<char>, y: Seq<char>, z: Seq<char>)
    requires
        chars_within(x, y),
        chars_within(y, z),
    ensures
        chars_within(x, z),
{
    assert forall|k: int| 0 <= k < x.len() implies z.contains(#[trigger] x[k]) by {
        assert(y.contains(x[k]));
        let m = choose|m: int| 0 <= m < y.len() && y[m] == x[k];
        assert(z.contains(y[m]));
    }
}

pub proof fn lemma_within_drop_last(s: Seq<char>)
    requires
        s.len() > 0,
    ensures
        chars_within(s.drop_last(), s),
{
    assert forall|k: int| 0 <= k < s.drop_last().len() implies s.contains(
        #[trigger] s.drop_last()[k],
    ) by {
        assert(s[k] == s.drop_last()[k]);
    }
}

pub proof fn lemma_within_drop_first(s: Seq<char>)
    requires
        s.len() > 0,
    ensures
        chars_within(s.drop_first(), s),
{
    assert forall|k: int| 0 <= k < s.drop_first().len() implies s.contains(
        #[trigger] s.drop_first()[k],
    ) by {
        assert(s[k + 1] == s.drop_first()[k]);
    }
}

/// The characters of ASCII text are ASCII wherever they go.
pub proof fn lemma_within_ascii(x: Seq<char>, s: Seq<char>)
    requires
        chars_within(x, s),
        is_ascii_text(s),
    ensures
        is_ascii_text(x),
{
    assert forall|k: int| 0 <= k < x.len() implies (#[trigger] x[k] as u32) < 128 by {
        assert(s.contains(x[k]));
        let m = choose|m: int| 0 <= m < s.len() && s[m] == x[k];
        assert((s[m] as u32) < 128);
    }
}

/// Each piece of a split is at most the text less one character per cut,
/// and is made of the text's characters.
pub proof fn lemma_split_piece_sizes(s: Seq<char>, sep: spec_fn(char) -> bool)
    ensures
        split_when(s, sep).len() >= 1,
        forall|j: int|
            0 <= j < split_when(s, sep).len() ==> (#[trigger] split_when(s, sep)[j]).len()
                + split_when(s, sep).len() - 1 <= s.len() && chars_within(split_when(s, sep)[j], s),
    decreases s.len(),
{
    lemma_split_when_nonempty(s, sep);
    if s.len() > 0 {
        let init = s.drop_last();
        lemma_split_piece_sizes(init, sep);
        lemma_within_drop_last(s);
        let r = split_when(init, sep);
        let res = split_when(s, sep);
        assert forall|j: int| 0 <= j < res.len() implies (#[trigger] res[j]).len() + res.len() - 1
            <= s.len() && chars_within(res[j], s) by {
            if sep(s.last()) {
                if j < r.len() {
                    assert(res[j] == r[j]);
                    lemma_within_trans(r[j], init, s);
                } else {
                    assert(res[j] == Seq::<char>::empty());
                    assert(r[0].len() + r.len() - 1 <= init.len());
                }
            } else if j == r.len() - 1 {
                let piece = r.last().push(s.last());
                assert(res[j] == piece);
                lemma_within_trans(r[j], init, s);
                assert forall|k: int| 0 <= k < piece.len() implies s.contains(#[trigger] piece[k]) by {
                    if k < r.last().len() {
                        assert(piece[k] == r[j][k]);
                    } else {
                        assert(s[s.len() - 1] == s.last());
                    }
                }
            } else {
                assert(res[j] == r[j]);
                lemma_within_trans(r[j], init, s);
            }
        }
    }
}

pub proof fn lemma_trim_start_within(s: Seq<char>)
    ensures
        trim_start(s).len() <= s.len(),
        chars_within(trim_start(s), s),
    decreases s.len(),
{
    if s.len() > 0 && is_ws(s[0]) {
        lemma_trim_start_within(s.drop_first());
        lemma_within_drop_first(s);
        lemma_within_trans(trim_start(s.drop_first()), s.drop_first(), s);
    } else {
        lemma_within_self(s);
    }
}

pub proof fn lemma_trim_end_within(s: Seq<char>)
    ensures
        trim_end(s).len() <= s.len(),
        chars_within(trim_end(s), s),
    decreases s.len(),
{
    if s.len() > 0 && is_ws(s.last()) {
        lemma_trim_end_within(s.drop_last());
        lemma_within_drop_last(s);
        lemma_within_trans(trim_end(s.drop_last()), s.drop_last(), s);
    } else {
        lemma_within_self(s);
    }
}

/// Trimming shortens a text and keeps only its characters.
pub proof fn lemma_trim_within(s: Seq<char>)
    ensures
        trim(s).len() <= s.len(),
        chars_within(trim(s), s),
{
    let a = trim_start(s);
    lemma_trim_start_within(s);
    lemma_trim_end_within(a);
    lemma_within_trans(trim(s), a, s);
}

/// The non-empty pieces are pieces, no more of them than there were.
pub proof fn lemma_nonempty_only_from(ps: Seq<Seq<char>>)
    ensures
        nonempty_only(ps).len() <= ps.len(),
        forall|i: int| 0 <= i < nonempty_only(ps).len() ==> ps.contains(#[trigger] nonempty_only(ps)[i])
            && nonempty_only(ps)[i].len() > 0,
    decreases ps.len(),
{
    if ps.len() > 0 {
        let init = ps.drop_last();
        lemma_nonempty_only_from(init);
        let r = nonempty_only(init);
        let res = nonempty_only(ps);
        assert forall|i: int| 0 <= i < res.len() implies ps.contains(#[trigger] res[i])
            && res[i].len() > 0 by {
            if i < r.len() {
                assert(res[i] == r[i]);
                let k = choose|k: int| 0 <= k < init.len() && init[k] == r[i];
                assert(ps[k] == init[k]);
            } else {
                assert(ps[ps.len() - 1] == ps.last());
            }
        }
    }
}

/// The non-empty pieces of `ps`, copied.
pub fn nonempty_pieces(ps: &Vec<Vec<char>>) -> (res: Vec<Vec<char>>)
    ensures
        views(res@) == nonempty_only(views(ps@)),
{
    let ghost pv = views(ps@);
    let mut res: Vec<Vec<char>> = Vec::new();
    let mut i: usize = 0;
    while i < ps.len()
        invariant
            i <= ps@.len(),
            pv == views(ps@),
            views(res@) == nonempty_only(pv.take(i as int)),
        decreases ps.len() - i,
    {
        assert(pv.take(i + 1).drop_last() =~= pv.take(i as int));
        assert(pv.take(i + 1).last() == pv[i as int]);
        if ps[i].len() > 0 {
            let c = sub_chars(ps[i].as_slice(), 0, ps[i].len());
            let ghost before = views(res@);
            let ghost cv = c@;
            assert(cv =~= pv[i as int]);
            res.push(c);
            assert(views(res@) =~= before.push(cv));
        }
        i = i + 1;
    }
    assert(pv.take(ps@.len() as int) =~= pv);
    res
}

/// The UTF-8 bytes of `s`.
pub fn str_bytes(s: &str) -> (res: Vec<u8>)
    ensures
        res@ == s.spec_bytes(),
{
    let b = s.as_bytes();
    let mut res: Vec<u8> = Vec::new();
    let mut i: usize = 0;
    while i < b.len()
        invariant
            i <= b@.len(),
            b@ == s.spec_bytes(),
            res@ == b@.take(i as int),
        decreases b.len() - i,
    {
        res.push(b[i]);
        assert(res@ =~= b@.take(i + 1));
        i = i + 1;
    }
    assert(b@.take(b@.len() as int) =~= b@);
    res
}

/// What `String::from_utf8_lossy` gives for `bytes`: the text they encode,
/// with each invalid sequence replaced by U+FFFD.
pub uninterp spec fn utf8_lossy(bytes: Seq<u8>) -> Seq<char>;

/// Calls `String::from_utf8_lossy`. Its documentation promises that valid
/// UTF-8 comes back unchanged; what replaces invalid sequences is named,
/// not spelled out.
#[verifier::external_body]
pub(crate) fn from_utf8_lossy(bytes: &[u8]) -> (res: Vec<char>)
    ensures
        res@ == utf8_lossy(bytes@),
        vstd::utf8::valid_utf8(bytes@) ==> res@ == vstd::utf8::decode_utf8(bytes@),
{
    String::from_utf8_lossy(bytes).chars().collect()
}

} // verus!
