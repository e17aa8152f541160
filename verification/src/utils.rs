//! YouTube addresses: finding the video id and writing the canonical form.
use vstd::prelude::*;
use crate::text::{
    find, find_sub, lemma_find_sub_absent, lemma_find_sub_bounds, lemma_find_sub_first, lemma_split_clean,
    lemma_split_pieces_clean, lemma_split_when_nonempty, occurs_at, one_of, split_on, split_when,
    str_chars, string_from_chars, sub_chars, concat_chars,
};

verus! {

/// `?v=`: the `v` query parameter as the first parameter.
pub open spec fn first_param_key() -> Seq<char> {
    seq!['?', 'v', '=']
}

/// `&v=`: the `v` query parameter after another one.
pub open spec fn later_param_key() -> Seq<char> {
    seq!['&', 'v', '=']
}

/// Where the `v` query parameter begins (at its `?` or `&`): the first place
/// where `?v=` or `&v=` occurs.
pub open spec fn query_param_at(url: Seq<char>) -> Option<int> {
    match find_sub(url, first_param_key()) {
        Some(a) => match find_sub(url, later_param_key()) {
            Some(b) => Some(if a <= b { a } else { b }),
            None => Some(a),
        },
        None => find_sub(url, later_param_key()),
    }
}

/// `youtu.be/`, the short-link host.
pub open spec fn short_host() -> Seq<char> {
    seq!['y', 'o', 'u', 't', 'u', '.', 'b', 'e', '/']
}

/// `https://www.youtube.com/watch?v=`, the canonical prefix.
pub open spec fn canonical_prefix() -> Seq<char> {
    seq![
        'h', 't', 't', 'p', 's', ':', '/', '/', 'w', 'w', 'w', '.', 'y', 'o', 'u', 't', 'u', 'b',
        'e', '.', 'c', 'o', 'm', '/', 'w', 'a', 't', 'c', 'h', '?', 'v', '=',
    ]
}

/// The value of the `v` query parameter of `url` (the text after the first
/// `?v=` or `&v=` up to the next `&`), when that is not empty; otherwise
/// the text after the first `youtu.be/` up to the next `?`, `&` or `/`,
/// when that is not empty.
pub open spec fn video_id_of(url: Seq<char>) -> Option<Seq<char>> {
    let from_query = match query_param_at(url) {
        Some(i) => split_when(url.skip(i + 3), one_of(seq!['&']))[0],
        None => Seq::<char>::empty(),
    };
    if from_query.len() > 0 {
        Some(from_query)
    } else {
        let from_short = match find_sub(url, short_host()) {
            Some(i) => split_when(url.skip(i + 9), one_of(seq!['?', '&', '/']))[0],
            None => Seq::<char>::empty(),
        };
        if from_short.len() > 0 {
            Some(from_short)
        } else {
            None
        }
    }
}

/// The canonical address of a video id.
pub open spec fn canonical_url(id: Seq<char>) -> Seq<char> {
    canonical_prefix() + id
}

/// The first piece of `s` cut at any of `seps`.
fn first_piece(s: &[char], seps: &[char]) -> (res: Vec<char>)
    ensures
        res@ == split_when(s@, one_of(seps@))[0],
{
    let pieces = split_on(s, seps);
    proof {
        lemma_split_when_nonempty(s@, one_of(seps@));
    }
    let p = sub_chars(pieces[0].as_slice(), 0, pieces[0].len());
    assert(p@ =~= pieces@[0]@);
    p
}

/// Extracts the video id of a YouTube address: from the `v=` query
/// parameter (`youtube.com`, `music.youtube.com`) or from a `youtu.be/<id>`
/// short link. `None` when neither gives a non-empty id.
pub fn extract_video_id(url: &str) -> (res: Option<String>)
    ensures
        match res {
            Some(id) => video_id_of(url@) == Some(id@),
            None => video_id_of(url@) is None,
        },
{
    let u = str_chars(url);
    let first_key = vec!['?', 'v', '='];
    let later_key = vec!['&', 'v', '='];
    assert(first_key@ =~= first_param_key());
    assert(later_key@ =~= later_param_key());
    proof {
        lemma_find_sub_bounds(u@, first_key@);
        lemma_find_sub_bounds(u@, later_key@);
    }
    let at: Option<usize> = match find(u.as_slice(), first_key.as_slice()) {
        Some(a) => match find(u.as_slice(), later_key.as_slice()) {
            Some(b) => Some(if a <= b { a } else { b }),
            None => Some(a),
        },
        None => find(u.as_slice(), later_key.as_slice()),
    };
    let from_query = match at {
        Some(i) => {
            assert(i + 3 <= u@.len());
            let n = u.len();
            let rest = sub_chars(u.as_slice(), i + 3, n);
            assert(rest@ =~= u@.skip(i + 3));
            let amp = vec!['&'];
            assert(amp@ =~= seq!['&']);
            first_piece(rest.as_slice(), amp.as_slice())
        },
        None => Vec::new(),
    };
    if from_query.len() > 0 {
        return Some(string_from_chars(from_query.as_slice()));
    }
    let host = vec!['y', 'o', 'u', 't', 'u', '.', 'b', 'e', '/'];
    assert(host@ =~= short_host());
    let from_short = match find(u.as_slice(), host.as_slice()) {
        Some(i) => {
            proof {
                lemma_find_sub_bounds(u@, host@);
            }
            assert(i + 9 <= u@.len());
            let n = u.len();
            let rest = sub_chars(u.as_slice(), i + 9, n);
            assert(rest@ =~= u@.skip(i + 9));
            let seps = vec!['?', '&', '/'];
            assert(seps@ =~= seq!['?', '&', '/']);
            first_piece(rest.as_slice(), seps.as_slice())
        },
        None => Vec::new(),
    };
    if from_short.len() > 0 {
        Some(string_from_chars(from_short.as_slice()))
    } else {
        None
    }
}

/// Rewrites any recognised YouTube address as
/// `https://www.youtube.com/watch?v=<video_id>`.
pub fn normalize_youtube_url(url: &str) -> (res: Option<String>)
    ensures
        match res {
            Some(c) => video_id_of(url@) matches Some(id) && c@ == canonical_url(id),
            None => video_id_of(url@) is None,
        },
{
    match extract_video_id(url) {
        Some(id) => {
            let prefix = vec![
                'h', 't', 't', 'p', 's', ':', '/', '/', 'w', 'w', 'w', '.', 'y', 'o', 'u', 't', 'u',
                'b', 'e', '.', 'c', 'o', 'm', '/', 'w', 'a', 't', 'c', 'h', '?', 'v', '=',
            ];
            assert(prefix@ =~= canonical_prefix());
            let idc = str_chars(id.as_str());
            let full = concat_chars(prefix.as_slice(), idc.as_slice());
            Some(string_from_chars(full.as_slice()))
        },
        None => None,
    }
}

/// A video id never holds `&`.
proof fn lemma_id_has_no_ampersand(url: Seq<char>)
    ensures
        video_id_of(url) matches Some(id) ==> forall|k: int|
            0 <= k < id.len() ==> #[trigger] id[k] != '&',
{
    if let Some(i) = query_param_at(url) {
        lemma_split_pieces_clean(url.skip(i + 3), one_of(seq!['&']));
        lemma_split_when_nonempty(url.skip(i + 3), one_of(seq!['&']));
    }
    if let Some(i) = find_sub(url, short_host()) {
        let s = url.skip(i + 9);
        lemma_split_pieces_clean(s, one_of(seq!['?', '&', '/']));
        lemma_split_when_nonempty(s, one_of(seq!['?', '&', '/']));
        assert(seq!['?', '&', '/'].contains('&')) by {
            assert(seq!['?', '&', '/'][1] == '&');
        }
    }
    if let Some(id) = video_id_of(url) {
        let from_query = match query_param_at(url) {
            Some(i) => split_when(url.skip(i + 3), one_of(seq!['&']))[0],
            None => Seq::<char>::empty(),
        };
        assert(seq!['&'].contains('&')) by {
            assert(seq!['&'][0] == '&');
        }
        assert forall|k: int| 0 <= k < id.len() implies #[trigger] id[k] != '&' by {
            if from_query.len() > 0 {
                assert(id == from_query);
            }
        }
    }
}

/// The canonical address of an id carries exactly that id.
proof fn lemma_canonical_id(id: Seq<char>)
    requires
        id.len() > 0,
        forall|k: int| 0 <= k < id.len() ==> #[trigger] id[k] != '&',
    ensures
        video_id_of(canonical_url(id)) == Some(id),
{
    let s = canonical_url(id);
    let p = canonical_prefix();
    assert(s.len() == 32 + id.len());
    assert forall|k: int| 0 <= k < 29 implies !occurs_at(s, first_param_key(), k) by {
        assert(s[k] == p[k]);
        assert(p[k] != '?');
        if occurs_at(s, first_param_key(), k) {
            assert(s.subrange(k, k + 3)[0] == s[k]);
        }
    }
    assert(s.subrange(29, 32) =~= first_param_key());
    lemma_find_sub_first(s, first_param_key(), 29);
    assert forall|k: int| 0 <= k < s.len() implies s[k] != later_param_key()[0] by {
        if k < 32 {
            assert(s[k] == p[k]);
        } else {
            assert(s[k] == id[k - 32]);
        }
    }
    lemma_find_sub_absent(s, later_param_key(), 0);
    assert(s.skip(32) =~= id);
    assert forall|k: int| 0 <= k < id.len() implies !one_of(seq!['&'])(#[trigger] id[k]) by {
        if seq!['&'].contains(id[k]) {
            let j = choose|j: int| 0 <= j < 1 && seq!['&'][j] == id[k];
            assert(seq!['&'][j] == '&');
        }
    }
    lemma_split_clean(id, one_of(seq!['&']));
}

/// Normalizing keeps the video id: the canonical address of a recognised
/// address carries the same id.
pub proof fn lemma_normalize_keeps_video_id(url: Seq<char>)
    ensures
        video_id_of(url) matches Some(id) ==> video_id_of(canonical_url(id)) == Some(id),
{
    lemma_id_has_no_ampersand(url);
    if let Some(id) = video_id_of(url) {
        lemma_canonical_id(id);
    }
}

/// Normalizing is idempotent: normalizing a canonical address gives it back.
pub proof fn lemma_normalize_idempotent(url: Seq<char>)
    ensures
        video_id_of(url) matches Some(id) ==> video_id_of(canonical_url(id)) matches Some(id2)
            && canonical_url(id2) == canonical_url(id),
{
    lemma_normalize_keeps_video_id(url);
}

} // verus!
