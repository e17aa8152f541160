//! The search for the lyrics of a music, provider after provider.
//!
//! The order is fixed: the lines already stored; the captions of the
//! YouTube video; for each candidate song title, LouvorJA and then NetEase;
//! LRCLib; and last a transcription of the local audio, when there is one.
//! The first source that yields lines wins: its lines are stored and read
//! back. A source that fails counts as one that found nothing.
//!
//! The search is a state machine: each step takes the answer to the last
//! request and says what to do next, until it finishes with the lyrics.
use vstd::prelude::*;
use crate::lrc;
use crate::lrc::lrc_cues;
use crate::model::{copy_lines, copy_string, lines_of_cues, LyricsLine};
use crate::srt;
use crate::srt::{srt_lines, vtt_lines};
use crate::text::{
    has_prefix, lines, starts_with, str_chars, string_views, trim, trim_chars, trim_start,
    trim_start_chars,
};
use crate::title::{extract_song_title_candidates, title_candidates};
use crate::utils::{extract_video_id, video_id_of};

verus! {

/// Whether caption text is WebVTT: it starts with `WEBVTT` after leading
/// whitespace. Other caption text is read as SRT.
pub open spec fn is_webvtt(content: Seq<char>) -> bool {
    starts_with(trim_start(content), "WEBVTT"@)
}

/// The (start, end, text) of each line that captions hold.
pub open spec fn caption_cues(content: Seq<char>) -> Seq<(int, int, Seq<char>)> {
    if is_webvtt(content) {
        vtt_lines(content)
    } else {
        srt_lines(content)
    }
}

/// `res` holds one unsaved line of `music_id` for each (start, end, text).
pub open spec fn lines_of_triples(
    res: Seq<LyricsLine>,
    cues: Seq<(int, int, Seq<char>)>,
    music_id: Seq<char>,
) -> bool {
    &&& res.len() == cues.len()
    &&& forall|i: int|
        0 <= i < res.len() ==> {
            &&& (#[trigger] res[i]).id == 0
            &&& res[i].music_id@ == music_id
            &&& res[i].start_ms == cues[i].0
            &&& res[i].end_ms == cues[i].1
            &&& res[i].text@ == cues[i].2
        }
}

/// Reads caption text as WebVTT or SRT.
pub fn caption_lines(content: &str, music_id: &str) -> (res: Vec<LyricsLine>)
    ensures
        lines_of_triples(res@, caption_cues(content@), music_id@),
{
    let head = trim_start_chars(str_chars(content).as_slice());
    if has_prefix(head.as_slice(), str_chars("WEBVTT").as_slice()) {
        srt::parse_vtt(content, music_id)
    } else {
        srt::parse(content, music_id)
    }
}

/// The first non-empty synchronized lyrics among LRCLib's results.
pub open spec fn first_synced(results: Seq<Option<String>>) -> Option<Seq<char>>
    decreases results.len(),
{
    if results.len() == 0 {
        None
    } else {
        match results[0] {
            Some(s) if s@.len() > 0 => Some(s@),
            _ => first_synced(results.drop_first()),
        }
    }
}

/// Picks the synchronized lyrics of the first LRCLib result that has
/// non-empty ones.
pub fn first_synced_lyrics(results: &Vec<Option<String>>) -> (res: Option<String>)
    ensures
        match res {
            Some(s) => first_synced(results@) == Some(s@),
            None => first_synced(results@) is None,
        },
{
    let mut i: usize = 0;
    assert(results@.skip(0) =~= results@);
    while i < results.len()
        invariant
            i <= results@.len(),
            first_synced(results@) == first_synced(results@.skip(i as int)),
        decreases results.len() - i,
    {
        assert(results@.skip(i as int)[0] == results@[i as int]);
        match &results[i] {
            Some(s) => {
                if s.unicode_len() > 0 {
                    return Some(copy_string(s));
                }
            },
            None => {},
        }
        assert(results@.skip(i as int).drop_first() =~= results@.skip(i + 1));
        i = i + 1;
    }
    None
}

/// Where the search stands: which request awaits its answer.
pub enum SearchStage {
    /// Reading the lines stored for the music.
    Cache,
    /// Fetching the captions of the video.
    Captions,
    /// Looking up the stored title of the music.
    Title,
    /// Asking LouvorJA about the candidate title at this index.
    LouvorJa(usize),
    /// Asking NetEase about the candidate title at this index.
    Netease(usize),
    /// Asking LRCLib.
    Lrclib,
    /// Transcribing the local audio.
    Whisper,
    /// Storing these lines and reading back what was stored.
    Saving(Vec<LyricsLine>),
    /// Finished.
    Done,
}

/// What the search asks for next.
pub enum LyricsRequest {
    /// Read the lines stored for the music.
    ReadCache,
    /// Fetch the captions of the video with this id.
    FetchCaptions(String),
    /// Look up the stored title of the music by its address.
    LookupTitle,
    /// Ask LouvorJA for the lyrics of this title.
    QueryLouvorJa(String),
    /// Ask NetEase for the lyrics of this title.
    QueryNetease(String),
    /// Ask LRCLib for synchronized lyrics matching this query.
    QueryLrclib(String),
    /// Tell the user that a transcription starts, then transcribe the
    /// local audio.
    Transcribe,
    /// Store these lines, then read back the lines stored for the music.
    Persist(Vec<LyricsLine>),
    /// The search is over: these are the lyrics (none were found when
    /// empty).
    Finish(Vec<LyricsLine>),
}

/// The answer to a request. Lines answer the cache, the providers, the
/// transcription and the read-back; text answers the captions, the title
/// lookup and LRCLib. A failed request is answered with no lines or
/// `None`; an answer of the other kind counts as nothing found.
pub enum LyricsReply {
    Lines(Vec<LyricsLine>),
    Text(Option<String>),
}

/// The lines an answer carries.
pub open spec fn reply_lines(r: LyricsReply) -> Seq<LyricsLine> {
    match r {
        LyricsReply::Lines(l) => l@,
        LyricsReply::Text(_) => Seq::empty(),
    }
}

/// The text an answer carries.
pub open spec fn reply_text(r: LyricsReply) -> Option<Seq<char>> {
    match r {
        LyricsReply::Text(Some(t)) => Some(t@),
        _ => None,
    }
}

/// A search for the lyrics of one music.
pub struct LyricsSearch {
    pub music_id: String,
    pub youtube_url: String,
    /// Whether there is local audio to transcribe.
    pub has_audio: bool,
    pub stage: SearchStage,
    /// The candidate song titles, once the title is known.
    pub candidates: Vec<String>,
}

/// Whether the search awaits an answer it can take.
pub open spec fn awaits_reply(s: LyricsSearch) -> bool {
    match s.stage {
        SearchStage::Done => false,
        SearchStage::LouvorJa(i) => i < s.candidates@.len(),
        SearchStage::Netease(i) => i < s.candidates@.len(),
        _ => true,
    }
}

/// `next` is the search `s`, about the same music.
pub open spec fn same_music(s: LyricsSearch, next: LyricsSearch) -> bool {
    &&& next.music_id == s.music_id
    &&& next.youtube_url == s.youtube_url
    &&& next.has_audio == s.has_audio
}

/// The search stores `found`.
pub open spec fn saves(next: LyricsSearch, req: LyricsRequest, found: Seq<LyricsLine>) -> bool {
    &&& next.stage matches SearchStage::Saving(l) && l@ == found
    &&& req matches LyricsRequest::Persist(p) && p@ == found
}

/// The search stores lines that `ok` accepts.
pub open spec fn saves_such(
    next: LyricsSearch,
    req: LyricsRequest,
    ok: spec_fn(Seq<LyricsLine>) -> bool,
) -> bool {
    &&& next.stage matches SearchStage::Saving(l) && ok(l@)
    &&& req matches LyricsRequest::Persist(p) && p@ == (match next.stage {
        SearchStage::Saving(l) => l@,
        _ => Seq::empty(),
    })
}

/// The search is over, with `lyrics`.
pub open spec fn finishes(next: LyricsSearch, req: LyricsRequest, lyrics: Seq<LyricsLine>) -> bool {
    &&& next.stage is Done
    &&& req matches LyricsRequest::Finish(f) && f@ == lyrics
}

/// After the cache: the captions of the video, or the title when the
/// address carries no video id.
pub open spec fn goes_to_captions(next: LyricsSearch, req: LyricsRequest) -> bool {
    match video_id_of(next.youtube_url@) {
        Some(v) => {
            &&& next.stage is Captions
            &&& req matches LyricsRequest::FetchCaptions(id) && id@ == v
        },
        None => {
            &&& next.stage is Title
            &&& req is LookupTitle
        },
    }
}

/// The candidate title at `i` goes to LouvorJA; past the last candidate,
/// LRCLib is asked with the music id.
pub open spec fn goes_to_candidate(next: LyricsSearch, req: LyricsRequest, i: int) -> bool {
    if 0 <= i < next.candidates@.len() {
        &&& next.stage matches SearchStage::LouvorJa(j) && j == i
        &&& req matches LyricsRequest::QueryLouvorJa(c) && c@ == next.candidates@[i]@
    } else {
        &&& next.stage is Lrclib
        &&& req matches LyricsRequest::QueryLrclib(q) && q@ == next.music_id@
    }
}

/// After LRCLib: the transcription when there is local audio, else the
/// end with no lyrics.
pub open spec fn goes_to_whisper(next: LyricsSearch, req: LyricsRequest) -> bool {
    if next.has_audio {
        &&& next.stage is Whisper
        &&& req is Transcribe
    } else {
        finishes(next, req, Seq::empty())
    }
}

/// The title searched for: the stored title when it is not blank, else
/// the music id.
pub open spec fn searched_title(stored: Option<Seq<char>>, music_id: Seq<char>) -> Seq<char> {
    match stored {
        Some(t) if trim(t).len() > 0 => t,
        _ => music_id,
    }
}

/// One step of the search: from `s`, given the answer `reply`, to `next`
/// with the request `req`.
pub open spec fn search_step(
    s: LyricsSearch,
    reply: LyricsReply,
    next: LyricsSearch,
    req: LyricsRequest,
) -> bool {
    &&& same_music(s, next)
    &&& match s.stage {
        SearchStage::Title => string_views(next.candidates@) == title_candidates(
            searched_title(reply_text(reply), s.music_id@),
        ),
        _ => next.candidates == s.candidates,
    }
    &&& match s.stage {
        SearchStage::Cache => if reply_lines(reply).len() > 0 {
            finishes(next, req, reply_lines(reply))
        } else {
            goes_to_captions(next, req)
        },
        SearchStage::Captions => match reply_text(reply) {
            Some(t) if caption_cues(t).len() > 0 => saves_such(
                next,
                req,
                |l: Seq<LyricsLine>| lines_of_triples(l, caption_cues(t), s.music_id@),
            ),
            _ => {
                &&& next.stage is Title
                &&& req is LookupTitle
            },
        },
        SearchStage::Title => goes_to_candidate(next, req, 0),
        SearchStage::LouvorJa(i) => if reply_lines(reply).len() > 0 {
            saves(next, req, reply_lines(reply))
        } else {
            &&& next.stage == SearchStage::Netease(i)
            &&& req matches LyricsRequest::QueryNetease(c) && c@ == s.candidates@[i as int]@
        },
        SearchStage::Netease(i) => if reply_lines(reply).len() > 0 {
            saves(next, req, reply_lines(reply))
        } else {
            goes_to_candidate(next, req, i + 1)
        },
        SearchStage::Lrclib => match reply_text(reply) {
            Some(t) if lrc_cues(lines(t)).len() > 0 => saves_such(
                next,
                req,
                |l: Seq<LyricsLine>| lines_of_cues(l, lrc_cues(lines(t)), s.music_id@),
            ),
            _ => goes_to_whisper(next, req),
        },
        SearchStage::Whisper => if reply_lines(reply).len() > 0 {
            saves(next, req, reply_lines(reply))
        } else {
            finishes(next, req, Seq::empty())
        },
        SearchStage::Saving(l) => finishes(
            next,
            req,
            if reply_lines(reply).len() > 0 {
                reply_lines(reply)
            } else {
                l@
            },
        ),
        SearchStage::Done => false,
    }
}

impl LyricsSearch {
    /// Starts the search for the lyrics of `music_id`, played from
    /// `youtube_url`: the first request reads the stored lines.
    pub fn start(music_id: &str, youtube_url: &str, has_audio: bool) -> (res: (
        LyricsSearch,
        LyricsRequest,
    ))
        ensures
            res.0.music_id@ == music_id@,
            res.0.youtube_url@ == youtube_url@,
            res.0.has_audio == has_audio,
            res.0.stage is Cache,
            res.0.candidates@.len() == 0,
            res.1 is ReadCache,
    {
        (
            LyricsSearch {
                music_id: String::from_str(music_id),
                youtube_url: String::from_str(youtube_url),
                has_audio,
                stage: SearchStage::Cache,
                candidates: Vec::new(),
            },
            LyricsRequest::ReadCache,
        )
    }

    /// Whether the search awaits an answer (it is not finished).
    pub fn is_waiting(&self) -> (res: bool)
        ensures
            res == awaits_reply(*self),
    {
        match self.stage {
            SearchStage::Done => false,
            SearchStage::LouvorJa(i) => i < self.candidates.len(),
            SearchStage::Netease(i) => i < self.candidates.len(),
            _ => true,
        }
    }

    /// Stores `found`.
    fn save(&mut self, found: Vec<LyricsLine>) -> (req: LyricsRequest)
        ensures
            same_music(*old(self), *final(self)),
            final(self).candidates == old(self).candidates,
            saves(*final(self), req, found@),
    {
        let copy = copy_lines(found.as_slice());
        self.stage = SearchStage::Saving(found);
        LyricsRequest::Persist(copy)
    }

    /// Ends the search with `lyrics`.
    fn finish(&mut self, lyrics: Vec<LyricsLine>) -> (req: LyricsRequest)
        ensures
            same_music(*old(self), *final(self)),
            final(self).candidates == old(self).candidates,
            finishes(*final(self), req, lyrics@),
    {
        self.stage = SearchStage::Done;
        LyricsRequest::Finish(lyrics)
    }

    /// Moves on to the candidate title at `i`, or to LRCLib past the last.
    fn candidate(&mut self, i: usize) -> (req: LyricsRequest)
        ensures
            same_music(*old(self), *final(self)),
            final(self).candidates == old(self).candidates,
            goes_to_candidate(*final(self), req, i as int),
    {
        if i < self.candidates.len() {
            let c = copy_string(&self.candidates[i]);
            self.stage = SearchStage::LouvorJa(i);
            LyricsRequest::QueryLouvorJa(c)
        } else {
            self.stage = SearchStage::Lrclib;
            LyricsRequest::QueryLrclib(copy_string(&self.music_id))
        }
    }

    /// Takes the answer to the pending request and says what to do next.
    pub fn advance(&mut self, reply: LyricsReply) -> (req: LyricsRequest)
        requires
            awaits_reply(*old(self)),
        ensures
            search_step(*old(self), reply, *final(self), req),
    {
        let ghost s = *self;
        let ghost r = reply;
        match self.stage {
            SearchStage::Cache => {
                let found = match reply {
                    LyricsReply::Lines(l) => l,
                    LyricsReply::Text(_) => Vec::new(),
                };
                if found.len() > 0 {
                    self.finish(found)
                } else {
                    match extract_video_id(self.youtube_url.as_str()) {
                        Some(v) => {
                            self.stage = SearchStage::Captions;
                            LyricsRequest::FetchCaptions(v)
                        },
                        None => {
                            self.stage = SearchStage::Title;
                            LyricsRequest::LookupTitle
                        },
                    }
                }
            },
            SearchStage::Captions => {
                let content = match reply {
                    LyricsReply::Text(Some(t)) => Some(t),
                    _ => None,
                };
                match content {
                    Some(t) => {
                        let found = caption_lines(t.as_str(), self.music_id.as_str());
                        if found.len() > 0 {
                            let req = self.save(found);
                            proof {
                                assert(reply_text(r) == Some(t@));
                            }
                            req
                        } else {
                            self.stage = SearchStage::Title;
                            LyricsRequest::LookupTitle
                        }
                    },
                    None => {
                        self.stage = SearchStage::Title;
                        LyricsRequest::LookupTitle
                    },
                }
            },
            SearchStage::Title => {
                let stored = match reply {
                    LyricsReply::Text(Some(t)) => Some(t),
                    _ => None,
                };
                let title = match stored {
                    Some(t) => {
                        let tt = trim_chars(str_chars(t.as_str()).as_slice());
                        if tt.len() > 0 {
                            t
                        } else {
                            copy_string(&self.music_id)
                        }
                    },
                    None => copy_string(&self.music_id),
                };
                assert(title@ == searched_title(reply_text(r), s.music_id@));
                let cands = extract_song_title_candidates(title.as_str());
                self.candidates = cands;
                self.candidate(0)
            },
            SearchStage::LouvorJa(i) => {
                let found = match reply {
                    LyricsReply::Lines(l) => l,
                    LyricsReply::Text(_) => Vec::new(),
                };
                if found.len() > 0 {
                    self.save(found)
                } else {
                    let c = copy_string(&self.candidates[i]);
                    self.stage = SearchStage::Netease(i);
                    LyricsRequest::QueryNetease(c)
                }
            },
            SearchStage::Netease(i) => {
                let found = match reply {
                    LyricsReply::Lines(l) => l,
                    LyricsReply::Text(_) => Vec::new(),
                };
                if found.len() > 0 {
                    self.save(found)
                } else {
                    let n = self.candidates.len();
                    assert(i < n);
                    self.candidate(i + 1)
                }
            },
            SearchStage::Lrclib => {
                let content = match reply {
                    LyricsReply::Text(Some(t)) => Some(t),
                    _ => None,
                };
                let found = match content {
                    Some(t) => lrc::parse(t.as_str(), self.music_id.as_str()),
                    None => Vec::new(),
                };
                if found.len() > 0 {
                    self.save(found)
                } else if self.has_audio {
                    self.stage = SearchStage::Whisper;
                    LyricsRequest::Transcribe
                } else {
                    self.finish(Vec::new())
                }
            },
            SearchStage::Whisper => {
                let found = match reply {
                    LyricsReply::Lines(l) => l,
                    LyricsReply::Text(_) => Vec::new(),
                };
                if found.len() > 0 {
                    self.save(found)
                } else {
                    self.finish(Vec::new())
                }
            },
            SearchStage::Saving(ref saved) => {
                let kept = copy_lines(saved.as_slice());
                let reloaded = match reply {
                    LyricsReply::Lines(l) => l,
                    LyricsReply::Text(_) => Vec::new(),
                };
                if reloaded.len() > 0 {
                    self.finish(reloaded)
                } else {
                    self.finish(kept)
                }
            },
            SearchStage::Done => LyricsRequest::Finish(Vec::new()),
        }
    }
}

/// How far the search is from knowing the candidate titles: 3 before the
/// cache answered, 2 before the captions answered, 1 before the title
/// answered, 0 afterwards.
pub open spec fn phase(s: LyricsSearch) -> int {
    match s.stage {
        SearchStage::Cache => 3,
        SearchStage::Captions => 2,
        SearchStage::Title => 1,
        _ => 0,
    }
}

/// How many answers at most the search still awaits once the title is
/// known.
pub open spec fn answers_left(s: LyricsSearch) -> int {
    let n = s.candidates@.len() as int;
    match s.stage {
        SearchStage::LouvorJa(i) => 2 * (n - i) + 2,
        SearchStage::Netease(i) => 2 * (n - i) + 1,
        SearchStage::Lrclib => 2,
        SearchStage::Whisper => 1,
        SearchStage::Saving(_) => 0,
        _ => 0,
    }
}

/// The search always finishes: every step either finishes it or brings it
/// closer to the end, first through the cache, the captions and the title,
/// then through a count of answers that the title's candidates bound.
pub proof fn lemma_search_step_progresses(
    s: LyricsSearch,
    reply: LyricsReply,
    next: LyricsSearch,
    req: LyricsRequest,
)
    requires
        awaits_reply(s),
        search_step(s, reply, next, req),
    ensures
        req is Finish <==> next.stage is Done,
        awaits_reply(next) || next.stage is Done,
        next.stage is Done || phase(next) < phase(s) || (phase(next) == phase(s) && 0 <= answers_left(
            next,
        ) < answers_left(s)),
{
    if s.stage is Cache && reply_lines(reply).len() == 0 {
        if video_id_of(next.youtube_url@) is Some {
            assert(next.stage is Captions);
        } else {
            assert(next.stage is Title);
        }
    }
}

} // verus!
