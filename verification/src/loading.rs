//! Loading a YouTube video into the player: the order of the steps and the
//! one choice among them.
//!
//! The music record comes first, then a search for the lyrics without
//! local audio; the audio is then brought into the cache. When the first
//! search found lines they are used; otherwise the lyrics are searched once
//! more, now with the audio (which allows a transcription). A failed step
//! ends the load.
use vstd::prelude::*;
use crate::model::{LyricsLine, Music};
use crate::player::{remote_media_ids, PlayerError};
use crate::utils::{canonical_url, video_id_of};

verus! {

/// Where a load stands: which request awaits its answer.
#[derive(Debug, Clone, Copy, PartialEq, Eq, Structural)]
pub enum LoadStage {
    /// Finding the music record.
    Metadata,
    /// Searching the lyrics without local audio.
    FirstSearch,
    /// Bringing the audio into the cache.
    Audio,
    /// Searching the lyrics with the cached audio.
    SecondSearch,
    /// Ready to start.
    Ready,
    /// Given up.
    Failed,
}

/// What the load asks for next.
pub enum LoadRequest {
    /// Find the music record of this address: the stored one, or one made
    /// from the video's metadata (and stored).
    ResolveMusic(String),
    /// Mark the player as loading and search the lyrics of the music,
    /// without local audio.
    SearchLyrics,
    /// Make sure the audio of the video (address, id) is in the cache,
    /// downloading it when missing.
    CacheAudio(String, String),
    /// Search the lyrics again, with the audio at this path.
    SearchLyricsWithAudio(String),
    /// Load the audio, paused, and show the music with its lyrics.
    Start,
    /// Give up.
    Fail,
}

/// The answer to a request: the music record, the lyrics found (none when
/// the search failed), the path of the cached audio, or a failure.
pub enum LoadReply {
    Music(Music),
    Lyrics(Vec<LyricsLine>),
    Audio(String),
    Failed,
}

/// A load of a YouTube video.
pub struct RemoteLoad {
    pub canonical_url: String,
    pub video_id: String,
    pub music: Option<Music>,
    pub lyrics: Vec<LyricsLine>,
    pub audio_path: Option<String>,
    pub stage: LoadStage,
}

/// The lyrics an answer carries: none unless it is lyrics.
pub open spec fn reply_lyrics(r: LoadReply) -> Seq<LyricsLine> {
    match r {
        LoadReply::Lyrics(l) => l@,
        _ => Seq::empty(),
    }
}

/// Whether the load awaits an answer.
pub open spec fn load_pending(l: RemoteLoad) -> bool {
    l.stage != LoadStage::Ready && l.stage != LoadStage::Failed
}

/// `next` stops at `req` as a failure.
pub open spec fn fails(next: RemoteLoad, req: LoadRequest) -> bool {
    next.stage == LoadStage::Failed && req is Fail
}

impl RemoteLoad {
    /// Starts loading the video of `url`: the first request finds its music
    /// record by the canonical address. Refused when the address carries no
    /// video id.
    pub fn start(url: &str) -> (res: Result<(RemoteLoad, LoadRequest), PlayerError>)
        ensures
            match video_id_of(url@) {
                Some(id) => res matches Ok((l, req)) && {
                    &&& l.canonical_url@ == canonical_url(id)
                    &&& l.video_id@ == id
                    &&& l.music is None
                    &&& l.lyrics@.len() == 0
                    &&& l.audio_path is None
                    &&& l.stage == LoadStage::Metadata
                    &&& req matches LoadRequest::ResolveMusic(u) && u@ == canonical_url(id)
                },
                None => res == Err::<(RemoteLoad, LoadRequest), PlayerError>(
                    PlayerError::UnknownMedia,
                ),
            },
    {
        match remote_media_ids(url) {
            Some((canonical, id)) => {
                let req = LoadRequest::ResolveMusic(canonical.clone());
                Ok(
                    (
                        RemoteLoad {
                            canonical_url: canonical,
                            video_id: id,
                            music: None,
                            lyrics: Vec::new(),
                            audio_path: None,
                            stage: LoadStage::Metadata,
                        },
                        req,
                    ),
                )
            },
            None => Err(PlayerError::UnknownMedia),
        }
    }

    /// Whether the load awaits an answer.
    pub fn is_pending(&self) -> (res: bool)
        ensures
            res == load_pending(*self),
    {
        self.stage != LoadStage::Ready && self.stage != LoadStage::Failed
    }

    /// Takes the answer to the pending request and says what to do next.
    ///
    /// The music record leads to the first search; its lyrics (none when it
    /// failed) are kept and the audio is cached next. With the audio, the
    /// load starts when lyrics were found, and otherwise searches again
    /// with the audio, whose lyrics are then used. Any other answer to the
    /// record or the audio is a failure.
    pub fn advance(&mut self, reply: LoadReply) -> (req: LoadRequest)
        requires
            load_pending(*old(self)),
        ensures
            final(self).canonical_url == old(self).canonical_url,
            final(self).video_id == old(self).video_id,
            match old(self).stage {
                LoadStage::Metadata => match reply {
                    LoadReply::Music(m) => {
                        &&& final(self).music == Some(m)
                        &&& final(self).stage == LoadStage::FirstSearch
                        &&& req is SearchLyrics
                        &&& final(self).lyrics@ == old(self).lyrics@
                        &&& final(self).audio_path == old(self).audio_path
                    },
                    _ => fails(*final(self), req),
                },
                LoadStage::FirstSearch => {
                    &&& final(self).lyrics@ == reply_lyrics(reply)
                    &&& final(self).music == old(self).music
                    &&& final(self).audio_path == old(self).audio_path
                    &&& final(self).stage == LoadStage::Audio
                    &&& req matches LoadRequest::CacheAudio(u, v) && u == old(self).canonical_url
                        && v == old(self).video_id
                },
                LoadStage::Audio => match reply {
                    LoadReply::Audio(p) => {
                        &&& final(self).audio_path == Some(p)
                        &&& final(self).music == old(self).music
                        &&& final(self).lyrics@ == old(self).lyrics@
                        &&& if old(self).lyrics@.len() > 0 {
                            final(self).stage == LoadStage::Ready && req is Start
                        } else {
                            &&& final(self).stage == LoadStage::SecondSearch
                            &&& req matches LoadRequest::SearchLyricsWithAudio(q) && q == p
                        }
                    },
                    _ => fails(*final(self), req),
                },
                LoadStage::SecondSearch => {
                    &&& final(self).lyrics@ == reply_lyrics(reply)
                    &&& final(self).music == old(self).music
                    &&& final(self).audio_path == old(self).audio_path
                    &&& final(self).stage == LoadStage::Ready
                    &&& req is Start
                },
                _ => false,
            },
    {
        match self.stage {
            LoadStage::Metadata => match reply {
                LoadReply::Music(m) => {
                    self.music = Some(m);
                    self.stage = LoadStage::FirstSearch;
                    LoadRequest::SearchLyrics
                },
                _ => {
                    self.stage = LoadStage::Failed;
                    LoadRequest::Fail
                },
            },
            LoadStage::FirstSearch => {
                self.lyrics = match reply {
                    LoadReply::Lyrics(l) => l,
                    _ => Vec::new(),
                };
                self.stage = LoadStage::Audio;
                LoadRequest::CacheAudio(self.canonical_url.clone(), self.video_id.clone())
            },
            LoadStage::Audio => match reply {
                LoadReply::Audio(p) => {
                    let q = p.clone();
                    self.audio_path = Some(p);
                    if self.lyrics.len() > 0 {
                        self.stage = LoadStage::Ready;
                        LoadRequest::Start
                    } else {
                        self.stage = LoadStage::SecondSearch;
                        LoadRequest::SearchLyricsWithAudio(q)
                    }
                },
                _ => {
                    self.stage = LoadStage::Failed;
                    LoadRequest::Fail
                },
            },
            LoadStage::SecondSearch => {
                self.lyrics = match reply {
                    LoadReply::Lyrics(l) => l,
                    _ => Vec::new(),
                };
                self.stage = LoadStage::Ready;
                LoadRequest::Start
            },
            _ => LoadRequest::Fail,
        }
    }
}

} // verus!
