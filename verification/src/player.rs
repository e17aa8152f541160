//! The player's state and the decisions it takes between calls to the
//! audio engine; the naming of local and remote media.
use vstd::prelude::*;
use vstd::string::StringSliceAdditionalSpecFns;
use crate::louvorja::hex_value;
use crate::model::{LyricsLine, Music, copy_line, copy_lines, copy_music, copy_string};
use crate::text::{
    concat_chars, from_utf8_lossy, has_prefix, str_bytes, str_chars, string_from_chars, sub_chars,
    starts_with, utf8_lossy,
};
use crate::utils::{canonical_url, extract_video_id, normalize_youtube_url, video_id_of, lemma_normalize_keeps_video_id};

verus! {

/// Where the playback is in its life cycle.
#[derive(Debug, Clone, Copy, PartialEq, Eq, Structural)]
pub enum PlaybackState {
    Idle,
    Loading,
    Playing,
    Paused,
    Stopped,
}

/// What the player tells its listeners.
#[derive(Debug, Clone)]
pub enum PlayerEvent {
    StateChanged(PlaybackState),
    MusicLoaded { music: Music, lyrics: Vec<LyricsLine>, sync_offset_ms: i64 },
    LyricsUpdated(Vec<LyricsLine>),
    PositionUpdated { position_ms: i64, duration_ms: Option<i64> },
    PlaybackFinished,
    LoadingStatus(String),
}

/// Why a player operation was refused.
#[derive(Debug, Clone, PartialEq, Eq)]
pub enum PlayerError {
    /// The operation needs a loaded song and none is loaded.
    NoActiveMusic,
    /// No line of the loaded song has this id.
    LineNotFound(i64),
    /// The input is neither an existing local file nor a YouTube address.
    UnknownMedia,
}

/// The artist recorded for media loaded from local files.
pub const LOCAL_ARTIST_NAME: &'static str = "Arquivo Local";

/// The smallest change of position (milliseconds) worth announcing.
pub const POSITION_EPSILON_MS: i64 = 10;

/// The state that the player keeps: where the playback is, the loaded song
/// and its lines, and the song's synchronization offset.
pub struct PlayerState {
    pub status: PlaybackState,
    pub current_music: Option<Music>,
    pub current_lyrics: Vec<LyricsLine>,
    pub sync_offset_ms: i64,
}

impl PlayerState {
    /// Nothing loaded, idle.
    pub fn new() -> (res: Self)
        ensures
            res.status == PlaybackState::Idle,
            res.current_music is None,
            res.current_lyrics@.len() == 0,
            res.sync_offset_ms == 0,
    {
        PlayerState {
            status: PlaybackState::Idle,
            current_music: None,
            current_lyrics: Vec::new(),
            sync_offset_ms: 0,
        }
    }

    /// Records a new status and returns the event that announces it.
    pub fn set_status(&mut self, status: PlaybackState) -> (ev: PlayerEvent)
        ensures
            final(self).status == status,
            final(self).current_music == old(self).current_music,
            final(self).current_lyrics@ == old(self).current_lyrics@,
            final(self).sync_offset_ms == old(self).sync_offset_ms,
            ev == PlayerEvent::StateChanged(status),
    {
        self.status = status;
        PlayerEvent::StateChanged(status)
    }

    /// After the engine stopped: nothing loaded, stopped.
    pub fn stop(&mut self) -> (ev: PlayerEvent)
        ensures
            final(self).status == PlaybackState::Stopped,
            final(self).current_music is None,
            final(self).current_lyrics@.len() == 0,
            final(self).sync_offset_ms == old(self).sync_offset_ms,
            ev == PlayerEvent::StateChanged(PlaybackState::Stopped),
    {
        self.current_music = None;
        self.current_lyrics = Vec::new();
        self.status = PlaybackState::Stopped;
        PlayerEvent::StateChanged(PlaybackState::Stopped)
    }

    /// After a song was loaded into the engine, paused: records it with its
    /// lines and offset and returns the events `MusicLoaded` (carrying them)
    /// and `StateChanged(Paused)`.
    pub fn finish_loading(&mut self, music: Music, lyrics: Vec<LyricsLine>, sync_offset_ms: i64) -> (events: Vec<PlayerEvent>)
        ensures
            final(self).status == PlaybackState::Paused,
            final(self).current_music == Some(music),
            final(self).current_lyrics@ == lyrics@,
            final(self).sync_offset_ms == sync_offset_ms,
            events@.len() == 2,
            events@[0] matches PlayerEvent::MusicLoaded { music: m, lyrics: l, sync_offset_ms: o }
                && m == music && l@ == lyrics@ && o == sync_offset_ms,
            events@[1] == PlayerEvent::StateChanged(PlaybackState::Paused),
    {
        let event_music = copy_music(&music);
        let event_lyrics = copy_lines(lyrics.as_slice());
        self.current_music = Some(music);
        self.current_lyrics = lyrics;
        self.status = PlaybackState::Paused;
        self.sync_offset_ms = sync_offset_ms;
        vec![
            PlayerEvent::MusicLoaded { music: event_music, lyrics: event_lyrics, sync_offset_ms },
            PlayerEvent::StateChanged(PlaybackState::Paused),
        ]
    }

    /// Whether a song is loaded, as editing its lines requires.
    pub fn require_active_music(&self) -> (res: Result<(), PlayerError>)
        ensures
            res is Ok <==> self.current_music is Some,
            res matches Err(e) ==> e == PlayerError::NoActiveMusic,
    {
        if self.current_music.is_some() {
            Ok(())
        } else {
            Err(PlayerError::NoActiveMusic)
        }
    }

    /// Replaces the text of the first loaded line with id `id` and returns
    /// the event carrying the updated lines; refused when no song is loaded
    /// or no line has that id, with the state unchanged.
    pub fn apply_line_edit(&mut self, id: i64, new_text: &str) -> (res: Result<PlayerEvent, PlayerError>)
        ensures
            old(self).current_music is None ==> res == Err::<PlayerEvent, PlayerError>(PlayerError::NoActiveMusic)
                && final(self).current_lyrics@ == old(self).current_lyrics@,
            old(self).current_music is Some && (forall|k: int|
                0 <= k < old(self).current_lyrics@.len() ==> (#[trigger] old(self).current_lyrics@[k]).id
                    != id) ==> res == Err::<PlayerEvent, PlayerError>(PlayerError::LineNotFound(id))
                && final(self).current_lyrics@ == old(self).current_lyrics@,
            old(self).current_music is Some && (exists|k: int|
                0 <= k < old(self).current_lyrics@.len() && (#[trigger] old(self).current_lyrics@[k]).id
                    == id) ==> res is Ok,
            res is Ok ==> old(self).current_music is Some && exists|k: int|
                0 <= k < old(self).current_lyrics@.len() && (#[trigger] old(self).current_lyrics@[k]).id == id
                    && (forall|j: int| 0 <= j < k ==> old(self).current_lyrics@[j].id != id)
                    && final(self).current_lyrics@ == old(self).current_lyrics@.update(
                    k,
                    LyricsLine { text: final(self).current_lyrics@[k].text, ..old(self).current_lyrics@[k] },
                ) && final(self).current_lyrics@[k].text@ == new_text@,
            res matches Ok(ev) ==> (ev matches PlayerEvent::LyricsUpdated(ls) && ls@
                == final(self).current_lyrics@),
            final(self).status == old(self).status,
            final(self).current_music == old(self).current_music,
            final(self).sync_offset_ms == old(self).sync_offset_ms,
    {
        if self.current_music.is_none() {
            return Err(PlayerError::NoActiveMusic);
        }
        let n = self.current_lyrics.len();
        let mut k: usize = 0;
        while k < n
            invariant
                n == self.current_lyrics@.len(),
                k <= n,
                self.current_lyrics@ == old(self).current_lyrics@,
                self.current_music == old(self).current_music,
                self.status == old(self).status,
                self.sync_offset_ms == old(self).sync_offset_ms,
                old(self).current_music is Some,
                forall|j: int| 0 <= j < k ==> self.current_lyrics@[j].id != id,
            decreases n - k,
        {
            if self.current_lyrics[k].id == id {
                let old_line = copy_line(&self.current_lyrics[k]);
                let updated = LyricsLine {
                    id: old_line.id,
                    music_id: old_line.music_id,
                    start_ms: old_line.start_ms,
                    end_ms: old_line.end_ms,
                    text: String::from_str(new_text),
                };
                let ghost uv = updated;
                self.current_lyrics.set(k, updated);
                assert(self.current_lyrics@ == old(self).current_lyrics@.update(k as int, uv));
                assert(uv == LyricsLine { text: self.current_lyrics@[k as int].text, ..old(self).current_lyrics@[k as int] });
                let lines = copy_lines(self.current_lyrics.as_slice());
                return Ok(PlayerEvent::LyricsUpdated(lines));
            }
            k = k + 1;
        }
        Err(PlayerError::LineNotFound(id))
    }

    /// Replaces the lines of the loaded song when it is `music_id`; returns
    /// the event carrying them, or `None` (state unchanged) when another or
    /// no song is loaded.
    pub fn replace_current_lyrics(&mut self, music_id: &str, lyrics: Vec<LyricsLine>) -> (res: Option<PlayerEvent>)
        ensures
            (old(self).current_music matches Some(m) && m.id@ == music_id@) ==> (final(self).current_lyrics@ == lyrics@ && (res matches Some(ev) && ev matches PlayerEvent::LyricsUpdated(ls)
                && ls@ == lyrics@)),
            !(old(self).current_music matches Some(m) && m.id@ == music_id@) ==> res is None
                && final(self).current_lyrics@ == old(self).current_lyrics@,
            final(self).status == old(self).status,
            final(self).current_music == old(self).current_music,
            final(self).sync_offset_ms == old(self).sync_offset_ms,
    {
        let same = match &self.current_music {
            Some(m) => {
                let a = str_chars(m.id.as_str());
                let b = str_chars(music_id);
                crate::text::chars_eq(a.as_slice(), b.as_slice())
            },
            None => false,
        };
        if !same {
            return None;
        }
        let event_lines = copy_lines(lyrics.as_slice());
        self.current_lyrics = lyrics;
        Some(PlayerEvent::LyricsUpdated(event_lines))
    }

    /// Records the synchronization offset of the loaded song and returns the
    /// song's id (to store the offset); refused when no song is loaded.
    pub fn update_sync_offset(&mut self, offset_ms: i64) -> (res: Result<String, PlayerError>)
        ensures
            match old(self).current_music {
                Some(m) => res matches Ok(id) && id@ == m.id@ && final(self).sync_offset_ms == offset_ms,
                None => res == Err::<String, PlayerError>(PlayerError::NoActiveMusic)
                    && final(self).sync_offset_ms == old(self).sync_offset_ms,
            },
            final(self).status == old(self).status,
            final(self).current_music == old(self).current_music,
            final(self).current_lyrics@ == old(self).current_lyrics@,
    {
        match &self.current_music {
            Some(m) => {
                let id = copy_string(&m.id);
                self.sync_offset_ms = offset_ms;
                Ok(id)
            },
            None => Err(PlayerError::NoActiveMusic),
        }
    }

    /// One poll of the engine: a song that was playing and left the engine
    /// idle has finished (stopped, events `PlaybackFinished` and
    /// `StateChanged(Stopped)`, position forgotten); otherwise the position
    /// is announced when it moved enough since the last announcement.
    /// Returns the events and the last announced position.
    pub fn poll(&mut self, is_idle: bool, last_position_ms: Option<i64>, position_ms: i64, duration_ms: Option<i64>) -> (res: (Vec<PlayerEvent>, Option<i64>))
        ensures
            old(self).status == PlaybackState::Playing && is_idle ==> final(self).status
                == PlaybackState::Stopped && res.0@ == seq![
                PlayerEvent::PlaybackFinished,
                PlayerEvent::StateChanged(PlaybackState::Stopped),
            ] && res.1 is None,
            !(old(self).status == PlaybackState::Playing && is_idle) ==> final(self).status
                == old(self).status && (if emits_position(last_position_ms, position_ms) {
                res.0@ == seq![PlayerEvent::PositionUpdated { position_ms, duration_ms }]
                    && res.1 == Some(position_ms)
            } else {
                res.0@.len() == 0 && res.1 == last_position_ms
            }),
            final(self).current_music == old(self).current_music,
            final(self).current_lyrics@ == old(self).current_lyrics@,
            final(self).sync_offset_ms == old(self).sync_offset_ms,
    {
        if self.status == PlaybackState::Playing && is_idle {
            self.status = PlaybackState::Stopped;
            let events = vec![PlayerEvent::PlaybackFinished, PlayerEvent::StateChanged(PlaybackState::Stopped)];
            return (events, None);
        }
        if should_emit_position(last_position_ms, position_ms) {
            (vec![PlayerEvent::PositionUpdated { position_ms, duration_ms }], Some(position_ms))
        } else {
            (Vec::new(), last_position_ms)
        }
    }
}

/// Whether a new position is worth announcing: always the first time, then
/// when it moved by at least ten milliseconds.
pub open spec fn emits_position(last: Option<i64>, current: i64) -> bool {
    match last {
        None => true,
        Some(l) => current - l >= POSITION_EPSILON_MS || l - current >= POSITION_EPSILON_MS,
    }
}

/// Decides whether to announce `current` after `last` (see
/// `emits_position`).
pub fn should_emit_position(last: Option<i64>, current: i64) -> (res: bool)
    ensures
        res == emits_position(last, current),
{
    match last {
        None => true,
        Some(l) => {
            let d = (current as i128) - (l as i128);
            d >= 10 || d <= -10
        },
    }
}

/// The value of a hexadecimal digit.
pub fn from_hex_digit(byte: u8) -> (res: Option<u8>)
    ensures
        match res {
            Some(v) => hex_value(byte) == Some(v as nat),
            None => hex_value(byte) is None,
        },
{
    if 48 <= byte && byte <= 57 {
        Some(byte - 48)
    } else if 97 <= byte && byte <= 102 {
        Some(byte - 87)
    } else if 65 <= byte && byte <= 70 {
        Some(byte - 55)
    } else {
        None
    }
}

/// Percent-decoding of a `file://` path: `%` and two hex digits become the
/// byte they spell; any other `%` stays.
pub open spec fn uri_decode(bs: Seq<u8>) -> Seq<u8>
    decreases bs.len(),
{
    if bs.len() == 0 {
        seq![]
    } else if bs[0] == 37 && bs.len() >= 3 && hex_value(bs[1]) is Some && hex_value(bs[2]) is Some {
        seq![(hex_value(bs[1]).unwrap() * 16 + hex_value(bs[2]).unwrap()) as u8] + uri_decode(bs.skip(3))
    } else {
        seq![bs[0]] + uri_decode(bs.drop_first())
    }
}

/// Decodes the percent escapes of a `file://` path; bytes that do not form
/// UTF-8 become U+FFFD.
pub fn decode_file_uri_path(input: &str) -> (res: String)
    ensures
        res@ == utf8_lossy(uri_decode(input.spec_bytes())),
        vstd::utf8::valid_utf8(uri_decode(input.spec_bytes())) ==> res@ == vstd::utf8::decode_utf8(
            uri_decode(input.spec_bytes()),
        ),
{
    let bytes = str_bytes(input);
    let n = bytes.len();
    let mut out: Vec<u8> = Vec::new();
    let mut i: usize = 0;
    assert(bytes@.skip(0) =~= bytes@);
    assert(out@ + uri_decode(bytes@) =~= uri_decode(bytes@));
    while i < n
        invariant
            n == bytes@.len(),
            i <= n,
            out@ + uri_decode(bytes@.skip(i as int)) == uri_decode(bytes@),
        decreases n - i,
    {
        let ghost rest = bytes@.skip(i as int);
        let b = bytes[i];
        if b == 37 && n - i > 2 {
            match (from_hex_digit(bytes[i + 1]), from_hex_digit(bytes[i + 2])) {
                (Some(hi), Some(lo)) => {
                    assert(rest.skip(3) =~= bytes@.skip(i + 3));
                    out.push(hi * 16 + lo);
                    i = i + 3;
                    continue;
                },
                _ => {},
            }
        }
        assert(rest.drop_first() =~= bytes@.skip(i + 1));
        out.push(b);
        i = i + 1;
    }
    assert(bytes@.skip(n as int) =~= Seq::<u8>::empty());
    assert(out@ + seq![] =~= out@);
    let chars = from_utf8_lossy(out.as_slice());
    string_from_chars(chars.as_slice())
}

/// Decoding leaves a path without `%` bytes unchanged.
pub proof fn lemma_uri_decode_plain(bs: Seq<u8>)
    requires
        forall|k: int| 0 <= k < bs.len() ==> bs[k] != 37,
    ensures
        uri_decode(bs) == bs,
    decreases bs.len(),
{
    if bs.len() > 0 {
        lemma_uri_decode_plain(bs.drop_first());
        assert(seq![bs[0]] + bs.drop_first() =~= bs);
    }
}

/// The `file://` scheme.
pub open spec fn file_scheme() -> Seq<char> {
    "file://"@
}

/// The local path that a `file://` address names, decoded; `None` for
/// other inputs.
pub fn file_uri_path(input: &str) -> (res: Option<String>)
    ensures
        starts_with(input@, file_scheme()) <==> res is Some,
        res matches Some(p) ==> exists|rest: &str| rest@ == input@.skip(7) && p@ == utf8_lossy(
            uri_decode(rest.spec_bytes()),
        ),
{
    let s = str_chars(input);
    let scheme = str_chars("file://");
    if !has_prefix(s.as_slice(), scheme.as_slice()) {
        return None;
    }
    proof {
        reveal_strlit("file://");
    }
    let rest_chars = sub_chars(s.as_slice(), 7, s.len());
    let rest = string_from_chars(rest_chars.as_slice());
    let decoded = decode_file_uri_path(rest.as_str());
    Some(decoded)
}

/// FNV-1a (64 bits) of a byte sequence.
pub open spec fn fnv1a(bs: Seq<u8>) -> u64
    decreases bs.len(),
{
    if bs.len() == 0 {
        0xcbf29ce484222325u64
    } else {
        ((fnv1a(bs.drop_last()) ^ (bs.last() as u64)) as u64).wrapping_mul(0x100000001b3u64)
    }
}

/// A lowercase hexadecimal digit.
pub open spec fn hex_char(d: nat) -> char {
    if d < 10 {
        ('0' as u32 + d) as char
    } else {
        ('a' as u32 + d - 10) as char
    }
}

/// The last `k` hexadecimal digits of `n`, zero-padded.
pub open spec fn hex_digits(n: nat, k: nat) -> Seq<char>
    decreases k,
{
    if k == 0 {
        seq![]
    } else {
        hex_digits(n / 16, (k - 1) as nat).push(hex_char(n % 16))
    }
}

fn hex_char_of(d: u64) -> (c: char)
    requires
        d < 16,
    ensures
        c == hex_char(d as nat),
{
    if d == 0 { '0' }
    else if d == 1 { '1' }
    else if d == 2 { '2' }
    else if d == 3 { '3' }
    else if d == 4 { '4' }
    else if d == 5 { '5' }
    else if d == 6 { '6' }
    else if d == 7 { '7' }
    else if d == 8 { '8' }
    else if d == 9 { '9' }
    else if d == 10 { 'a' }
    else if d == 11 { 'b' }
    else if d == 12 { 'c' }
    else if d == 13 { 'd' }
    else if d == 14 { 'e' }
    else { 'f' }
}

fn hex_of(n: u64, k: u64) -> (res: Vec<char>)
    ensures
        res@ == hex_digits(n as nat, k as nat),
    decreases k,
{
    if k == 0 {
        Vec::new()
    } else {
        let mut r = hex_of(n / 16, k - 1);
        r.push(hex_char_of(n % 16));
        r
    }
}

/// The id of a local media file: `local-` and the FNV-1a hash of its path,
/// as sixteen lowercase hexadecimal digits.
pub open spec fn local_id_of(path: &str) -> Seq<char> {
    "local-"@ + hex_digits(fnv1a(path.spec_bytes()) as nat, 16)
}

/// Derives the id of a local media file from its absolute path.
pub fn local_music_id(path: &str) -> (res: String)
    ensures
        res@ == local_id_of(path),
{
    let bytes = str_bytes(path);
    let mut hash: u64 = 0xcbf29ce484222325;
    let mut i: usize = 0;
    while i < bytes.len()
        invariant
            i <= bytes@.len(),
            hash == fnv1a(bytes@.take(i as int)),
        decreases bytes.len() - i,
    {
        assert(bytes@.take(i + 1).drop_last() =~= bytes@.take(i as int));
        hash = (hash ^ (bytes[i] as u64)).wrapping_mul(0x100000001b3);
        i = i + 1;
    }
    assert(bytes@.take(bytes@.len() as int) =~= bytes@);
    let prefix = str_chars("local-");
    let digits = hex_of(hash, 16);
    let all = concat_chars(prefix.as_slice(), digits.as_slice());
    string_from_chars(all.as_slice())
}

/// The canonical address and the video id of a YouTube address; `None`
/// when it carries no video id. The id is the one the input carries.
pub fn remote_media_ids(url: &str) -> (res: Option<(String, String)>)
    ensures
        match video_id_of(url@) {
            Some(id) => res matches Some((c, v)) && c@ == canonical_url(id) && v@ == id,
            None => res is None,
        },
{
    let canonical = match normalize_youtube_url(url) {
        Some(c) => c,
        None => return None,
    };
    proof {
        lemma_normalize_keeps_video_id(url@);
    }
    match extract_video_id(canonical.as_str()) {
        Some(id) => Some((canonical, id)),
        None => None,
    }
}

/// The catalogue id of a media input: the local id of its resolved path
/// when it is a local file, else the video id of the address; refused when
/// it is neither.
pub fn media_music_id(local_path: Option<&str>, input: &str) -> (res: Result<String, PlayerError>)
    ensures
        match local_path {
            Some(p) => res matches Ok(id) && id@ == local_id_of(p),
            None => match video_id_of(input@) {
                Some(v) => res matches Ok(id) && id@ == v,
                None => res == Err::<String, PlayerError>(PlayerError::UnknownMedia),
            },
        },
{
    match local_path {
        Some(p) => Ok(local_music_id(p)),
        None => match extract_video_id(input) {
            Some(id) => Ok(id),
            None => Err(PlayerError::UnknownMedia),
        },
    }
}

/// The music record of a local file: its id from the path, its file stem
/// (or "Arquivo Local") as title, "Arquivo Local" as artist, the path as
/// address.
pub fn local_music(path: &str, file_stem: Option<&str>) -> (res: Music)
    ensures
        res.id@ == local_id_of(path),
        res.title@ == (match file_stem {
            Some(s) => s@,
            None => "Arquivo Local"@,
        }),
        res.artist matches Some(a) && a@ == "Arquivo Local"@,
        res.youtube_url@ == path@,
        res.duration is None,
        res.thumbnail is None,
        res.created_at is None,
{
    let title = match file_stem {
        Some(s) => String::from_str(s),
        None => String::from_str("Arquivo Local"),
    };
    Music {
        id: local_music_id(path),
        title,
        artist: Some(String::from_str("Arquivo Local")),
        youtube_url: String::from_str(path),
        duration: None,
        thumbnail: None,
        created_at: None,
    }
}

/// Audio file extensions that the download cache may hold, in the order
/// they are looked for.
pub open spec fn cached_audio_extensions() -> Seq<Seq<char>> {
    seq![
        "mp3"@, "m4a"@, "webm"@, "opus"@, "ogg"@, "aac"@, "flac"@, "wav"@, "mp4"@, "mkv"@, "mka"@,
    ]
}

/// The file names under which the cache may hold the audio of a video,
/// `<video_id>.<extension>`, in the order they are looked for.
pub fn cached_audio_file_names(video_id: &str) -> (res: Vec<String>)
    ensures
        res@.len() == cached_audio_extensions().len(),
        forall|i: int|
            0 <= i < res@.len() ==> (#[trigger] res@[i])@ == video_id@ + seq!['.']
                + cached_audio_extensions()[i],
{
    let exts = vec![
        str_chars("mp3"), str_chars("m4a"), str_chars("webm"), str_chars("opus"), str_chars("ogg"),
        str_chars("aac"), str_chars("flac"), str_chars("wav"), str_chars("mp4"), str_chars("mkv"),
        str_chars("mka"),
    ];
    assert(crate::text::views(exts@) =~= cached_audio_extensions());
    let id = str_chars(video_id);
    let dot = vec!['.'];
    let base = concat_chars(id.as_slice(), dot.as_slice());
    let mut res: Vec<String> = Vec::new();
    let mut i: usize = 0;
    while i < exts.len()
        invariant
            i <= exts@.len(),
            crate::text::views(exts@) == cached_audio_extensions(),
            base@ == video_id@ + seq!['.'],
            res@.len() == i,
            forall|k: int|
                0 <= k < i ==> (#[trigger] res@[k])@ == video_id@ + seq!['.']
                    + cached_audio_extensions()[k],
        decreases exts.len() - i,
    {
        let name = concat_chars(base.as_slice(), exts[i].as_slice());
        assert(exts@[i as int]@ == cached_audio_extensions()[i as int]);
        res.push(string_from_chars(name.as_slice()));
        i = i + 1;
    }
    res
}

/// The output template for downloading the audio of a video into the
/// cache: `<video_id>.%(ext)s`.
pub fn download_file_template(video_id: &str) -> (res: String)
    ensures
        res@ == video_id@ + ".%(ext)s"@,
{
    let id = str_chars(video_id);
    let suffix = str_chars(".%(ext)s");
    let all = concat_chars(id.as_slice(), suffix.as_slice());
    string_from_chars(all.as_slice())
}

} // verus!
