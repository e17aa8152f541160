//! What the operator's screen shows and the choices behind its controls.
use vstd::prelude::*;
use crate::export::{format_lrc, format_srt, lrc_text, srt_text};
use crate::lrc;
use crate::lrc::lrc_cues;
use crate::lyrics_search::lines_of_triples;
use crate::model::{LyricsLine, Music, copy_string, lines_of_cues};
use crate::srt;
use crate::srt::{srt_lines, vtt_lines};
use crate::player::{PlaybackState, PlayerEvent};
use crate::text::{
    lines,
    chars_eq, has_prefix, is_alphanumeric, lowercase, starts_with, str_chars, string_from_chars,
    sub_chars, trim, trim_chars, unicode_alphanumeric, unicode_lowercase,
};
use crate::timeline::TimelineEvent;

verus! {

/// The label of a playback state.
pub open spec fn state_label(state: PlaybackState) -> Seq<char> {
    match state {
        PlaybackState::Idle => "Idle"@,
        PlaybackState::Loading => "Loading"@,
        PlaybackState::Playing => "Playing"@,
        PlaybackState::Paused => "Paused"@,
        PlaybackState::Stopped => "Stopped"@,
    }
}

/// The label that the screen shows for a playback state.
pub fn playback_state_label(state: PlaybackState) -> (res: &'static str)
    ensures
        res@ == state_label(state),
{
    match state {
        PlaybackState::Idle => "Idle",
        PlaybackState::Loading => "Loading",
        PlaybackState::Playing => "Playing",
        PlaybackState::Paused => "Paused",
        PlaybackState::Stopped => "Stopped",
    }
}

/// Whether a seek to `position_ms` is possible in a song of `duration_ms`:
/// the song has a positive length and the position lies within it.
pub fn can_seek(duration_ms: i64, position_ms: i64) -> (res: bool)
    ensures
        res == (duration_ms > 0 && 0 <= position_ms <= duration_ms),
{
    duration_ms > 0 && 0 <= position_ms && position_ms <= duration_ms
}

/// The position to seek to: `None` when no seek is possible, otherwise the
/// position kept at least ten milliseconds before the end.
pub fn clamp_seek_seconds(duration_ms: i64, position_ms: i64) -> (res: Option<i64>)
    ensures
        !(duration_ms > 0 && 0 <= position_ms <= duration_ms) ==> res is None,
        (duration_ms > 0 && 0 <= position_ms <= duration_ms) ==> res == Some(
            if position_ms <= duration_ms - 10 {
                position_ms
            } else if duration_ms - 10 >= 0 {
                (duration_ms - 10) as i64
            } else {
                0i64
            },
        ),
{
    if !can_seek(duration_ms, position_ms) {
        return None;
    }
    let upper = if duration_ms - 10 >= 0 {
        duration_ms - 10
    } else {
        0
    };
    Some(
        if position_ms <= upper {
            position_ms
        } else {
            upper
        },
    )
}

/// Whether an input, trimmed, is a web (`http://`, `https://`) or file
/// (`file://`) address.
pub open spec fn is_address(input: Seq<char>) -> bool {
    let t = trim(input);
    starts_with(t, "http://"@) || starts_with(t, "https://"@) || starts_with(t, "file://"@)
}

/// Whether the input is an address rather than a song name to search.
pub fn is_web_or_file_url(input: &str) -> (res: bool)
    ensures
        res == is_address(input@),
{
    let c = str_chars(input);
    let t = trim_chars(c.as_slice());
    let http = str_chars("http://");
    let https = str_chars("https://");
    let file = str_chars("file://");
    has_prefix(t.as_slice(), http.as_slice()) || has_prefix(t.as_slice(), https.as_slice())
        || has_prefix(t.as_slice(), file.as_slice())
}

/// The file path that a file dialog's answer names: without a leading
/// `file://`.
pub fn qml_path_to_pathbuf(file_path: &str) -> (res: String)
    ensures
        starts_with(file_path@, "file://"@) ==> res@ == file_path@.skip(7),
        !starts_with(file_path@, "file://"@) ==> res@ == file_path@,
{
    let c = str_chars(file_path);
    let scheme = str_chars("file://");
    if has_prefix(c.as_slice(), scheme.as_slice()) {
        proof {
            reveal_strlit("file://");
        }
        let rest = sub_chars(c.as_slice(), 7, c.len());
        string_from_chars(rest.as_slice())
    } else {
        string_from_chars(c.as_slice())
    }
}

/// `s` without its trailing characters that are neither letters nor
/// digits.
pub open spec fn trim_end_noise(s: Seq<char>) -> Seq<char>
    decreases s.len(),
{
    if s.len() > 0 && !unicode_alphanumeric(s.last()) {
        trim_end_noise(s.drop_last())
    } else {
        s
    }
}

proof fn lemma_trim_end_noise_take(s: Seq<char>, j: int)
    requires
        0 <= j <= s.len(),
        forall|k: int| j <= k < s.len() ==> !unicode_alphanumeric(#[trigger] s[k]),
    ensures
        trim_end_noise(s) == trim_end_noise(s.take(j)),
    decreases s.len() - j,
{
    if j < s.len() {
        assert(s.drop_last().take(j) =~= s.take(j));
        lemma_trim_end_noise_take(s.drop_last(), j);
    } else {
        assert(s.take(j) =~= s);
    }
}

/// An edited lyric line without the punctuation and spaces that trail it.
pub fn trim_lyric_line_text(text: &str) -> (res: String)
    ensures
        res@ == trim_end_noise(text@),
{
    let c = str_chars(text);
    let n = c.len();
    let mut j: usize = n;
    while j > 0 && !is_alphanumeric(c[j - 1])
        invariant
            n == c@.len(),
            j <= n,
            forall|k: int| j <= k < n ==> !unicode_alphanumeric(#[trigger] c@[k]),
        decreases j,
    {
        j = j - 1;
    }
    proof {
        lemma_trim_end_noise_take(c@, j as int);
        let t = c@.take(j as int);
        assert(t.len() == 0 || unicode_alphanumeric(t.last()));
    }
    let kept = sub_chars(c.as_slice(), 0, j);
    assert(kept@ =~= c@.take(j as int));
    string_from_chars(kept.as_slice())
}

/// The lyrics providers that can be forced while debugging.
#[derive(Debug, Clone, Copy, PartialEq, Eq, Structural)]
pub enum DebugLyricsProvider {
    Lrclib,
    Youtube,
    Netease,
    Whisper,
}

/// The provider that a debugging override names, compared trimmed and
/// lowercase.
pub open spec fn provider_named(value: Seq<char>) -> Option<DebugLyricsProvider> {
    let v = unicode_lowercase(trim(value));
    if v == "lrclib"@ {
        Some(DebugLyricsProvider::Lrclib)
    } else if v == "youtube"@ {
        Some(DebugLyricsProvider::Youtube)
    } else if v == "netease"@ {
        Some(DebugLyricsProvider::Netease)
    } else if v == "whisper"@ {
        Some(DebugLyricsProvider::Whisper)
    } else {
        None
    }
}

/// Reads a debugging override of the lyrics provider.
pub fn parse_debug_lyrics_provider(value: &str) -> (res: Option<DebugLyricsProvider>)
    ensures
        res == provider_named(value@),
{
    let c = str_chars(value);
    let t = trim_chars(c.as_slice());
    let v = lowercase(t.as_slice());
    let lrclib = str_chars("lrclib");
    let youtube = str_chars("youtube");
    let netease = str_chars("netease");
    let whisper = str_chars("whisper");
    if chars_eq(v.as_slice(), lrclib.as_slice()) {
        Some(DebugLyricsProvider::Lrclib)
    } else if chars_eq(v.as_slice(), youtube.as_slice()) {
        Some(DebugLyricsProvider::Youtube)
    } else if chars_eq(v.as_slice(), netease.as_slice()) {
        Some(DebugLyricsProvider::Netease)
    } else if chars_eq(v.as_slice(), whisper.as_slice()) {
        Some(DebugLyricsProvider::Whisper)
    } else {
        None
    }
}

/// What the load box does with its input.
#[derive(Debug, Clone, Copy, PartialEq, Eq, Structural)]
pub enum LoadAction {
    /// Load the address.
    LoadUrl,
    /// Search the LouvorJA catalogue for the song name.
    SearchCatalog,
    /// Refuse: a forced provider needs an address.
    RefuseForcedProvider,
}

/// Decides what to do with the load box's input under a debugging
/// override: a forced provider needs an address; addresses are loaded;
/// anything else is searched in the catalogue.
pub fn load_music_action(input: &str, provider_override: &str) -> (res: LoadAction)
    ensures
        provider_named(provider_override@) is Some && !is_address(input@) ==> res
            == LoadAction::RefuseForcedProvider,
        !(provider_named(provider_override@) is Some && !is_address(input@)) ==> res == (if is_address(
            input@,
        ) {
            LoadAction::LoadUrl
        } else {
            LoadAction::SearchCatalog
        }),
{
    let forced = parse_debug_lyrics_provider(provider_override);
    let web = is_web_or_file_url(input);
    if forced.is_some() && !web {
        LoadAction::RefuseForcedProvider
    } else if web {
        LoadAction::LoadUrl
    } else {
        LoadAction::SearchCatalog
    }
}

/// One lyric line as the operator's list shows it.
pub struct ListedLine {
    pub id: i64,
    pub start_ms: i64,
    pub text: String,
}

/// What the operator's screen shows.
pub struct OperatorView {
    pub playback_state: PlaybackState,
    pub loading: bool,
    pub loading_status: String,
    pub music_title: String,
    pub music_artist: String,
    pub current_music_id: String,
    pub current_lyrics: Vec<ListedLine>,
    pub active_line_id: i64,
    pub lyric_text: String,
    pub next_lyric_text: String,
    pub sync_offset_ms: i64,
    pub current_time_ms: i64,
    pub duration_ms: i64,
    pub clear_screen: bool,
    pub error_message: String,
}

/// Both screens name the same song: title, artist, id and offset.
pub open spec fn same_song_named(a: OperatorView, b: OperatorView) -> bool {
    &&& a.music_title@ == b.music_title@
    &&& a.music_artist@ == b.music_artist@
    &&& a.current_music_id@ == b.current_music_id@
    &&& a.sync_offset_ms == b.sync_offset_ms
}

/// Both screens list the same lines with the same line on screen.
pub open spec fn same_lines(a: OperatorView, b: OperatorView) -> bool {
    &&& a.current_lyrics@ == b.current_lyrics@
    &&& a.active_line_id == b.active_line_id
}

/// Both screens show the same playback state, loading mark and status.
pub open spec fn same_state(a: OperatorView, b: OperatorView) -> bool {
    &&& a.playback_state == b.playback_state
    &&& a.loading == b.loading
    &&& a.loading_status@ == b.loading_status@
}

/// Both screens show the same time and length.
pub open spec fn same_clock(a: OperatorView, b: OperatorView) -> bool {
    &&& a.current_time_ms == b.current_time_ms
    &&& a.duration_ms == b.duration_ms
}

/// Whether `listed` shows exactly `lines`: ids, starts and texts, in order.
pub open spec fn lists(listed: Seq<ListedLine>, lines: Seq<LyricsLine>) -> bool {
    &&& listed.len() == lines.len()
    &&& forall|i: int|
        0 <= i < listed.len() ==> (#[trigger] listed[i]).id == lines[i].id && listed[i].start_ms
            == lines[i].start_ms && listed[i].text@ == lines[i].text@
}

fn listed_lines(lines: &Vec<LyricsLine>) -> (res: Vec<ListedLine>)
    ensures
        lists(res@, lines@),
{
    let mut res: Vec<ListedLine> = Vec::new();
    let mut i: usize = 0;
    while i < lines.len()
        invariant
            i <= lines@.len(),
            res@.len() == i,
            forall|k: int|
                0 <= k < i ==> (#[trigger] res@[k]).id == lines@[k].id && res@[k].start_ms
                    == lines@[k].start_ms && res@[k].text@ == lines@[k].text@,
        decreases lines.len() - i,
    {
        res.push(
            ListedLine {
                id: lines[i].id,
                start_ms: lines[i].start_ms,
                text: copy_string(&lines[i].text),
            },
        );
        i = i + 1;
    }
    res
}

fn empty_string() -> (res: String)
    ensures
        res@ == Seq::<char>::empty(),
{
    String::new()
}

impl OperatorView {
    /// The screen before anything is loaded.
    pub fn new(state: PlaybackState) -> (res: Self)
        ensures
            res.playback_state == state,
            !res.loading,
            res.loading_status@.len() == 0,
            res.music_title@.len() == 0,
            res.music_artist@.len() == 0,
            res.current_music_id@.len() == 0,
            res.current_lyrics@.len() == 0,
            res.active_line_id == -1,
            res.lyric_text@.len() == 0,
            res.next_lyric_text@.len() == 0,
            res.sync_offset_ms == 0,
            res.current_time_ms == 0,
            res.duration_ms == 0,
            !res.clear_screen,
            res.error_message@.len() == 0,
    {
        OperatorView {
            playback_state: state,
            loading: false,
            loading_status: empty_string(),
            music_title: empty_string(),
            music_artist: empty_string(),
            current_music_id: empty_string(),
            current_lyrics: Vec::new(),
            active_line_id: -1,
            lyric_text: empty_string(),
            next_lyric_text: empty_string(),
            sync_offset_ms: 0,
            current_time_ms: 0,
            duration_ms: 0,
            clear_screen: false,
            error_message: empty_string(),
        }
    }

    /// Clears what is shown of the previous song before an address is
    /// loaded: its lines, id, line on screen, lyric texts and blanking.
    /// Everything else stays.
    pub fn clear_shown_song(&mut self)
        ensures
            final(self).current_lyrics@.len() == 0,
            final(self).current_music_id@.len() == 0,
            final(self).active_line_id == -1,
            final(self).lyric_text@.len() == 0,
            final(self).next_lyric_text@.len() == 0,
            !final(self).clear_screen,
            final(self).error_message@ == old(self).error_message@,
            final(self).loading_status@ == old(self).loading_status@,
            final(self).loading == old(self).loading,
            final(self).playback_state == old(self).playback_state,
            final(self).sync_offset_ms == old(self).sync_offset_ms,
            final(self).music_title@ == old(self).music_title@,
            final(self).music_artist@ == old(self).music_artist@,
            final(self).current_time_ms == old(self).current_time_ms,
            final(self).duration_ms == old(self).duration_ms,
    {
        self.current_lyrics = Vec::new();
        self.current_music_id = empty_string();
        self.active_line_id = -1;
        self.lyric_text = empty_string();
        self.next_lyric_text = empty_string();
        self.clear_screen = false;
    }

    /// Starting to load an address with a player: the previous song is
    /// cleared from the screen (`clear_shown_song`), any error and status
    /// forgotten, and the screen marked as loading.
    pub fn begin_load(&mut self)
        ensures
            final(self).current_lyrics@.len() == 0,
            final(self).current_music_id@.len() == 0,
            final(self).active_line_id == -1,
            final(self).lyric_text@.len() == 0,
            final(self).next_lyric_text@.len() == 0,
            !final(self).clear_screen,
            final(self).error_message@.len() == 0,
            final(self).loading_status@.len() == 0,
            final(self).loading,
            final(self).playback_state == old(self).playback_state,
            final(self).sync_offset_ms == old(self).sync_offset_ms,
            final(self).music_title@ == old(self).music_title@,
            final(self).music_artist@ == old(self).music_artist@,
            final(self).current_time_ms == old(self).current_time_ms,
            final(self).duration_ms == old(self).duration_ms,
    {
        self.clear_shown_song();
        self.error_message = empty_string();
        self.loading_status = empty_string();
        self.loading = true;
    }

    /// Shows an event of the player. Returns whether the next song of the
    /// queue should start (the song finished).
    ///
    /// A new state shows its label and ends the loading mark unless it is
    /// `Loading`; `Stopped` also clears the song's lines, id, line on screen
    /// and offset, and any other state keeps them. A loaded song shows its
    /// title, artist, id, offset, lines and length (when known), no line on
    /// screen, and ends the loading mark. Updated lines replace the list. A
    /// position shows the time, and the length when reported. The end of the
    /// song resets the time, clears the lines and the line on screen, and
    /// asks for the next song. A status message is shown as it is. Nothing
    /// else on the screen changes.
    pub fn apply_player_event(&mut self, event: PlayerEvent) -> (play_next: bool)
        ensures
            play_next == (event matches PlayerEvent::PlaybackFinished),
            final(self).lyric_text@ == old(self).lyric_text@,
            final(self).next_lyric_text@ == old(self).next_lyric_text@,
            final(self).clear_screen == old(self).clear_screen,
            final(self).error_message@ == old(self).error_message@,
            match event {
                PlayerEvent::StateChanged(state) => {
                    &&& final(self).playback_state == state
                    &&& final(self).loading == (old(self).loading && state == PlaybackState::Loading)
                    &&& state == PlaybackState::Stopped ==> final(self).current_lyrics@.len() == 0
                        && final(self).current_music_id@.len() == 0 && final(self).active_line_id
                        == -1 && final(self).sync_offset_ms == 0
                    &&& state != PlaybackState::Stopped ==> final(self).current_lyrics@ == old(
                        self).current_lyrics@ && final(self).active_line_id == old(self).active_line_id
                        && final(self).sync_offset_ms == old(self).sync_offset_ms && final(
                        self).current_music_id@ == old(self).current_music_id@
                    &&& final(self).music_title@ == old(self).music_title@
                    &&& final(self).music_artist@ == old(self).music_artist@
                    &&& final(self).current_time_ms == old(self).current_time_ms
                    &&& final(self).duration_ms == old(self).duration_ms
                    &&& final(self).clear_screen == old(self).clear_screen
                    &&& final(self).loading_status@ == old(self).loading_status@
                    &&& final(self).error_message@ == old(self).error_message@
                },
                PlayerEvent::MusicLoaded { music, lyrics, sync_offset_ms } => {
                    &&& final(self).music_title@ == music.title@
                    &&& final(self).music_artist@ == (match music.artist {
                        Some(a) => a@,
                        None => Seq::<char>::empty(),
                    })
                    &&& final(self).current_music_id@ == music.id@
                    &&& final(self).sync_offset_ms == sync_offset_ms
                    &&& lists(final(self).current_lyrics@, lyrics@)
                    &&& final(self).active_line_id == -1
                    &&& final(self).duration_ms == (match music.duration {
                        Some(d) => if d > 9_000_000_000_000_000 {
                            i64::MAX
                        } else if d < -9_000_000_000_000_000 {
                            i64::MIN
                        } else {
                            (d * 1000) as i64
                        },
                        None => old(self).duration_ms,
                    })
                    &&& !final(self).loading
                    &&& final(self).playback_state == old(self).playback_state
                    &&& final(self).loading_status@ == old(self).loading_status@
                    &&& final(self).current_time_ms == old(self).current_time_ms
                },
                PlayerEvent::LyricsUpdated(lyrics) => {
                    &&& lists(final(self).current_lyrics@, lyrics@)
                    &&& final(self).active_line_id == old(self).active_line_id
                    &&& same_song_named(*old(self), *final(self))
                    &&& same_state(*old(self), *final(self))
                    &&& same_clock(*old(self), *final(self))
                },
                PlayerEvent::PositionUpdated { position_ms, duration_ms } => {
                    &&& final(self).current_time_ms == position_ms
                    &&& final(self).duration_ms == (match duration_ms {
                        Some(d) => d,
                        None => old(self).duration_ms,
                    })
                    &&& same_song_named(*old(self), *final(self))
                    &&& same_lines(*old(self), *final(self))
                    &&& same_state(*old(self), *final(self))
                },
                PlayerEvent::PlaybackFinished => {
                    &&& final(self).current_time_ms == 0
                    &&& final(self).current_lyrics@.len() == 0
                    &&& final(self).active_line_id == -1
                    &&& final(self).duration_ms == old(self).duration_ms
                    &&& same_song_named(*old(self), *final(self))
                    &&& same_state(*old(self), *final(self))
                },
                PlayerEvent::LoadingStatus(status) => {
                    &&& final(self).loading_status@ == status@
                    &&& final(self).playback_state == old(self).playback_state
                    &&& final(self).loading == old(self).loading
                    &&& same_song_named(*old(self), *final(self))
                    &&& same_lines(*old(self), *final(self))
                    &&& same_clock(*old(self), *final(self))
                },
            },
    {
        match event {
            PlayerEvent::StateChanged(state) => {
                self.playback_state = state;
                if state != PlaybackState::Loading && self.loading {
                    self.loading = false;
                }
                if state == PlaybackState::Stopped {
                    self.current_lyrics = Vec::new();
                    self.current_music_id = empty_string();
                    self.active_line_id = -1;
                    self.sync_offset_ms = 0;
                }
                false
            },
            PlayerEvent::MusicLoaded { music, lyrics, sync_offset_ms } => {
                self.music_title = music.title;
                self.music_artist = match music.artist {
                    Some(a) => a,
                    None => empty_string(),
                };
                self.current_music_id = music.id;
                self.sync_offset_ms = sync_offset_ms;
                self.current_lyrics = listed_lines(&lyrics);
                self.active_line_id = -1;
                match music.duration {
                    Some(d) => {
                        self.duration_ms = if d > 9_000_000_000_000_000 {
                            i64::MAX
                        } else if d < -9_000_000_000_000_000 {
                            i64::MIN
                        } else {
                            d * 1000
                        };
                    },
                    None => {},
                }
                self.loading = false;
                false
            },
            PlayerEvent::LyricsUpdated(lyrics) => {
                self.current_lyrics = listed_lines(&lyrics);
                false
            },
            PlayerEvent::PositionUpdated { position_ms, duration_ms } => {
                self.current_time_ms = position_ms;
                match duration_ms {
                    Some(d) => {
                        self.duration_ms = d;
                    },
                    None => {},
                }
                false
            },
            PlayerEvent::PlaybackFinished => {
                self.current_time_ms = 0;
                self.current_lyrics = Vec::new();
                self.active_line_id = -1;
                true
            },
            PlayerEvent::LoadingStatus(status) => {
                self.loading_status = status;
                false
            },
        }
    }

    /// Shows a change of the line on screen: its id (-1 for silence), its
    /// text and the next line's text (empty for none).
    pub fn apply_timeline_event(&mut self, event: TimelineEvent)
        ensures
            match event {
                TimelineEvent::LineChanged { active, next } => {
                    &&& final(self).active_line_id == (match active {
                        Some(l) => l.id,
                        None => -1i64,
                    })
                    &&& final(self).lyric_text@ == (match active {
                        Some(l) => l.text@,
                        None => Seq::<char>::empty(),
                    })
                    &&& final(self).next_lyric_text@ == (match next {
                        Some(l) => l.text@,
                        None => Seq::<char>::empty(),
                    })
                },
            },
    {
        match event {
            TimelineEvent::LineChanged { active, next } => {
                match active {
                    Some(l) => {
                        self.active_line_id = l.id;
                        self.lyric_text = l.text;
                    },
                    None => {
                        self.active_line_id = -1;
                        self.lyric_text = empty_string();
                    },
                }
                match next {
                    Some(l) => {
                        self.next_lyric_text = l.text;
                    },
                    None => {
                        self.next_lyric_text = empty_string();
                    },
                }
            },
        }
    }

    /// Hides or shows the text on the projector.
    pub fn toggle_clear_screen(&mut self)
        ensures
            final(self).clear_screen == !old(self).clear_screen,
    {
        self.clear_screen = !self.clear_screen;
    }
}

/// The volume the controls accept: clamped to 0..=100.
pub fn clamp_volume(value: i32) -> (res: i32)
    ensures
        res == (if value < 0 {
            0
        } else if value > 100 {
            100
        } else {
            value
        }),
{
    if value < 0 {
        0
    } else if value > 100 {
        100
    } else {
        value
    }
}

/// The projector screen that the settings record for a screen index:
/// none for a negative index.
pub fn projector_monitor_of(index: i32) -> (res: Option<u32>)
    ensures
        index < 0 ==> res is None,
        index >= 0 ==> res == Some(index as u32),
{
    if index < 0 {
        None
    } else {
        Some(index as u32)
    }
}

/// The screen index shown for the projector screen that the settings
/// record: -1 for none, else the screen's number as an `i32` (a number past
/// `i32::MAX` wraps around, as a cast does).
pub fn screen_index_of(monitor: Option<u32>) -> (res: i32)
    ensures
        match monitor {
            Some(m) => res == m as i32 && (m <= i32::MAX ==> res == m),
            None => res == -1,
        },
{
    match monitor {
        Some(m) => {
            let r = m as i32;
            assert(m <= i32::MAX ==> r == m) by (bit_vector)
                requires
                    r == m as i32,
            ;
            r
        },
        None => -1,
    }
}

/// Moves the synchronization offset by `delta_ms`, saturating at the
/// limits of `i64`.
pub open spec fn moved_offset(offset_ms: i64, delta_ms: i64) -> i64 {
    let s = offset_ms + delta_ms;
    if s > i64::MAX {
        i64::MAX
    } else if s < i64::MIN {
        i64::MIN
    } else {
        s as i64
    }
}

impl OperatorView {
    /// Moves the synchronization offset shown by `delta_ms` and returns the
    /// new offset, which the timeline and the stored music then take.
    pub fn adjust_sync_offset(&mut self, delta_ms: i64) -> (res: i64)
        ensures
            res == moved_offset(old(self).sync_offset_ms, delta_ms),
            final(self).sync_offset_ms == res,
            final(self).current_lyrics@ == old(self).current_lyrics@,
            final(self).active_line_id == old(self).active_line_id,
    {
        let s: i128 = self.sync_offset_ms as i128 + delta_ms as i128;
        let o: i64 = if s > i64::MAX as i128 {
            i64::MAX
        } else if s < i64::MIN as i128 {
            i64::MIN
        } else {
            s as i64
        };
        self.sync_offset_ms = o;
        o
    }
}

/// One music as the queue and the history list it.
pub struct ListedMusic {
    pub id: String,
    pub title: String,
    pub artist: String,
    pub youtube_url: String,
    pub has_lyrics: bool,
}

/// The row of a music: its artist (empty when unknown) and whether it has
/// stored lyrics (no when that is unknown).
pub fn list_music(m: &Music, has_lyrics: Option<bool>) -> (res: ListedMusic)
    ensures
        res.id@ == m.id@,
        res.title@ == m.title@,
        res.artist@ == match m.artist {
            Some(a) => a@,
            None => Seq::<char>::empty(),
        },
        res.youtube_url@ == m.youtube_url@,
        res.has_lyrics == (has_lyrics == Some(true)),
{
    ListedMusic {
        id: copy_string(&m.id),
        title: copy_string(&m.title),
        artist: match &m.artist {
            Some(a) => copy_string(a),
            None => empty_string(),
        },
        youtube_url: copy_string(&m.youtube_url),
        has_lyrics: match has_lyrics {
            Some(b) => b,
            None => false,
        },
    }
}

/// A lyrics file format that can be written.
#[derive(Debug, Clone, Copy, PartialEq, Eq, Structural)]
pub enum ExportFormat {
    Lrc,
    Srt,
}

/// A lyrics file format that can be read.
#[derive(Debug, Clone, Copy, PartialEq, Eq, Structural)]
pub enum ImportFormat {
    Lrc,
    Srt,
    Vtt,
}

/// Why an export or an import is refused.
#[derive(Debug, Clone, Copy, PartialEq, Eq, Structural)]
pub enum TransferRefusal {
    /// No music is selected (the id is blank).
    NoMusicSelected,
    /// The file has no extension.
    NoExtension,
    /// The format is not one the library reads or writes.
    InvalidFormat,
}

/// The export format a name gives, compared in lowercase.
pub open spec fn export_format_named(name: Seq<char>) -> Option<ExportFormat> {
    let n = unicode_lowercase(name);
    if n == "lrc"@ {
        Some(ExportFormat::Lrc)
    } else if n == "srt"@ {
        Some(ExportFormat::Srt)
    } else {
        None
    }
}

/// The import format a file extension gives, compared in lowercase.
pub open spec fn import_format_named(ext: Seq<char>) -> Option<ImportFormat> {
    let n = unicode_lowercase(ext);
    if n == "lrc"@ {
        Some(ImportFormat::Lrc)
    } else if n == "srt"@ {
        Some(ImportFormat::Srt)
    } else if n == "vtt"@ {
        Some(ImportFormat::Vtt)
    } else {
        None
    }
}

/// Checks an export of the lyrics of `music_id` as `format`.
pub fn export_request(music_id: &str, format: &str) -> (res: Result<ExportFormat, TransferRefusal>)
    ensures
        trim(music_id@).len() == 0 ==> res == Err::<ExportFormat, _>(
            TransferRefusal::NoMusicSelected,
        ),
        trim(music_id@).len() > 0 ==> res == match export_format_named(format@) {
            Some(f) => Ok::<ExportFormat, TransferRefusal>(f),
            None => Err(TransferRefusal::InvalidFormat),
        },
{
    let id = trim_chars(str_chars(music_id).as_slice());
    if id.len() == 0 {
        return Err(TransferRefusal::NoMusicSelected);
    }
    let f = lowercase(str_chars(format).as_slice());
    if chars_eq(f.as_slice(), str_chars("lrc").as_slice()) {
        Ok(ExportFormat::Lrc)
    } else if chars_eq(f.as_slice(), str_chars("srt").as_slice()) {
        Ok(ExportFormat::Srt)
    } else {
        Err(TransferRefusal::InvalidFormat)
    }
}

/// Checks an import of a lyrics file, by its extension, for `music_id`.
pub fn import_request(music_id: &str, extension: Option<&str>) -> (res: Result<
    ImportFormat,
    TransferRefusal,
>)
    ensures
        trim(music_id@).len() == 0 ==> res == Err::<ImportFormat, _>(
            TransferRefusal::NoMusicSelected,
        ),
        trim(music_id@).len() > 0 ==> res == match extension {
            None => Err::<ImportFormat, TransferRefusal>(TransferRefusal::NoExtension),
            Some(e) => match import_format_named(e@) {
                Some(f) => Ok(f),
                None => Err(TransferRefusal::InvalidFormat),
            },
        },
{
    let id = trim_chars(str_chars(music_id).as_slice());
    if id.len() == 0 {
        return Err(TransferRefusal::NoMusicSelected);
    }
    let e = match extension {
        Some(e) => lowercase(str_chars(e).as_slice()),
        None => return Err(TransferRefusal::NoExtension),
    };
    if chars_eq(e.as_slice(), str_chars("lrc").as_slice()) {
        Ok(ImportFormat::Lrc)
    } else if chars_eq(e.as_slice(), str_chars("srt").as_slice()) {
        Ok(ImportFormat::Srt)
    } else if chars_eq(e.as_slice(), str_chars("vtt").as_slice()) {
        Ok(ImportFormat::Vtt)
    } else {
        Err(TransferRefusal::InvalidFormat)
    }
}

/// The text of an exported lyrics file.
pub fn export_text(lines: &[LyricsLine], format: ExportFormat) -> (res: String)
    ensures
        res@ == match format {
            ExportFormat::Lrc => lrc_text(lines@),
            ExportFormat::Srt => srt_text(lines@),
        },
{
    match format {
        ExportFormat::Lrc => format_lrc(lines),
        ExportFormat::Srt => format_srt(lines),
    }
}

/// The lines of an imported lyrics file, read as its format says.
pub fn import_lines(content: &str, music_id: &str, format: ImportFormat) -> (res: Vec<LyricsLine>)
    ensures
        format == ImportFormat::Lrc ==> lines_of_cues(
            res@,
            lrc_cues(lines(content@)),
            music_id@,
        ),
        format == ImportFormat::Srt ==> lines_of_triples(res@, srt_lines(content@), music_id@),
        format == ImportFormat::Vtt ==> lines_of_triples(res@, vtt_lines(content@), music_id@),
{
    match format {
        ImportFormat::Lrc => lrc::parse(content, music_id),
        ImportFormat::Srt => srt::parse(content, music_id),
        ImportFormat::Vtt => srt::parse_vtt(content, music_id),
    }
}

} // verus!
