//! Which lyric line is on screen at a given moment of the song.
use vstd::prelude::*;
use crate::model::{LyricsLine, copy_line, copy_lines};
use crate::player::{PlaybackState, PlayerEvent};

verus! {

/// What the timeline tells its listeners: the line now on screen (`None`
/// for silence) and the one after it.
#[derive(Debug, Clone)]
pub enum TimelineEvent {
    LineChanged { active: Option<LyricsLine>, next: Option<LyricsLine> },
}

/// Whether `l` is on screen at `pos`: from its start (inclusive) to its end
/// (exclusive).
pub open spec fn is_active(l: LyricsLine, pos: int) -> bool {
    l.start_ms <= pos && pos < l.end_ms
}

/// The position of the first line on screen at `pos`.
pub open spec fn first_active(lines: Seq<LyricsLine>, pos: int) -> Option<int>
    decreases lines.len(),
{
    if lines.len() == 0 {
        None
    } else {
        match first_active(lines.drop_last(), pos) {
            Some(i) => Some(i),
            None => if is_active(lines.last(), pos) {
                Some(lines.len() - 1)
            } else {
                None
            },
        }
    }
}

/// The position of the first line with id `id`.
pub open spec fn first_with_id(lines: Seq<LyricsLine>, id: i64) -> Option<int>
    decreases lines.len(),
{
    if lines.len() == 0 {
        None
    } else {
        match first_with_id(lines.drop_last(), id) {
            Some(i) => Some(i),
            None => if lines.last().id == id {
                Some(lines.len() - 1)
            } else {
                None
            },
        }
    }
}

/// The line on screen at `pos` and the line that follows the first line
/// sharing its id.
pub open spec fn active_and_next(lines: Seq<LyricsLine>, pos: int) -> (
    Option<LyricsLine>,
    Option<LyricsLine>,
) {
    match first_active(lines, pos) {
        None => (None, None),
        Some(a) => match first_with_id(lines, lines[a].id) {
            None => (None, None),
            Some(j) => (
                Some(lines[a]),
                if j + 1 < lines.len() {
                    Some(lines[j + 1])
                } else {
                    None
                },
            ),
        },
    }
}

/// Whether two optional lines are the same line (by id); two silences are
/// the same.
pub open spec fn same_line_spec(a: Option<LyricsLine>, b: Option<LyricsLine>) -> bool {
    match (a, b) {
        (Some(x), Some(y)) => x.id == y.id,
        (None, None) => true,
        _ => false,
    }
}

/// Lines are told apart by id alone: when the line on screen is `shown`
/// and the line at the new position has another id, the new line is a
/// change (whatever the texts, so a repeated chorus line is announced);
/// one with the same id is no change (whatever its text). Silence after a
/// line, or a line after silence, is a change.
pub proof fn lemma_line_change_by_id(lines: Seq<LyricsLine>, shown: Option<LyricsLine>, pos: int)
    ensures
        first_active(lines, pos) matches Some(i) ==> active_and_next(lines, pos).0 == Some(lines[i])
            && (shown matches Some(x) ==> (same_line_spec(shown, active_and_next(lines, pos).0)
            <==> x.id == lines[i].id)),
        first_active(lines, pos) is None ==> active_and_next(lines, pos).0 is None && (
        same_line_spec(shown, active_and_next(lines, pos).0) <==> shown is None),
        first_active(lines, pos) is Some ==> (shown is None ==> !same_line_spec(
            shown,
            active_and_next(lines, pos).0,
        )),
{
    lemma_first_active_is_active(lines, pos);
    if let Some(i) = first_active(lines, pos) {
        lemma_first_with_id_found(lines, lines[i].id, i);
    }
}

/// A line's id is found, at or before its own position.
proof fn lemma_first_with_id_found(lines: Seq<LyricsLine>, id: i64, i: int)
    requires
        0 <= i < lines.len(),
        lines[i].id == id,
    ensures
        first_with_id(lines, id) matches Some(j) && 0 <= j <= i,
    decreases lines.len(),
{
    lemma_first_with_id_bounds(lines.drop_last(), id);
    if i < lines.len() - 1 {
        lemma_first_with_id_found(lines.drop_last(), id, i);
        assert(lines.drop_last()[i] == lines[i]);
    }
}

proof fn lemma_first_with_id_bounds(lines: Seq<LyricsLine>, id: i64)
    ensures
        first_with_id(lines, id) matches Some(j) ==> 0 <= j < lines.len(),
    decreases lines.len(),
{
    if lines.len() > 0 {
        lemma_first_with_id_bounds(lines.drop_last(), id);
    }
}

proof fn lemma_first_active_prefix(lines: Seq<LyricsLine>, pos: int, i: int)
    requires
        0 <= i <= lines.len(),
        forall|k: int| 0 <= k < i ==> !is_active(#[trigger] lines[k], pos),
    ensures
        first_active(lines.take(i), pos) is None,
    decreases i,
{
    if i > 0 {
        assert(lines.take(i).drop_last() =~= lines.take(i - 1));
        lemma_first_active_prefix(lines, pos, i - 1);
    }
}

proof fn lemma_first_active_extend(lines: Seq<LyricsLine>, pos: int, i: int, n: int)
    requires
        0 <= i < n <= lines.len(),
        first_active(lines.take(i + 1), pos) == Some(i),
    ensures
        first_active(lines.take(n), pos) == Some(i),
    decreases n - i,
{
    if n > i + 1 {
        lemma_first_active_extend(lines, pos, i, n - 1);
        assert(lines.take(n).drop_last() =~= lines.take(n - 1));
    }
}

fn find_active_index(lines: &[LyricsLine], pos: i128) -> (res: Option<usize>)
    ensures
        match res {
            Some(i) => first_active(lines@, pos as int) == Some(i as int) && i < lines@.len(),
            None => first_active(lines@, pos as int) is None,
        },
{
    let mut i: usize = 0;
    while i < lines.len()
        invariant
            i <= lines@.len(),
            forall|k: int| 0 <= k < i ==> !is_active(#[trigger] lines@[k], pos as int),
        decreases lines.len() - i,
    {
        if (lines[i].start_ms as i128) <= pos && pos < (lines[i].end_ms as i128) {
            proof {
                lemma_first_active_prefix(lines@, pos as int, i as int);
                assert(lines@.take(i + 1).drop_last() =~= lines@.take(i as int));
                lemma_first_active_extend(lines@, pos as int, i as int, lines@.len() as int);
                assert(lines@.take(lines@.len() as int) =~= lines@);
            }
            return Some(i);
        }
        i = i + 1;
    }
    proof {
        lemma_first_active_prefix(lines@, pos as int, i as int);
        assert(lines@.take(lines@.len() as int) =~= lines@);
    }
    None
}

/// The first line on screen at `position_ms`: `start_ms <= position_ms <
/// end_ms`. No earlier line is on screen then.
pub fn find_active_line(lines: &[LyricsLine], position_ms: i64) -> (res: Option<&LyricsLine>)
    ensures
        match first_active(lines@, position_ms as int) {
            Some(i) => res matches Some(l) && *l == lines@[i],
            None => res is None,
        },
        res matches Some(l) ==> is_active(*l, position_ms as int),
{
    match find_active_index(lines, position_ms as i128) {
        Some(i) => {
            proof {
                lemma_first_active_is_active(lines@, position_ms as int);
            }
            Some(&lines[i])
        },
        None => None,
    }
}

/// The line found is on screen, and no earlier line is.
pub proof fn lemma_first_active_is_active(lines: Seq<LyricsLine>, pos: int)
    ensures
        first_active(lines, pos) matches Some(i) ==> 0 <= i < lines.len() && is_active(lines[i], pos)
            && forall|k: int| 0 <= k < i ==> !is_active(#[trigger] lines[k], pos),
        first_active(lines, pos) is None ==> forall|k: int|
            0 <= k < lines.len() ==> !is_active(#[trigger] lines[k], pos),
    decreases lines.len(),
{
    if lines.len() > 0 {
        lemma_first_active_is_active(lines.drop_last(), pos);
        assert forall|k: int| 0 <= k < lines.len() - 1 implies #[trigger] lines[k] == lines.drop_last()[k] by {}
    }
}

fn first_index_with_id(lines: &[LyricsLine], id: i64) -> (res: Option<usize>)
    ensures
        match res {
            Some(i) => first_with_id(lines@, id) == Some(i as int) && i < lines@.len(),
            None => first_with_id(lines@, id) is None,
        },
{
    let mut i: usize = 0;
    while i < lines.len()
        invariant
            i <= lines@.len(),
            first_with_id(lines@.take(i as int), id) is None,
        decreases lines.len() - i,
    {
        assert(lines@.take(i + 1).drop_last() =~= lines@.take(i as int));
        if lines[i].id == id {
            proof {
                lemma_first_with_id_extend(lines@, id, i as int, lines@.len() as int);
                assert(lines@.take(lines@.len() as int) =~= lines@);
            }
            return Some(i);
        }
        i = i + 1;
    }
    assert(lines@.take(lines@.len() as int) =~= lines@);
    None
}

proof fn lemma_first_with_id_extend(lines: Seq<LyricsLine>, id: i64, i: int, n: int)
    requires
        0 <= i < n <= lines.len(),
        first_with_id(lines.take(i + 1), id) == Some(i),
    ensures
        first_with_id(lines.take(n), id) == Some(i),
    decreases n - i,
{
    if n > i + 1 {
        lemma_first_with_id_extend(lines, id, i, n - 1);
        assert(lines.take(n).drop_last() =~= lines.take(n - 1));
    }
}

fn active_and_next_at(lines: &[LyricsLine], pos: i128) -> (res: (Option<LyricsLine>, Option<LyricsLine>))
    ensures
        res == active_and_next(lines@, pos as int),
{
    let a = match find_active_index(lines, pos) {
        Some(a) => a,
        None => return (None, None),
    };
    let j = match first_index_with_id(lines, lines[a].id) {
        Some(j) => j,
        None => return (None, None),
    };
    let active = copy_line(&lines[a]);
    let next = if j + 1 < lines.len() {
        Some(copy_line(&lines[j + 1]))
    } else {
        None
    };
    (Some(active), next)
}

/// The line on screen at `position_ms` and the line after it (copies).
pub fn active_and_next_line(lines: &[LyricsLine], position_ms: i64) -> (res: (
    Option<LyricsLine>,
    Option<LyricsLine>,
))
    ensures
        res == active_and_next(lines@, position_ms as int),
{
    active_and_next_at(lines, position_ms as i128)
}

/// Whether two optional lines are the same line, by id.
pub fn same_line(current: &Option<LyricsLine>, next: &Option<LyricsLine>) -> (res: bool)
    ensures
        res == same_line_spec(*current, *next),
{
    match (current, next) {
        (Some(a), Some(b)) => a.id == b.id,
        (None, None) => true,
        _ => false,
    }
}

/// The timeline's state: the song's lines, the line on screen, the last
/// position the player reported and the synchronization offset.
pub struct TimelineState {
    pub lyrics: Vec<LyricsLine>,
    pub active_line: Option<LyricsLine>,
    pub position_ms: i64,
    pub offset_ms: i64,
}

/// The moment whose line is shown: the position moved by the offset.
pub open spec fn adjusted(position_ms: i64, offset_ms: i64) -> int {
    position_ms as int + offset_ms as int
}

impl TimelineState {
    /// No lines, no line on screen, at the start, no offset.
    pub fn new() -> (res: Self)
        ensures
            res.lyrics@.len() == 0,
            res.active_line is None,
            res.position_ms == 0,
            res.offset_ms == 0,
    {
        TimelineState { lyrics: Vec::new(), active_line: None, position_ms: 0, offset_ms: 0 }
    }

    fn refresh(&mut self) -> (res: (Option<LyricsLine>, Option<LyricsLine>))
        ensures
            res == active_and_next(
                old(self).lyrics@,
                adjusted(old(self).position_ms, old(self).offset_ms),
            ),
            *final(self) == *old(self),
    {
        let pos = (self.position_ms as i128) + (self.offset_ms as i128);
        active_and_next_at(self.lyrics.as_slice(), pos)
    }

    /// Changes the offset. When the line on screen changes, records it and
    /// returns the event announcing it and the next line.
    pub fn set_offset(&mut self, offset_ms: i64) -> (res: Option<TimelineEvent>)
        ensures
            final(self).offset_ms == offset_ms,
            final(self).lyrics@ == old(self).lyrics@,
            final(self).position_ms == old(self).position_ms,
            ({
                let (a, n) = active_and_next(
                    old(self).lyrics@,
                    adjusted(old(self).position_ms, offset_ms),
                );
                if same_line_spec(old(self).active_line, a) {
                    res is None && final(self).active_line == old(self).active_line
                } else {
                    res == Some(TimelineEvent::LineChanged { active: a, next: n })
                        && final(self).active_line == a
                }
            }),
    {
        self.offset_ms = offset_ms;
        self.update_line()
    }

    fn update_line(&mut self) -> (res: Option<TimelineEvent>)
        ensures
            final(self).offset_ms == old(self).offset_ms,
            final(self).lyrics@ == old(self).lyrics@,
            final(self).position_ms == old(self).position_ms,
            ({
                let (a, n) = active_and_next(
                    old(self).lyrics@,
                    adjusted(old(self).position_ms, old(self).offset_ms),
                );
                if same_line_spec(old(self).active_line, a) {
                    res is None && final(self).active_line == old(self).active_line
                } else {
                    res == Some(TimelineEvent::LineChanged { active: a, next: n })
                        && final(self).active_line == a
                }
            }),
    {
        let (active, next) = self.refresh();
        if same_line(&self.active_line, &active) {
            return None;
        }
        let shown = match &active {
            Some(l) => Some(copy_line(l)),
            None => None,
        };
        self.active_line = shown;
        Some(TimelineEvent::LineChanged { active, next })
    }

    /// The offset in use.
    pub fn get_offset(&self) -> (res: i64)
        ensures
            res == self.offset_ms,
    {
        self.offset_ms
    }

    /// Records a position reported by the player (see `set_offset` for
    /// what is returned).
    pub fn update_active_line(&mut self, position_ms: i64) -> (res: Option<TimelineEvent>)
        ensures
            final(self).position_ms == position_ms,
            final(self).offset_ms == old(self).offset_ms,
            final(self).lyrics@ == old(self).lyrics@,
            ({
                let (a, n) = active_and_next(
                    old(self).lyrics@,
                    adjusted(position_ms, old(self).offset_ms),
                );
                if same_line_spec(old(self).active_line, a) {
                    res is None && final(self).active_line == old(self).active_line
                } else {
                    res == Some(TimelineEvent::LineChanged { active: a, next: n })
                        && final(self).active_line == a
                }
            }),
    {
        self.position_ms = position_ms;
        self.update_line()
    }

    /// Reacts to an event of the player: a loaded song replaces the lines
    /// and clears the screen; updated lines replace the lines and always
    /// announce the line on screen; a stop or the end of the song drops the
    /// lines and clears the screen; a new position may change the line;
    /// other events change nothing.
    pub fn handle_player_event(&mut self, event: PlayerEvent) -> (res: Option<TimelineEvent>)
        ensures
            match event {
                PlayerEvent::MusicLoaded { lyrics, .. } => final(self).lyrics@ == lyrics@
                    && final(self).active_line is None && final(self).position_ms == 0
                    && final(self).offset_ms == old(self).offset_ms && res == Some(
                    TimelineEvent::LineChanged { active: None, next: None },
                ),
                PlayerEvent::LyricsUpdated(lyrics) => {
                    let (a, n) = active_and_next(
                        lyrics@,
                        adjusted(old(self).position_ms, old(self).offset_ms),
                    );
                    final(self).lyrics@ == lyrics@ && final(self).active_line == a && final(self).position_ms == old(self).position_ms && final(self).offset_ms == old(self).offset_ms && res == Some(TimelineEvent::LineChanged { active: a, next: n })
                },
                PlayerEvent::StateChanged(PlaybackState::Stopped) | PlayerEvent::PlaybackFinished => final(self).lyrics@.len() == 0 && final(self).active_line is None && final(self).position_ms
                    == 0 && final(self).offset_ms == old(self).offset_ms && res == Some(
                    TimelineEvent::LineChanged { active: None, next: None },
                ),
                PlayerEvent::PositionUpdated { position_ms, .. } => {
                    let (a, n) = active_and_next(
                        old(self).lyrics@,
                        adjusted(position_ms, old(self).offset_ms),
                    );
                    final(self).position_ms == position_ms && final(self).offset_ms == old(self).offset_ms && final(self).lyrics@ == old(self).lyrics@ && if same_line_spec(
                        old(self).active_line,
                        a,
                    ) {
                        res is None && final(self).active_line == old(self).active_line
                    } else {
                        res == Some(TimelineEvent::LineChanged { active: a, next: n })
                            && final(self).active_line == a
                    }
                },
                _ => res is None && final(self).lyrics@ == old(self).lyrics@ && final(self).active_line == old(self).active_line && final(self).position_ms == old(self).position_ms && final(self).offset_ms == old(self).offset_ms,
            },
    {
        match event {
            PlayerEvent::MusicLoaded { lyrics, .. } => {
                self.lyrics = lyrics;
                self.active_line = None;
                self.position_ms = 0;
                Some(TimelineEvent::LineChanged { active: None, next: None })
            },
            PlayerEvent::LyricsUpdated(lyrics) => {
                self.lyrics = lyrics;
                let (active, next) = self.refresh();
                let shown = match &active {
                    Some(l) => Some(copy_line(l)),
                    None => None,
                };
                self.active_line = shown;
                Some(TimelineEvent::LineChanged { active, next })
            },
            PlayerEvent::StateChanged(PlaybackState::Stopped) | PlayerEvent::PlaybackFinished => {
                self.lyrics = Vec::new();
                self.active_line = None;
                self.position_ms = 0;
                Some(TimelineEvent::LineChanged { active: None, next: None })
            },
            PlayerEvent::PositionUpdated { position_ms, .. } => self.update_active_line(
                position_ms,
            ),
            _ => None,
        }
    }
}

} // verus!
