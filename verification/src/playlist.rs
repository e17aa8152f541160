//! The play queue: songs in order and the one being played.
use vstd::prelude::*;
use crate::model::{Music, copy_music};

verus! {

/// The play queue: the scheduled songs, in order, and the position of the
/// active one, which is always a position of the queue.
pub struct Playlist {
    items: Vec<Music>,
    current: Option<usize>,
}

/// Where the active position goes when the song at `index` leaves a queue
/// of `len` songs: unchanged when `index` is out of range, gone when it was
/// the active song, one back when it was after it.
pub open spec fn current_after_remove(current: Option<int>, index: int, len: int) -> Option<int> {
    if index >= len {
        current
    } else {
        match current {
            Some(c) => if c == index {
                None
            } else if c > index {
                Some(c - 1)
            } else {
                Some(c)
            },
            None => None,
        }
    }
}

/// The position that `next` moves to: the one after the active position,
/// or the first when none is active.
pub open spec fn next_position(current: Option<int>) -> int {
    match current {
        Some(c) => c + 1,
        None => 0,
    }
}

impl Playlist {
    #[verifier::type_invariant]
    spec fn well_formed(self) -> bool {
        self.current matches Some(c) ==> c < self.items@.len()
    }

    /// The scheduled songs.
    pub closed spec fn items_view(&self) -> Seq<Music> {
        self.items@
    }

    /// The position of the active song.
    pub closed spec fn current_view(&self) -> Option<int> {
        match self.current {
            Some(c) => Some(c as int),
            None => None,
        }
    }

    /// An empty queue.
    pub fn new() -> (res: Self)
        ensures
            res.items_view().len() == 0,
            res.current_view() is None,
    {
        Playlist { items: Vec::new(), current: None }
    }

    /// Adds a song at the end.
    pub fn add(&mut self, music: Music)
        ensures
            final(self).items_view() == old(self).items_view().push(music),
            final(self).current_view() == old(self).current_view(),
    {
        proof {
            use_type_invariant(&*self);
        }
        let mut taken = Playlist::new();
        std::mem::swap(&mut taken, self);
        proof {
            use_type_invariant(&taken);
        }
        let Playlist { mut items, current } = taken;
        items.push(music);
        *self = Playlist { items, current };
    }

    /// Removes the song at `index`, keeping the active song active (see
    /// `current_after_remove`); an index out of range changes nothing.
    pub fn remove(&mut self, index: usize)
        ensures
            index < old(self).items_view().len() ==> final(self).items_view() == old(self).items_view().remove(index as int),
            index >= old(self).items_view().len() ==> final(self).items_view() == old(self).items_view(),
            final(self).current_view() == current_after_remove(
                old(self).current_view(),
                index as int,
                old(self).items_view().len() as int,
            ),
    {
        proof {
            use_type_invariant(&*self);
        }
        if index >= self.items.len() {
            return;
        }
        let mut taken = Playlist::new();
        std::mem::swap(&mut taken, self);
        proof {
            use_type_invariant(&taken);
        }
        let Playlist { mut items, current } = taken;
        items.remove(index);
        let current = match current {
            Some(c) => if c == index {
                None
            } else if c > index {
                Some(c - 1)
            } else {
                Some(c)
            },
            None => None,
        };
        *self = Playlist { items, current };
    }

    /// Copies of the scheduled songs.
    pub fn get_items(&self) -> (res: Vec<Music>)
        ensures
            res@ == self.items_view(),
    {
        let mut res: Vec<Music> = Vec::new();
        let mut i: usize = 0;
        while i < self.items.len()
            invariant
                i <= self.items@.len(),
                res@ == self.items@.take(i as int),
            decreases self.items.len() - i,
        {
            res.push(copy_music(&self.items[i]));
            assert(res@ =~= self.items@.take(i + 1));
            i = i + 1;
        }
        assert(self.items@.take(self.items@.len() as int) =~= self.items@);
        res
    }

    /// The position of the active song, always a position of the queue.
    pub fn current_index(&self) -> (res: Option<usize>)
        ensures
            match res {
                Some(i) => self.current_view() == Some(i as int) && i < self.items_view().len(),
                None => self.current_view() is None,
            },
    {
        proof {
            use_type_invariant(self);
        }
        self.current
    }

    /// Makes `index` the active position when it is a position of the
    /// queue; `None` clears it; an index out of range changes nothing.
    pub fn set_current_index(&mut self, index: Option<usize>)
        ensures
            final(self).items_view() == old(self).items_view(),
            final(self).current_view() == (match index {
                Some(i) => if i < old(self).items_view().len() {
                    Some(i as int)
                } else {
                    old(self).current_view()
                },
                None => None,
            }),
    {
        proof {
            use_type_invariant(&*self);
        }
        let len = self.items.len();
        match index {
            Some(i) => {
                if i < len {
                    self.current = Some(i);
                }
            },
            None => {
                self.current = None;
            },
        }
    }

    /// A copy of the active song.
    pub fn current_music(&self) -> (res: Option<Music>)
        ensures
            match self.current_view() {
                Some(c) => res == Some(self.items_view()[c]),
                None => res is None,
            },
    {
        proof {
            use_type_invariant(self);
        }
        match self.current {
            Some(i) => Some(copy_music(&self.items[i])),
            None => None,
        }
    }

    /// Moves to the next song and returns it; `None` (nothing changed) at
    /// the end of the queue.
    pub fn next(&mut self) -> (res: Option<Music>)
        ensures
            final(self).items_view() == old(self).items_view(),
            next_position(old(self).current_view()) < old(self).items_view().len() ==> final(self).current_view() == Some(next_position(old(self).current_view())) && res == Some(
                old(self).items_view()[next_position(old(self).current_view())],
            ),
            next_position(old(self).current_view()) >= old(self).items_view().len() ==> final(self).current_view() == old(self).current_view() && res is None,
    {
        proof {
            use_type_invariant(&*self);
        }
        let n = self.items.len();
        let next = match self.current {
            Some(c) => c + 1,
            None => 0,
        };
        if next < n {
            self.current = Some(next);
            Some(copy_music(&self.items[next]))
        } else {
            None
        }
    }

    /// Moves back to the previous song and returns it; `None` (nothing
    /// changed) at the start of the queue or with no active song.
    pub fn prev(&mut self) -> (res: Option<Music>)
        ensures
            final(self).items_view() == old(self).items_view(),
            match old(self).current_view() {
                Some(c) => if c > 0 {
                    final(self).current_view() == Some(c - 1) && res == Some(
                        old(self).items_view()[c - 1],
                    )
                } else {
                    final(self).current_view() == old(self).current_view() && res is None
                },
                None => final(self).current_view() == old(self).current_view() && res is None,
            },
    {
        proof {
            use_type_invariant(&*self);
        }
        let prev = match self.current {
            Some(c) => if c > 0 {
                c - 1
            } else {
                return None;
            },
            None => return None,
        };
        self.current = Some(prev);
        Some(copy_music(&self.items[prev]))
    }
}

/// Going back after moving forward returns to the song that was active:
/// when `next` moves from position `c`, `prev` from `c + 1` moves to `c`.
pub proof fn lemma_prev_undoes_next(c: int)
    requires
        c >= 0,
    ensures
        next_position(Some(c)) == c + 1,
        c + 1 > 0 && (c + 1) - 1 == c,
{
}

/// Removing another song keeps the same song active: the new active
/// position names the song that the old one named.
pub proof fn lemma_remove_keeps_active_song(items: Seq<Music>, c: int, index: int)
    requires
        0 <= c < items.len(),
        0 <= index < items.len(),
        index != c,
    ensures
        current_after_remove(Some(c), index, items.len() as int) matches Some(c2) && items.remove(
            index,
        )[c2] == items[c],
{
}

} // verus!
