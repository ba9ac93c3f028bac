//! History store: an append-only sequence of past inputs with a navigation
//! cursor and a reverse substring search.
//!
//! The cursor is a position into the entry sequence; the value `entries.len()`
//! is the "at end" sentinel that means "not navigating, editing the live
//! buffer". The store never holds two consecutive identical entries, and an
//! empty input is never recorded.

use vstd::prelude::*;

use crate::text::chars_of;

verus! {

/// One step of history navigation.
#[derive(Clone, Copy, Debug, PartialEq, Eq, Structural)]
pub enum Direction {
    Older,
    Newer,
}

/// The mathematical model of a history store: the recorded inputs, oldest
/// first, and the navigation cursor.
pub struct HistoryModel {
    pub entries: Seq<Seq<char>>,
    pub cursor: int,
}

pub struct HistoryStore {
    entries: Vec<String>,
    cursor: usize,
}

impl View for HistoryStore {
    type V = HistoryModel;

    closed spec fn view(&self) -> HistoryModel {
        HistoryModel {
            entries: self.entries@.map_values(|e: String| e@),
            cursor: self.cursor as int,
        }
    }
}

/// `needle` occurs in `hay` starting at position `i`.
pub open spec fn match_at(hay: Seq<char>, needle: Seq<char>, i: int) -> bool {
    &&& 0 <= i
    &&& i + needle.len() <= hay.len()
    &&& hay.subrange(i, i + needle.len()) == needle
}

/// `needle` occurs somewhere in `hay` as a contiguous substring.
pub open spec fn spec_contains(hay: Seq<char>, needle: Seq<char>) -> bool {
    exists|i: int| match_at(hay, needle, i)
}

impl HistoryStore {
    /// Well-formed: the cursor is at an entry or at the "at end" sentinel,
    /// no entry is empty, and no two consecutive entries are identical.
    pub open spec fn wf(&self) -> bool {
        &&& 0 <= self@.cursor <= self@.entries.len()
        &&& forall|i: int| 0 <= i < self@.entries.len() ==> (#[trigger] self@.entries[i]).len() > 0
        &&& forall|i: int|
            1 <= i < self@.entries.len() ==> (#[trigger] self@.entries[i]) != self@.entries[i - 1]
    }

    pub fn new() -> (h: HistoryStore)
        ensures
            h.wf(),
            h@.entries.len() == 0,
            h@.cursor == 0,
    {
        let h = HistoryStore { entries: Vec::new(), cursor: 0 };
        proof {
            assert(h@.entries =~= Seq::<Seq<char>>::empty());
        }
        h
    }

    /// Records a submitted input and leaves the cursor at the "at end"
    /// sentinel. An empty input, or one identical to the most recent entry,
    /// is not recorded and the whole store is left unchanged.
    pub fn append(&mut self, text: &str)
        requires
            old(self).wf(),
        ensures
            final(self).wf(),
            (text@.len() == 0 || (old(self)@.entries.len() > 0 && old(self)@.entries.last()
                == text@)) ==> *final(self) == *old(self),
            !(text@.len() == 0 || (old(self)@.entries.len() > 0 && old(self)@.entries.last()
                == text@)) ==> final(self)@.entries == old(self)@.entries.push(text@)
                && final(self)@.cursor == final(self)@.entries.len(),
    {
        if text.is_empty() {
            return ;
        }
        let owned = text.to_owned();
        let n = self.entries.len();
        if n > 0 && self.entries[n - 1] == owned {
            proof {
                assert(old(self)@.entries.last() == text@);
            }
            return ;
        }
        self.entries.push(owned);
        self.cursor = self.entries.len();
        proof {
            assert(self@.entries =~= old(self)@.entries.push(text@));
        }
    }

    /// Moves the cursor one step and returns the entry at the new position.
    /// At either boundary the store is left unchanged and `None` is the
    /// boundary signal: going older at the oldest entry, or newer at the
    /// "at end" sentinel. Going newer from the newest entry reaches the
    /// sentinel and returns `None`, meaning "back to the live buffer".
    pub fn navigate(&mut self, dir: Direction) -> (r: Option<String>)
        requires
            old(self).wf(),
        ensures
            final(self).wf(),
            final(self)@.entries == old(self)@.entries,
            dir is Older ==> {
                if old(self)@.cursor == 0 {
                    *final(self) == *old(self) && r is None
                } else {
                    final(self)@.cursor == old(self)@.cursor - 1 && (r matches Some(e) && e@
                        == final(self)@.entries[final(self)@.cursor])
                }
            },
            dir is Newer ==> {
                if old(self)@.cursor >= old(self)@.entries.len() {
                    *final(self) == *old(self) && r is None
                } else {
                    final(self)@.cursor == old(self)@.cursor + 1 && (if final(self)@.cursor
                        < final(self)@.entries.len() {
                        r matches Some(e) && e@ == final(self)@.entries[final(self)@.cursor]
                    } else {
                        r is None
                    })
                }
            },
    {
        match dir {
            Direction::Older => {
                if self.cursor == 0 {
                    None
                } else {
                    self.cursor = self.cursor - 1;
                    Some(self.entries[self.cursor].clone())
                }
            },
            Direction::Newer => {
                if self.cursor >= self.entries.len() {
                    None
                } else {
                    self.cursor = self.cursor + 1;
                    if self.cursor < self.entries.len() {
                        Some(self.entries[self.cursor].clone())
                    } else {
                        None
                    }
                }
            },
        }
    }

    /// Leaves navigation: the cursor returns to the "at end" sentinel. The
    /// session calls this whenever the live buffer is edited directly.
    pub fn reset_navigation(&mut self)
        requires
            old(self).wf(),
        ensures
            final(self).wf(),
            final(self)@.entries == old(self)@.entries,
            final(self)@.cursor == final(self)@.entries.len(),
    {
        self.cursor = self.entries.len();
    }

    /// Reverse search: returns the most recent entry strictly before the
    /// current navigation position that contains `query` as a substring, and
    /// moves the cursor there, so that repeating the search with the same
    /// query scans further back. Returns `None`, leaving the store
    /// unchanged, when no earlier entry matches.
    pub fn search(&mut self, query: &str) -> (r: Option<String>)
        requires
            old(self).wf(),
        ensures
            final(self).wf(),
            final(self)@.entries == old(self)@.entries,
            r matches Some(e) ==> {
                &&& 0 <= final(self)@.cursor < old(self)@.cursor
                &&& spec_contains(final(self)@.entries[final(self)@.cursor], query@)
                &&& e@ == final(self)@.entries[final(self)@.cursor]
                &&& forall|j: int|
                    final(self)@.cursor < j < old(self)@.cursor ==> !spec_contains(
                        #[trigger] final(self)@.entries[j],
                        query@,
                    )
            },
            r is None ==> *final(self) == *old(self) && forall|j: int|
                0 <= j < old(self)@.cursor ==> !spec_contains(
                    #[trigger] final(self)@.entries[j],
                    query@,
                ),
    {
        let q = chars_of(query);
        let mut i = self.cursor;
        while i > 0
            invariant
                *self == *old(self),
                i <= self.cursor,
                self.wf(),
                q@ == query@,
                forall|j: int|
                    i <= j < old(self)@.cursor ==> !spec_contains(
                        #[trigger] self@.entries[j],
                        query@,
                    ),
            decreases i,
        {
            i = i - 1;
            if contains_sub(&self.entries[i], &q) {
                let e = self.entries[i].clone();
                self.cursor = i;
                return Some(e);
            }
        }
        None
    }

    /// The number of recorded entries.
    pub fn len(&self) -> (n: usize)
        ensures
            n == self@.entries.len(),
    {
        self.entries.len()
    }

    /// The entry at a position, oldest first.
    pub fn entry_at(&self, i: usize) -> (r: String)
        requires
            i < self@.entries.len(),
        ensures
            r@ == self@.entries[i as int],
    {
        self.entries[i].clone()
    }
}

/// A well-formed history store never holds two consecutive identical
/// entries, and never an empty one.
pub proof fn lemma_no_consecutive_duplicates(h: &HistoryStore)
    requires
        h.wf(),
    ensures
        forall|i: int| 1 <= i < h@.entries.len() ==> (#[trigger] h@.entries[i]) != h@.entries[i - 1],
        forall|i: int| 0 <= i < h@.entries.len() ==> (#[trigger] h@.entries[i]).len() > 0,
{
}

/// Whether `needle` occurs in `hay` as a contiguous substring.
fn contains_sub(hay: &String, needle: &Vec<char>) -> (r: bool)
    ensures
        r == spec_contains(hay@, needle@),
{
    let h = chars_of(hay.as_str());
    let nh = h.len();
    let nn = needle.len();
    if nn > nh {
        proof {
            assert(forall|i: int| !match_at(hay@, needle@, i));
        }
        return false;
    }
    let bound = nh - nn;
    let mut i: usize = 0;
    loop
        invariant
            h@ == hay@,
            nh == h@.len(),
            nn == needle@.len(),
            nn <= nh,
            bound == nh - nn,
            i <= bound,
            forall|k: int| 0 <= k < i ==> !match_at(hay@, needle@, k),
        ensures
            forall|k: int| 0 <= k <= bound ==> !match_at(hay@, needle@, k),
        decreases bound - i,
    {
        if match_at_exec(&h, needle, i) {
            proof {
                assert(match_at(hay@, needle@, i as int));
            }
            return true;
        }
        if i == bound {
            break ;
        }
        i = i + 1;
    }
    proof {
        assert(forall|k: int| !match_at(hay@, needle@, k));
    }
    false
}

/// Whether `needle` occurs in `hay` starting exactly at `i`.
fn match_at_exec(hay: &Vec<char>, needle: &Vec<char>, i: usize) -> (r: bool)
    requires
        i + needle@.len() <= hay@.len(),
    ensures
        r == match_at(hay@, needle@, i as int),
{
    let nh = hay.len();
    let nn = needle.len();
    let mut j: usize = 0;
    while j < nn
        invariant
            nn == needle@.len(),
            nh == hay@.len(),
            i + nn <= hay@.len(),
            j <= nn,
            forall|k: int| 0 <= k < j ==> hay@[i + k] == needle@[k],
        decreases nn - j,
    {
        if hay[i + j] != needle[j] {
            proof {
                assert(hay@.subrange(i as int, i + nn)[j as int] == hay@[i + j]);
            }
            return false;
        }
        j = j + 1;
    }
    proof {
        assert(hay@.subrange(i as int, i + nn) =~= needle@);
    }
    true
}

} // verus!
