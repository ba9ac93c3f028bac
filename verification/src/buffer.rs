//! The edit buffer: the in-progress line of text and a cursor offset.
//!
//! The text is held as an ordered sequence of characters, so every mutation
//! works on whole characters and no multi-byte unit is ever split. The
//! invariant `cursor <= text.len()` holds across all mutations.

use vstd::prelude::*;

use crate::text::chars_of;
use crate::text::string_from_chars;

verus! {

/// The mathematical model of an edit buffer.
pub struct BufferModel {
    pub text: Seq<char>,
    pub cursor: int,
}

pub struct EditBuffer {
    text: Vec<char>,
    cursor: usize,
}

impl View for EditBuffer {
    type V = BufferModel;

    closed spec fn view(&self) -> BufferModel {
        BufferModel { text: self.text@, cursor: self.cursor as int }
    }
}

impl EditBuffer {
    /// Well-formed: the cursor never exceeds the buffer length.
    pub open spec fn wf(&self) -> bool {
        0 <= self@.cursor <= self@.text.len()
    }

    pub fn new() -> (b: EditBuffer)
        ensures
            b.wf(),
            b@.text.len() == 0,
            b@.cursor == 0,
    {
        EditBuffer { text: Vec::new(), cursor: 0 }
    }

    /// Inserts a character at the cursor; the cursor moves past it.
    pub fn insert_char(&mut self, c: char)
        requires
            old(self).wf(),
            old(self)@.text.len() < usize::MAX,
        ensures
            final(self).wf(),
            final(self)@.text == old(self)@.text.insert(old(self)@.cursor, c),
            final(self)@.cursor == old(self)@.cursor + 1,
    {
        self.text.insert(self.cursor, c);
        self.cursor = self.cursor + 1;
    }

    /// Deletes the character before the cursor, if any.
    pub fn backspace(&mut self)
        requires
            old(self).wf(),
        ensures
            final(self).wf(),
            old(self)@.cursor == 0 ==> *final(self) == *old(self),
            old(self)@.cursor > 0 ==> final(self)@.text == old(self)@.text.remove(
                old(self)@.cursor - 1,
            ) && final(self)@.cursor == old(self)@.cursor - 1,
    {
        if self.cursor > 0 {
            self.text.remove(self.cursor - 1);
            self.cursor = self.cursor - 1;
        }
    }

    /// Moves the cursor one character left, stopping at the start.
    pub fn move_left(&mut self)
        requires
            old(self).wf(),
        ensures
            final(self).wf(),
            final(self)@.text == old(self)@.text,
            final(self)@.cursor == if old(self)@.cursor > 0 {
                old(self)@.cursor - 1
            } else {
                0int
            },
    {
        if self.cursor > 0 {
            self.cursor = self.cursor - 1;
        }
    }

    /// Moves the cursor one character right, stopping at the end.
    pub fn move_right(&mut self)
        requires
            old(self).wf(),
        ensures
            final(self).wf(),
            final(self)@.text == old(self)@.text,
            final(self)@.cursor == if old(self)@.cursor < old(self)@.text.len() {
                old(self)@.cursor + 1
            } else {
                old(self)@.cursor
            },
    {
        if self.cursor < self.text.len() {
            self.cursor = self.cursor + 1;
        }
    }

    /// Empties the buffer.
    pub fn clear(&mut self)
        ensures
            final(self).wf(),
            final(self)@.text.len() == 0,
            final(self)@.cursor == 0,
    {
        self.text.clear();
        self.cursor = 0;
    }

    /// Replaces the whole contents, placing the cursor at the end. Used when
    /// a recalled history entry becomes the live line.
    pub fn load(&mut self, text: &str)
        ensures
            final(self).wf(),
            final(self)@.text == text@,
            final(self)@.cursor == text@.len(),
    {
        self.text = chars_of(text);
        self.cursor = self.text.len();
    }

    /// Replaces the span `[start, cursor)` with the given text and leaves the
    /// cursor at the end of the inserted text. Contents outside the replaced
    /// span are untouched.
    pub fn replace_to_cursor(&mut self, start: usize, replacement: &str)
        requires
            old(self).wf(),
            start <= old(self)@.cursor,
            old(self)@.text.len() + replacement@.len() < usize::MAX,
        ensures
            final(self).wf(),
            final(self)@.text == old(self)@.text.take(start as int) + replacement@ + old(
                self,
            )@.text.skip(old(self)@.cursor),
            final(self)@.cursor == start + replacement@.len(),
    {
        let rep = chars_of(replacement);
        let mut out: Vec<char> = Vec::new();
        let mut i: usize = 0;
        while i < start
            invariant
                i <= start,
                start <= self@.cursor <= self@.text.len(),
                *self == *old(self),
                out@ == self@.text.take(i as int),
            decreases start - i,
        {
            out.push(self.text[i]);
            proof {
                assert(out@ =~= self@.text.take(i + 1));
            }
            i = i + 1;
        }
        let mut j: usize = 0;
        let rn = rep.len();
        while j < rn
            invariant
                j <= rn,
                rn == rep@.len(),
                rep@ == replacement@,
                start <= self@.cursor <= self@.text.len(),
                *self == *old(self),
                out@ == self@.text.take(start as int) + rep@.take(j as int),
            decreases rn - j,
        {
            out.push(rep[j]);
            proof {
                assert(out@ =~= self@.text.take(start as int) + rep@.take(j + 1));
            }
            j = j + 1;
        }
        proof {
            assert(rep@.take(rn as int) =~= rep@);
        }
        let mut k: usize = self.cursor;
        let n = self.text.len();
        while k < n
            invariant
                self@.cursor <= k <= n,
                n == self@.text.len(),
                start <= self@.cursor,
                rep@ == replacement@,
                *self == *old(self),
                out@ == self@.text.take(start as int) + rep@ + self@.text.subrange(
                    self@.cursor,
                    k as int,
                ),
            decreases n - k,
        {
            out.push(self.text[k]);
            proof {
                assert(out@ =~= self@.text.take(start as int) + rep@ + self@.text.subrange(
                    self@.cursor,
                    k + 1,
                ));
            }
            k = k + 1;
        }
        proof {
            assert(self@.text.subrange(self@.cursor, n as int) =~= self@.text.skip(self@.cursor));
        }
        let new_cursor = start + rn;
        self.text = out;
        self.cursor = new_cursor;
    }

    /// The current text as a string.
    pub fn to_text(&self) -> (s: String)
        ensures
            s@ == self@.text,
    {
        string_from_chars(&self.text)
    }

    /// The current cursor offset, in characters.
    pub fn cursor(&self) -> (c: usize)
        ensures
            c == self@.cursor,
    {
        self.cursor
    }

    /// The number of characters in the buffer.
    pub fn len(&self) -> (n: usize)
        ensures
            n == self@.text.len(),
    {
        self.text.len()
    }
}

} // verus!
