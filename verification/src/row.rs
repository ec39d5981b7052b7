//! One row of a journal entry.
//!
//! A row is an ordered sequence of characters addressed by character index,
//! never by byte offset, so edits stay correct under multi-byte text. An
//! out-of-range column clamps to the end of the row, which makes every edit
//! total; the buffer relies on that defined behaviour.

use vstd::prelude::*;
use crate::text::chars_to_string;
use crate::text::to_chars;

verus! {

/// The column actually edited: a column past the end clamps to the end.
pub open spec fn clamp(x: int, len: int) -> int {
    if x > len {
        len
    } else {
        x
    }
}

/// What inserting `c` at column `x` does to a row.
pub open spec fn spec_row_insert(r: Seq<char>, x: int, c: char) -> Seq<char> {
    r.insert(clamp(x, r.len() as int), c)
}

/// What deleting the character at column `x` does to a row: past the end it
/// is a no-op.
pub open spec fn spec_row_delete(r: Seq<char>, x: int) -> Seq<char> {
    if x >= r.len() {
        r
    } else {
        r.remove(x)
    }
}

/// An ordered sequence of characters; one line of a journal entry.
pub struct Row {
    chars: Vec<char>,
}

impl View for Row {
    type V = Seq<char>;

    closed spec fn view(&self) -> Seq<char> {
        self.chars@
    }
}

impl Row {
    /// The empty row.
    pub fn new() -> (r: Row)
        ensures
            r@ == Seq::<char>::empty(),
    {
        Row { chars: Vec::new() }
    }

    /// A row holding the characters of `s`.
    pub fn from_text(s: &str) -> (r: Row)
        ensures
            r@ == s@,
    {
        Row { chars: to_chars(s) }
    }

    /// A row holding exactly the characters of `chars`.
    pub fn from_chars(chars: Vec<char>) -> (r: Row)
        ensures
            r@ == chars@,
    {
        Row { chars }
    }

    /// Number of characters in the row.
    pub fn len(&self) -> (n: usize)
        ensures
            n == self@.len(),
    {
        self.chars.len()
    }

    /// True when the row has no characters.
    pub fn is_empty(&self) -> (b: bool)
        ensures
            b == (self@.len() == 0),
    {
        self.chars.len() == 0
    }

    /// Inserts `c` at column `at`; a column past the end appends.
    pub fn insert(&mut self, at: usize, c: char)
        ensures
            final(self)@ == spec_row_insert(old(self)@, at as int, c),
    {
        if at >= self.chars.len() {
            self.chars.push(c);
            proof {
                assert(self@ =~= spec_row_insert(old(self)@, at as int, c));
            }
        } else {
            self.chars.insert(at, c);
        }
    }

    /// Deletes the character at column `at`, shifting the rest left; a column
    /// at or past the end changes nothing.
    pub fn delete(&mut self, at: usize)
        ensures
            final(self)@ == spec_row_delete(old(self)@, at as int),
    {
        if at < self.chars.len() {
            let _ = self.chars.remove(at);
        }
    }

    /// Truncates the row to the characters before column `at` and returns a
    /// new row holding the suffix; a column past the end splits at the end.
    pub fn split(&mut self, at: usize) -> (suffix: Row)
        ensures
            final(self)@ == old(self)@.take(clamp(at as int, old(self)@.len() as int)),
            suffix@ == old(self)@.skip(clamp(at as int, old(self)@.len() as int)),
    {
        let cut = if at > self.chars.len() {
            self.chars.len()
        } else {
            at
        };
        let mut suffix: Vec<char> = Vec::new();
        let mut i: usize = cut;
        while i < self.chars.len()
            invariant
                cut <= i <= self.chars@.len(),
                suffix@ =~= self.chars@.subrange(cut as int, i as int),
        decreases self.chars@.len() - i,
        {
            suffix.push(self.chars[i]);
            i = i + 1;
        }
        self.chars.truncate(cut);
        proof {
            assert(suffix@ =~= old(self)@.skip(clamp(at as int, old(self)@.len() as int)));
            assert(self@ =~= old(self)@.take(clamp(at as int, old(self)@.len() as int)));
        }
        Row { chars: suffix }
    }

    /// Appends the content of `other` at the end of the row.
    pub fn append(&mut self, other: &Row)
        ensures
            final(self)@ == old(self)@ + other@,
    {
        let mut i: usize = 0;
        while i < other.chars.len()
            invariant
                0 <= i <= other.chars@.len(),
                self.chars@ =~= old(self).chars@ + other.chars@.subrange(0, i as int),
            decreases other.chars@.len() - i,
        {
            self.chars.push(other.chars[i]);
            i = i + 1;
        }
        proof {
            assert(self@ =~= old(self)@ + other@);
        }
    }

    /// The row rendered as a string.
    pub fn as_string(&self) -> (r: String)
        ensures
            r@ == self@,
    {
        chars_to_string(&self.chars)
    }
}

} // verus!
