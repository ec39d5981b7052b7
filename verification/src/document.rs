//! The in-memory journal entry: an ordered sequence of rows, a dirty flag
//! set on any mutation and cleared on save, and an optional name.
//!
//! Edits at out-of-range positions are silent no-ops (or clamp to the end of
//! the row); that behaviour is part of the contract, not an accident. The
//! buffer serialises with one line feed after every row, so serialisation is
//! deterministic and lossless with respect to line boundaries.

use vstd::prelude::*;
use vstd::string::StringExecFns;
use vstd::utf8::valid_utf8;
use vstd::utf8::decode_utf8;
use crate::row::Row;
use crate::row::clamp;
use crate::row::spec_row_insert;
use crate::row::spec_row_delete;
use crate::text::push_char;
use crate::text::spec_lines;
use crate::text::split_lines;
use crate::text::string_from_utf8;
use crate::text::to_chars;
use crate::text::views;

verus! {

/// A cursor position: column `x` (in characters) and row `y`.
#[derive(Clone, Copy, PartialEq, Eq, Structural, Debug)]
pub struct Position {
    pub x: usize,
    pub y: usize,
}

/// Failure to build a buffer from raw bytes.
#[derive(Clone, Copy, PartialEq, Eq, Structural, Debug)]
pub enum TextError {
    /// The bytes are not valid UTF-8 text.
    InvalidEncoding,
}

/// What inserting a line break at `(x, y)` does to the rows: beyond the last
/// row nothing happens, at the row one past the end an empty row is appended,
/// and inside an existing row the row splits at column `x` (clamped).
pub open spec fn spec_insert_newline(rows: Seq<Seq<char>>, x: int, y: int) -> Seq<Seq<char>> {
    if y > rows.len() {
        rows
    } else if y == rows.len() {
        rows.push(Seq::empty())
    } else {
        let cut = clamp(x, rows[y].len() as int);
        rows.update(y, rows[y].take(cut)).insert(y + 1, rows[y].skip(cut))
    }
}

/// What inserting an ordinary character at `(x, y)` does to the rows: beyond
/// the last row nothing happens, at the row one past the end a fresh one-
/// character row is appended, otherwise the character goes into row `y`.
pub open spec fn spec_insert_char(rows: Seq<Seq<char>>, x: int, y: int, c: char) -> Seq<
    Seq<char>,
> {
    if y > rows.len() {
        rows
    } else if y == rows.len() {
        rows.push(seq![c])
    } else {
        rows.update(y, spec_row_insert(rows[y], x, c))
    }
}

/// What inserting `c` at `(x, y)` does to the rows.
pub open spec fn spec_insert(rows: Seq<Seq<char>>, x: int, y: int, c: char) -> Seq<Seq<char>> {
    if c == '\n' {
        spec_insert_newline(rows, x, y)
    } else {
        spec_insert_char(rows, x, y, c)
    }
}

/// What deleting at `(x, y)` does to the rows: beyond the last row nothing
/// happens; at the end of a row with a following row, the following row is
/// merged upward into row `y`; otherwise the character at column `x` of row
/// `y` is deleted (a no-op past the end of the row).
pub open spec fn spec_delete(rows: Seq<Seq<char>>, x: int, y: int) -> Seq<Seq<char>> {
    if y >= rows.len() {
        rows
    } else if x == rows[y].len() && y + 1 < rows.len() {
        rows.update(y, rows[y] + rows[y + 1]).remove(y + 1)
    } else {
        rows.update(y, spec_row_delete(rows[y], x))
    }
}

/// The serialised text of the rows: each row followed by one line feed.
pub open spec fn spec_text(rows: Seq<Seq<char>>) -> Seq<char>
    decreases rows.len(),
{
    if rows.len() == 0 {
        Seq::empty()
    } else {
        spec_text(rows.drop_last()) + rows.last().push('\n')
    }
}

/// One journal entry held in memory while it is edited.
pub struct Document {
    rows: Vec<Row>,
    file_name: Option<String>,
    dirty: bool,
}

impl Document {
    /// The rows as character sequences.
    pub closed spec fn rows_view(&self) -> Seq<Seq<char>> {
        Seq::new(self.rows@.len(), |i: int| self.rows@[i]@)
    }

    /// True when an insert or delete has happened since creation or since the
    /// last save.
    pub closed spec fn spec_dirty(&self) -> bool {
        self.dirty
    }

    /// The entry's identifying name: its date, or the file it came from.
    pub closed spec fn spec_file_name(&self) -> Option<Seq<char>> {
        match self.file_name {
            Some(n) => Some(n@),
            None => None,
        }
    }

    /// The entry's identifying name, if it has one.
    pub fn file_name(&self) -> (r: Option<&String>)
        ensures
            match r {
                Some(n) => self.spec_file_name() == Some(n@),
                None => self.spec_file_name() is None,
            },
    {
        match &self.file_name {
            Some(n) => Some(n),
            None => None,
        }
    }

    /// An empty, clean, unnamed buffer.
    pub fn new() -> (d: Document)
        ensures
            d.rows_view() == Seq::<Seq<char>>::empty(),
            !d.spec_dirty(),
            d.spec_file_name() is None,
    {
        let d = Document { rows: Vec::new(), file_name: None, dirty: false };
        proof {
            assert(d.rows_view() =~= Seq::<Seq<char>>::empty());
        }
        d
    }

    /// A clean buffer holding the lines of the given bytes, named `log_date`.
    ///
    /// The bytes must be valid text; bytes that are not are an error, never a
    /// panic and never a partially decoded buffer.
    pub fn open_from_u8(characters: Vec<u8>, log_date: &str) -> (r: Result<Document, TextError>)
        ensures
            match r {
                Ok(d) => {
                    &&& valid_utf8(characters@)
                    &&& d.rows_view() == spec_lines(decode_utf8(characters@))
                    &&& !d.spec_dirty()
                    &&& d.spec_file_name() matches Some(n) && n == log_date@
                },
                Err(e) => !valid_utf8(characters@) && e == TextError::InvalidEncoding,
            },
    {
        let ghost bytes = characters@;
        match string_from_utf8(characters) {
            None => Err(TextError::InvalidEncoding),
            Some(contents) => {
                let chars = to_chars(contents.as_str());
                let lines = split_lines(&chars);
                let mut rows: Vec<Row> = Vec::new();
                let mut i: usize = 0;
                while i < lines.len()
                    invariant
                        0 <= i <= lines@.len(),
                        rows@.len() == i,
                        forall|k: int| 0 <= k < i ==> rows@[k]@ == lines@[k]@,
                    decreases lines@.len() - i,
                {
                    let mut line: Vec<char> = Vec::new();
                    let mut k: usize = 0;
                    let cur = &lines[i];
                    while k < cur.len()
                        invariant
                            0 <= k <= cur@.len(),
                            line@ =~= cur@.subrange(0, k as int),
                        decreases cur@.len() - k,
                    {
                        line.push(cur[k]);
                        k = k + 1;
                    }
                    proof {
                        assert(line@ =~= lines@[i as int]@);
                    }
                    rows.push(Row::from_chars(line));
                    i = i + 1;
                }
                let d = Document {
                    rows,
                    file_name: Some(log_date.to_owned()),
                    dirty: false,
                };
                proof {
                    assert(d.rows_view() =~= views(lines@));
                }
                Ok(d)
            },
        }
    }

    /// The row at `index`, if it exists.
    pub fn row(&self, index: usize) -> (r: Option<&Row>)
        ensures
            match r {
                Some(row) => index < self.rows_view().len() && row@ == self.rows_view()[
                    index as int
                ],
                None => index >= self.rows_view().len(),
            },
    {
        if index < self.rows.len() {
            Some(&self.rows[index])
        } else {
            None
        }
    }

    /// True when the buffer has no rows.
    pub fn is_empty(&self) -> (b: bool)
        ensures
            b == (self.rows_view().len() == 0),
    {
        self.rows.len() == 0
    }

    /// Number of rows.
    pub fn len(&self) -> (n: usize)
        ensures
            n == self.rows_view().len(),
    {
        self.rows.len()
    }

    /// Inserts a line break at `at`, as [`spec_insert_newline`] describes.
    /// Unlike [`Document::insert`] this does not touch the dirty flag.
    pub fn insert_newline(&mut self, at: &Position)
        ensures
            final(self).rows_view() == spec_insert_newline(
                old(self).rows_view(),
                at.x as int,
                at.y as int,
            ),
            final(self).spec_dirty() == old(self).spec_dirty(),
            final(self).spec_file_name() == old(self).spec_file_name(),
    {
        if at.y > self.rows.len() {
            return ;
        }
        if at.y == self.rows.len() {
            self.rows.push(Row::new());
            proof {
                assert(self.rows_view() =~= spec_insert_newline(
                    old(self).rows_view(),
                    at.x as int,
                    at.y as int,
                ));
            }
            return ;
        }
        let mut row = self.rows.remove(at.y);
        let new_row = row.split(at.x);
        self.rows.insert(at.y, row);
        self.rows.insert(at.y + 1, new_row);
        proof {
            assert(self.rows_view() =~= spec_insert_newline(
                old(self).rows_view(),
                at.x as int,
                at.y as int,
            ));
        }
    }

    /// Inserts `c` at `at`, as [`spec_insert`] describes; a position beyond
    /// the last row is a silent no-op. Any in-range insert marks the buffer
    /// dirty.
    pub fn insert(&mut self, at: &Position, c: char)
        ensures
            final(self).rows_view() == spec_insert(
                old(self).rows_view(),
                at.x as int,
                at.y as int,
                c,
            ),
            final(self).spec_dirty() == (old(self).spec_dirty() || at.y
                <= old(self).rows_view().len()),
            final(self).spec_file_name() == old(self).spec_file_name(),
    {
        if at.y > self.rows.len() {
            return ;
        }
        self.dirty = true;
        if c == '\n' {
            self.insert_newline(at);
            return ;
        }
        if at.y == self.rows.len() {
            let mut row = Row::new();
            row.insert(0, c);
            self.rows.push(row);
            proof {
                assert(spec_row_insert(Seq::<char>::empty(), 0, c) =~= seq![c]);
                assert(self.rows_view() =~= spec_insert(
                    old(self).rows_view(),
                    at.x as int,
                    at.y as int,
                    c,
                ));
            }
        } else {
            let mut row = self.rows.remove(at.y);
            row.insert(at.x, c);
            self.rows.insert(at.y, row);
            proof {
                assert(self.rows_view() =~= spec_insert(
                    old(self).rows_view(),
                    at.x as int,
                    at.y as int,
                    c,
                ));
            }
        }
    }

    /// Deletes at `at`, as [`spec_delete`] describes: at the end of a row the
    /// following row merges upward; beyond the last row nothing happens. Any
    /// in-range delete marks the buffer dirty.
    pub fn delete(&mut self, at: &Position)
        ensures
            final(self).rows_view() == spec_delete(
                old(self).rows_view(),
                at.x as int,
                at.y as int,
            ),
            final(self).spec_dirty() == (old(self).spec_dirty() || at.y
                < old(self).rows_view().len()),
            final(self).spec_file_name() == old(self).spec_file_name(),
    {
        let len = self.rows.len();
        if at.y >= len {
            return ;
        }
        self.dirty = true;
        let row_len = self.rows[at.y].len();
        if at.x == row_len && at.y + 1 < len {
            let next_row = self.rows.remove(at.y + 1);
            let mut row = self.rows.remove(at.y);
            row.append(&next_row);
            self.rows.insert(at.y, row);
            proof {
                assert(self.rows_view() =~= spec_delete(
                    old(self).rows_view(),
                    at.x as int,
                    at.y as int,
                ));
            }
        } else {
            let mut row = self.rows.remove(at.y);
            row.delete(at.x);
            self.rows.insert(at.y, row);
            proof {
                assert(self.rows_view() =~= spec_delete(
                    old(self).rows_view(),
                    at.x as int,
                    at.y as int,
                ));
            }
        }
    }

    /// Marks the buffer clean: every edit so far now counts as saved.
    pub fn save(&mut self)
        ensures
            final(self).rows_view() == old(self).rows_view(),
            final(self).spec_file_name() == old(self).spec_file_name(),
            !final(self).spec_dirty(),
    {
        self.dirty = false;
    }

    /// Serialises the buffer: every row followed by one line feed, in row
    /// order.
    pub fn to_string(&self) -> (r: String)
        ensures
            r@ == spec_text(self.rows_view()),
    {
        let mut contents = String::new();
        let mut i: usize = 0;
        proof {
            assert(self.rows_view().take(0) =~= Seq::<Seq<char>>::empty());
        }
        while i < self.rows.len()
            invariant
                0 <= i <= self.rows@.len(),
                self.rows_view().len() == self.rows@.len(),
                contents@ =~= spec_text(self.rows_view().take(i as int)),
            decreases self.rows@.len() - i,
        {
            let s = self.rows[i].as_string();
            contents.append(s.as_str());
            push_char(&mut contents, '\n');
            proof {
                let rv = self.rows_view();
                assert(rv.take(i + 1).drop_last() =~= rv.take(i as int));
                assert(rv.take(i + 1).last() == rv[i as int]);
                assert(contents@ =~= spec_text(rv.take(i as int)) + rv[i as int].push('\n'));
            }
            i = i + 1;
        }
        proof {
            assert(self.rows_view().take(self.rows@.len() as int) =~= self.rows_view());
        }
        contents
    }

    /// True when an edit has happened since creation or since the last save.
    pub fn is_dirty(&self) -> (b: bool)
        ensures
            b == self.spec_dirty(),
    {
        self.dirty
    }
}

/// True when no row holds a line break or a carriage return — the shape
/// every buffer built by in-range edits has.
pub open spec fn plain_rows(rows: Seq<Seq<char>>) -> bool {
    forall|i: int, j: int|
        0 <= i < rows.len() && 0 <= j < rows[i].len() ==> (#[trigger] rows[i][j]) != '\n' && rows[
            i
        ][j] != '\r'
}

/// `spec_text` consumed from the front: the first row, its line feed, then
/// the text of the remaining rows.
pub proof fn lemma_spec_text_first(rows: Seq<Seq<char>>)
    requires
        rows.len() > 0,
    ensures
        spec_text(rows) == rows.first().push('\n') + spec_text(rows.drop_first()),
    decreases rows.len(),
{
    if rows.len() == 1 {
        assert(rows.drop_last() =~= Seq::<Seq<char>>::empty());
        assert(rows.drop_first() =~= Seq::<Seq<char>>::empty());
        assert(spec_text(rows) =~= rows.first().push('\n') + spec_text(rows.drop_first()));
    } else {
        let cut = rows.drop_last();
        lemma_spec_text_first(cut);
        assert(cut.drop_first() =~= rows.drop_first().drop_last());
        assert(rows.drop_first().last() == rows.last());
        assert(rows.drop_first().len() > 0);
        assert(spec_text(rows.drop_first()) == spec_text(rows.drop_first().drop_last())
            + rows.last().push('\n'));
        assert(spec_text(rows) == spec_text(cut) + rows.last().push('\n'));
        assert(spec_text(cut) == rows.first().push('\n') + spec_text(cut.drop_first()));
        assert(spec_text(rows) =~= rows.first().push('\n') + spec_text(rows.drop_first()));
    }
}

/// Serialisation is lossless with respect to line boundaries: splitting the
/// serialised text back into lines recovers exactly the rows, for every
/// buffer whose rows hold no line-break characters.
pub proof fn lemma_lines_of_text_round_trip(rows: Seq<Seq<char>>)
    requires
        plain_rows(rows),
    ensures
        spec_lines(spec_text(rows)) == rows,
    decreases rows.len(),
{
    if rows.len() == 0 {
        assert(spec_lines(spec_text(rows)) =~= rows);
    } else {
        let first = rows.first();
        let rest = rows.drop_first();
        let t = spec_text(rows);
        lemma_spec_text_first(rows);
        assert(t == first.push('\n') + spec_text(rest));
        let n = first.len() as int;
        assert forall|k: int| 0 <= k < n implies t[k] != '\n' by {
            assert(t[k] == rows[0][k]);
        }
        assert(t[n] == '\n');
        crate::text::lemma_first_nl_is(t, n);
        assert(t.take(n) =~= first);
        assert(crate::text::strip_cr(first) == first) by {
            if first.len() > 0 {
                assert(rows[0][first.len() - 1] != '\r');
            }
        }
        assert(t.skip(n + 1) =~= spec_text(rest));
        assert(plain_rows(rest)) by {
            assert forall|i: int, j: int|
                0 <= i < rest.len() && 0 <= j < rest[i].len() implies (#[trigger] rest[i][j])
                != '\n' && rest[i][j] != '\r' by {
                assert(rest[i] == rows[i + 1]);
                assert(rows[i + 1][j] != '\n' && rows[i + 1][j] != '\r');
            }
        }
        lemma_lines_of_text_round_trip(rest);
        assert(spec_lines(t) =~= seq![first] + spec_lines(spec_text(rest)));
        assert(spec_lines(spec_text(rows)) =~= rows);
    }
}

/// Splitting a row with a line break and then deleting at the split point
/// merges the two rows back: the buffer returns to exactly its old rows.
/// (The dirty flag is sticky: the contracts of [`Document::insert`] and
/// [`Document::delete`] leave it set even after the inverse edit.)
pub proof fn lemma_newline_then_delete_is_identity(rows: Seq<Seq<char>>, x: int, y: int)
    requires
        0 <= y < rows.len(),
        0 <= x <= rows[y].len(),
    ensures
        spec_delete(spec_insert(rows, x, y, '\n'), x, y) == rows,
{
    let split = spec_insert(rows, x, y, '\n');
    assert(split == rows.update(y, rows[y].take(x)).insert(y + 1, rows[y].skip(x)));
    assert(split[y] =~= rows[y].take(x));
    assert(split[y].len() == x);
    assert(split[y + 1] =~= rows[y].skip(x));
    let merged = spec_delete(split, x, y);
    assert(merged == split.update(y, split[y] + split[y + 1]).remove(y + 1));
    assert(split[y] + split[y + 1] =~= rows[y]);
    assert(merged =~~= rows);
}

/// Inserting an ordinary character and then deleting at the same position
/// leaves the rows exactly as they were. (Dirtiness, again, is sticky.)
pub proof fn lemma_insert_then_delete_is_identity(rows: Seq<Seq<char>>, x: int, y: int, c: char)
    requires
        0 <= y < rows.len(),
        0 <= x <= rows[y].len(),
        c != '\n',
    ensures
        spec_delete(spec_insert(rows, x, y, c), x, y) == rows,
{
    let inserted = spec_insert(rows, x, y, c);
    assert(inserted == rows.update(y, rows[y].insert(x, c)));
    assert(inserted[y] =~= rows[y].insert(x, c));
    assert(inserted[y].len() == rows[y].len() + 1);
    assert(x < inserted[y].len());
    let deleted = spec_delete(inserted, x, y);
    assert(deleted == inserted.update(y, inserted[y].remove(x)));
    assert(inserted[y].remove(x) =~= rows[y]);
    assert(deleted =~~= rows);
}

} // verus!
