//! Keystroke interpretation: the interactive editing state machine.
//!
//! The editor owns one [`Document`] and a cursor, and turns keystrokes into
//! edit operations on the buffer and into the two terminal commands, save
//! and exit, which it emits as messages for the persistence worker. It moves
//! between three states: clean (no unsaved edits), dirty (edits since the
//! last save) and closing (exit requested). Any successful edit moves clean
//! to dirty; a save command emits the full buffer text and clears the dirty
//! flag; a quit command emits an exit message and ends the session.

use vstd::prelude::*;
use crate::document::Document;
use crate::document::Position;
use crate::row::clamp;
use crate::document::spec_delete;
use crate::document::spec_insert;
use crate::document::spec_text;

verus! {

/// The two commands the persistence worker understands.
#[derive(Clone, Copy, PartialEq, Eq, Structural, Debug)]
pub enum EditorEvent {
    /// Persist the text carried by the message.
    Save,
    /// End the session; nothing more will arrive.
    Exit,
}

/// One message from the editor to the persistence worker. On save the full
/// current buffer text travels with it (never a diff): the worker keeps no
/// buffer state of its own.
pub struct EditorMessage {
    /// What the worker should do.
    pub event: EditorEvent,
    /// The full buffer text for a save; empty for an exit.
    pub message: String,
}

/// A keystroke, as the editor understands it.
#[derive(Clone, Copy, PartialEq, Eq, Structural, Debug)]
pub enum EditorKey {
    /// An ordinary character, or a line break.
    Char(char),
    /// Delete the character before the cursor; at the start of a row, join
    /// the row onto the one above.
    Backspace,
    /// Move the cursor one row up.
    Up,
    /// Move the cursor one row down.
    Down,
    /// Move the cursor one column left.
    Left,
    /// Move the cursor one column right.
    Right,
    /// Emit the buffer for persistence.
    Save,
    /// Request the end of the session.
    Quit,
}

/// The editor's place in its session.
#[derive(Clone, Copy, PartialEq, Eq, Structural, Debug)]
pub enum EditorState {
    /// No unsaved edits.
    Clean,
    /// Edits since the last save.
    Dirty,
    /// Exit was requested; the session is over.
    Closing,
}

/// The interactive editor: a buffer, a cursor, and the closing flag.
pub struct Editor {
    document: Document,
    cursor: Position,
    closing: bool,
}

impl Editor {
    /// The rows of the edited buffer.
    pub closed spec fn rows(&self) -> Seq<Seq<char>> {
        self.document.rows_view()
    }

    /// The cursor.
    pub closed spec fn spec_cursor(&self) -> Position {
        self.cursor
    }

    /// True when the buffer holds unsaved edits.
    pub closed spec fn buffer_dirty(&self) -> bool {
        self.document.spec_dirty()
    }

    /// The editor's state: closing once quit was pressed, otherwise dirty
    /// exactly when the buffer holds unsaved edits.
    pub open spec fn state(&self) -> EditorState {
        if self.closing_requested() {
            EditorState::Closing
        } else if self.buffer_dirty() {
            EditorState::Dirty
        } else {
            EditorState::Clean
        }
    }

    /// The cursor stays inside the buffer: its row is at most the row count,
    /// its column at most the length of its row (and zero one past the last
    /// row).
    pub open spec fn wf(&self) -> bool {
        &&& self.spec_cursor().y <= self.rows().len()
        &&& self.spec_cursor().y < self.rows().len() ==> self.spec_cursor().x <= self.rows()[
            self.spec_cursor().y as int
        ].len()
        &&& self.spec_cursor().y == self.rows().len() ==> self.spec_cursor().x == 0
    }

    /// An editor over `document`, with the cursor at the origin, not
    /// closing.
    pub fn new(document: Document) -> (e: Editor)
        ensures
            e.wf(),
            e.rows() == document.rows_view(),
            e.spec_cursor() == (Position { x: 0, y: 0 }),
            !e.closing_requested(),
            e.state() == (if document.spec_dirty() {
                EditorState::Dirty
            } else {
                EditorState::Clean
            }),
    {
        Editor { document, cursor: Position { x: 0, y: 0 }, closing: false }
    }

    /// True once quit was pressed.
    pub closed spec fn closing_requested(&self) -> bool {
        self.closing
    }

    /// True once quit was pressed.
    pub fn is_closing(&self) -> (b: bool)
        ensures
            b == self.closing_requested(),
    {
        self.closing
    }

    /// The edited buffer.
    pub fn document(&self) -> (d: &Document)
        ensures
            d.rows_view() == self.rows(),
            d.spec_dirty() == self.buffer_dirty(),
    {
        &self.document
    }

    /// Interprets one keystroke.
    ///
    /// Character and backspace keys edit the buffer exactly as
    /// [`spec_insert`] and [`spec_delete`] describe at the cursor, and move
    /// the cursor with the edit; arrow keys only move the cursor; save emits
    /// a message carrying the full serialised buffer and clears the dirty
    /// flag; quit emits the exit message and closes the session. Only save
    /// and quit produce a message.
    pub fn process_keypress(&mut self, key: EditorKey) -> (r: Option<EditorMessage>)
        requires
            old(self).wf(),
            !old(self).closing_requested(),
        ensures
            final(self).wf(),
            match key {
                EditorKey::Char(c) => {
                    &&& r is None
                    &&& final(self).rows() == spec_insert(
                        old(self).rows(),
                        old(self).spec_cursor().x as int,
                        old(self).spec_cursor().y as int,
                        c,
                    )
                    &&& final(self).state() == EditorState::Dirty
                    &&& if c == '\n' {
                        final(self).spec_cursor().x == 0 && final(self).spec_cursor().y == old(self).spec_cursor().y + 1
                    } else {
                        final(self).spec_cursor().x == old(self).spec_cursor().x + 1 && final(self).spec_cursor().y == old(self).spec_cursor().y
                    }
                },
                EditorKey::Backspace => {
                    &&& r is None
                    &&& if old(self).spec_cursor().x > 0 {
                        final(self).rows() == spec_delete(
                            old(self).rows(),
                            old(self).spec_cursor().x - 1,
                            old(self).spec_cursor().y as int,
                        ) && final(self).state() == EditorState::Dirty && final(self).spec_cursor().x == old(self).spec_cursor().x - 1 && final(self).spec_cursor().y == old(self).spec_cursor().y
                    } else if old(self).spec_cursor().y > 0 {
                        final(self).rows() == spec_delete(
                            old(self).rows(),
                            old(self).rows()[old(self).spec_cursor().y - 1].len() as int,
                            old(self).spec_cursor().y - 1,
                        ) && final(self).state() == EditorState::Dirty && final(self).spec_cursor().x == old(self).rows()[old(self).spec_cursor().y
                            - 1].len() && final(self).spec_cursor().y == old(self).spec_cursor().y - 1
                    } else {
                        final(self).rows() == old(self).rows() && final(self).state() == old(self).state() && final(self).spec_cursor() == old(self).spec_cursor()
                    }
                },
                EditorKey::Save => {
                    &&& r matches Some(m) && m.event == EditorEvent::Save && m.message@
                        == spec_text(old(self).rows())
                    &&& final(self).rows() == old(self).rows()
                    &&& final(self).state() == EditorState::Clean
                    &&& final(self).spec_cursor() == old(self).spec_cursor()
                },
                EditorKey::Quit => {
                    &&& r matches Some(m) && m.event == EditorEvent::Exit && m.message@
                        == Seq::<char>::empty()
                    &&& final(self).rows() == old(self).rows()
                    &&& final(self).state() == EditorState::Closing
                    &&& final(self).spec_cursor() == old(self).spec_cursor()
                },
                EditorKey::Left => {
                    &&& r is None
                    &&& final(self).rows() == old(self).rows()
                    &&& final(self).state() == old(self).state()
                    &&& final(self).spec_cursor().y == old(self).spec_cursor().y
                    &&& final(self).spec_cursor().x == if old(self).spec_cursor().x > 0 {
                        old(self).spec_cursor().x - 1
                    } else {
                        0int
                    }
                },
                EditorKey::Right => {
                    &&& r is None
                    &&& final(self).rows() == old(self).rows()
                    &&& final(self).state() == old(self).state()
                    &&& final(self).spec_cursor().y == old(self).spec_cursor().y
                    &&& final(self).spec_cursor().x == if old(self).spec_cursor().y < old(self).rows().len() && old(self).spec_cursor().x < old(self).rows()[old(self).spec_cursor().y as int].len() {
                        old(self).spec_cursor().x + 1
                    } else {
                        old(self).spec_cursor().x as int
                    }
                },
                EditorKey::Up => {
                    &&& r is None
                    &&& final(self).rows() == old(self).rows()
                    &&& final(self).state() == old(self).state()
                    &&& if old(self).spec_cursor().y > 0 {
                        final(self).spec_cursor().y == old(self).spec_cursor().y - 1 && final(self).spec_cursor().x == clamp(
                            old(self).spec_cursor().x as int,
                            old(self).rows()[old(self).spec_cursor().y - 1].len() as int,
                        )
                    } else {
                        final(self).spec_cursor() == old(self).spec_cursor()
                    }
                },
                EditorKey::Down => {
                    &&& r is None
                    &&& final(self).rows() == old(self).rows()
                    &&& final(self).state() == old(self).state()
                    &&& if old(self).spec_cursor().y < old(self).rows().len() {
                        final(self).spec_cursor().y == old(self).spec_cursor().y + 1 && (old(self).spec_cursor().y + 1 == old(self).rows().len() ==> final(self).spec_cursor().x == 0) && (old(self).spec_cursor().y + 1 < old(self).rows().len() ==> final(self).spec_cursor().x == clamp(
                            old(self).spec_cursor().x as int,
                            old(self).rows()[old(self).spec_cursor().y + 1].len() as int,
                        ))
                    } else {
                        final(self).spec_cursor() == old(self).spec_cursor()
                    }
                },
            },
    {
        match key {
            EditorKey::Char(c) => {
                let at = self.cursor;
                self.document.insert(&at, c);
                if c == '\n' {
                    let new_len = self.document.len();
                    let ny = if at.y < new_len {
                        at.y + 1
                    } else {
                        new_len
                    };
                    self.cursor = Position { x: 0, y: ny };
                } else {
                    let row_len = match self.document.row(at.y) {
                        Some(row) => row.len(),
                        None => 0,
                    };
                    let nx = if at.x < row_len {
                        at.x + 1
                    } else {
                        row_len
                    };
                    self.cursor = Position { x: nx, y: at.y };
                }
                self.clamp_cursor();
                None
            },
            EditorKey::Backspace => {
                let at = self.cursor;
                if at.x > 0 {
                    let target = Position { x: at.x - 1, y: at.y };
                    self.document.delete(&target);
                    self.cursor = target;
                    self.clamp_cursor();
                } else if at.y > 0 {
                    let prev_len = match self.document.row(at.y - 1) {
                        Some(row) => row.len(),
                        None => 0,
                    };
                    let target = Position { x: prev_len, y: at.y - 1 };
                    self.document.delete(&target);
                    self.cursor = target;
                    self.clamp_cursor();
                }
                None
            },
            EditorKey::Up => {
                if self.cursor.y > 0 {
                    self.cursor = Position { x: self.cursor.x, y: self.cursor.y - 1 };
                }
                self.clamp_cursor();
                None
            },
            EditorKey::Down => {
                if self.cursor.y < self.document.len() {
                    self.cursor = Position { x: self.cursor.x, y: self.cursor.y + 1 };
                }
                self.clamp_cursor();
                None
            },

            EditorKey::Left => {
                if self.cursor.x > 0 {
                    self.cursor = Position { x: self.cursor.x - 1, y: self.cursor.y };
                }
                None
            },
            EditorKey::Right => {
                let row_len = match self.document.row(self.cursor.y) {
                    Some(row) => row.len(),
                    None => 0,
                };
                if self.cursor.x < row_len {
                    self.cursor = Position { x: self.cursor.x + 1, y: self.cursor.y };
                }
                None
            },
            EditorKey::Save => {
                let message = self.document.to_string();
                self.document.save();
                Some(EditorMessage { event: EditorEvent::Save, message })
            },
            EditorKey::Quit => {
                self.closing = true;
                Some(EditorMessage { event: EditorEvent::Exit, message: String::new() })
            },
        }
    }

    /// Pulls the cursor back inside the buffer.
    fn clamp_cursor(&mut self)
        ensures
            final(self).wf(),
            final(self).rows() == old(self).rows(),
            final(self).state() == old(self).state(),
            final(self).closing_requested() == old(self).closing_requested(),
            old(self).spec_cursor().y >= old(self).rows().len() ==> final(self).spec_cursor().y
                == old(self).rows().len() && final(self).spec_cursor().x == 0,
            old(self).spec_cursor().y < old(self).rows().len() ==> final(self).spec_cursor().y
                == old(self).spec_cursor().y && final(self).spec_cursor().x == clamp(
                old(self).spec_cursor().x as int,
                old(self).rows()[old(self).spec_cursor().y as int].len() as int,
            ),
    {
        let rows = self.document.len();
        if self.cursor.y > rows {
            self.cursor = Position { x: 0, y: rows };
        }
        if self.cursor.y == rows {
            self.cursor = Position { x: 0, y: rows };
        } else {
            let row_len = match self.document.row(self.cursor.y) {
                Some(row) => row.len(),
                None => 0,
            };
            if self.cursor.x > row_len {
                self.cursor = Position { x: row_len, y: self.cursor.y };
            }
        }
    }
}

} // verus!
