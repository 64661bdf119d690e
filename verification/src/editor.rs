//! The editing session: a document with its classification, a cursor and a
//! scroll position, and what keys and scrolling do to them.
//!
//! The session keeps three things true: the document has a line, the cursor
//! is a valid position in it, and the classification is that of the document
//! as it is.

use crate::buffer::above;
use crate::buffer::backspaced;
use crate::buffer::below;
use crate::buffer::clamp;
use crate::buffer::deleted;
use crate::buffer::is_valid;
use crate::buffer::left_of;
use crate::buffer::newline_inserted;
use crate::buffer::right_of;
use crate::buffer::text_inserted;
use crate::buffer::Document;
use crate::model::Cursor;
use crate::model::ParsedLine;
use crate::model::Place;
use crate::model::Position;
use crate::parser::is_parse_of;
use crate::parser::parse_document;
use crate::processed::least;
use crate::processed::minus;
use vstd::prelude::*;

verus! {

/// A movement of the cursor.
#[derive(Clone, Copy, Debug, PartialEq, Eq, Structural)]
pub enum Motion {
    Left,
    Right,
    Up,
    Down,
    Home,
    End,
    PageUp,
    PageDown,
}

/// What a session is to the contracts.
pub struct EditorView {
    pub lines: Seq<Seq<char>>,
    pub cursor: Place,
    pub preferred_column: int,
    pub top_line: int,
}

/// Whether `c` is a character that typing may insert: not an ASCII control
/// character and not from a private use area.
pub open spec fn is_printable(c: char) -> bool {
    let code = c as u32;
    let private_use = 0xE000 <= code <= 0xF8FF || 0xF0000 <= code <= 0xFFFFD || 0x100000 <= code
        <= 0x10FFFD;
    let control = code <= 0x1F || code == 0x7F;
    !private_use && !control
}

/// The state with the cursor put at the nearest valid position to `position`;
/// the preferred column follows only where asked.
pub open spec fn with_cursor(state: EditorView, position: Place, update_preferred: bool) -> EditorView {
    let p = clamp(state.lines, position);
    EditorView {
        cursor: p,
        preferred_column: if update_preferred {
            p.column
        } else {
            state.preferred_column
        },
        ..state
    }
}

/// The largest top line that still fills the screen: the number of lines less
/// the number of visible lines, the latter counted as one at least.
pub open spec fn max_top(line_count: int, visible_lines: int) -> int {
    minus(
        line_count,
        if visible_lines < 1 {
            1
        } else {
            visible_lines
        },
    )
}

/// The state with the top line held at the largest that still fills the
/// screen.
pub open spec fn with_scroll_clamped(state: EditorView, visible_lines: int) -> EditorView {
    EditorView {
        top_line: least(state.top_line, max_top(state.lines.len() as int, visible_lines)),
        ..state
    }
}

/// The state scrolled by `delta` lines, the top line held between zero and
/// the largest that still fills the screen.
pub open spec fn scrolled_by(state: EditorView, delta: int, visible_lines: int) -> EditorView {
    let wanted = state.top_line + delta;
    EditorView {
        top_line: if wanted < 0 {
            0
        } else {
            least(wanted, max_top(state.lines.len() as int, visible_lines))
        },
        ..state
    }
}

/// The state scrolled so far that the line of the cursor is on screen: up to
/// the cursor's line where that lies above, down until it is the last visible
/// line where it lies below.
pub open spec fn with_cursor_visible(state: EditorView, visible_lines: int) -> EditorView {
    let line = state.cursor.line;
    let top = state.top_line;
    let moved = if line < top {
        line
    } else if line >= top + visible_lines {
        minus(line, minus(visible_lines, 1))
    } else {
        top
    };
    with_scroll_clamped(EditorView { top_line: moved, ..state }, visible_lines)
}

/// The state with the cursor brought onto the screen: its line held between
/// the top line and the last visible line, its column the preferred one where
/// the line changes. In an empty document the cursor goes to the origin.
pub open spec fn with_cursor_in_view(state: EditorView, visible_lines: int) -> EditorView {
    if state.lines.len() == 1 && state.lines[0].len() == 0 {
        with_cursor(state, Place { line: 0, column: 0 }, true)
    } else {
        let first = state.top_line;
        let last = least(state.top_line + minus(visible_lines, 1), state.lines.len() - 1);
        let line = if state.cursor.line < first {
            first
        } else if state.cursor.line > last {
            last
        } else {
            state.cursor.line
        };
        if line != state.cursor.line {
            with_cursor(
                state,
                Place { line, column: least(state.preferred_column, state.lines[line].len() as int) },
                false,
            )
        } else {
            state
        }
    }
}

/// The number of lines that a page key moves by: one less than are visible,
/// but one at least.
pub open spec fn page_step(visible_lines: int) -> int {
    if minus(visible_lines, 1) < 1 {
        1
    } else {
        minus(visible_lines, 1)
    }
}

/// The state after a movement of the cursor. Horizontal movements and the
/// line ends set the preferred column; vertical movements keep it and go to
/// it where the line is long enough.
pub open spec fn navigated(state: EditorView, motion: Motion, visible_lines: int) -> EditorView {
    let lines = state.lines;
    let at = state.cursor;
    match motion {
        Motion::Left => with_cursor(state, left_of(lines, at), true),
        Motion::Right => with_cursor(state, right_of(lines, at), true),
        Motion::Up => with_cursor(state, above(lines, at, state.preferred_column), false),
        Motion::Down => with_cursor(state, below(lines, at, state.preferred_column), false),
        Motion::Home => with_cursor(state, Place { line: at.line, column: 0 }, true),
        Motion::End => with_cursor(
            state,
            Place { line: at.line, column: lines[at.line].len() as int },
            true,
        ),
        Motion::PageUp => {
            let line = minus(at.line, page_step(visible_lines));
            with_cursor(
                state,
                Place { line, column: least(state.preferred_column, lines[line].len() as int) },
                false,
            )
        },
        Motion::PageDown => {
            let line = least(at.line + page_step(visible_lines), lines.len() - 1);
            with_cursor(
                state,
                Place { line, column: least(state.preferred_column, lines[line].len() as int) },
                false,
            )
        },
    }
}

/// The state after the enter key: the line is broken at the cursor.
pub open spec fn entered(state: EditorView) -> EditorView {
    let edit = newline_inserted(state.lines, state.cursor);
    with_cursor(EditorView { lines: edit.0, ..state }, edit.1, true)
}

/// The state after the backspace key.
pub open spec fn backspace_pressed(state: EditorView) -> EditorView {
    let edit = backspaced(state.lines, state.cursor);
    with_cursor(EditorView { lines: edit.0, ..state }, edit.1, true)
}

/// The state after the delete key; the preferred column stays.
pub open spec fn delete_pressed(state: EditorView) -> EditorView {
    let edit = deleted(state.lines, state.cursor);
    with_cursor(EditorView { lines: edit.0, ..state }, edit.1, false)
}

/// Whether typing accepts a text: all its characters are printable.
pub open spec fn is_typeable(text: Seq<char>) -> bool {
    forall|i: int| 0 <= i < text.len() ==> is_printable(#[trigger] text[i])
}

/// The state after a text is typed: inserted at the cursor where typing
/// accepts it, and nothing else.
pub open spec fn typed(state: EditorView, text: Seq<char>) -> EditorView {
    if is_typeable(text) {
        let edit = text_inserted(state.lines, state.cursor, text);
        with_cursor(EditorView { lines: edit.0, ..state }, edit.1, true)
    } else {
        state
    }
}

/// Whether `c` is a character that typing may insert.
pub fn is_printable_char(c: char) -> (yes: bool)
    ensures
        yes == is_printable(c),
{
    let code: u32 = c as u32;
    let private_use = (0xE000 <= code && code <= 0xF8FF) || (0xF0000 <= code && code <= 0xFFFFD)
        || (0x100000 <= code && code <= 0x10FFFD);
    let control = code <= 0x1F || code == 0x7F;
    !private_use && !control
}

/// Whether typing accepts a text.
pub fn is_typeable_text(text: &str) -> (yes: bool)
    ensures
        yes == is_typeable(text@),
{
    for ch in it: text.chars()
        invariant
            it.seq() == text@,
            forall|i: int| 0 <= i < it.index() ==> is_printable(#[trigger] text@[i]),
    {
        if !is_printable_char(ch) {
            return false;
        }
    }
    true
}

/// An editing session.
#[derive(Debug)]
pub struct Editor {
    document: Document,
    parsed: Vec<ParsedLine>,
    cursor: Cursor,
    top_line: usize,
}

impl View for Editor {
    type V = EditorView;

    closed spec fn view(&self) -> EditorView {
        EditorView {
            lines: self.document@,
            cursor: self.cursor.position@,
            preferred_column: self.cursor.preferred_column as int,
            top_line: self.top_line as int,
        }
    }
}

impl Editor {
    /// The classification that the session holds.
    pub closed spec fn classification(&self) -> Seq<ParsedLine> {
        self.parsed@
    }

    /// The document has a line, the cursor is a valid position in it, and the
    /// classification is that of the document.
    pub open spec fn well_formed(&self) -> bool {
        &&& self@.lines.len() >= 1
        &&& is_valid(self@.lines, self@.cursor)
        &&& self@.preferred_column >= 0
        &&& self@.top_line >= 0
        &&& is_parse_of(self.classification(), self@.lines)
    }

    /// A session on `document`, with the cursor at the origin and the first
    /// line on top.
    pub fn new(document: Document) -> (editor: Self)
        requires
            document.well_formed(),
        ensures
            editor.well_formed(),
            editor@ == (EditorView {
                lines: document@,
                cursor: Place { line: 0, column: 0 },
                preferred_column: 0,
                top_line: 0,
            }),
    {
        let parsed = parse_document(&document);
        Editor { document, parsed, cursor: Cursor::default(), top_line: 0 }
    }

    /// Puts another document in place of the one at hand, with the cursor at
    /// the origin and the first line on top.
    pub fn replace_document(&mut self, document: Document)
        requires
            document.well_formed(),
        ensures
            final(self).well_formed(),
            final(self)@ == (EditorView {
                lines: document@,
                cursor: Place { line: 0, column: 0 },
                preferred_column: 0,
                top_line: 0,
            }),
    {
        self.parsed = parse_document(&document);
        self.document = document;
        self.cursor = Cursor::default();
        self.top_line = 0;
    }

    /// The document.
    pub fn document(&self) -> (document: &Document)
        ensures
            document@ == self@.lines,
    {
        &self.document
    }

    /// The classified lines.
    pub fn parsed(&self) -> (parsed: &[ParsedLine])
        ensures
            parsed@ == self.classification(),
    {
        self.parsed.as_slice()
    }

    /// The cursor.
    pub fn cursor(&self) -> (cursor: Cursor)
        ensures
            cursor.position@ == self@.cursor,
            cursor.preferred_column == self@.preferred_column,
    {
        self.cursor
    }

    /// The line on top of the screen.
    pub fn top_line(&self) -> (top_line: usize)
        ensures
            top_line == self@.top_line,
    {
        self.top_line
    }

    /// Classifies the document anew.
    fn reparse(&mut self)
        ensures
            final(self)@ == old(self)@,
            is_parse_of(final(self).classification(), final(self)@.lines),
    {
        self.parsed = parse_document(&self.document);
    }

    /// Puts the cursor at the nearest valid position to `position`. The
    /// preferred column follows only where `update_preferred` is set.
    pub fn set_cursor(&mut self, position: Position, update_preferred: bool)
        requires
            old(self).well_formed(),
        ensures
            final(self).well_formed(),
            final(self)@ == with_cursor(old(self)@, position@, update_preferred),
            final(self).classification() == old(self).classification(),
    {
        self.place_cursor(position, update_preferred);
    }

    /// Puts the cursor at the nearest valid position to `position`, whatever
    /// the cursor was before.
    fn place_cursor(&mut self, position: Position, update_preferred: bool)
        requires
            old(self)@.lines.len() >= 1,
        ensures
            final(self)@ == with_cursor(old(self)@, position@, update_preferred),
            final(self).classification() == old(self).classification(),
            is_valid(final(self)@.lines, final(self)@.cursor),
            final(self)@.preferred_column >= 0,
            final(self)@.top_line >= 0,
    {
        let clamped = self.document.clamp_position(position);
        if update_preferred {
            self.cursor.set_position(clamped);
        } else {
            self.cursor.position = clamped;
        }
    }

    /// The largest top line that still fills a screen of `visible_lines`
    /// lines.
    pub fn max_top_line(&self, visible_lines: usize) -> (top: usize)
        ensures
            top == max_top(self@.lines.len() as int, visible_lines as int),
    {
        let visible = if visible_lines < 1 {
            1
        } else {
            visible_lines
        };
        self.document.line_count().saturating_sub(visible)
    }

    /// Holds the top line at the largest that still fills the screen.
    pub fn clamp_scroll(&mut self, visible_lines: usize)
        ensures
            final(self)@ == with_scroll_clamped(old(self)@, visible_lines as int),
            final(self).classification() == old(self).classification(),
    {
        let max_top = self.max_top_line(visible_lines);
        if self.top_line > max_top {
            self.top_line = max_top;
        }
    }

    /// Scrolls by `line_delta` lines, down for a positive number and up for a
    /// negative one, as far as the document reaches.
    pub fn scroll_by(&mut self, line_delta: isize, visible_lines: usize)
        ensures
            final(self)@ == scrolled_by(old(self)@, line_delta as int, visible_lines as int),
            final(self).classification() == old(self).classification(),
    {
        let max_top = self.max_top_line(visible_lines);
        let next = if line_delta >= 0 {
            self.top_line.saturating_add(line_delta as usize)
        } else {
            let up = (-(line_delta + 1)) as usize;
            self.top_line.saturating_sub(up).saturating_sub(1)
        };
        self.top_line = if next > max_top {
            max_top
        } else {
            next
        };
    }

    /// Scrolls so far that the line of the cursor is on screen.
    pub fn ensure_cursor_visible(&mut self, visible_lines: usize)
        ensures
            final(self)@ == with_cursor_visible(old(self)@, visible_lines as int),
            final(self).classification() == old(self).classification(),
    {
        let line = self.cursor.position.line;
        if line < self.top_line {
            self.top_line = line;
        } else if line - self.top_line >= visible_lines {
            self.top_line = line.saturating_sub(visible_lines.saturating_sub(1));
        }
        self.clamp_scroll(visible_lines);
    }

    /// Brings the cursor onto the screen after scrolling. Unless the document
    /// is empty, the top line must be a line of the document.
    pub fn clamp_cursor_to_visible_range(&mut self, visible_lines: usize)
        requires
            old(self).well_formed(),
            old(self)@.lines.len() == 1 && old(self)@.lines[0].len() == 0 || old(self)@.top_line
                < old(self)@.lines.len(),
        ensures
            final(self).well_formed(),
            final(self)@ == with_cursor_in_view(old(self)@, visible_lines as int),
            final(self).classification() == old(self).classification(),
    {
        if self.document.is_empty() {
            self.set_cursor(Position { line: 0, column: 0 }, true);
            return ;
        }
        let min_line = self.top_line;
        let reach = self.top_line.saturating_add(visible_lines.saturating_sub(1));
        let last_line = self.document.line_count() - 1;
        let max_line = if reach < last_line {
            reach
        } else {
            last_line
        };
        let line = self.cursor.position.line;
        let clamped_line = if line < min_line {
            min_line
        } else if line > max_line {
            max_line
        } else {
            line
        };
        if clamped_line != line {
            let width = self.document.line_len_chars(clamped_line);
            let column = if self.cursor.preferred_column < width {
                self.cursor.preferred_column
            } else {
                width
            };
            self.set_cursor(Position { line: clamped_line, column }, false);
        }
    }

    /// Moves the cursor.
    pub fn navigate(&mut self, motion: Motion, visible_lines: usize)
        requires
            old(self).well_formed(),
        ensures
            final(self).well_formed(),
            final(self)@ == navigated(old(self)@, motion, visible_lines as int),
            final(self).classification() == old(self).classification(),
    {
        let at = self.cursor.position;
        let preferred = self.cursor.preferred_column;
        let reduced = visible_lines.saturating_sub(1);
        let step = if reduced < 1 {
            1
        } else {
            reduced
        };
        match motion {
            Motion::Left => {
                let next = self.document.move_left(at);
                self.set_cursor(next, true);
            },
            Motion::Right => {
                let next = self.document.move_right(at);
                self.set_cursor(next, true);
            },
            Motion::Up => {
                let next = self.document.move_up(at, preferred);
                self.set_cursor(next, false);
            },
            Motion::Down => {
                let next = self.document.move_down(at, preferred);
                self.set_cursor(next, false);
            },
            Motion::Home => {
                self.set_cursor(Position { line: at.line, column: 0 }, true);
            },
            Motion::End => {
                let column = self.document.line_len_chars(at.line);
                self.set_cursor(Position { line: at.line, column }, true);
            },
            Motion::PageUp => {
                let line = at.line.saturating_sub(step);
                let width = self.document.line_len_chars(line);
                let column = if preferred < width {
                    preferred
                } else {
                    width
                };
                self.set_cursor(Position { line, column }, false);
            },
            Motion::PageDown => {
                let last_line = self.document.line_count() - 1;
                let reach = at.line.saturating_add(step);
                let line = if reach < last_line {
                    reach
                } else {
                    last_line
                };
                let width = self.document.line_len_chars(line);
                let column = if preferred < width {
                    preferred
                } else {
                    width
                };
                self.set_cursor(Position { line, column }, false);
            },
        }
    }

    /// The enter key: breaks the line at the cursor.
    pub fn press_enter(&mut self)
        requires
            old(self).well_formed(),
        ensures
            final(self).well_formed(),
            final(self)@ == entered(old(self)@),
    {
        let next = self.document.insert_newline(self.cursor.position);
        self.reparse();
        self.place_cursor(next, true);
    }

    /// The backspace key.
    pub fn press_backspace(&mut self)
        requires
            old(self).well_formed(),
        ensures
            final(self).well_formed(),
            final(self)@ == backspace_pressed(old(self)@),
    {
        let next = self.document.backspace(self.cursor.position);
        self.reparse();
        self.place_cursor(next, true);
    }

    /// The delete key.
    pub fn press_delete(&mut self)
        requires
            old(self).well_formed(),
        ensures
            final(self).well_formed(),
            final(self)@ == delete_pressed(old(self)@),
    {
        let next = self.document.delete(self.cursor.position);
        self.reparse();
        self.place_cursor(next, false);
    }

    /// Types a text at the cursor, if all its characters are printable; says
    /// whether it did.
    pub fn type_text(&mut self, text: &str) -> (accepted: bool)
        requires
            old(self).well_formed(),
        ensures
            final(self).well_formed(),
            accepted == is_typeable(text@),
            final(self)@ == typed(old(self)@, text@),
    {
        if !is_typeable_text(text) {
            return false;
        }
        let next = self.document.insert_text(self.cursor.position, text);
        self.reparse();
        self.place_cursor(next, true);
        true
    }

    /// The line of the document that stands `line_offset` lines below the top
    /// of the screen, or the last line where the document ends before.
    pub fn plain_line_at(&self, line_offset: usize) -> (line: usize)
        requires
            self.well_formed(),
        ensures
            line == least(self@.top_line + line_offset, self@.lines.len() - 1),
    {
        let reach = self.top_line.saturating_add(line_offset);
        let last_line = self.document.line_count() - 1;
        if reach < last_line {
            reach
        } else {
            last_line
        }
    }

    /// The lines of the document that are on screen: from the top line on, as
    /// many as are visible and the document has.
    pub fn visible_plain_lines(&self, visible_lines: usize) -> (lines: Vec<String>)
        ensures
            ({
                let end = least(self@.top_line + visible_lines, self@.lines.len() as int);
                let start = least(self@.top_line, end);
                lines.deep_view() == self@.lines.subrange(start, end)
            }),
    {
        let all = self.document.lines();
        let reach = self.top_line.saturating_add(visible_lines);
        let end = if reach < all.len() {
            reach
        } else {
            all.len()
        };
        let start = if self.top_line < end {
            self.top_line
        } else {
            end
        };
        let mut lines: Vec<String> = Vec::new();
        proof {
            assert(lines.deep_view() =~= self@.lines.subrange(start as int, start as int));
        }
        for i in start..end
            invariant
                start <= end <= all@.len(),
                all@.len() == self@.lines.len(),
                forall|k: int| 0 <= k < all@.len() ==> (#[trigger] all@[k])@ == self@.lines[k],
                lines.deep_view() == self@.lines.subrange(start as int, i as int),
        {
            let ghost shown = lines.deep_view();
            lines.push(all[i].clone());
            proof {
                assert(lines.deep_view() =~= shown.push(self@.lines[i as int]));
                assert(self@.lines.subrange(start as int, i + 1) =~= self@.lines.subrange(
                    start as int,
                    i as int,
                ).push(self@.lines[i as int]));
            }
        }
        lines
    }
}

} // verus!
