//! The document: an ordered, never-empty sequence of lines, addressed by
//! character and edited relative to a cursor.
//!
//! Every operation that takes a position clamps it first, so no position is
//! ever out of range inside the buffer, and every position that leaves it is a
//! valid address into the document as it then is.

use crate::model::Place;
use crate::model::Position;
use crate::scan::lemma_pieces_nonempty;
use crate::scan::pieces_between;
use crate::scan::split_on;
use crate::scan::trim_end_matches;
use crate::scan::without_trailing;
use crate::text::char_count;
use crate::text::insert_char_at;
use crate::text::remove_char_at;
use crate::text::split_off_at;
use vstd::prelude::*;

verus! {

/// Whether `at` addresses a character of `lines`, or the end of one of its
/// lines.
pub open spec fn is_valid(lines: Seq<Seq<char>>, at: Place) -> bool {
    &&& 0 <= at.line < lines.len()
    &&& 0 <= at.column <= lines[at.line].len()
}

/// The nearest valid position: the line held at the last line, then the column
/// held at the length of that line.
pub open spec fn clamp(lines: Seq<Seq<char>>, at: Place) -> Place {
    let line = if at.line < lines.len() {
        at.line
    } else {
        lines.len() - 1
    };
    let width = lines[line].len() as int;
    Place {
        line,
        column: if at.column < width {
            at.column
        } else {
            width
        },
    }
}

/// One character to the left, passing to the end of the previous line from
/// column zero; the start of the document stays where it is.
pub open spec fn left_of(lines: Seq<Seq<char>>, at: Place) -> Place {
    let p = clamp(lines, at);
    if p.column > 0 {
        Place { line: p.line, column: p.column - 1 }
    } else if p.line == 0 {
        p
    } else {
        Place { line: p.line - 1, column: lines[p.line - 1].len() as int }
    }
}

/// One character to the right, passing to the start of the next line from the
/// end of a line; the end of the document stays where it is.
pub open spec fn right_of(lines: Seq<Seq<char>>, at: Place) -> Place {
    let p = clamp(lines, at);
    if p.column < lines[p.line].len() {
        Place { line: p.line, column: p.column + 1 }
    } else if p.line + 1 < lines.len() {
        Place { line: p.line + 1, column: 0 }
    } else {
        p
    }
}

/// The preferred column on `line`, held at the length of that line.
pub open spec fn column_on(lines: Seq<Seq<char>>, line: int, preferred: int) -> Place {
    let width = lines[line].len() as int;
    Place {
        line,
        column: if preferred < width {
            preferred
        } else {
            width
        },
    }
}

/// One line up at the preferred column; the first line stays where it is.
pub open spec fn above(lines: Seq<Seq<char>>, at: Place, preferred: int) -> Place {
    let p = clamp(lines, at);
    if p.line == 0 {
        p
    } else {
        column_on(lines, p.line - 1, preferred)
    }
}

/// One line down at the preferred column; the last line stays where it is.
pub open spec fn below(lines: Seq<Seq<char>>, at: Place, preferred: int) -> Place {
    let p = clamp(lines, at);
    if p.line + 1 >= lines.len() {
        p
    } else {
        column_on(lines, p.line + 1, preferred)
    }
}

/// The document and cursor after `ch` is typed at `at`.
pub open spec fn char_inserted(lines: Seq<Seq<char>>, at: Place, ch: char) -> (
    Seq<Seq<char>>,
    Place,
) {
    let p = clamp(lines, at);
    (
        lines.update(p.line, lines[p.line].insert(p.column, ch)),
        Place { line: p.line, column: p.column + 1 },
    )
}

/// The document and cursor after the line is broken at `at`.
pub open spec fn newline_inserted(lines: Seq<Seq<char>>, at: Place) -> (Seq<Seq<char>>, Place) {
    let p = clamp(lines, at);
    (
        lines.update(p.line, lines[p.line].take(p.column)).insert(
            p.line + 1,
            lines[p.line].skip(p.column),
        ),
        Place { line: p.line + 1, column: 0 },
    )
}

/// The document and cursor after the character before `at` is removed, or,
/// from column zero, after the line is joined to the end of the one before it.
pub open spec fn backspaced(lines: Seq<Seq<char>>, at: Place) -> (Seq<Seq<char>>, Place) {
    let p = clamp(lines, at);
    if p.column > 0 {
        (
            lines.update(p.line, lines[p.line].remove(p.column - 1)),
            Place { line: p.line, column: p.column - 1 },
        )
    } else if p.line == 0 {
        (lines, p)
    } else {
        (
            lines.update(p.line - 1, lines[p.line - 1] + lines[p.line]).remove(p.line),
            Place { line: p.line - 1, column: lines[p.line - 1].len() as int },
        )
    }
}

/// The document and cursor after the character at `at` is removed, or, from the
/// end of a line, after the next line is joined to it.
pub open spec fn deleted(lines: Seq<Seq<char>>, at: Place) -> (Seq<Seq<char>>, Place) {
    let p = clamp(lines, at);
    if p.column < lines[p.line].len() {
        (lines.update(p.line, lines[p.line].remove(p.column)), p)
    } else if p.line + 1 >= lines.len() {
        (lines, p)
    } else {
        (lines.update(p.line, lines[p.line] + lines[p.line + 1]).remove(p.line + 1), p)
    }
}

/// The pieces of a text between its line feeds; there is always at least one.
pub open spec fn split_lines(text: Seq<char>) -> Seq<Seq<char>> {
    pieces_between(text, '\n')
}

/// The lines that a text is loaded as: its pieces between line feeds, each
/// without the carriage returns at its end.
pub open spec fn lines_of_text(text: Seq<char>) -> Seq<Seq<char>> {
    without_carriage_returns(split_lines(text))
}

/// Each piece without the carriage returns at its end.
pub open spec fn without_carriage_returns(pieces: Seq<Seq<char>>) -> Seq<Seq<char>> {
    Seq::new(pieces.len(), |i: int| without_trailing(pieces[i], '\r'))
}

/// The lines with a line feed between each two neighbours.
pub open spec fn joined(lines: Seq<Seq<char>>) -> Seq<char>
    decreases lines.len(),
{
    if lines.len() == 0 {
        Seq::<char>::empty()
    } else if lines.len() == 1 {
        lines[0]
    } else {
        joined(lines.drop_last()) + seq!['\n'] + lines.last()
    }
}

/// The document and cursor after `text` is typed at `at`. The text is cut at
/// its line feeds; its first piece continues the line before the cursor, its
/// last piece is followed by what stood behind the cursor, and the pieces
/// between become lines of their own.
pub open spec fn text_inserted(lines: Seq<Seq<char>>, at: Place, text: Seq<char>) -> (
    Seq<Seq<char>>,
    Place,
) {
    let p = clamp(lines, at);
    let pieces = split_lines(text);
    let last = pieces.len() - 1;
    let opened = pieces.update(0, lines[p.line].take(p.column) + pieces[0]);
    let block = opened.update(last, opened[last] + lines[p.line].skip(p.column));
    (
        lines.take(p.line) + block + lines.skip(p.line + 1),
        Place { line: p.line + last, column: opened[last].len() as int },
    )
}

/// Splitting always gives at least one piece.
pub proof fn lemma_split_lines_nonempty(text: Seq<char>)
    ensures
        split_lines(text).len() >= 1,
{
    lemma_pieces_nonempty(text, '\n');
}

/// Typing nothing changes nothing and leaves the cursor at the clamped
/// position.
pub proof fn lemma_text_inserted_empty(lines: Seq<Seq<char>>, at: Place)
    requires
        lines.len() >= 1,
        at.line >= 0,
        at.column >= 0,
    ensures
        text_inserted(lines, at, Seq::<char>::empty()) == (lines, clamp(lines, at)),
{
    let p = clamp(lines, at);
    let line = lines[p.line];
    assert(line.take(p.column) + Seq::<char>::empty() =~= line.take(p.column));
    assert(line.take(p.column) + line.skip(p.column) =~= line);
    let r = text_inserted(lines, at, Seq::<char>::empty());
    assert(r.0 =~= lines);
}

/// Typing a text and then one more character is typing the text with that
/// character at its end: a line feed breaks the line, any other character is
/// inserted.
pub proof fn lemma_text_inserted_push(lines: Seq<Seq<char>>, at: Place, text: Seq<char>, ch: char)
    requires
        lines.len() >= 1,
        at.line >= 0,
        at.column >= 0,
    ensures
        is_valid(text_inserted(lines, at, text).0, text_inserted(lines, at, text).1),
        text_inserted(lines, at, text.push(ch)) == if ch == '\n' {
            newline_inserted(text_inserted(lines, at, text).0, text_inserted(lines, at, text).1)
        } else {
            char_inserted(text_inserted(lines, at, text).0, text_inserted(lines, at, text).1, ch)
        },
{
    let p = clamp(lines, at);
    let head = lines[p.line].take(p.column);
    let tail = lines[p.line].skip(p.column);
    let pieces = split_lines(text);
    lemma_split_lines_nonempty(text);
    let last = pieces.len() - 1;
    let opened = pieces.update(0, head + pieces[0]);
    let block = opened.update(last, opened[last] + tail);
    let before = text_inserted(lines, at, text);
    let here = before.1;
    assert(before.0 == lines.take(p.line) + block + lines.skip(p.line + 1));
    assert(before.0[here.line] == opened[last] + tail);
    assert(is_valid(before.0, here));
    assert(clamp(before.0, here) == here);
    assert((opened[last] + tail).take(here.column) =~= opened[last]);
    assert((opened[last] + tail).skip(here.column) =~= tail);

    let longer = text.push(ch);
    assert(longer.drop_last() =~= text);
    let pieces2 = split_lines(longer);
    let last2 = pieces2.len() - 1;
    let opened2 = pieces2.update(0, head + pieces2[0]);
    let block2 = opened2.update(last2, opened2[last2] + tail);
    let after = text_inserted(lines, at, longer);
    assert(after.0 == lines.take(p.line) + block2 + lines.skip(p.line + 1));
    if ch == '\n' {
        assert(pieces2 == pieces.push(Seq::<char>::empty()));
        assert(opened2 =~= opened.push(Seq::<char>::empty()));
        assert(Seq::<char>::empty() + tail =~= tail);
        assert(block2 =~= opened.push(tail));
        let stepped = newline_inserted(before.0, here);
        assert(stepped.0 =~= after.0);
        assert(stepped.1 == after.1);
    } else {
        assert(pieces2 =~= pieces.update(last, pieces[last].push(ch)));
        assert(opened2[last] =~= opened[last].push(ch));
        assert(opened2 =~= opened.update(last, opened[last].push(ch)));
        assert((opened[last] + tail).insert(here.column, ch) =~= opened[last].push(ch) + tail);
        assert(block2 =~= block.update(last, opened[last].push(ch) + tail));
        let stepped = char_inserted(before.0, here, ch);
        assert(stepped.0 =~= after.0);
        assert(stepped.1 == after.1);
    }
}

/// A screenplay document as a sequence of lines.
#[derive(Debug, PartialEq, Eq)]
pub struct Document {
    lines: Vec<String>,
}

impl View for Document {
    type V = Seq<Seq<char>>;

    /// The lines of the document, each as its sequence of characters.
    closed spec fn view(&self) -> Seq<Seq<char>> {
        self.lines.deep_view()
    }
}

impl Clone for Document {
    fn clone(&self) -> (copy: Self)
        ensures
            copy@ == self@,
    {
        let copy = Document { lines: self.lines.clone() };
        assert(copy@ =~= self@);
        copy
    }
}

impl Default for Document {
    fn default() -> (document: Self)
        ensures
            document.well_formed(),
            document@ == seq![Seq::<char>::empty()],
    {
        Document::new()
    }
}

impl Document {
    /// A document always has at least one line.
    pub open spec fn well_formed(&self) -> bool {
        self@.len() >= 1
    }

    /// The number of lines is a machine number.
    proof fn lemma_line_count_fits(&self)
        ensures
            self@.len() == self.lines@.len(),
            self@.len() <= usize::MAX,
    {
        assert(self.lines.len() == self.lines@.len());
    }

    /// A document of one empty line.
    pub fn new() -> (document: Self)
        ensures
            document.well_formed(),
            document@ == seq![Seq::<char>::empty()],
    {
        let mut lines: Vec<String> = Vec::new();
        lines.push(String::new());
        let document = Document { lines };
        assert(document@ =~= seq![Seq::<char>::empty()]);
        document
    }

    /// The document that a text is loaded as: one line for each piece between
    /// line feeds, without the carriage returns at the end of the piece.
    pub fn from_text(text: &str) -> (document: Self)
        ensures
            document.well_formed(),
            document@ == lines_of_text(text@),
    {
        let pieces = split_on(text, '\n');
        let mut lines: Vec<String> = Vec::new();
        proof {
            lemma_split_lines_nonempty(text@);
        }
        for i in 0..pieces.len()
            invariant
                pieces.deep_view() == split_lines(text@),
                lines@.len() == i,
                forall|k: int|
                    0 <= k < i ==> (#[trigger] lines@[k])@ == without_trailing(
                        split_lines(text@)[k],
                        '\r',
                    ),
        {
            assert(pieces.deep_view()[i as int] == pieces@[i as int]@);
            lines.push(trim_end_matches(pieces[i], '\r').to_owned());
        }
        let document = Document { lines };
        assert(document@ =~= lines_of_text(text@));
        document
    }

    /// The document as one text: its lines with a line feed between each two.
    pub fn to_text(&self) -> (text: String)
        ensures
            text@ == joined(self@),
    {
        let mut text = String::new();
        let mut i: usize = 0;
        proof {
            reveal_strlit("\n");
            assert(self@.take(0) =~= Seq::<Seq<char>>::empty());
        }
        while i < self.lines.len()
            invariant
                i <= self.lines.len(),
                text@ == joined(self@.take(i as int)),
                "\n"@.len() == 1,
                "\n"@[0] == '\n',
            decreases self.lines.len() - i,
        {
            proof {
                assert(self@.take(i + 1).drop_last() =~= self@.take(i as int));
                assert(self@.take(i + 1).last() == self@[i as int]);
                assert("\n"@ =~= seq!['\n']);
                if i == 0 {
                    assert(text@ + self@[0] =~= self@[0]);
                }
            }
            if i > 0 {
                text.append("\n");
            }
            text.append(self.lines[i].as_str());
            i = i + 1;
        }
        proof {
            assert(self@.take(i as int) =~= self@);
        }
        text
    }

    /// The number of lines.
    pub fn line_count(&self) -> (count: usize)
        ensures
            count == self@.len(),
    {
        self.lines.len()
    }

    /// Whether the document is a single empty line.
    pub fn is_empty(&self) -> (empty: bool)
        ensures
            empty == (self@.len() == 1 && self@[0].len() == 0),
    {
        self.lines.len() == 1 && self.lines[0].as_str().is_empty()
    }

    /// The text of a line, or nothing for an index past the last line.
    pub fn line(&self, line: usize) -> (text: Option<&str>)
        ensures
            match text {
                Some(text) => line < self@.len() && text@ == self@[line as int],
                None => line >= self@.len(),
            },
    {
        if line < self.lines.len() {
            Some(self.lines[line].as_str())
        } else {
            None
        }
    }

    /// The number of characters in a line, or zero for an index past the last
    /// line.
    pub fn line_len_chars(&self, line: usize) -> (length: usize)
        ensures
            length == if line < self@.len() {
                self@[line as int].len()
            } else {
                0
            },
    {
        match self.line(line) {
            Some(text) => char_count(text),
            None => 0,
        }
    }

    /// All lines, in order.
    pub fn lines(&self) -> (lines: &[String])
        ensures
            lines@.len() == self@.len(),
            forall|i: int| 0 <= i < lines@.len() ==> (#[trigger] lines@[i])@ == self@[i],
    {
        self.lines.as_slice()
    }

    /// The nearest valid position to `position`.
    pub fn clamp_position(&self, position: Position) -> (clamped: Position)
        requires
            self.well_formed(),
        ensures
            clamped@ == clamp(self@, position@),
            is_valid(self@, clamped@),
    {
        let last_line = self.lines.len() - 1;
        let line = if position.line < last_line {
            position.line
        } else {
            last_line
        };
        let max_col = self.line_len_chars(line);
        let column = if position.column < max_col {
            position.column
        } else {
            max_col
        };
        Position { line, column }
    }

    /// The position one character to the left of `position`.
    pub fn move_left(&self, position: Position) -> (next: Position)
        requires
            self.well_formed(),
        ensures
            next@ == left_of(self@, position@),
            is_valid(self@, next@),
    {
        let position = self.clamp_position(position);
        if position.column > 0 {
            return Position { line: position.line, column: position.column - 1 };
        }
        if position.line == 0 {
            return position;
        }
        let previous_line = position.line - 1;
        Position { line: previous_line, column: self.line_len_chars(previous_line) }
    }

    /// The position one character to the right of `position`.
    pub fn move_right(&self, position: Position) -> (next: Position)
        requires
            self.well_formed(),
        ensures
            next@ == right_of(self@, position@),
            is_valid(self@, next@),
    {
        let position = self.clamp_position(position);
        let line_len = self.line_len_chars(position.line);
        if position.column < line_len {
            return Position { line: position.line, column: position.column + 1 };
        }
        proof {
            self.lemma_line_count_fits();
        }
        let next_line = position.line + 1;
        if next_line < self.line_count() {
            Position { line: next_line, column: 0 }
        } else {
            position
        }
    }

    /// The position one line up from `position`, at the preferred column where
    /// the line is long enough.
    pub fn move_up(&self, position: Position, preferred_column: usize) -> (next: Position)
        requires
            self.well_formed(),
        ensures
            next@ == above(self@, position@, preferred_column as int),
            is_valid(self@, next@),
    {
        let position = self.clamp_position(position);
        if position.line == 0 {
            return position;
        }
        let line = position.line - 1;
        let width = self.line_len_chars(line);
        let column = if preferred_column < width {
            preferred_column
        } else {
            width
        };
        Position { line, column }
    }

    /// The position one line down from `position`, at the preferred column
    /// where the line is long enough.
    pub fn move_down(&self, position: Position, preferred_column: usize) -> (next: Position)
        requires
            self.well_formed(),
        ensures
            next@ == below(self@, position@, preferred_column as int),
            is_valid(self@, next@),
    {
        let position = self.clamp_position(position);
        proof {
            self.lemma_line_count_fits();
        }
        let next_line = position.line + 1;
        if next_line >= self.line_count() {
            return position;
        }
        let width = self.line_len_chars(next_line);
        let column = if preferred_column < width {
            preferred_column
        } else {
            width
        };
        Position { line: next_line, column }
    }

    /// Types `input` at `position`: line feeds break the line, every other
    /// character is inserted. Returns the position behind what was typed.
    pub fn insert_text(&mut self, position: Position, input: &str) -> (next: Position)
        requires
            old(self).well_formed(),
        ensures
            final(self).well_formed(),
            final(self)@ == text_inserted(old(self)@, position@, input@).0,
            next@ == text_inserted(old(self)@, position@, input@).1,
            is_valid(final(self)@, next@),
    {
        let ghost before = self@;
        let ghost at = position@;
        let mut position = self.clamp_position(position);
        proof {
            lemma_text_inserted_empty(before, at);
            assert(input@.take(0) =~= Seq::<char>::empty());
        }
        for ch in it: input.chars()
            invariant
                it.seq() == input@,
                before.len() >= 1,
                at.line >= 0,
                at.column >= 0,
                self.well_formed(),
                is_valid(self@, position@),
                (self@, position@) == text_inserted(before, at, input@.take(it.index())),
        {
            proof {
                lemma_text_inserted_push(before, at, input@.take(it.index()), ch);
                assert(input@.take(it.index() + 1) =~= input@.take(it.index()).push(ch));
            }
            position = if ch == '\n' {
                self.insert_newline(position)
            } else {
                self.insert_char(position, ch)
            };
        }
        proof {
            assert(input@.take(input@.len() as int) =~= input@);
        }
        position
    }

    /// Inserts `ch` at `position` and returns the position behind it.
    pub fn insert_char(&mut self, position: Position, ch: char) -> (next: Position)
        requires
            old(self).well_formed(),
        ensures
            final(self).well_formed(),
            final(self)@ == char_inserted(old(self)@, position@, ch).0,
            next@ == char_inserted(old(self)@, position@, ch).1,
            is_valid(final(self)@, next@),
    {
        let position = self.clamp_position(position);
        insert_char_at(&mut self.lines[position.line], position.column, ch);
        assert(self@ =~= char_inserted(old(self)@, position@, ch).0);
        Position { line: position.line, column: position.column + 1 }
    }

    /// Breaks the line at `position` in two and returns the start of the new
    /// line.
    pub fn insert_newline(&mut self, position: Position) -> (next: Position)
        requires
            old(self).well_formed(),
        ensures
            final(self).well_formed(),
            final(self)@ == newline_inserted(old(self)@, position@).0,
            next@ == newline_inserted(old(self)@, position@).1,
            is_valid(final(self)@, next@),
    {
        let position = self.clamp_position(position);
        proof {
            self.lemma_line_count_fits();
        }
        let tail = split_off_at(&mut self.lines[position.line], position.column);
        self.lines.insert(position.line + 1, tail);
        assert(self@ =~= newline_inserted(old(self)@, position@).0);
        Position { line: position.line + 1, column: 0 }
    }

    /// Removes the character before `position`; from column zero of a line
    /// other than the first, joins the line to the end of the one before it.
    /// At the start of the document nothing changes.
    pub fn backspace(&mut self, position: Position) -> (next: Position)
        requires
            old(self).well_formed(),
        ensures
            final(self).well_formed(),
            final(self)@ == backspaced(old(self)@, position@).0,
            next@ == backspaced(old(self)@, position@).1,
            is_valid(final(self)@, next@),
    {
        let position = self.clamp_position(position);
        if position.column > 0 {
            remove_char_at(&mut self.lines[position.line], position.column - 1);
            assert(self@ =~= backspaced(old(self)@, position@).0);
            return Position { line: position.line, column: position.column - 1 };
        }
        if position.line == 0 {
            return position;
        }
        let current = self.lines.remove(position.line);
        let previous_line = position.line - 1;
        let previous_len = self.line_len_chars(previous_line);
        self.lines[previous_line].append(current.as_str());
        assert(self@ =~= backspaced(old(self)@, position@).0);
        Position { line: previous_line, column: previous_len }
    }

    /// Removes the character at `position`; from the end of a line other than
    /// the last, joins the next line to it. At the end of the document nothing
    /// changes. The position stays.
    pub fn delete(&mut self, position: Position) -> (next: Position)
        requires
            old(self).well_formed(),
        ensures
            final(self).well_formed(),
            final(self)@ == deleted(old(self)@, position@).0,
            next@ == deleted(old(self)@, position@).1,
            is_valid(final(self)@, next@),
    {
        let position = self.clamp_position(position);
        let line_len = self.line_len_chars(position.line);
        if position.column < line_len {
            remove_char_at(&mut self.lines[position.line], position.column);
            assert(self@ =~= deleted(old(self)@, position@).0);
            return position;
        }
        proof {
            self.lemma_line_count_fits();
        }
        if position.line + 1 >= self.line_count() {
            return position;
        }
        let next_line = self.lines.remove(position.line + 1);
        self.lines[position.line].append(next_line.as_str());
        assert(self@ =~= deleted(old(self)@, position@).0);
        position
    }
}

} // verus!
