//! The shared value types: positions and cursors, line kinds with their
//! formatting, and the pair of paths a document is loaded from and saved to.

use crate::text::to_uppercase;
use crate::text::uppercase_of;
use std::path::PathBuf;
use vstd::prelude::*;

verus! {

/// A character-addressed location in a document: a line index and a column
/// counted in Unicode scalar values.
#[derive(Clone, Copy, Debug, PartialEq, Eq, Structural)]
pub struct Position {
    pub line: usize,
    pub column: usize,
}

/// What a position is to the contracts: its line and column as integers.
pub struct Place {
    pub line: int,
    pub column: int,
}

impl View for Position {
    type V = Place;

    open spec fn view(&self) -> Place {
        Place { line: self.line as int, column: self.column as int }
    }
}

impl Default for Position {
    fn default() -> (position: Self)
        ensures
            position == (Position { line: 0, column: 0 }),
    {
        Position { line: 0, column: 0 }
    }
}

/// A caret: where it is, and the column it wants to return to when it moves
/// vertically through shorter lines.
#[derive(Clone, Copy, Debug, PartialEq, Eq, Structural)]
pub struct Cursor {
    pub position: Position,
    pub preferred_column: usize,
}

impl Default for Cursor {
    fn default() -> (cursor: Self)
        ensures
            cursor == (Cursor { position: Position { line: 0, column: 0 }, preferred_column: 0 }),
    {
        Cursor { position: Position { line: 0, column: 0 }, preferred_column: 0 }
    }
}

impl Cursor {
    /// Moves the caret and remembers the new column as the preferred one.
    pub fn set_position(&mut self, position: Position)
        ensures
            final(self).position == position,
            final(self).preferred_column == position.column,
    {
        self.position = position;
        self.preferred_column = position.column;
    }
}

/// The role of a line in a screenplay.
#[derive(Clone, Copy, Debug, PartialEq, Eq, Structural)]
pub enum LineKind {
    Empty,
    SceneHeading,
    Action,
    Character,
    Dialogue,
    Parenthetical,
    Transition,
}

/// The number of columns by which a line of the given kind is indented.
pub open spec fn indent_of(kind: LineKind) -> nat {
    match kind {
        LineKind::SceneHeading => 2,
        LineKind::Action => 0,
        LineKind::Character => 24,
        LineKind::Dialogue => 12,
        LineKind::Parenthetical => 18,
        LineKind::Transition => 40,
        LineKind::Empty => 0,
    }
}

/// Whether lines of the given kind are shown in capitals.
pub open spec fn is_capitalized(kind: LineKind) -> bool {
    kind == LineKind::SceneHeading || kind == LineKind::Transition || kind == LineKind::Character
}

/// A run of `width` spaces.
pub open spec fn spaces(width: nat) -> Seq<char> {
    Seq::new(width, |i: int| ' ')
}

/// The text shown for a line of the given kind, where `upper` is the uppercase
/// form of `raw`: the indentation, then `upper` for the capitalized kinds and
/// `raw` for the others.
pub open spec fn processed(kind: LineKind, raw: Seq<char>, upper: Seq<char>) -> Seq<char> {
    spaces(indent_of(kind)) + if is_capitalized(kind) {
        upper
    } else {
        raw
    }
}

/// `body` behind `width` spaces.
pub fn indented(width: usize, body: &str) -> (text: String)
    ensures
        text@ == spaces(width as nat) + body@,
{
    let mut text = String::new();
    let mut done: usize = 0;
    proof {
        reveal_strlit(" ");
    }
    while done < width
        invariant
            done <= width,
            text@ == spaces(done as nat),
            " "@.len() == 1,
            " "@[0] == ' ',
        decreases width - done,
    {
        text.append(" ");
        done = done + 1;
        assert(text@ =~= spaces(done as nat));
    }
    text.append(body);
    text
}

/// A line of the document with the kind it was given.
#[derive(Clone, Debug, PartialEq, Eq)]
pub struct ParsedLine {
    pub kind: LineKind,
    pub raw: String,
}

impl ParsedLine {
    /// The line as it is shown: indented by its kind, and in capitals where the
    /// kind asks for it.
    pub fn processed_text(&self) -> (text: String)
        ensures
            text@ == processed(self.kind, self.raw@, uppercase_of(self.raw@)),
    {
        let indent = self.indent_width();
        match self.kind {
            LineKind::SceneHeading | LineKind::Transition | LineKind::Character => {
                let upper = to_uppercase(self.raw.as_str());
                indented(indent, upper.as_str())
            },
            _ => indented(indent, self.raw.as_str()),
        }
    }

    /// The column in the shown text that stands for `raw_column` of the raw
    /// text: the indentation added to it, held at the largest `usize`.
    pub fn processed_column(&self, raw_column: usize) -> (column: usize)
        ensures
            column == if indent_of(self.kind) + raw_column <= usize::MAX {
                indent_of(self.kind) + raw_column
            } else {
                usize::MAX as int
            },
    {
        self.indent_width().saturating_add(raw_column)
    }

    /// The indentation of the line, by its kind.
    pub fn indent_width(&self) -> (width: usize)
        ensures
            width == indent_of(self.kind),
    {
        match self.kind {
            LineKind::SceneHeading => 2,
            LineKind::Action => 0,
            LineKind::Character => 24,
            LineKind::Dialogue => 12,
            LineKind::Parenthetical => 18,
            LineKind::Transition => 40,
            LineKind::Empty => 0,
        }
    }
}

/// `std::path::PathBuf`, carried through as an opaque value.
#[verifier::external_type_specification]
#[verifier::external_body]
pub struct ExPathBuf(PathBuf);

/// `PathBuf::clone`: the copy is the same path.
pub assume_specification[ <PathBuf as Clone>::clone ](path: &PathBuf) -> (copy: PathBuf)
    ensures
        copy == *path,
;

/// Where a document was last loaded from and where it is saved to. The two are
/// independent: saving under another name leaves the load path alone.
#[derive(Clone, Debug, PartialEq, Eq)]
pub struct DocumentPath {
    pub load_path: PathBuf,
    pub save_path: PathBuf,
}

impl DocumentPath {
    /// The pair of a load path and a save path.
    pub fn new(load_path: PathBuf, save_path: PathBuf) -> (paths: Self)
        ensures
            paths.load_path == load_path,
            paths.save_path == save_path,
    {
        DocumentPath { load_path, save_path }
    }

    /// Records that the document was loaded from `path`: later saves follow it.
    pub fn record_load(&mut self, path: PathBuf)
        ensures
            final(self).load_path == path,
            final(self).save_path == path,
    {
        self.load_path = path.clone();
        self.save_path = path;
    }

    /// Records that the document was saved to `path`; the load path stays.
    pub fn record_save(&mut self, path: PathBuf)
        ensures
            final(self).load_path == old(self).load_path,
            final(self).save_path == path,
    {
        self.save_path = path;
    }
}

} // verus!
