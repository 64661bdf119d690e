//! The processed view: the classified lines as they are shown, one visual line
//! for each line of the document, or several where a dialogue line is broken
//! at its double spaces.

use crate::model::indent_of;
use crate::model::indented;
use crate::model::processed;
use crate::model::spaces;
use crate::model::LineKind;
use crate::model::ParsedLine;
use crate::model::Place;
use crate::model::Position;
use crate::text::byte_offset;
use crate::text::char_count;
use crate::text::lemma_byte_offset_ends;
use crate::text::lemma_byte_offset_step;
use crate::text::lemma_chars_at_most_bytes;
use crate::text::lemma_encode_split;
use crate::text::slice_between;
use crate::text::uppercase_of;
use crate::text::utf8_width;
use vstd::prelude::*;
use vstd::utf8::encode_utf8;

verus! {

/// One line of the processed view.
#[derive(Debug, PartialEq, Eq)]
pub struct ProcessedVisualLine {
    /// The line of the document that this visual line shows.
    pub source_line: usize,
    /// The text as it is shown, indentation included.
    pub text: String,
    /// The column of the raw line at which the shown part starts.
    pub raw_start_column: usize,
    /// The column of the raw line at which the shown part ends.
    pub raw_end_column: usize,
}

/// What a visual line is to the contracts.
pub struct VisualLine {
    pub source_line: int,
    pub text: Seq<char>,
    pub raw_start: int,
    pub raw_end: int,
}

impl View for ProcessedVisualLine {
    type V = VisualLine;

    open spec fn view(&self) -> VisualLine {
        VisualLine {
            source_line: self.source_line as int,
            text: self.text@,
            raw_start: self.raw_start_column as int,
            raw_end: self.raw_end_column as int,
        }
    }
}

impl Clone for ProcessedVisualLine {
    fn clone(&self) -> (copy: Self)
        ensures
            copy@ == self@,
    {
        ProcessedVisualLine {
            source_line: self.source_line,
            text: self.text.clone(),
            raw_start_column: self.raw_start_column,
            raw_end_column: self.raw_end_column,
        }
    }
}

/// The part of the processed view that is on screen.
#[derive(Debug, PartialEq, Eq)]
pub struct ProcessedView {
    pub lines: Vec<ProcessedVisualLine>,
}

impl Default for ProcessedView {
    fn default() -> (view: Self)
        ensures
            view.lines@.len() == 0,
    {
        ProcessedView { lines: Vec::new() }
    }
}

/// The visual lines as the contracts see them.
pub open spec fn views_of(lines: Seq<ProcessedVisualLine>) -> Seq<VisualLine> {
    Seq::new(lines.len(), |i: int| lines[i]@)
}

/// The segments as the contracts see them: the column at which each starts,
/// and its text.
pub open spec fn segment_views(segments: Seq<(usize, String)>) -> Seq<(int, Seq<char>)> {
    Seq::new(segments.len(), |i: int| (segments[i].0 as int, segments[i].1@))
}

/// The segments of a text from `index` on, where the segment in progress
/// started at `start`. Two spaces in a row end a segment and are dropped; the
/// search goes on behind them.
pub open spec fn segments_from(text: Seq<char>, start: int, index: int) -> Seq<(int, Seq<char>)>
    decreases text.len() - index,
{
    if 0 <= index && index + 1 < text.len() {
        if text[index] == ' ' && text[index + 1] == ' ' {
            seq![(start, text.subrange(start, index))] + segments_from(text, index + 2, index + 2)
        } else {
            segments_from(text, start, index + 1)
        }
    } else {
        seq![(start, text.subrange(start, text.len() as int))]
    }
}

/// The segments of a dialogue line: the parts between its double spaces, each
/// with the column at which it starts.
pub open spec fn segments_of(text: Seq<char>) -> Seq<(int, Seq<char>)> {
    segments_from(text, 0, 0)
}

/// The visual lines that one line of the document is shown as. A dialogue line
/// is shown as its segments where double spaces break lines; every other line
/// is shown as one visual line with its processed text.
pub open spec fn visual_lines_of(
    source_line: int,
    kind: LineKind,
    raw: Seq<char>,
    double_space_breaks: bool,
) -> Seq<VisualLine> {
    if double_space_breaks && kind == LineKind::Dialogue {
        let segments = segments_of(raw);
        Seq::new(
            segments.len(),
            |i: int|
                VisualLine {
                    source_line,
                    text: spaces(indent_of(kind)) + segments[i].1,
                    raw_start: segments[i].0,
                    raw_end: segments[i].0 + segments[i].1.len(),
                },
        )
    } else {
        seq![
            VisualLine {
                source_line,
                text: processed(kind, raw, uppercase_of(raw)),
                raw_start: 0,
                raw_end: raw.len() as int,
            },
        ]
    }
}

/// The visual lines of all lines of the document, in order.
pub open spec fn all_visual_lines(parsed: Seq<ParsedLine>, double_space_breaks: bool) -> Seq<
    VisualLine,
>
    decreases parsed.len(),
{
    if parsed.len() == 0 {
        Seq::<VisualLine>::empty()
    } else {
        all_visual_lines(parsed.drop_last(), double_space_breaks) + visual_lines_of(
            parsed.len() - 1,
            parsed.last().kind,
            parsed.last().raw@,
            double_space_breaks,
        )
    }
}

/// The first index from `from` on whose visual line shows `source_line` or a
/// later line, or the number of visual lines where there is none.
pub open spec fn first_at_or_after(lines: Seq<VisualLine>, source_line: int, from: int) -> int
    decreases lines.len() - from,
{
    if 0 <= from < lines.len() {
        if lines[from].source_line >= source_line {
            from
        } else {
            first_at_or_after(lines, source_line, from + 1)
        }
    } else {
        lines.len() as int
    }
}

/// The first index from `from` on whose visual line shows `source_line`, or the
/// number of visual lines where there is none.
pub open spec fn next_showing(lines: Seq<VisualLine>, source_line: int, from: int) -> int
    decreases lines.len() - from,
{
    if 0 <= from < lines.len() {
        if lines[from].source_line == source_line {
            from
        } else {
            next_showing(lines, source_line, from + 1)
        }
    } else {
        lines.len() as int
    }
}

/// Whether the visual line at `index`, which shows the line of the cursor,
/// holds the cursor: the column lies within it, or before the start of the
/// next visual line of the same line, or no such line follows.
pub open spec fn holds_cursor(lines: Seq<VisualLine>, at: Place, index: int) -> bool {
    let next = next_showing(lines, at.line, index + 1);
    ||| at.column <= lines[index].raw_end
    ||| next >= lines.len()
    ||| at.column < lines[next].raw_start
}

/// The index from `from` on of the visual line that holds the cursor: the
/// first one that shows the cursor's line and holds the cursor. The number of
/// visual lines where none shows the cursor's line.
pub open spec fn cursor_visual_index(lines: Seq<VisualLine>, at: Place, from: int) -> int
    decreases lines.len() - from,
{
    if 0 <= from < lines.len() {
        if lines[from].source_line == at.line && holds_cursor(lines, at, from) {
            from
        } else {
            cursor_visual_index(lines, at, from + 1)
        }
    } else {
        lines.len() as int
    }
}

/// The difference `a - b`, held at zero.
pub open spec fn minus(a: int, b: int) -> int {
    if a > b {
        a - b
    } else {
        0
    }
}

/// The smaller of two numbers.
pub open spec fn least(a: int, b: int) -> int {
    if a < b {
        a
    } else {
        b
    }
}

/// The indentation of a line of the document, or zero for a line that the
/// document does not have.
pub open spec fn indent_at(parsed: Seq<ParsedLine>, line: int) -> int {
    if 0 <= line < parsed.len() {
        indent_of(parsed[line].kind) as int
    } else {
        0
    }
}

/// The column of the shown text at which the cursor stands in a visual line:
/// the indentation, then the cursor's distance from the start of the shown
/// part, held at the length of that part.
pub open spec fn display_column(parsed: Seq<ParsedLine>, line: VisualLine, at: Place) -> int {
    indent_at(parsed, at.line) + least(
        minus(at.column, line.raw_start),
        minus(line.raw_end, line.raw_start),
    )
}

/// The column of the raw line that a column of the shown text stands for: the
/// start of the shown part, then the distance from the indentation, held at
/// the length of that part.
pub open spec fn raw_column(parsed: Seq<ParsedLine>, line: VisualLine, display: int) -> int {
    line.raw_start + least(
        minus(display, indent_at(parsed, line.source_line)),
        minus(line.raw_end, line.raw_start),
    )
}

/// The index at which the part of the processed view on screen starts. It
/// starts at the first visual line of the top line; where the cursor is within
/// the plain view, it starts so that the cursor's visual line is as far down as
/// the cursor's line is in the plain view. It never starts so late that lines
/// are left unused.
pub open spec fn view_start(
    lines: Seq<VisualLine>,
    at: Place,
    top_line: int,
    visible_lines: int,
    capacity: int,
) -> int {
    let room = if least(visible_lines, capacity) < 1 {
        1
    } else {
        least(visible_lines, capacity)
    };
    let from_top = first_at_or_after(lines, top_line, 0);
    let default_start = if from_top < lines.len() {
        from_top
    } else {
        0
    };
    let cursor_in_view = top_line <= at.line < top_line + visible_lines;
    let cursor_index = cursor_visual_index(lines, at, 0);
    let start = if cursor_in_view && cursor_index < lines.len() {
        minus(cursor_index, minus(at.line, top_line))
    } else {
        default_start
    };
    least(start, minus(lines.len() as int, room))
}

/// The index at which the part of the processed view on screen ends.
pub open spec fn view_end(
    lines: Seq<VisualLine>,
    at: Place,
    top_line: int,
    visible_lines: int,
    capacity: int,
) -> int {
    let room = if least(visible_lines, capacity) < 1 {
        1
    } else {
        least(visible_lines, capacity)
    };
    least(
        view_start(lines, at, top_line, visible_lines, capacity) + room,
        lines.len() as int,
    )
}

/// Where no double space starts at `index`, the search goes on behind it: one
/// character on past anything but a space, two on past a single space.
proof fn lemma_segments_step(text: Seq<char>, start: int, index: int)
    requires
        0 <= start <= index < text.len(),
    ensures
        text[index] != ' ' ==> segments_from(text, start, index) == segments_from(
            text,
            start,
            index + 1,
        ),
        index + 1 < text.len() && text[index] == ' ' && text[index + 1] != ' ' ==> segments_from(
            text,
            start,
            index,
        ) == segments_from(text, start, index + 2),
{
    if text[index] != ' ' {
        if index + 1 >= text.len() {
            assert(segments_from(text, start, index + 1) == seq![
                (start, text.subrange(start, text.len() as int)),
            ]);
        }
    }
    if index + 1 < text.len() && text[index] == ' ' && text[index + 1] != ' ' {
        assert(segments_from(text, start, index) == segments_from(text, start, index + 1));
        if index + 2 >= text.len() {
            assert(segments_from(text, start, index + 2) == seq![
                (start, text.subrange(start, text.len() as int)),
            ]);
            assert(segments_from(text, start, index + 1) == seq![
                (start, text.subrange(start, text.len() as int)),
            ]);
        } else {
            assert(segments_from(text, start, index + 1) == segments_from(text, start, index + 2));
        }
    }
}

/// The parts of a dialogue line between its double spaces, each with the
/// column at which it starts. Two spaces in a row end a part and belong to
/// none; a line without them is one part.
pub fn dialogue_segments(input: &str) -> (segments: Vec<(usize, String)>)
    ensures
        segment_views(segments@) == segments_of(input@),
{
    let total = input.as_bytes().len();
    let ghost whole = input@;
    let mut segments: Vec<(usize, String)> = Vec::new();
    let mut start: usize = 0;
    let mut start_index: usize = 0;
    let mut column: usize = 0;
    let mut index: usize = 0;
    let mut space_index: usize = 0;
    let mut after_space = false;
    proof {
        lemma_byte_offset_ends(whole);
        lemma_chars_at_most_bytes(whole);
        assert(segment_views(segments@) + segments_from(whole, 0, 0) =~= segments_of(whole));
    }
    for ch in it: input.chars()
        invariant
            it.seq() == whole,
            whole == input@,
            total == encode_utf8(whole).len(),
            whole.len() <= total,
            column == it.index(),
            index == byte_offset(whole, column as int),
            start_index == byte_offset(whole, start as int),
            after_space ==> column >= 1 && start < column && whole[column - 1] == ' '
                && space_index == byte_offset(whole, column - 1),
            !after_space ==> start <= column,
            segment_views(segments@) + segments_from(
                whole,
                start as int,
                if after_space {
                    column - 1
                } else {
                    column as int
                },
            ) == segments_of(whole),
    {
        let ghost before = segment_views(segments@);
        proof {
            lemma_byte_offset_step(whole, column as int);
            lemma_encode_split(whole, column + 1);
        }
        let next_index = index + utf8_width(ch);
        if after_space && ch == ' ' {
            let part = slice_between(
                input,
                Ghost(start as int),
                start_index,
                Ghost(column - 1),
                space_index,
            );
            segments.push((start, part.to_owned()));
            proof {
                let piece = (start as int, whole.subrange(start as int, column - 1));
                assert(segment_views(segments@) =~= before.push(piece));
                assert(segments_from(whole, start as int, column - 1) == seq![piece]
                    + segments_from(whole, column + 1, column + 1));
                assert(before + (seq![piece] + segments_from(whole, column + 1, column + 1))
                    =~= before.push(piece) + segments_from(whole, column + 1, column + 1));
            }
            start = column + 1;
            start_index = next_index;
            after_space = false;
        } else {
            proof {
                if after_space {
                    lemma_segments_step(whole, start as int, column - 1);
                } else if ch != ' ' {
                    lemma_segments_step(whole, start as int, column as int);
                }
            }
            if after_space {
                after_space = false;
            } else if ch == ' ' {
                after_space = true;
                space_index = index;
            }
        }
        index = next_index;
        column = column + 1;
    }
    let ghost before = segment_views(segments@);
    let part = slice_between(
        input,
        Ghost(start as int),
        start_index,
        Ghost(whole.len() as int),
        total,
    );
    segments.push((start, part.to_owned()));
    proof {
        let piece = (start as int, whole.subrange(start as int, whole.len() as int));
        assert(segment_views(segments@) =~= before.push(piece));
        assert(before.push(piece) =~= before + seq![piece]);
    }
    segments
}

/// The visual lines of all lines of the document, in order. Where
/// `double_space_breaks` is set, a dialogue line is shown as its segments;
/// every other line is shown as one visual line with its processed text.
pub fn build_all_processed_visual_lines(parsed: &[ParsedLine], double_space_breaks: bool) -> (lines:
    Vec<ProcessedVisualLine>)
    ensures
        views_of(lines@) == all_visual_lines(parsed@, double_space_breaks),
{
    let mut lines: Vec<ProcessedVisualLine> = Vec::new();
    proof {
        assert(parsed@.take(0) =~= Seq::<ParsedLine>::empty());
        assert(views_of(lines@) =~= all_visual_lines(parsed@.take(0), double_space_breaks));
    }
    for source_line in 0..parsed.len()
        invariant
            views_of(lines@) == all_visual_lines(
                parsed@.take(source_line as int),
                double_space_breaks,
            ),
    {
        let parsed_line = &parsed[source_line];
        let ghost before = views_of(lines@);
        let ghost added = visual_lines_of(
            source_line as int,
            parsed_line.kind,
            parsed_line.raw@,
            double_space_breaks,
        );
        proof {
            assert(parsed@.take(source_line + 1).drop_last() =~= parsed@.take(source_line as int));
            assert(parsed@.take(source_line + 1).last() == parsed@[source_line as int]);
        }
        if double_space_breaks && matches!(parsed_line.kind, LineKind::Dialogue) {
            let indent = parsed_line.indent_width();
            let stored = parsed_line.raw.as_str().as_bytes().len();
            let segments = dialogue_segments(parsed_line.raw.as_str());
            let ghost wanted = segments_of(parsed_line.raw@);
            proof {
                lemma_chars_at_most_bytes(parsed_line.raw@);
                assert(before + added.take(0) =~= before);
            }
            for n in 0..segments.len()
                invariant
                    parsed_line.raw@.len() <= stored,
                    wanted == segments_of(parsed_line.raw@),
                    segment_views(segments@) == wanted,
                    added.len() == wanted.len(),
                    forall|i: int|
                        0 <= i < added.len() ==> #[trigger] added[i] == (VisualLine {
                            source_line: source_line as int,
                            text: spaces(indent as nat) + wanted[i].1,
                            raw_start: wanted[i].0,
                            raw_end: wanted[i].0 + wanted[i].1.len(),
                        }),
                    views_of(lines@) == before + added.take(n as int),
            {
                let ghost shown = views_of(lines@);
                assert(segment_views(segments@).len() == segments@.len());
                assert(segment_views(segments@)[n as int] == (
                    segments@[n as int].0 as int,
                    segments@[n as int].1@,
                ));
                proof {
                    lemma_segment_ends_fit(parsed_line.raw@, n as int);
                }
                let raw_start_column = segments[n].0;
                let segment = segments[n].1.as_str();
                let segment_len = char_count(segment);
                let text = indented(indent, segment);
                lines.push(
                    ProcessedVisualLine {
                        source_line,
                        text,
                        raw_start_column,
                        raw_end_column: raw_start_column.saturating_add(segment_len),
                    },
                );
                proof {
                    assert(views_of(lines@) =~= shown.push(added[n as int]));
                    assert(added.take(n + 1) =~= added.take(n as int).push(added[n as int]));
                    assert(shown.push(added[n as int]) =~= before + added.take(n + 1));
                }
            }
            proof {
                assert(added.take(added.len() as int) =~= added);
            }
        } else {
            let raw_len = char_count(parsed_line.raw.as_str());
            lines.push(
                ProcessedVisualLine {
                    source_line,
                    text: parsed_line.processed_text(),
                    raw_start_column: 0,
                    raw_end_column: raw_len,
                },
            );
            proof {
                assert(views_of(lines@) =~= before + added);
            }
        }
    }
    proof {
        assert(parsed@.take(parsed@.len() as int) =~= parsed@);
    }
    lines
}

/// Every segment lies within its text: it ends where its text says, at the
/// latest at the end of the line.
pub proof fn lemma_segments_lie_within(text: Seq<char>, start: int, index: int, n: int)
    requires
        0 <= start <= index <= text.len(),
        0 <= n < segments_from(text, start, index).len(),
    ensures
        0 <= segments_from(text, start, index)[n].0,
        segments_from(text, start, index)[n].0 + segments_from(text, start, index)[n].1.len()
            <= text.len(),
    decreases text.len() - index,
{
    if index + 1 < text.len() {
        if text[index] == ' ' && text[index + 1] == ' ' {
            if n > 0 {
                lemma_segments_lie_within(text, index + 2, index + 2, n - 1);
            }
        } else {
            lemma_segments_lie_within(text, start, index + 1, n);
        }
    }
}

/// The end of a segment is a machine number wherever the length of the line
/// is one.
proof fn lemma_segment_ends_fit(text: Seq<char>, n: int)
    requires
        0 <= n < segments_of(text).len(),
    ensures
        0 <= segments_of(text)[n].0,
        segments_of(text)[n].0 + segments_of(text)[n].1.len() <= text.len(),
{
    lemma_segments_lie_within(text, 0, 0, n);
}

/// The index of the first visual line that shows `source_line` or a later
/// line, or nothing where every visual line shows an earlier one.
pub fn first_visual_index_for_source_line(lines: &[ProcessedVisualLine], source_line: usize) -> (index:
    Option<usize>)
    ensures
        match index {
            Some(index) => index < lines@.len() && index == first_at_or_after(
                views_of(lines@),
                source_line as int,
                0,
            ),
            None => first_at_or_after(views_of(lines@), source_line as int, 0) == lines@.len(),
        },
{
    let ghost shown = views_of(lines@);
    for i in 0..lines.len()
        invariant
            shown == views_of(lines@),
            first_at_or_after(shown, source_line as int, 0) == first_at_or_after(
                shown,
                source_line as int,
                i as int,
            ),
    {
        if lines[i].source_line >= source_line {
            return Some(i);
        }
    }
    None
}

/// The column of the raw line that a column of the shown text stands for.
pub fn processed_raw_column_from_display(
    parsed: &[ParsedLine],
    visual_line: &ProcessedVisualLine,
    display_column: usize,
) -> (column: usize)
    ensures
        column == least(raw_column(parsed@, visual_line@, display_column as int), usize::MAX as int),
{
    let indent = if visual_line.source_line < parsed.len() {
        parsed[visual_line.source_line].indent_width()
    } else {
        0
    };
    let segment_len = visual_line.raw_end_column.saturating_sub(visual_line.raw_start_column);
    let shifted = display_column.saturating_sub(indent);
    let local_column = if shifted < segment_len {
        shifted
    } else {
        segment_len
    };
    visual_line.raw_start_column.saturating_add(local_column)
}

/// Where the cursor stands in the visual lines: the index of the visual line
/// that holds it, the column of the shown text at which it stands, and that
/// text. Nothing where no visual line shows the cursor's line.
pub fn processed_cursor_visual_from_lines<'a>(
    position: Position,
    parsed: &[ParsedLine],
    lines: &'a [ProcessedVisualLine],
) -> (place: Option<(usize, usize, &'a str)>)
    ensures
        match place {
            Some((index, column, text)) => {
                &&& index < lines@.len()
                &&& index == cursor_visual_index(views_of(lines@), position@, 0)
                &&& column == least(
                    display_column(parsed@, lines@[index as int]@, position@),
                    usize::MAX as int,
                )
                &&& text@ == lines@[index as int].text@
            },
            None => cursor_visual_index(views_of(lines@), position@, 0) == lines@.len(),
        },
{
    let ghost shown = views_of(lines@);
    let ghost at = position@;
    let indent = if position.line < parsed.len() {
        parsed[position.line].indent_width()
    } else {
        0
    };
    let mut waiting: Option<usize> = None;
    let mut chosen: Option<usize> = None;
    for i in 0..lines.len()
        invariant_except_break
            chosen is None,
            match waiting {
                Some(p) => {
                    &&& p < i
                    &&& shown[p as int].source_line == at.line
                    &&& at.column > shown[p as int].raw_end
                    &&& next_showing(shown, at.line, p + 1) == next_showing(shown, at.line, i as int)
                    &&& cursor_visual_index(shown, at, 0) == if holds_cursor(shown, at, p as int) {
                        p as int
                    } else {
                        cursor_visual_index(shown, at, i as int)
                    }
                },
                None => cursor_visual_index(shown, at, 0) == cursor_visual_index(
                    shown,
                    at,
                    i as int,
                ),
            },
        invariant
            shown == views_of(lines@),
            at == position@,
        ensures
            match chosen {
                Some(index) => index < lines@.len() && index == cursor_visual_index(shown, at, 0),
                None => match waiting {
                    Some(p) => p < lines@.len() && p == cursor_visual_index(shown, at, 0),
                    None => cursor_visual_index(shown, at, 0) == lines@.len(),
                },
            },
    {
        assert(shown[i as int] == lines@[i as int]@);
        if lines[i].source_line == position.line {
            proof {
                assert(next_showing(shown, at.line, i as int) == i);
            }
            let mut passed = false;
            match waiting {
                Some(p) => {
                    if position.column < lines[i].raw_start_column {
                        passed = true;
                    }
                },
                None => {},
            }
            if passed {
                chosen = waiting;
                break;
            }
            if position.column <= lines[i].raw_end_column {
                chosen = Some(i);
                break;
            }
            waiting = Some(i);
        }
    }
    let index = match chosen {
        Some(index) => index,
        None => match waiting {
            Some(p) => p,
            None => {
                return None;
            },
        },
    };
    assert(shown[index as int] == lines@[index as int]@);
    let visual_line = &lines[index];
    let segment_len = visual_line.raw_end_column.saturating_sub(visual_line.raw_start_column);
    let shifted = position.column.saturating_sub(visual_line.raw_start_column);
    let local_column = if shifted < segment_len {
        shifted
    } else {
        segment_len
    };
    Some((index, indent.saturating_add(local_column), visual_line.text.as_str()))
}

/// The part of the processed view that is on screen: at most `visible_lines`
/// visual lines, and at most `capacity`, but room for one at least.
pub fn build_processed_view(
    parsed: &[ParsedLine],
    position: Position,
    top_line: usize,
    visible_lines: usize,
    double_space_breaks: bool,
    capacity: usize,
) -> (view: ProcessedView)
    ensures
        ({
            let all = all_visual_lines(parsed@, double_space_breaks);
            let start = view_start(
                all,
                position@,
                top_line as int,
                visible_lines as int,
                capacity as int,
            );
            let end = view_end(
                all,
                position@,
                top_line as int,
                visible_lines as int,
                capacity as int,
            );
            &&& 0 <= start <= end <= all.len()
            &&& views_of(view.lines@) == all.subrange(start, end)
        }),
{
    let bounded = if visible_lines < capacity {
        visible_lines
    } else {
        capacity
    };
    let max_visible = if bounded < 1 {
        1
    } else {
        bounded
    };
    let all_lines = build_all_processed_visual_lines(parsed, double_space_breaks);
    let ghost all = views_of(all_lines@);
    if all_lines.len() == 0 {
        let view = ProcessedView::default();
        proof {
            assert(views_of(view.lines@) =~= all.subrange(0, 0));
        }
        return view;
    }
    let default_start = match first_visual_index_for_source_line(all_lines.as_slice(), top_line) {
        Some(index) => index,
        None => 0,
    };
    let cursor_in_plain_view = position.line >= top_line && position.line - top_line
        < visible_lines;
    let cursor_line_offset = position.line.saturating_sub(top_line);
    let mut start_index = default_start;
    if cursor_in_plain_view {
        match processed_cursor_visual_from_lines(position, parsed, all_lines.as_slice()) {
            Some((cursor_visual_index, _, _)) => {
                start_index = cursor_visual_index.saturating_sub(cursor_line_offset);
            },
            None => {},
        }
    }
    let max_start = all_lines.len().saturating_sub(max_visible);
    if start_index > max_start {
        start_index = max_start;
    }
    let end_index = if max_visible < all_lines.len() - start_index {
        start_index + max_visible
    } else {
        all_lines.len()
    };
    ProcessedView { lines: copy_of_range(all_lines.as_slice(), start_index, end_index) }
}

/// A copy of the visual lines from `start` up to `end`.
fn copy_of_range(all_lines: &[ProcessedVisualLine], start: usize, end: usize) -> (lines: Vec<
    ProcessedVisualLine,
>)
    requires
        start <= end <= all_lines@.len(),
    ensures
        views_of(lines@) == views_of(all_lines@).subrange(start as int, end as int),
{
    let ghost all = views_of(all_lines@);
    let mut lines: Vec<ProcessedVisualLine> = Vec::new();
    proof {
        assert(views_of(lines@) =~= all.subrange(start as int, start as int));
    }
    for i in start..end
        invariant
            start <= end <= all_lines@.len(),
            all == views_of(all_lines@),
            views_of(lines@) == all.subrange(start as int, i as int),
    {
        let ghost shown = views_of(lines@);
        lines.push(all_lines[i].clone());
        proof {
            assert(all[i as int] == all_lines@[i as int]@);
            assert(views_of(lines@) =~= shown.push(all[i as int]));
            assert(all.subrange(start as int, i + 1) =~= all.subrange(start as int, i as int).push(
                all[i as int],
            ));
        }
    }
    lines
}

} // verus!
