//! What holds of the buffer and the classifier as a whole, stated over the
//! functions that their contracts are written in.

use crate::buffer::backspaced;
use crate::buffer::clamp;
use crate::buffer::deleted;
use crate::buffer::is_valid;
use crate::buffer::joined;
use crate::buffer::lemma_split_lines_nonempty;
use crate::buffer::lines_of_text;
use crate::buffer::newline_inserted;
use crate::buffer::split_lines;
use crate::buffer::without_carriage_returns;
use crate::editor::max_top;
use crate::editor::with_cursor_in_view;
use crate::editor::with_cursor_visible;
use crate::editor::EditorView;
use crate::model::LineKind;
use crate::model::ParsedLine;
use crate::model::Position;
use crate::parser::is_parse_of;
use crate::parser::kind_of_line;
use crate::parser::kinds_of;
use crate::parser::lemma_kinds_of_len;
use crate::text::byte_index_of;
use crate::text::byte_offset;
use crate::text::is_char_index_of;
use crate::text::lemma_byte_offset_ends;
use crate::text::lemma_byte_offset_step;
use crate::text::lemma_char_width;
use vstd::prelude::*;

verus! {

/// Clamping gives a valid position, and clamping a second time changes
/// nothing.
pub proof fn law_clamp_is_valid_and_idempotent(lines: Seq<Seq<char>>, position: Position)
    requires
        lines.len() >= 1,
    ensures
        is_valid(lines, clamp(lines, position@)),
        clamp(lines, clamp(lines, position@)) == clamp(lines, position@),
{
}

/// A valid position is its own clamp.
pub proof fn law_clamp_keeps_valid_positions(lines: Seq<Seq<char>>, position: Position)
    requires
        is_valid(lines, position@),
    ensures
        clamp(lines, position@) == position@,
{
}

/// Joining the pieces of a text with line feeds gives the text back.
pub proof fn law_join_undoes_split(text: Seq<char>)
    ensures
        joined(split_lines(text)) == text,
    decreases text.len(),
{
    if text.len() == 0 {
    } else {
        let shorter = text.drop_last();
        let before = split_lines(shorter);
        law_join_undoes_split(shorter);
        lemma_split_lines_nonempty(shorter);
        assert(text =~= shorter.push(text.last()));
        if text.last() == '\n' {
            let after = before.push(Seq::<char>::empty());
            assert(after.drop_last() =~= before);
            assert(joined(after) =~= text);
        } else {
            let grown = before.last().push(text.last());
            let after = before.drop_last().push(grown);
            assert(after.drop_last() =~= before.drop_last());
            if before.len() == 1 {
                assert(joined(after) =~= text);
            } else {
                assert(joined(after) =~= text);
            }
        }
    }
}

/// Where none of the pieces of a text ends with a carriage return, loading
/// drops nothing, and the text is loaded and written back unchanged.
pub proof fn law_round_trip_without_trailing_carriage_returns(text: Seq<char>)
    requires
        forall|i: int|
            0 <= i < split_lines(text).len() ==> !(split_lines(text)[i].len() > 0 && (
            #[trigger] split_lines(text)[i]).last() == '\r'),
    ensures
        lines_of_text(text) == split_lines(text),
        joined(lines_of_text(text)) == text,
{
    let pieces = split_lines(text);
    assert forall|i: int| 0 <= i < pieces.len() implies without_carriage_returns(pieces)[i]
        == pieces[i] by {
        assert(!(pieces[i].len() > 0 && pieces[i].last() == '\r'));
    }
    assert(without_carriage_returns(pieces) =~= pieces);
    law_join_undoes_split(text);
}

/// The pieces of a text hold only characters of the text.
pub proof fn lemma_pieces_hold_text_characters(text: Seq<char>, c: char)
    requires
        !text.contains(c),
    ensures
        forall|i: int, j: int|
            0 <= i < split_lines(text).len() && 0 <= j < split_lines(text)[i].len()
                ==> #[trigger] split_lines(text)[i][j] != c,
    decreases text.len(),
{
    if text.len() > 0 {
        let shorter = text.drop_last();
        assert forall|k: int| 0 <= k < shorter.len() implies shorter[k] != c by {
            assert(text.contains(text[k]));
        }
        assert(!shorter.contains(c));
        lemma_pieces_hold_text_characters(shorter, c);
        lemma_split_lines_nonempty(shorter);
        assert(text.contains(text.last()));
        let before = split_lines(shorter);
        let after = split_lines(text);
        assert forall|i: int, j: int|
            0 <= i < after.len() && 0 <= j < after[i].len() implies #[trigger] after[i][j]
            != c by {
            if text.last() == '\n' {
                if i < before.len() {
                    assert(after[i][j] == before[i][j]);
                }
            } else {
                if i < before.len() - 1 {
                    assert(after[i][j] == before[i][j]);
                } else if j < before.last().len() {
                    assert(after[i][j] == before[i][j]);
                }
            }
        }
    }
}

/// A text without carriage returns is loaded and written back unchanged.
pub proof fn law_round_trip(text: Seq<char>)
    requires
        !text.contains('\r'),
    ensures
        joined(lines_of_text(text)) == text,
{
    lemma_pieces_hold_text_characters(text, '\r');
    let pieces = split_lines(text);
    assert forall|i: int| 0 <= i < pieces.len() implies !(pieces[i].len() > 0 && (
    #[trigger] pieces[i]).last() == '\r') by {
        if pieces[i].len() > 0 {
            assert(pieces[i][pieces[i].len() - 1] != '\r');
        }
    }
    law_round_trip_without_trailing_carriage_returns(text);
}

/// Breaking a line and then pressing backspace at the start of the new line
/// gives the document back, with the cursor where the line was broken.
pub proof fn law_backspace_undoes_newline(lines: Seq<Seq<char>>, position: Position)
    requires
        lines.len() >= 1,
    ensures
        backspaced(
            newline_inserted(lines, position@).0,
            newline_inserted(lines, position@).1,
        ) == (lines, clamp(lines, position@)),
{
    let p = clamp(lines, position@);
    let broken = newline_inserted(lines, position@);
    let line = lines[p.line];
    assert(broken.0[p.line] == line.take(p.column));
    assert(broken.0[p.line + 1] == line.skip(p.column));
    assert(clamp(broken.0, broken.1) == broken.1);
    assert(line.take(p.column) + line.skip(p.column) =~= line);
    let restored = backspaced(broken.0, broken.1);
    assert(restored.0 =~= lines);
}

/// Delete at the end of a line that is not the last joins the next line to it
/// and leaves the cursor where it is.
pub proof fn law_delete_at_line_end_joins_next(lines: Seq<Seq<char>>, position: Position)
    requires
        is_valid(lines, position@),
        position@.column == lines[position@.line].len(),
        position@.line + 1 < lines.len(),
    ensures
        deleted(lines, position@).0 == lines.take(position@.line) + seq![
            lines[position@.line] + lines[position@.line + 1],
        ] + lines.skip(position@.line + 2),
        deleted(lines, position@).1 == position@,
{
    let l = position@.line;
    assert(deleted(lines, position@).0 =~= lines.take(l) + seq![lines[l] + lines[l + 1]]
        + lines.skip(l + 2));
}

/// Backspace at column zero of a line that is not the first joins the line to
/// the one before it and puts the cursor where the two meet.
pub proof fn law_backspace_at_line_start_joins_previous(
    lines: Seq<Seq<char>>,
    position: Position,
)
    requires
        is_valid(lines, position@),
        position@.column == 0,
        position@.line > 0,
    ensures
        backspaced(lines, position@).0 == lines.take(position@.line - 1) + seq![
            lines[position@.line - 1] + lines[position@.line],
        ] + lines.skip(position@.line + 1),
        backspaced(lines, position@).1.line == position@.line - 1,
        backspaced(lines, position@).1.column == lines[position@.line - 1].len(),
{
    let l = position@.line;
    assert(backspaced(lines, position@).0 =~= lines.take(l - 1) + seq![lines[l - 1] + lines[l]]
        + lines.skip(l + 1));
}

/// Backspace at the very start of the document, and delete at its very end,
/// change nothing.
pub proof fn law_document_ends_are_fixed(lines: Seq<Seq<char>>, position: Position)
    requires
        is_valid(lines, position@),
    ensures
        position@.line == 0 && position@.column == 0 ==> backspaced(lines, position@) == (
            lines,
            position@,
        ),
        position@.line == lines.len() - 1 && position@.column == lines[position@.line].len()
            ==> deleted(lines, position@) == (lines, position@),
{
}

/// The kinds of a document are a function of its lines alone: two
/// classifications of the same lines agree entry by entry.
pub proof fn law_classification_is_deterministic(
    lines: Seq<Seq<char>>,
    first: Seq<ParsedLine>,
    second: Seq<ParsedLine>,
)
    requires
        is_parse_of(first, lines),
        is_parse_of(second, lines),
    ensures
        first.len() == second.len(),
        forall|i: int|
            0 <= i < first.len() ==> (#[trigger] first[i]).kind == second[i].kind && first[i].raw@
                == second[i].raw@,
{
}

/// The kind of a line depends on that line and on the kind of the line before
/// it, and on nothing else; the first line is judged as if an empty line stood
/// before it.
pub proof fn law_kind_looks_back_one_line(lines: Seq<Seq<char>>, i: int)
    requires
        0 <= i < lines.len(),
    ensures
        kinds_of(lines).len() == lines.len(),
        kinds_of(lines)[i] == kind_of_line(
            lines[i],
            if i == 0 {
                LineKind::Empty
            } else {
                kinds_of(lines)[i - 1]
            },
        ),
    decreases lines.len(),
{
    lemma_kinds_of_len(lines);
    let shorter = lines.drop_last();
    lemma_kinds_of_len(shorter);
    if i < lines.len() - 1 {
        law_kind_looks_back_one_line(shorter, i);
    }
}

/// After the screen has followed the cursor, the line of the cursor is on
/// screen.
pub proof fn law_cursor_is_on_screen_after_following(state: EditorView, visible_lines: int)
    requires
        is_valid(state.lines, state.cursor),
        state.top_line >= 0,
        visible_lines >= 1,
    ensures
        with_cursor_visible(state, visible_lines).top_line <= state.cursor.line,
        state.cursor.line < with_cursor_visible(state, visible_lines).top_line + visible_lines,
        with_cursor_visible(state, visible_lines).top_line <= max_top(
            state.lines.len() as int,
            visible_lines,
        ),
{
}

/// After the cursor has followed the screen, its line is on screen and it is
/// a valid position.
pub proof fn law_cursor_is_on_screen_after_scrolling(state: EditorView, visible_lines: int)
    requires
        is_valid(state.lines, state.cursor),
        0 <= state.top_line < state.lines.len(),
        state.preferred_column >= 0,
        visible_lines >= 1,
    ensures
        is_valid(state.lines, with_cursor_in_view(state, visible_lines).cursor),
        !(state.lines.len() == 1 && state.lines[0].len() == 0) ==> state.top_line
            <= with_cursor_in_view(state, visible_lines).cursor.line < state.top_line
            + visible_lines,
{
}

/// The kinds of the first lines of a document do not depend on the lines
/// behind them: the classifier reads forward and never looks back further than
/// one line.
pub proof fn law_kinds_of_first_lines(lines: Seq<Seq<char>>, n: int)
    requires
        0 <= n <= lines.len(),
    ensures
        kinds_of(lines.take(n)) == kinds_of(lines).take(n),
    decreases lines.len(),
{
    lemma_kinds_of_len(lines);
    if n == lines.len() {
        assert(lines.take(n) =~= lines);
        assert(kinds_of(lines).take(n) =~= kinds_of(lines));
    } else {
        let shorter = lines.drop_last();
        lemma_kinds_of_len(shorter);
        law_kinds_of_first_lines(shorter, n);
        assert(shorter.take(n) =~= lines.take(n));
        assert(kinds_of(shorter).take(n) =~= kinds_of(lines).take(n));
    }
}

/// Offsets grow with the column.
pub proof fn law_offsets_increase(s: Seq<char>, n: int, m: int)
    requires
        0 <= n < m <= s.len(),
    ensures
        byte_offset(s, n) < byte_offset(s, m),
    decreases m - n,
{
    lemma_byte_offset_step(s, m - 1);
    lemma_char_width(s[m - 1]);
    if n < m - 1 {
        law_offsets_increase(s, n, m - 1);
    }
}

/// A storage offset falls on one column only.
pub proof fn law_offset_has_one_column(s: Seq<char>, byte_index: int, first: int, second: int)
    requires
        is_char_index_of(s, byte_index, first),
        is_char_index_of(s, byte_index, second),
    ensures
        first == second,
{
    if first < second {
        assert(byte_offset(s, first) < byte_index);
    } else if second < first {
        assert(byte_offset(s, second) < byte_index);
    }
}

/// Converting a column to a storage offset and back gives the column, held at
/// the length of the text.
pub proof fn law_offset_round_trip(s: Seq<char>, column: int)
    requires
        0 <= column,
    ensures
        is_char_index_of(
            s,
            byte_index_of(s, column),
            if column < s.len() {
                column
            } else {
                s.len() as int
            },
        ),
{
    lemma_byte_offset_ends(s);
    let k = if column < s.len() {
        column
    } else {
        s.len() as int
    };
    assert(byte_index_of(s, column) == byte_offset(s, k));
    assert forall|n: int| 0 <= n < k implies byte_offset(s, n) < byte_index_of(s, column) by {
        law_offsets_increase(s, n, k);
    }
}

} // verus!
