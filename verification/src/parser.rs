//! The classifier: gives every line of a document its kind.
//!
//! A line is judged by its trimmed text and by the kind of the line before it,
//! and by nothing else. The rules are tried in a fixed order; the first that
//! fits decides.

use crate::buffer::Document;
use crate::model::LineKind;
use crate::model::ParsedLine;
use crate::scan::count_words;
use crate::scan::ends_with;
use crate::scan::first_and_last;
use crate::scan::same_text;
use crate::scan::starts_with;
use crate::scan::trim;
use crate::scan::trim_start;
use crate::scan::trim_start_of;
use crate::scan::trimmed;
use crate::scan::word_count;
use crate::text::to_uppercase;
use crate::text::uppercase_of;
use vstd::prelude::*;

verus! {

/// Whether an uppercase text starts with one of the scene markers.
pub open spec fn has_scene_marker(upper: Seq<char>) -> bool {
    ||| "INT."@.is_prefix_of(upper)
    ||| "EXT."@.is_prefix_of(upper)
    ||| "EST."@.is_prefix_of(upper)
    ||| "INT/EXT."@.is_prefix_of(upper)
    ||| "I/E."@.is_prefix_of(upper)
}

/// Whether an uppercase text reads as a transition: it ends with " TO:" or is
/// one of the fixed cues.
pub open spec fn is_transition_cue(upper: Seq<char>) -> bool {
    ||| " TO:"@.is_suffix_of(upper)
    ||| upper == "CUT TO:"@
    ||| upper == "FADE OUT."@
    ||| upper == "FADE TO BLACK."@
}

/// Whether `c` may stand in a character cue: an uppercase ASCII letter, an
/// ASCII digit, or one of space, period, parentheses, apostrophe and hyphen.
pub open spec fn is_cue_char(c: char) -> bool {
    ||| 'A' <= c <= 'Z'
    ||| '0' <= c <= '9'
    ||| c == ' '
    ||| c == '.'
    ||| c == '('
    ||| c == ')'
    ||| c == '\''
    ||| c == '-'
}

/// Whether a line is a scene heading: its uppercase form, after the white space
/// at its start, begins with a scene marker.
pub open spec fn is_scene_heading_line(line: Seq<char>) -> bool {
    has_scene_marker(uppercase_of(trim_start_of(line)))
}

/// Whether a line is a transition, judged by its uppercase form.
pub open spec fn is_transition_line(line: Seq<char>) -> bool {
    is_transition_cue(uppercase_of(line))
}

/// Whether a line is a character cue: at most 32 characters, one to four words,
/// only cue characters, and no colon at its end.
pub open spec fn is_character_line(line: Seq<char>) -> bool {
    &&& line.len() <= 32
    &&& 1 <= word_count(line) <= 4
    &&& forall|i: int| 0 <= i < line.len() ==> is_cue_char(#[trigger] line[i])
    &&& !(line.len() > 0 && line.last() == ':')
}

/// Whether a line has the shape of a parenthetical: it starts with an opening
/// and ends with a closing parenthesis.
pub open spec fn is_parenthetical_line(line: Seq<char>) -> bool {
    line.len() > 0 && line[0] == '(' && line.last() == ')'
}

/// Whether a line of this kind belongs to a dialogue block, so that the next
/// line may continue it.
pub open spec fn continues_dialogue(previous: LineKind) -> bool {
    previous == LineKind::Character || previous == LineKind::Dialogue || previous
        == LineKind::Parenthetical
}

/// The kind of a line, given the kind of the line before it.
pub open spec fn kind_of_line(raw: Seq<char>, previous: LineKind) -> LineKind {
    let line = trimmed(raw);
    if line.len() == 0 {
        LineKind::Empty
    } else if is_scene_heading_line(line) {
        LineKind::SceneHeading
    } else if is_transition_line(line) {
        LineKind::Transition
    } else if is_character_line(line) {
        LineKind::Character
    } else if is_parenthetical_line(line) && continues_dialogue(previous) {
        LineKind::Parenthetical
    } else if continues_dialogue(previous) {
        LineKind::Dialogue
    } else {
        LineKind::Action
    }
}

/// The kinds of all lines, from the first line down; the first line is judged
/// as if an empty line stood before it.
pub open spec fn kinds_of(lines: Seq<Seq<char>>) -> Seq<LineKind>
    decreases lines.len(),
{
    if lines.len() == 0 {
        Seq::<LineKind>::empty()
    } else {
        let before = kinds_of(lines.drop_last());
        let previous = if before.len() == 0 {
            LineKind::Empty
        } else {
            before.last()
        };
        before.push(kind_of_line(lines.last(), previous))
    }
}

/// Whether `parsed` is the classification of `lines`: one entry for each line,
/// in order, with the text of the line and its kind.
pub open spec fn is_parse_of(parsed: Seq<ParsedLine>, lines: Seq<Seq<char>>) -> bool {
    &&& parsed.len() == lines.len()
    &&& forall|i: int|
        0 <= i < parsed.len() ==> (#[trigger] parsed[i]).raw@ == lines[i] && parsed[i].kind
            == kinds_of(lines)[i]
}

/// There is one kind for each line.
pub proof fn lemma_kinds_of_len(lines: Seq<Seq<char>>)
    ensures
        kinds_of(lines).len() == lines.len(),
    decreases lines.len(),
{
    if lines.len() > 0 {
        lemma_kinds_of_len(lines.drop_last());
    }
}

/// Whether `c` may stand in a character cue.
pub fn is_cue_character(c: char) -> (yes: bool)
    ensures
        yes == is_cue_char(c),
{
    ('A' <= c && c <= 'Z') || ('0' <= c && c <= '9') || c == ' ' || c == '.' || c == '(' || c
        == ')' || c == '\'' || c == '-'
}

/// Whether an uppercase text starts with one of the scene markers.
pub fn starts_with_scene_marker(upper: &str) -> (yes: bool)
    ensures
        yes == has_scene_marker(upper@),
{
    starts_with(upper, "INT.") || starts_with(upper, "EXT.") || starts_with(upper, "EST.")
        || starts_with(upper, "INT/EXT.") || starts_with(upper, "I/E.")
}

/// Whether an uppercase text reads as a transition.
pub fn reads_as_transition(upper: &str) -> (yes: bool)
    ensures
        yes == is_transition_cue(upper@),
{
    ends_with(upper, " TO:") || same_text(upper, "CUT TO:") || same_text(upper, "FADE OUT.")
        || same_text(upper, "FADE TO BLACK.")
}

/// Whether a line is a scene heading.
pub fn is_scene_heading(line: &str) -> (yes: bool)
    ensures
        yes == is_scene_heading_line(line@),
{
    let upper = to_uppercase(trim_start(line));
    starts_with_scene_marker(upper.as_str())
}

/// Whether a line is a transition.
pub fn is_transition(line: &str) -> (yes: bool)
    ensures
        yes == is_transition_line(line@),
{
    let upper = to_uppercase(line);
    reads_as_transition(upper.as_str())
}

/// Whether a line is a character cue.
pub fn is_character(line: &str) -> (yes: bool)
    ensures
        yes == is_character_line(line@),
{
    if line.unicode_len() > 32 {
        return false;
    }
    let words = count_words(line);
    if words == 0 || words > 4 {
        return false;
    }
    let mut last = ' ';
    for ch in it: line.chars()
        invariant
            it.seq() == line@,
            forall|i: int| 0 <= i < it.index() ==> is_cue_char(#[trigger] line@[i]),
            it.index() > 0 ==> last == line@[it.index() - 1],
    {
        if !is_cue_character(ch) {
            return false;
        }
        last = ch;
    }
    !(line.unicode_len() > 0 && last == ':')
}

/// Whether a line has the shape of a parenthetical.
pub fn is_parenthetical(line: &str) -> (yes: bool)
    ensures
        yes == is_parenthetical_line(line@),
{
    match first_and_last(line) {
        Some((first, last)) => first == '(' && last == ')',
        None => false,
    }
}

/// Whether a line of this kind belongs to a dialogue block.
pub fn in_dialogue_block(previous: &LineKind) -> (yes: bool)
    ensures
        yes == continues_dialogue(*previous),
{
    match previous {
        LineKind::Character | LineKind::Dialogue | LineKind::Parenthetical => true,
        _ => false,
    }
}

/// The kind of a line, given the kind of the line before it.
pub fn classify_line(raw: &str, previous_kind: &LineKind) -> (kind: LineKind)
    ensures
        kind == kind_of_line(raw@, *previous_kind),
{
    let line = trim(raw);
    if line.is_empty() {
        return LineKind::Empty;
    }
    if is_scene_heading(line) {
        return LineKind::SceneHeading;
    }
    if is_transition(line) {
        return LineKind::Transition;
    }
    if is_character(line) {
        return LineKind::Character;
    }
    if is_parenthetical(line) && in_dialogue_block(previous_kind) {
        return LineKind::Parenthetical;
    }
    if in_dialogue_block(previous_kind) {
        return LineKind::Dialogue;
    }
    LineKind::Action
}

/// Classifies every line of the document, from the first line down. The result
/// has one entry for each line, in order, with the text of the line and its
/// kind.
pub fn parse_document(document: &Document) -> (parsed: Vec<ParsedLine>)
    ensures
        is_parse_of(parsed@, document@),
{
    let lines = document.lines();
    let mut parsed: Vec<ParsedLine> = Vec::with_capacity(lines.len());
    let mut previous_kind = LineKind::Empty;
    let mut n: usize = 0;
    proof {
        assert(document@.take(0) =~= Seq::<Seq<char>>::empty());
    }
    while n < lines.len()
        invariant
            n <= lines@.len(),
            lines@.len() == document@.len(),
            forall|i: int| 0 <= i < lines@.len() ==> (#[trigger] lines@[i])@ == document@[i],
            parsed@.len() == n,
            kinds_of(document@.take(n as int)).len() == n,
            previous_kind == if n == 0 {
                LineKind::Empty
            } else {
                kinds_of(document@.take(n as int)).last()
            },
            forall|i: int|
                0 <= i < n ==> (#[trigger] parsed@[i]).raw@ == document@[i] && parsed@[i].kind
                    == kinds_of(document@.take(n as int))[i],
        decreases lines@.len() - n,
    {
        let raw = &lines[n];
        let kind = classify_line(raw.as_str(), &previous_kind);
        proof {
            assert(document@.take(n + 1).drop_last() =~= document@.take(n as int));
            assert(document@.take(n + 1).last() == raw@);
        }
        previous_kind = kind;
        parsed.push(ParsedLine { kind, raw: raw.clone() });
        n = n + 1;
    }
    proof {
        assert(document@.take(n as int) =~= document@);
    }
    parsed
}

} // verus!
