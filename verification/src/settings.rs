//! The settings that outlast a run of the editor, and their text form: lines
//! of `key = value`, with `#` opening a comment line.

use crate::scan::first_and_last;
use crate::scan::first_index_of;
use crate::scan::pieces_between;
use crate::scan::same_text;
use crate::scan::split_on;
use crate::scan::split_once;
use crate::scan::trim;
use crate::scan::trimmed;
use vstd::prelude::*;

verus! {

/// The settings that are kept in the settings file.
#[derive(Clone, Copy, Debug, PartialEq, Eq, Structural)]
pub struct PersistentSettings {
    /// Whether two spaces in a row break a dialogue line in the processed
    /// view.
    pub dialogue_double_space_newline: bool,
}

impl Default for PersistentSettings {
    fn default() -> (settings: Self)
        ensures
            settings == (PersistentSettings { dialogue_double_space_newline: false }),
    {
        PersistentSettings { dialogue_double_space_newline: false }
    }
}

/// What a value says: `true`, `false`, or nothing that is understood.
pub open spec fn truth_of(value: Seq<char>) -> Option<bool> {
    if value == "true"@ {
        Some(true)
    } else if value == "false"@ {
        Some(false)
    } else {
        None
    }
}

/// What a single line says about `key`. A line that is empty, a comment,
/// without an equals sign or about another key says nothing about it (the
/// outer `None`); a line about `key` says what its value says.
pub open spec fn setting_in_line(line: Seq<char>, key: Seq<char>) -> Option<Option<bool>> {
    let text = trimmed(line);
    let cut = first_index_of(text, '=');
    if text.len() == 0 || text[0] == '#' {
        None
    } else if cut == text.len() {
        None
    } else if trimmed(text.take(cut)) != key {
        None
    } else {
        Some(truth_of(trimmed(text.skip(cut + 1))))
    }
}

/// What the first line about `key` says, or nothing where no line is about
/// it.
pub open spec fn setting_in_lines(lines: Seq<Seq<char>>, key: Seq<char>) -> Option<bool>
    decreases lines.len(),
{
    if lines.len() == 0 {
        None
    } else {
        match setting_in_line(lines[0], key) {
            Some(value) => value,
            None => setting_in_lines(lines.drop_first(), key),
        }
    }
}

/// The setting that a settings text holds: the value under the current key,
/// else the value under the key that older files used, else nothing.
pub open spec fn setting_in_text(contents: Seq<char>) -> Option<bool> {
    let lines = pieces_between(contents, '\n');
    match setting_in_lines(lines, "dialogue_double_space_newline"@) {
        Some(value) => Some(value),
        None => setting_in_lines(lines, "parenthetical_double_space_newline"@),
    }
}

/// The text that settings are written as.
pub open spec fn text_of_settings(settings: PersistentSettings) -> Seq<char> {
    "# BasScript settings\n# true: processed pane renders dialogue double spaces as new lines\ndialogue_double_space_newline = "@
        + if settings.dialogue_double_space_newline {
        "true"@
    } else {
        "false"@
    } + "\n"@
}

/// Reads a truth value.
pub fn parse_bool(value: &str) -> (truth: Option<bool>)
    ensures
        truth == truth_of(value@),
{
    if same_text(value, "true") {
        Some(true)
    } else if same_text(value, "false") {
        Some(false)
    } else {
        None
    }
}

/// What a single line says about `key`.
pub fn parse_setting_line(line: &str, key: &str) -> (said: Option<Option<bool>>)
    ensures
        said == setting_in_line(line@, key@),
{
    let text = trim(line);
    match first_and_last(text) {
        None => None,
        Some((first, _)) => {
            if first == '#' {
                None
            } else {
                match split_once(text, '=') {
                    None => None,
                    Some((lhs, rhs)) => {
                        if same_text(trim(lhs), key) {
                            Some(parse_bool(trim(rhs)))
                        } else {
                            None
                        }
                    },
                }
            }
        },
    }
}

/// The truth value that a settings text gives `key`: the value of the first
/// line about `key`, if that value is `true` or `false`.
pub fn parse_toml_bool(contents: &str, key: &str) -> (value: Option<bool>)
    ensures
        value == setting_in_lines(pieces_between(contents@, '\n'), key@),
{
    let lines = split_on(contents, '\n');
    let ghost all = pieces_between(contents@, '\n');
    proof {
        assert(all.skip(0) =~= all);
    }
    for i in 0..lines.len()
        invariant
            all == pieces_between(contents@, '\n'),
            lines.deep_view() == all,
            setting_in_lines(all, key@) == setting_in_lines(all.skip(i as int), key@),
    {
        proof {
            assert(lines.deep_view().len() == lines@.len());
            assert(all.skip(i as int).len() > 0);
            assert(all.skip(i as int)[0] == all[i as int]);
            assert(all.skip(i as int).drop_first() =~= all.skip(i + 1));
            assert(lines.deep_view()[i as int] == lines@[i as int]@);
        }
        match parse_setting_line(lines[i], key) {
            Some(value) => {
                return value;
            },
            None => {},
        }
    }
    None
}

/// Reads the settings from a settings text, or nothing where the text holds
/// no value for them.
pub fn settings_from_text(contents: &str) -> (settings: Option<PersistentSettings>)
    ensures
        settings == match setting_in_text(contents@) {
            Some(value) => Some(PersistentSettings { dialogue_double_space_newline: value }),
            None => None,
        },
{
    match parse_toml_bool(contents, "dialogue_double_space_newline") {
        Some(value) => Some(PersistentSettings { dialogue_double_space_newline: value }),
        None => match parse_toml_bool(contents, "parenthetical_double_space_newline") {
            Some(value) => Some(PersistentSettings { dialogue_double_space_newline: value }),
            None => None,
        },
    }
}

/// Writes the settings as a settings text.
pub fn settings_to_text(settings: &PersistentSettings) -> (contents: String)
    ensures
        contents@ == text_of_settings(*settings),
{
    let mut contents = String::new();
    contents.append(
        "# BasScript settings\n# true: processed pane renders dialogue double spaces as new lines\ndialogue_double_space_newline = ",
    );
    if settings.dialogue_double_space_newline {
        contents.append("true");
    } else {
        contents.append("false");
    }
    contents.append("\n");
    proof {
        assert(contents@ =~= text_of_settings(*settings));
    }
    contents
}

} // verus!
