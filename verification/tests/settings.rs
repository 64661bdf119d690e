use basscript_core::settings::{
    parse_bool, parse_setting_line, parse_toml_bool, settings_from_text, settings_to_text,
};
use basscript_core::PersistentSettings;

#[test]
fn default_settings_are_off() {
    assert!(!PersistentSettings::default().dialogue_double_space_newline);
}

#[test]
fn truth_values() {
    assert_eq!(parse_bool("true"), Some(true));
    assert_eq!(parse_bool("false"), Some(false));
    assert_eq!(parse_bool("True"), None);
    assert_eq!(parse_bool(""), None);
    assert_eq!(parse_bool(" true"), None);
    assert_eq!(parse_bool("1"), None);
}

#[test]
fn a_line_about_the_key_decides() {
    assert_eq!(parse_setting_line("a = true", "a"), Some(Some(true)));
    assert_eq!(parse_setting_line("  a=false  ", "a"), Some(Some(false)));
    assert_eq!(parse_setting_line("a = yes", "a"), Some(None));
    assert_eq!(parse_setting_line("a = true = false", "a"), Some(None));
    assert_eq!(parse_setting_line("a =", "a"), Some(None));
}

#[test]
fn other_lines_say_nothing() {
    assert_eq!(parse_setting_line("", "a"), None);
    assert_eq!(parse_setting_line("   ", "a"), None);
    assert_eq!(parse_setting_line("# a = true", "a"), None);
    assert_eq!(parse_setting_line("  # a = true", "a"), None);
    assert_eq!(parse_setting_line("a true", "a"), None);
    assert_eq!(parse_setting_line("b = true", "a"), None);
    assert_eq!(parse_setting_line("aa = true", "a"), None);
    assert_eq!(parse_setting_line("= true", "a"), None);
}

#[test]
fn the_first_line_about_the_key_wins() {
    assert_eq!(parse_toml_bool("a = true\na = false", "a"), Some(true));
    assert_eq!(parse_toml_bool("a = maybe\na = false", "a"), None);
    assert_eq!(parse_toml_bool("# a = false\n\nb = false\r\na = true\r\n", "a"), Some(true));
    assert_eq!(parse_toml_bool("b = true", "a"), None);
    assert_eq!(parse_toml_bool("", "a"), None);
}

#[test]
fn settings_are_read_from_either_key() {
    assert_eq!(
        settings_from_text("dialogue_double_space_newline = true\n"),
        Some(PersistentSettings { dialogue_double_space_newline: true })
    );
    assert_eq!(
        settings_from_text("parenthetical_double_space_newline = true\n"),
        Some(PersistentSettings { dialogue_double_space_newline: true })
    );
    assert_eq!(
        settings_from_text(
            "parenthetical_double_space_newline = true\ndialogue_double_space_newline = false\n"
        ),
        Some(PersistentSettings { dialogue_double_space_newline: false })
    );
    assert_eq!(settings_from_text("something_else = true\n"), None);
    assert_eq!(settings_from_text(""), None);
}

#[test]
fn a_bad_value_under_the_current_key_falls_back_to_the_old_key() {
    assert_eq!(
        settings_from_text(
            "dialogue_double_space_newline = on\nparenthetical_double_space_newline = true\n"
        ),
        Some(PersistentSettings { dialogue_double_space_newline: true })
    );
}

#[test]
fn settings_text_is_exact() {
    assert_eq!(
        settings_to_text(&PersistentSettings { dialogue_double_space_newline: true }),
        "# BasScript settings\n# true: processed pane renders dialogue double spaces as new lines\ndialogue_double_space_newline = true\n"
    );
    assert_eq!(
        settings_to_text(&PersistentSettings { dialogue_double_space_newline: false }),
        "# BasScript settings\n# true: processed pane renders dialogue double spaces as new lines\ndialogue_double_space_newline = false\n"
    );
}

#[test]
fn written_settings_are_read_back() {
    for value in [true, false] {
        let settings = PersistentSettings { dialogue_double_space_newline: value };
        assert_eq!(settings_from_text(&settings_to_text(&settings)), Some(settings));
    }
}
