use basscript_core::parser::{
    classify_line, in_dialogue_block, is_character, is_cue_character, is_parenthetical,
    is_scene_heading, is_transition, reads_as_transition, starts_with_scene_marker,
};
use basscript_core::{parse_document, Document, LineKind, ParsedLine};

fn kinds(parsed: &[ParsedLine]) -> Vec<LineKind> {
    parsed.iter().map(|line| line.kind).collect()
}

#[test]
fn classifies_basic_fountain_subset() {
    let doc = Document::from_text(
        "INT. COFFEE SHOP - DAY\n\nSARAH\n(smiling)\nIt is just text.\nCUT TO:\n",
    );

    let parsed = parse_document(&doc);

    assert_eq!(parsed[0].kind, LineKind::SceneHeading);
    assert_eq!(parsed[1].kind, LineKind::Empty);
    assert_eq!(parsed[2].kind, LineKind::Character);
    assert_eq!(parsed[3].kind, LineKind::Parenthetical);
    assert_eq!(parsed[4].kind, LineKind::Dialogue);
    assert_eq!(parsed[5].kind, LineKind::Transition);
}

#[test]
fn classifies_mixed_case_scene_heading() {
    let doc = Document::from_text("Int. kitchen - day\nAction");
    let parsed = parse_document(&doc);

    assert_eq!(parsed[0].kind, LineKind::SceneHeading);
    assert_eq!(parsed[1].kind, LineKind::Action);
}

#[test]
fn parse_keeps_count_order_and_text() {
    let doc = Document::from_text("  INT. A  \n\nBOB\nhi\n");
    let parsed = parse_document(&doc);
    assert_eq!(parsed.len(), doc.line_count());
    for (i, line) in parsed.iter().enumerate() {
        assert_eq!(Some(line.raw.as_str()), doc.line(i));
    }
    assert_eq!(
        kinds(&parsed),
        vec![
            LineKind::SceneHeading,
            LineKind::Empty,
            LineKind::Character,
            LineKind::Dialogue,
            LineKind::Empty,
        ]
    );
}

#[test]
fn parenthetical_after_action_is_action() {
    let doc = Document::from_text("He waits.\n(quietly)");
    let parsed = parse_document(&doc);
    assert_eq!(kinds(&parsed), vec![LineKind::Action, LineKind::Action]);
    assert_eq!(classify_line("(quietly)", &LineKind::Action), LineKind::Action);
    assert_eq!(classify_line("(quietly)", &LineKind::Empty), LineKind::Action);
    assert_eq!(classify_line("(quietly)", &LineKind::SceneHeading), LineKind::Action);
    assert_eq!(classify_line("(quietly)", &LineKind::Transition), LineKind::Action);
}

#[test]
fn parenthetical_inside_a_dialogue_block() {
    assert_eq!(classify_line("(quietly)", &LineKind::Character), LineKind::Parenthetical);
    assert_eq!(classify_line("(quietly)", &LineKind::Dialogue), LineKind::Parenthetical);
    assert_eq!(classify_line("(quietly)", &LineKind::Parenthetical), LineKind::Parenthetical);
}

#[test]
fn dialogue_follows_the_block() {
    assert_eq!(classify_line("Hello there.", &LineKind::Character), LineKind::Dialogue);
    assert_eq!(classify_line("Hello there.", &LineKind::Dialogue), LineKind::Dialogue);
    assert_eq!(classify_line("Hello there.", &LineKind::Parenthetical), LineKind::Dialogue);
    assert_eq!(classify_line("Hello there.", &LineKind::Action), LineKind::Action);
    assert_eq!(classify_line("Hello there.", &LineKind::Empty), LineKind::Action);
}

#[test]
fn rules_are_tried_in_order() {
    assert_eq!(classify_line("   \t ", &LineKind::Character), LineKind::Empty);
    assert_eq!(classify_line("INT. HOUSE", &LineKind::Character), LineKind::SceneHeading);
    assert_eq!(classify_line("EXT. CUT TO:", &LineKind::Dialogue), LineKind::SceneHeading);
    assert_eq!(classify_line("CUT TO:", &LineKind::Character), LineKind::Transition);
    assert_eq!(classify_line("BOB", &LineKind::Dialogue), LineKind::Character);
    assert_eq!(classify_line("(V.O.)", &LineKind::Action), LineKind::Character);
    assert_eq!(classify_line("(V.O.)", &LineKind::Character), LineKind::Character);
}

#[test]
fn classification_is_repeatable() {
    let doc = Document::from_text("EXT. ROAD\n\nANNA\n(low)\nGo.\n\nFADE OUT.");
    let first = parse_document(&doc);
    let second = parse_document(&doc);
    assert_eq!(first, second);
    assert_eq!(kinds(&first), kinds(&second));
}

#[test]
fn scene_markers_in_any_case() {
    for line in ["INT. A", "ext. b", "Est. c", "int/ext. d", "I/e. e", "INT."] {
        assert!(is_scene_heading(line), "{line}");
    }
    for line in ["INT A", "INTERIOR.", "X INT. A", "I/E", ""] {
        assert!(!is_scene_heading(line), "{line}");
    }
}

#[test]
fn scene_heading_after_leading_white_space() {
    assert!(is_scene_heading("  \tint. room"));
    assert_eq!(classify_line("\u{3000} ext. road ", &LineKind::Empty), LineKind::SceneHeading);
}

#[test]
fn scene_heading_uses_the_unicode_uppercase_form() {
    assert!(is_scene_heading("\u{131}nt. room"));
    assert!(is_scene_heading("e\u{fb06}. room"));
}

#[test]
fn scene_marker_is_a_prefix_of_the_uppercase_text() {
    assert!(starts_with_scene_marker("INT. X"));
    assert!(starts_with_scene_marker("EXT."));
    assert!(starts_with_scene_marker("EST. X"));
    assert!(starts_with_scene_marker("INT/EXT. X"));
    assert!(starts_with_scene_marker("I/E. X"));
    assert!(!starts_with_scene_marker("int. x"));
    assert!(!starts_with_scene_marker("INT"));
    assert!(!starts_with_scene_marker(" INT. X"));
}

#[test]
fn transitions_in_any_case() {
    for line in ["CUT TO:", "cut to:", "SMASH CUT TO:", "Dissolve to:", "FADE OUT.", "fade out.", "Fade To Black."] {
        assert!(is_transition(line), "{line}");
    }
    for line in ["TO:", "CUT TO", "FADE OUT", "FADE IN.", "CUTTO:", "CUT TO: ", ""] {
        assert!(!is_transition(line), "{line}");
    }
}

#[test]
fn transition_cue_is_judged_on_the_uppercase_text() {
    assert!(reads_as_transition("X TO:"));
    assert!(reads_as_transition(" TO:"));
    assert!(reads_as_transition("CUT TO:"));
    assert!(reads_as_transition("FADE OUT."));
    assert!(reads_as_transition("FADE TO BLACK."));
    assert!(!reads_as_transition("cut to:"));
    assert!(!reads_as_transition("FADE OUT"));
    assert!(!reads_as_transition("TO:"));
}

#[test]
fn character_cues() {
    for line in ["SARAH", "DR. O'NEIL-SMITH", "SARAH (V.O.)", "COP 2", "A B C D", "-", "A  B"] {
        assert!(is_character(line), "{line}");
    }
    for line in ["Sarah", "SARAH:", "A B C D E", "", "   ", "JOSÉ", "SARAH!", "A\tB"] {
        assert!(!is_character(line), "{line}");
    }
}

#[test]
fn character_cue_length_limit() {
    let fits = "A".repeat(32);
    let too_long = "A".repeat(33);
    assert!(is_character(&fits));
    assert!(!is_character(&too_long));
}

#[test]
fn cue_characters() {
    for c in ['A', 'Z', '0', '9', ' ', '.', '(', ')', '\'', '-'] {
        assert!(is_cue_character(c), "{c}");
    }
    for c in ['a', 'z', ':', '!', ',', '\t', 'É', '@', '[', '/'] {
        assert!(!is_cue_character(c), "{c}");
    }
}

#[test]
fn parenthetical_shape() {
    assert!(is_parenthetical("(x)"));
    assert!(is_parenthetical("()"));
    assert!(is_parenthetical("(a) and (b)"));
    assert!(!is_parenthetical("("));
    assert!(!is_parenthetical(")"));
    assert!(!is_parenthetical("(x"));
    assert!(!is_parenthetical("x)"));
    assert!(!is_parenthetical(""));
}

#[test]
fn dialogue_block_kinds() {
    assert!(in_dialogue_block(&LineKind::Character));
    assert!(in_dialogue_block(&LineKind::Dialogue));
    assert!(in_dialogue_block(&LineKind::Parenthetical));
    assert!(!in_dialogue_block(&LineKind::Empty));
    assert!(!in_dialogue_block(&LineKind::SceneHeading));
    assert!(!in_dialogue_block(&LineKind::Action));
    assert!(!in_dialogue_block(&LineKind::Transition));
}
