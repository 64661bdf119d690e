use basscript_core::editor::{is_printable_char, is_typeable_text};
use basscript_core::{Document, Editor, LineKind, Motion, Position};

fn at(line: usize, column: usize) -> Position {
    Position { line, column }
}

fn session(text: &str) -> Editor {
    Editor::new(Document::from_text(text))
}

fn kinds(editor: &Editor) -> Vec<LineKind> {
    editor.parsed().iter().map(|line| line.kind).collect()
}

#[test]
fn a_new_session_starts_at_the_origin() {
    let editor = session("INT. A\nx");
    assert_eq!(editor.cursor().position, at(0, 0));
    assert_eq!(editor.cursor().preferred_column, 0);
    assert_eq!(editor.top_line(), 0);
    assert_eq!(editor.document().to_text(), "INT. A\nx");
    assert_eq!(kinds(&editor), vec![LineKind::SceneHeading, LineKind::Action]);
}

#[test]
fn replacing_the_document_resets_the_session() {
    let mut editor = session("a\nb\nc");
    editor.set_cursor(at(2, 1), true);
    editor.scroll_by(1, 1);
    editor.replace_document(Document::from_text("BOB\nhi"));
    assert_eq!(editor.cursor().position, at(0, 0));
    assert_eq!(editor.cursor().preferred_column, 0);
    assert_eq!(editor.top_line(), 0);
    assert_eq!(kinds(&editor), vec![LineKind::Character, LineKind::Dialogue]);
}

#[test]
fn set_cursor_clamps_and_may_keep_the_preferred_column() {
    let mut editor = session("abc\nde");
    editor.set_cursor(at(0, 3), true);
    assert_eq!(editor.cursor().position, at(0, 3));
    assert_eq!(editor.cursor().preferred_column, 3);
    editor.set_cursor(at(9, 9), false);
    assert_eq!(editor.cursor().position, at(1, 2));
    assert_eq!(editor.cursor().preferred_column, 3);
    editor.set_cursor(at(9, 9), true);
    assert_eq!(editor.cursor().preferred_column, 2);
}

#[test]
fn max_top_line_leaves_a_full_screen() {
    let editor = session("1\n2\n3\n4\n5");
    assert_eq!(editor.max_top_line(2), 3);
    assert_eq!(editor.max_top_line(5), 0);
    assert_eq!(editor.max_top_line(9), 0);
    assert_eq!(editor.max_top_line(1), 4);
    assert_eq!(editor.max_top_line(0), 4);
}

#[test]
fn scrolling_stays_within_the_document() {
    let mut editor = session("1\n2\n3\n4\n5");
    editor.scroll_by(2, 2);
    assert_eq!(editor.top_line(), 2);
    editor.scroll_by(9, 2);
    assert_eq!(editor.top_line(), 3);
    editor.scroll_by(-1, 2);
    assert_eq!(editor.top_line(), 2);
    editor.scroll_by(-9, 2);
    assert_eq!(editor.top_line(), 0);
    editor.scroll_by(isize::MAX, 2);
    assert_eq!(editor.top_line(), 3);
    editor.scroll_by(isize::MIN, 2);
    assert_eq!(editor.top_line(), 0);
    editor.scroll_by(4, 1);
    assert_eq!(editor.top_line(), 4);
    editor.clamp_scroll(3);
    assert_eq!(editor.top_line(), 2);
    editor.clamp_scroll(1);
    assert_eq!(editor.top_line(), 2);
}

#[test]
fn the_screen_follows_the_cursor() {
    let mut editor = session("1\n2\n3\n4\n5\n6");
    editor.set_cursor(at(4, 0), true);
    editor.ensure_cursor_visible(3);
    assert_eq!(editor.top_line(), 2);
    editor.set_cursor(at(3, 0), true);
    editor.ensure_cursor_visible(3);
    assert_eq!(editor.top_line(), 2);
    editor.set_cursor(at(1, 0), true);
    editor.ensure_cursor_visible(3);
    assert_eq!(editor.top_line(), 1);
    editor.set_cursor(at(5, 0), true);
    editor.ensure_cursor_visible(3);
    assert_eq!(editor.top_line(), 3);
    editor.ensure_cursor_visible(0);
    assert_eq!(editor.top_line(), 5);
}

#[test]
fn the_cursor_follows_the_screen() {
    let mut editor = session("one\ntwo2\nthree\nfour\nfive\nsix");
    editor.set_cursor(at(0, 3), true);
    editor.scroll_by(2, 3);
    editor.clamp_cursor_to_visible_range(3);
    assert_eq!(editor.cursor().position, at(2, 3));
    assert_eq!(editor.cursor().preferred_column, 3);
    editor.set_cursor(at(5, 2), true);
    editor.scroll_by(-2, 3);
    editor.clamp_cursor_to_visible_range(3);
    assert_eq!(editor.cursor().position, at(2, 2));
    editor.clamp_cursor_to_visible_range(3);
    assert_eq!(editor.cursor().position, at(2, 2));
}

#[test]
fn in_an_empty_document_the_cursor_goes_to_the_origin() {
    let mut editor = session("");
    editor.clamp_cursor_to_visible_range(3);
    assert_eq!(editor.cursor().position, at(0, 0));
    assert_eq!(editor.cursor().preferred_column, 0);
}

#[test]
fn horizontal_moves_set_the_preferred_column() {
    let mut editor = session("ab\ncd");
    editor.navigate(Motion::Right, 10);
    assert_eq!(editor.cursor().position, at(0, 1));
    assert_eq!(editor.cursor().preferred_column, 1);
    editor.navigate(Motion::Right, 10);
    editor.navigate(Motion::Right, 10);
    assert_eq!(editor.cursor().position, at(1, 0));
    assert_eq!(editor.cursor().preferred_column, 0);
    editor.navigate(Motion::Left, 10);
    assert_eq!(editor.cursor().position, at(0, 2));
    assert_eq!(editor.cursor().preferred_column, 2);
    editor.navigate(Motion::Home, 10);
    assert_eq!(editor.cursor().position, at(0, 0));
    assert_eq!(editor.cursor().preferred_column, 0);
    editor.navigate(Motion::End, 10);
    assert_eq!(editor.cursor().position, at(0, 2));
    assert_eq!(editor.cursor().preferred_column, 2);
}

#[test]
fn vertical_moves_remember_the_preferred_column() {
    let mut editor = session("long line\nab\nlonger line");
    editor.set_cursor(at(0, 7), true);
    editor.navigate(Motion::Down, 10);
    assert_eq!(editor.cursor().position, at(1, 2));
    assert_eq!(editor.cursor().preferred_column, 7);
    editor.navigate(Motion::Down, 10);
    assert_eq!(editor.cursor().position, at(2, 7));
    editor.navigate(Motion::Down, 10);
    assert_eq!(editor.cursor().position, at(2, 7));
    editor.navigate(Motion::Up, 10);
    editor.navigate(Motion::Up, 10);
    assert_eq!(editor.cursor().position, at(0, 7));
    editor.navigate(Motion::Up, 10);
    assert_eq!(editor.cursor().position, at(0, 7));
}

#[test]
fn page_keys_move_by_a_screen_less_one() {
    let mut editor = session("0\n1\n2\n3\n4\n5\n6\n7\n8\n9");
    editor.navigate(Motion::PageDown, 4);
    assert_eq!(editor.cursor().position, at(3, 0));
    editor.navigate(Motion::PageDown, 4);
    editor.navigate(Motion::PageDown, 4);
    editor.navigate(Motion::PageDown, 4);
    assert_eq!(editor.cursor().position, at(9, 0));
    editor.navigate(Motion::PageUp, 4);
    assert_eq!(editor.cursor().position, at(6, 0));
    editor.navigate(Motion::PageUp, 1);
    assert_eq!(editor.cursor().position, at(5, 0));
    editor.navigate(Motion::PageUp, 0);
    assert_eq!(editor.cursor().position, at(4, 0));
    editor.navigate(Motion::PageUp, 100);
    assert_eq!(editor.cursor().position, at(0, 0));
    editor.navigate(Motion::PageDown, usize::MAX);
    assert_eq!(editor.cursor().position, at(9, 0));
}

#[test]
fn page_keys_keep_the_preferred_column() {
    let mut editor = session("abcdef\nx\nabcdef");
    editor.set_cursor(at(0, 5), true);
    editor.navigate(Motion::PageDown, 2);
    assert_eq!(editor.cursor().position, at(1, 1));
    assert_eq!(editor.cursor().preferred_column, 5);
    editor.navigate(Motion::PageDown, 2);
    assert_eq!(editor.cursor().position, at(2, 5));
}

#[test]
fn keys_edit_and_classify() {
    let mut editor = session("");
    assert!(editor.type_text("INT. ROOM"));
    editor.press_enter();
    assert!(editor.type_text("BOB"));
    editor.press_enter();
    assert!(editor.type_text("Hix"));
    editor.press_backspace();
    assert_eq!(editor.document().to_text(), "INT. ROOM\nBOB\nHi");
    assert_eq!(editor.cursor().position, at(2, 2));
    assert_eq!(editor.cursor().preferred_column, 2);
    assert_eq!(
        kinds(&editor),
        vec![LineKind::SceneHeading, LineKind::Character, LineKind::Dialogue]
    );
}

#[test]
fn delete_keeps_the_preferred_column() {
    let mut editor = session("abc\nde");
    editor.set_cursor(at(0, 3), true);
    editor.navigate(Motion::Down, 10);
    assert_eq!(editor.cursor().position, at(1, 2));
    editor.navigate(Motion::Up, 10);
    editor.press_delete();
    assert_eq!(editor.document().to_text(), "abcde");
    assert_eq!(editor.cursor().position, at(0, 3));
    assert_eq!(editor.cursor().preferred_column, 3);
    editor.press_delete();
    assert_eq!(editor.document().to_text(), "abce");
    assert_eq!(kinds(&editor), vec![LineKind::Action]);
}

#[test]
fn text_with_control_characters_is_not_typed() {
    let mut editor = session("ab");
    assert!(!editor.type_text("x\u{8}y"));
    assert!(!editor.type_text("\u{e000}"));
    assert_eq!(editor.document().to_text(), "ab");
    assert_eq!(editor.cursor().position, at(0, 0));
    assert!(editor.type_text(""));
    assert_eq!(editor.document().to_text(), "ab");
}

#[test]
fn printable_characters() {
    for c in ['a', ' ', 'é', '日', '🎬', '\u{80}', '\u{d7ff}', '\u{f900}', '\u{effff}', '\u{ffffe}', '\u{10fffe}'] {
        assert!(is_printable_char(c), "{c:?}");
    }
    for c in ['\0', '\n', '\t', '\r', '\u{1f}', '\u{7f}', '\u{e000}', '\u{f8ff}', '\u{f0000}', '\u{ffffd}', '\u{100000}', '\u{10fffd}'] {
        assert!(!is_printable_char(c), "{c:?}");
    }
    assert!(is_typeable_text("plain text"));
    assert!(is_typeable_text(""));
    assert!(!is_typeable_text("line\nfeed"));
}

#[test]
fn printable_is_what_the_ranges_say() {
    for code in 0u32..=0x10FFFF {
        if let Some(c) = char::from_u32(code) {
            let private_use = ('\u{e000}'..='\u{f8ff}').contains(&c)
                || ('\u{f0000}'..='\u{ffffd}').contains(&c)
                || ('\u{100000}'..='\u{10fffd}').contains(&c);
            assert_eq!(is_printable_char(c), !private_use && !c.is_ascii_control(), "U+{code:04X}");
        }
    }
}

#[test]
fn plain_line_under_the_pointer() {
    let mut editor = session("0\n1\n2\n3");
    editor.scroll_by(1, 2);
    assert_eq!(editor.plain_line_at(0), 1);
    assert_eq!(editor.plain_line_at(2), 3);
    assert_eq!(editor.plain_line_at(9), 3);
    assert_eq!(editor.plain_line_at(usize::MAX), 3);
}

#[test]
fn visible_plain_lines_start_at_the_top_line() {
    let mut editor = session("0\n1\n2\n3");
    assert_eq!(editor.visible_plain_lines(2), vec!["0".to_string(), "1".to_string()]);
    editor.scroll_by(3, 1);
    assert_eq!(editor.visible_plain_lines(2), vec!["3".to_string()]);
    assert_eq!(editor.visible_plain_lines(0), Vec::<String>::new());
    editor.scroll_by(-2, 1);
    assert_eq!(
        editor.visible_plain_lines(usize::MAX),
        vec!["1".to_string(), "2".to_string(), "3".to_string()]
    );
}
