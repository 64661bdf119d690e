use basscript_core::text::{
    byte_distance, byte_to_char_index, char_count, char_to_byte_index, utf8_width,
};

#[test]
fn width_is_the_encoded_length() {
    for c in ['\0', 'a', '\u{7f}', '\u{80}', 'é', '\u{7ff}', '\u{800}', '日', '\u{ffff}', '\u{10000}', '🎬', '\u{10ffff}'] {
        assert_eq!(utf8_width(c), c.len_utf8(), "{c:?}");
    }
}

#[test]
fn char_count_counts_scalar_values() {
    assert_eq!(char_count(""), 0);
    assert_eq!(char_count("abc"), 3);
    assert_eq!(char_count("héllo"), 5);
    assert_eq!(char_count("日本語🎬"), 4);
}

#[test]
fn column_to_offset() {
    let text = "aé日🎬z";
    assert_eq!(char_to_byte_index(text, 0), 0);
    assert_eq!(char_to_byte_index(text, 1), 1);
    assert_eq!(char_to_byte_index(text, 2), 3);
    assert_eq!(char_to_byte_index(text, 3), 6);
    assert_eq!(char_to_byte_index(text, 4), 10);
    assert_eq!(char_to_byte_index(text, 5), 11);
    assert_eq!(char_to_byte_index(text, 6), 11);
    assert_eq!(char_to_byte_index(text, usize::MAX), 11);
    assert_eq!(char_to_byte_index("", 3), 0);
}

#[test]
fn offset_to_column() {
    let text = "aé日🎬z";
    assert_eq!(byte_to_char_index(text, 0), 0);
    assert_eq!(byte_to_char_index(text, 1), 1);
    assert_eq!(byte_to_char_index(text, 2), 2);
    assert_eq!(byte_to_char_index(text, 3), 2);
    assert_eq!(byte_to_char_index(text, 6), 3);
    assert_eq!(byte_to_char_index(text, 10), 4);
    assert_eq!(byte_to_char_index(text, 11), 5);
    assert_eq!(byte_to_char_index(text, 99), 5);
}

#[test]
fn column_survives_the_way_through_offsets() {
    let text = "aé日🎬z";
    for column in 0..8usize {
        let offset = char_to_byte_index(text, column);
        assert_eq!(byte_to_char_index(text, offset), column.min(5));
    }
}

#[test]
fn distance_from_a_run_of_bytes() {
    assert_eq!(byte_distance(2, 5, 3), 3);
    assert_eq!(byte_distance(5, 5, 3), 0);
    assert_eq!(byte_distance(7, 5, 3), 0);
    assert_eq!(byte_distance(8, 5, 3), 0);
    assert_eq!(byte_distance(9, 5, 3), 1);
    assert_eq!(byte_distance(0, 0, 0), 0);
    assert_eq!(byte_distance(usize::MAX, 5, usize::MAX), 0);
    assert_eq!(byte_distance(0, usize::MAX, 1), usize::MAX);
}
