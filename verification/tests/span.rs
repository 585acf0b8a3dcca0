use page_render::span::{byte_index_to_char_index, byte_span_to_char_span, CharIndex};

fn at(first_byte: usize, char_index: usize) -> Option<CharIndex> {
    Some(CharIndex { first_byte, char_index })
}

#[test]
fn ascii_index_is_the_byte_offset() {
    let text = "hello world";
    for byte in 0..text.len() {
        assert_eq!(byte_index_to_char_index(text, byte), at(byte, byte));
    }
}

#[test]
fn ascii_span_keeps_its_offsets() {
    let text = "hello world";
    for byte in 0..text.len() {
        assert_eq!(byte_span_to_char_span(text, byte..byte), Some(byte..byte));
    }
}

#[test]
fn two_byte_character_shifts_later_offsets_by_one() {
    // h is byte 0, é is bytes 1 and 2, and o is byte 5 but character 4
    let text = "héllo world";
    assert_eq!(byte_index_to_char_index(text, 0), at(0, 0));
    assert_eq!(byte_index_to_char_index(text, 1), at(1, 1));
    assert_eq!(byte_index_to_char_index(text, 3), at(3, 2));
    assert_eq!(byte_index_to_char_index(text, 5), at(5, 4));
    assert_eq!(byte_span_to_char_span(text, 5..5), Some(4..4));
    assert_eq!(byte_span_to_char_span(text, 12..12), None);
    assert_eq!(byte_span_to_char_span(text, 11..11), Some(10..10));
}

#[test]
fn wide_characters_shift_by_their_extra_bytes() {
    // a: 1 byte, é: 2 bytes, €: 3 bytes, 𝄞: 4 bytes, z: 1 byte
    let text = "aé€𝄞z";
    assert_eq!(text.len(), 11);
    assert_eq!(byte_index_to_char_index(text, 0), at(0, 0));
    assert_eq!(byte_index_to_char_index(text, 1), at(1, 1));
    assert_eq!(byte_index_to_char_index(text, 3), at(3, 2));
    assert_eq!(byte_index_to_char_index(text, 6), at(6, 3));
    assert_eq!(byte_index_to_char_index(text, 10), at(10, 4));
    assert_eq!(byte_span_to_char_span(text, 3..3), Some(2..2));
    assert_eq!(byte_span_to_char_span(text, 6..6), Some(3..3));
    assert_eq!(byte_span_to_char_span(text, 10..10), Some(4..4));
}

#[test]
fn offset_inside_a_character_resolves_to_the_next_one() {
    let text = "aé€𝄞z";
    assert_eq!(byte_index_to_char_index(text, 2), at(3, 2));
    assert_eq!(byte_index_to_char_index(text, 4), at(6, 3));
    assert_eq!(byte_index_to_char_index(text, 5), at(6, 3));
    assert_eq!(byte_index_to_char_index(text, 7), at(10, 4));
    assert_eq!(byte_index_to_char_index(text, 9), at(10, 4));
    assert_eq!(byte_span_to_char_span(text, 2..2), Some(2..2));
    assert_eq!(byte_span_to_char_span(text, 8..8), Some(4..4));
}

#[test]
fn offset_inside_the_last_character_has_no_boundary() {
    let text = "aé";
    assert_eq!(byte_index_to_char_index(text, 1), at(1, 1));
    assert_eq!(byte_index_to_char_index(text, 2), None);
    assert_eq!(byte_span_to_char_span(text, 2..2), None);
}

#[test]
fn offset_beyond_the_text_yields_none() {
    let text = "hello";
    assert_eq!(byte_index_to_char_index(text, 6), None);
    assert_eq!(byte_index_to_char_index(text, 1000), None);
    assert_eq!(byte_index_to_char_index(text, usize::MAX), None);
    assert_eq!(byte_span_to_char_span(text, 6..6), None);
    assert_eq!(byte_span_to_char_span(text, 6..9), None);
    assert_eq!(byte_span_to_char_span(text, 2..9), None);
    assert_eq!(byte_span_to_char_span(text, 9..2), None);
    assert_eq!(byte_span_to_char_span(text, usize::MAX..usize::MAX), None);
}

#[test]
fn end_of_text_is_no_boundary() {
    let text = "hello";
    assert_eq!(byte_index_to_char_index(text, 4), at(4, 4));
    assert_eq!(byte_index_to_char_index(text, 5), None);
    assert_eq!(byte_span_to_char_span(text, 5..5), None);
}

#[test]
fn empty_text_has_no_boundary() {
    assert_eq!(byte_index_to_char_index("", 0), None);
    assert_eq!(byte_index_to_char_index("", 1), None);
    assert_eq!(byte_span_to_char_span("", 0..0), None);
}

#[test]
fn empty_span_yields_zero_width_range() {
    let text = "héllo world";
    let range = byte_span_to_char_span(text, 3..3).unwrap();
    assert_eq!(range.start, range.end);
    assert_eq!(range, 2..2);
}

#[test]
fn span_with_distinct_bounds_yields_none() {
    let text = "hello world";
    assert_eq!(byte_span_to_char_span(text, 1..3), None);
    assert_eq!(byte_span_to_char_span(text, 3..1), None);
    assert_eq!(byte_span_to_char_span(text, 0..1), None);
    assert_eq!(byte_span_to_char_span(text, 0..usize::MAX), None);
    assert_eq!(byte_span_to_char_span(text, 0..11), None);
}

#[test]
fn shifting_adds_both_coordinates() {
    let start = CharIndex { first_byte: 5, char_index: 4 };
    let relative = CharIndex { first_byte: 3, char_index: 2 };
    assert_eq!(relative + start, CharIndex { first_byte: 8, char_index: 6 });
    let origin = CharIndex { first_byte: 0, char_index: 0 };
    assert_eq!(origin + start, start);
}

#[test]
fn char_offsets_never_exceed_char_count() {
    let text = "ünïcödé text";
    let chars = text.chars().count();
    for byte in 0..=text.len() + 2 {
        if let Some(range) = byte_span_to_char_span(text, byte..byte) {
            assert!(range.start <= range.end);
            assert!(range.end < chars);
            let found = byte_index_to_char_index(text, byte).unwrap();
            assert_eq!(range.start, found.char_index);
            assert_eq!(text.char_indices().nth(found.char_index).unwrap().0, found.first_byte);
        }
    }
}

#[test]
fn index_agrees_with_char_indices() {
    let text = "a\u{80}\u{7ff}\u{800}\u{ffff}\u{10000}\u{10ffff}\n\tb";
    for byte in 0..=text.len() + 1 {
        let expected = text
            .char_indices()
            .enumerate()
            .map(|(char_index, (first_byte, _))| CharIndex { first_byte, char_index })
            .find(|index| index.first_byte >= byte);
        assert_eq!(byte_index_to_char_index(text, byte), expected);
    }
}

#[test]
fn char_offset_is_byte_offset_less_the_continuation_bytes_before_it() {
    let text = "añ€𝄞b\u{7ff}c";
    let bytes = text.as_bytes();
    for byte in 0..text.len() {
        let extra = bytes[..byte].iter().filter(|b| (0x80..=0xbf).contains(*b)).count();
        if let Some(found) = byte_index_to_char_index(text, byte) {
            assert_eq!(found.char_index, byte - extra);
        }
        if let Some(range) = byte_span_to_char_span(text, byte..byte) {
            assert_eq!(range, byte - extra..byte - extra);
        }
    }
    // ñ takes two bytes and € three, so 𝄞 is byte 6 and character 3
    assert_eq!(byte_span_to_char_span(text, 6..6), Some(3..3));
}
