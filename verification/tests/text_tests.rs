use tgforward::entity_trim::{should_trim_long_entities, trim_long_entities_if_needed};
use tgforward::model::{EntityType, TextEntity};
use tgforward::text::{clean_text, find_last_paragraph_boundary, str_is_blank, truncate_by_paragraph, truncate_text};
use tgforward::utf16::{char_from_utf16_offset, utf16_len, utf16_offset, utf16_slice};

fn entity(offset: i32, length: i32, kind: EntityType) -> TextEntity {
    TextEntity { offset, length, entity_type: kind, data: None }
}

#[test]
fn utf16_len_counts_surrogate_pairs_twice() {
    assert_eq!(utf16_len("abc"), 3);
    assert_eq!(utf16_len("a😀"), 3);
    assert_eq!(utf16_len("你好"), 2);
    assert_eq!(utf16_len(""), 0);
}

#[test]
fn utf16_offset_of_byte_positions() {
    // "a😀b": bytes 0, 1..5, 5
    assert_eq!(utf16_offset("a😀b", 0), 0);
    assert_eq!(utf16_offset("a😀b", 1), 1);
    assert_eq!(utf16_offset("a😀b", 5), 3);
    assert_eq!(utf16_offset("a😀b", 100), 4);
}

#[test]
fn char_from_utf16_offset_rounds_down_inside_a_char() {
    // "a😀b": utf16 0 -> byte 0, 1 -> byte 1, 2 (inside the emoji) -> byte 1, 3 -> byte 5
    assert_eq!(char_from_utf16_offset("a😀b", 0), 0);
    assert_eq!(char_from_utf16_offset("a😀b", 1), 1);
    assert_eq!(char_from_utf16_offset("a😀b", 2), 1);
    assert_eq!(char_from_utf16_offset("a😀b", 3), 5);
    assert_eq!(char_from_utf16_offset("a😀b", 9), 6);
}

#[test]
fn utf16_offset_round_trips_on_char_boundaries() {
    for b in [0usize, 1, 5, 6] {
        assert_eq!(char_from_utf16_offset("a😀b", utf16_offset("a😀b", b)), b);
    }
    for k in 0..5usize {
        let i = char_from_utf16_offset("a😀b", k);
        assert!("a😀b".is_char_boundary(i));
        assert!(utf16_offset("a😀b", i) <= k);
    }
}

#[test]
fn utf16_slice_takes_whole_chars() {
    assert_eq!(utf16_slice("hello world", 0, 5), "hello");
    assert_eq!(utf16_slice("a😀b", 1, 3), "😀");
    assert_eq!(utf16_slice("a😀b", 2, 4), "😀b");
}

#[test]
fn truncate_text_keeps_short_texts() {
    assert_eq!(truncate_text("hello", 5), "hello");
    assert_eq!(truncate_text("hello world", 8), "hello...");
    assert_eq!(truncate_text("hello world", 2), "...");
    assert_eq!(truncate_text("你好世界你好", 5), "你好...");
}

#[test]
fn paragraph_boundary_is_last_newline_within_budget() {
    assert_eq!(find_last_paragraph_boundary("ab\ncd\nef", 6), (6, true));
    assert_eq!(find_last_paragraph_boundary("ab\ncd\nef", 5), (3, true));
    assert_eq!(find_last_paragraph_boundary("abcdef", 4), (0, false));
}

#[test]
fn truncate_by_paragraph_cuts_at_newline_or_adds_ellipsis() {
    assert_eq!(truncate_by_paragraph("ab\n\ncd\nef", 7), "ab\n\ncd");
    assert_eq!(truncate_by_paragraph("abcdefgh", 6), "abc...");
    assert_eq!(truncate_by_paragraph("abcdefgh", 0), "");
}

#[test]
fn clean_text_drops_punctuation_and_lowercases() {
    assert_eq!(clean_text("Hello, World!"), "helloworld");
    assert_eq!(clean_text("你好，世界 ABC_1"), "你好世界abc_1");
}

#[test]
fn long_entities_are_detected_by_length() {
    assert!(!should_trim_long_entities("short"));
}

#[test]
fn trimming_keeps_a_text_that_fits() {
    let es = vec![entity(0, 5, EntityType::Bold)];
    let (t, out) = trim_long_entities_if_needed("hello world", &es, 100, 0, 0);
    assert_eq!(t, "hello world");
    assert_eq!(out.len(), 1);
    assert_eq!(out[0].offset, 0);
    assert_eq!(out[0].length, 5);
}

#[test]
fn long_text_detection_threshold() {
    let long = "a".repeat(1025);
    let edge = "a".repeat(1024);
    assert!(should_trim_long_entities(&long));
    assert!(!should_trim_long_entities(&edge));
}

#[test]
fn trimming_removes_code_blocks_first() {
    let text = "abc0123456789xyz";
    let es = vec![
        entity(0, 2, EntityType::Bold),
        entity(3, 10, EntityType::Code),
        entity(13, 3, EntityType::Italic),
    ];
    let (t, out) = trim_long_entities_if_needed(text, &es, 10, 0, 0);
    assert_eq!(t, "abcxyz");
    assert_eq!(out.len(), 2);
    assert_eq!((out[0].offset, out[0].length, out[0].entity_type), (0, 2, EntityType::Bold));
    assert_eq!((out[1].offset, out[1].length, out[1].entity_type), (3, 3, EntityType::Italic));
}

#[test]
fn trimming_without_code_cuts_at_a_paragraph() {
    let text = "aaaa\nbbbb\ncccc";
    let es = vec![entity(0, 4, EntityType::Bold), entity(5, 4, EntityType::Italic)];
    let (t, out) = trim_long_entities_if_needed(text, &es, 10, 0, 0);
    assert_eq!(t, "aaaa");
    assert_eq!(out.len(), 1);
    assert_eq!(out[0].entity_type, EntityType::Bold);
}

#[test]
fn text_within_limit_keeps_entities_even_if_they_overflow() {
    let es = vec![entity(i32::MAX, 1, EntityType::Bold)];
    let (t, out) = trim_long_entities_if_needed("hi", &es, 100, 0, 0);
    assert_eq!(t, "hi");
    assert_eq!(out.len(), 1);
    assert_eq!((out[0].offset, out[0].length), (i32::MAX, 1));
}

#[test]
fn blank_means_every_char_is_unicode_whitespace() {
    for u in 0u32..0x11_0000 {
        if let Some(c) = char::from_u32(u) {
            assert_eq!(str_is_blank(&c.to_string()), c.is_whitespace(), "U+{:04X}", u);
        }
    }
}
