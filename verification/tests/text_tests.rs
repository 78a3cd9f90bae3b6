use xtop_widgets::text::{is_single_column, sanitize_text, truncate_chars};

#[test]
fn truncate_is_char_safe_and_marks_cuts() {
    assert_eq!(truncate_chars("hello", 3), "he…");
    assert_eq!(truncate_chars("hello", 10), "hello");
    assert_eq!(truncate_chars("", 5), "");
    assert_eq!(truncate_chars("über", 2), "ü…");
}

#[test]
fn sanitize_replaces_wide_and_control_chars() {
    assert_eq!(sanitize_text("abc"), "abc");
    assert_eq!(sanitize_text("a日本b"), "a??b");
    assert_eq!(sanitize_text("a\nb"), "a?b");
    assert_eq!(sanitize_text("emoji🙂"), "emoji?");
}

#[test]
fn truncate_edge_widths() {
    assert_eq!(truncate_chars("hello", 0), "");
    assert_eq!(truncate_chars("hello", 1), "…");
    assert_eq!(truncate_chars("hello", 5), "hello");
    assert_eq!(truncate_chars("hello", 4), "hel…");
    assert_eq!(truncate_chars("a\tb", 5), "a?b");
}

#[test]
fn single_column_model_matches_char_classes() {
    for c in ['a', '│', '⣿', '█', 'ü', '…'] {
        assert!(is_single_column(c), "{c:?}");
    }
    for c in ['\n', '\u{7f}', '\u{85}', '\u{301}', '日', '🙂', '\u{200d}', '\u{fe0f}'] {
        assert!(!is_single_column(c), "{c:?}");
    }
    for cp in 0u32..0x110000 {
        if let Some(c) = char::from_u32(cp) {
            if c.is_control() {
                assert!(!is_single_column(c));
            }
        }
    }
}
