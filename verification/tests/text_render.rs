use streamtabs::{
    clip_ansi_to_visible_width, clip_to_width, clip_with_ellipsis, fit_tab_title,
    first_body_row, format_unread_slot, is_ansi_final_byte, strip_ansi, tab_columns_limit,
    tab_shortcut_label,
};

#[test]
fn clip_limits_char_count() {
    assert_eq!(clip_to_width("abcdef", 0), "");
    assert_eq!(clip_to_width("abcdef", 3), "abc");
    assert_eq!(clip_to_width("abc", 10), "abc");
}

#[test]
fn ansi_clip_uses_visible_width() {
    let text = "\u{1b}[2m2026-02-06\u{1b}[0m INFO module message";
    let clipped = clip_ansi_to_visible_width(text, 10);
    assert_eq!(
        clipped.replace("\u{1b}[2m", "").replace("\u{1b}[0m", ""),
        "2026-02-06"
    );
}

#[test]
fn ansi_clip_resets_if_cut_mid_styled_content() {
    let text = "\u{1b}[31mERROR something happened\u{1b}[0m";
    let clipped = clip_ansi_to_visible_width(text, 5);
    assert!(clipped.ends_with("\u{1b}[0m"));
}

#[test]
fn strip_ansi_removes_escape_sequences() {
    let text = "\u{1b}[2m2026-02-06\u{1b}[0m \u{1b}[31mERROR\u{1b}[0m line";
    assert_eq!(strip_ansi(text), "2026-02-06 ERROR line");
}

#[test]
fn clip_with_ellipsis_marks_truncation() {
    assert_eq!(clip_with_ellipsis("abcdef", 6), "abcdef");
    assert_eq!(clip_with_ellipsis("abcdef", 5), "ab...");
    assert_eq!(clip_with_ellipsis("abcdef", 3), "...");
}

#[test]
fn tab_title_fits_budget() {
    assert_eq!(fit_tab_title("hello", 8), " hello  ");
    assert_eq!(fit_tab_title("very-long-label", 8), " ver... ");
    assert_eq!(fit_tab_title("ignored", 2), "  ");
}

#[test]
fn body_is_bottom_anchored_when_not_full() {
    assert_eq!(first_body_row(3, 10, 1), 12);
    assert_eq!(first_body_row(3, 10, 10), 3);
}

#[test]
fn unread_slot_is_fixed_width_and_caps() {
    assert_eq!(format_unread_slot(0), "      ");
    assert_eq!(format_unread_slot(7), "    \u{2022}7");
    assert_eq!(format_unread_slot(999), "  \u{2022}999");
    assert_eq!(format_unread_slot(1000), " \u{2022}999+");
}

#[test]
fn strip_of_ansi_clip_matches_plain_clip_of_strip() {
    let samples = [
        "\u{1b}[2m2026-02-06\u{1b}[0m INFO msg",
        "plain text with no escapes",
        "\u{1b}[31mred\u{1b}[0m and \u{1b}[32mgreen\u{1b}[0m",
        "ends with escape \u{1b}",
        "",
    ];
    for text in samples {
        for width in [0usize, 1, 3, 10, 100] {
            let via_ansi = strip_ansi(&clip_ansi_to_visible_width(text, width));
            let via_plain = clip_to_width(&strip_ansi(text), width);
            assert_eq!(via_ansi, via_plain);
        }
    }
}

#[test]
fn ansi_final_byte_range() {
    assert!(is_ansi_final_byte('m'));
    assert!(is_ansi_final_byte('@'));
    assert!(is_ansi_final_byte('~'));
    assert!(!is_ansi_final_byte('0'));
    assert!(!is_ansi_final_byte(';'));
    assert!(!is_ansi_final_byte('\u{1b}'));
}

#[test]
fn shortcut_labels_are_decimal() {
    assert_eq!(tab_shortcut_label(0), "0");
    assert_eq!(tab_shortcut_label(5), "5");
    assert_eq!(tab_shortcut_label(12), "12");
    assert_eq!(tab_shortcut_label(107), "107");
}

#[test]
fn paused_marker_reserves_columns() {
    assert_eq!(tab_columns_limit(80, false), 80);
    assert_eq!(tab_columns_limit(80, true), 71);
    assert_eq!(tab_columns_limit(4, true), 0);
}
