use streamtabs::{key_message_from_byte, try_parse_sgr_mouse_message, InputParser, UiMessage};

#[test]
fn key_mapping_handles_supported_keys() {
    assert!(matches!(
        key_message_from_byte(b'\t'),
        Some(UiMessage::NextTab)
    ));
    assert!(matches!(
        key_message_from_byte(b'5'),
        Some(UiMessage::SelectTab(5))
    ));
    assert!(matches!(
        key_message_from_byte(b'0'),
        Some(UiMessage::SelectTab(0))
    ));
    assert!(matches!(
        key_message_from_byte(b' '),
        Some(UiMessage::TogglePause)
    ));
    assert!(matches!(
        key_message_from_byte(b'd'),
        Some(UiMessage::ClearSelection)
    ));
    assert!(matches!(
        key_message_from_byte(b'D'),
        Some(UiMessage::ClearSelection)
    ));
    assert!(matches!(
        key_message_from_byte(b's'),
        Some(UiMessage::SelectMiddleVisibleLine)
    ));
    assert!(matches!(
        key_message_from_byte(b'S'),
        Some(UiMessage::SelectMiddleVisibleLine)
    ));
    assert!(matches!(key_message_from_byte(b'q'), Some(UiMessage::Quit)));
    assert!(matches!(key_message_from_byte(0x03), Some(UiMessage::Quit)));
    assert!(key_message_from_byte(b'\n').is_none());
}

#[test]
fn sgr_mouse_parser_decodes_left_click() {
    assert!(matches!(
        try_parse_sgr_mouse_message(b"<0;12;7M"),
        Some(UiMessage::MouseLeftDown { column: 11, row: 6 })
    ));
    assert!(try_parse_sgr_mouse_message(b"<35;12;7M").is_none());
    assert!(try_parse_sgr_mouse_message(b"<64;12;7M").is_none());
}

#[test]
fn sgr_mouse_parser_rejects_malformed_reports() {
    assert!(try_parse_sgr_mouse_message(b"").is_none());
    assert!(try_parse_sgr_mouse_message(b"M").is_none());
    assert!(try_parse_sgr_mouse_message(b"<0;12M").is_none());
    assert!(try_parse_sgr_mouse_message(b"<0;12;7;9M").is_none());
    assert!(try_parse_sgr_mouse_message(b"0;12;7M").is_none());
    assert!(try_parse_sgr_mouse_message(b"<0;12;7m").is_none());
    assert!(try_parse_sgr_mouse_message(b"<0;;7M").is_none());
    assert!(try_parse_sgr_mouse_message(b"<0;1a;7M").is_none());
    assert!(try_parse_sgr_mouse_message(b"<0;99999;7M").is_none());
}

#[test]
fn sgr_mouse_click_at_origin_clamps_to_zero() {
    assert!(matches!(
        try_parse_sgr_mouse_message(b"<0;0;0M"),
        Some(UiMessage::MouseLeftDown { column: 0, row: 0 })
    ));
}

#[test]
fn parser_emits_mouse_event_after_full_csi_sequence() {
    let mut parser = InputParser::new();
    let mut events = Vec::new();
    for byte in b"\x1b[<0;12;7M" {
        if let Some(message) = parser.feed(*byte) {
            events.push(message);
        }
    }
    assert_eq!(events.len(), 1);
    assert!(matches!(
        events[0],
        UiMessage::MouseLeftDown { column: 11, row: 6 }
    ));
}

#[test]
fn parser_ignores_motion_reports_and_unknown_csi() {
    let mut parser = InputParser::new();
    for byte in b"\x1b[<35;12;7M\x1b[2J" {
        assert!(parser.feed(*byte).is_none());
    }
}

#[test]
fn parser_discards_non_bracket_escapes_and_keeps_decoding() {
    let mut parser = InputParser::new();
    assert!(parser.feed(0x1b).is_none());
    assert!(parser.feed(b'O').is_none());
    assert!(matches!(parser.feed(b'q'), Some(UiMessage::Quit)));
}
