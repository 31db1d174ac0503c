use termgrid::vt::{VtEvent, VtParser};

#[test]
fn decode_printables_and_controls() {
    let mut parser = VtParser::new();
    let mut events = Vec::new();
    parser.advance(b"AB\r\nC", &mut events);
    assert_eq!(
        events,
        vec![
            VtEvent::Print('A'),
            VtEvent::Print('B'),
            VtEvent::CarriageReturn,
            VtEvent::Newline,
            VtEvent::Print('C'),
        ]
    );
}

#[test]
fn decode_drops_unknown_bytes() {
    let mut parser = VtParser::new();
    let mut events = Vec::new();
    parser.advance(&[0x00, 0x1B, 0x07, 0x7F, 0x80, 0xFF], &mut events);
    assert!(events.is_empty());
}

#[test]
fn decode_backspace_byte() {
    let mut parser = VtParser::new();
    let mut events = Vec::new();
    parser.advance(&[0x08], &mut events);
    assert_eq!(events, vec![VtEvent::Backspace]);
}

#[test]
fn decode_printable_range_boundaries() {
    let mut parser = VtParser::new();
    let mut events = Vec::new();
    parser.advance(&[0x1F, 0x20, 0x7E, 0x7F], &mut events);
    assert_eq!(events, vec![VtEvent::Print(' '), VtEvent::Print('~')]);
}

#[test]
fn decode_appends_to_existing_events() {
    let mut parser = VtParser::new();
    let mut events = vec![VtEvent::Newline];
    parser.advance(b"x", &mut events);
    assert_eq!(events, vec![VtEvent::Newline, VtEvent::Print('x')]);
}

#[test]
fn decoder_keeps_no_state_between_calls() {
    let mut parser = VtParser::new();
    let mut events = Vec::new();
    // A two-byte UTF-8 sequence split across reads is reinterpreted byte by
    // byte; neither byte is printable ASCII, so nothing is emitted.
    parser.advance(&[0xC3], &mut events);
    parser.advance(&[0xA9], &mut events);
    assert!(events.is_empty());
}
