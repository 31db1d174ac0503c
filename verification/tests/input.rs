use termgrid::input::{
    control_code_for_char, filter_printable, prompt_choice, special_key_byte, InputLine,
    SpecialKey,
};

#[test]
fn control_codes_for_letters() {
    assert_eq!(control_code_for_char('a'), Some(1));
    assert_eq!(control_code_for_char('c'), Some(3));
    assert_eq!(control_code_for_char('C'), Some(3));
    assert_eq!(control_code_for_char('z'), Some(26));
    assert_eq!(control_code_for_char('Z'), Some(26));
    assert_eq!(control_code_for_char('1'), None);
    assert_eq!(control_code_for_char(' '), None);
    assert_eq!(control_code_for_char('é'), None);
}

#[test]
fn special_keys_send_their_bytes() {
    assert_eq!(special_key_byte(SpecialKey::Enter), 0x0D);
    assert_eq!(special_key_byte(SpecialKey::Backspace), 0x08);
    assert_eq!(special_key_byte(SpecialKey::Escape), 0x1B);
    assert_eq!(special_key_byte(SpecialKey::Tab), 0x09);
}

#[test]
fn filter_drops_control_characters() {
    let text: Vec<char> = "a\tb\u{1b}c\u{7f}d".chars().collect();
    assert_eq!(filter_printable(&text), vec!['a', 'b', 'c', 'd']);
}

#[test]
fn filter_keeps_printable_unicode() {
    let text: Vec<char> = "héllo ".chars().collect();
    assert_eq!(filter_printable(&text), "héllo ".chars().collect::<Vec<char>>());
}

#[test]
fn typed_exit_requests_exit() {
    let mut line = InputLine::new();
    line.typed(&"exit".chars().collect::<Vec<char>>());
    assert!(line.enter());
}

#[test]
fn exit_check_ignores_case_and_surrounding_space() {
    let mut line = InputLine::new();
    line.typed(&"  EXIT ".chars().collect::<Vec<char>>());
    assert!(line.enter());
    line.typed(&"\u{3000}ExIt\u{a0}".chars().collect::<Vec<char>>());
    assert!(line.enter());
}

#[test]
fn other_commands_do_not_exit() {
    let mut line = InputLine::new();
    line.typed(&"exit now".chars().collect::<Vec<char>>());
    assert!(!line.enter());
    line.typed(&"quit".chars().collect::<Vec<char>>());
    assert!(!line.enter());
    assert!(!line.enter());
}

#[test]
fn enter_starts_a_fresh_line() {
    let mut line = InputLine::new();
    line.typed(&"exit".chars().collect::<Vec<char>>());
    assert!(line.enter());
    assert!(!line.enter());
}

#[test]
fn backspace_is_gated_on_pending_input() {
    let mut line = InputLine::new();
    assert!(!line.backspace());
    line.typed(&['a', 'b']);
    assert!(line.backspace());
    assert!(line.backspace());
    assert!(!line.backspace());
}

#[test]
fn interrupt_resets_count_but_keeps_characters() {
    let mut line = InputLine::new();
    line.typed(&"exit".chars().collect::<Vec<char>>());
    line.interrupted();
    // The visible count is gone, so backspace sends nothing...
    assert!(!line.backspace());
    // ...but the pending characters still read "exit".
    assert!(line.enter());
}

#[test]
fn reset_clears_everything() {
    let mut line = InputLine::new();
    line.typed(&"exit".chars().collect::<Vec<char>>());
    line.reset();
    assert!(!line.enter());
    assert!(!line.backspace());
}

#[test]
fn prompt_choice_reads_first_decisive_letter() {
    assert_eq!(prompt_choice(&['y']), Some(true));
    assert_eq!(prompt_choice(&['N']), Some(false));
    assert_eq!(prompt_choice(&['a', 'b']), None);
    assert_eq!(prompt_choice(&[]), None);
    assert_eq!(prompt_choice(&['z', 'n', 'y']), Some(false));
    assert_eq!(prompt_choice(&['?', 'Y']), Some(true));
}
