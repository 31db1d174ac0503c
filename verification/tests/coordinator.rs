use termgrid::coordinator::{Coordinator, SessionMessage};
use termgrid::screen::{ScreenError, ScreenSize};
use termgrid::session::ProbeOutcome;

fn rendered(coordinator: &Coordinator) -> Vec<char> {
    let mut out = Vec::new();
    coordinator.render_chars(&mut out);
    out
}

#[test]
fn coordinator_rejects_zero_size() {
    assert!(matches!(
        Coordinator::new(ScreenSize { cols: 0, rows: 1 }),
        Err(ScreenError::InvalidSize { cols: 0, rows: 1 })
    ));
}

#[test]
fn data_messages_reach_the_grid_in_order() {
    let mut coordinator = Coordinator::new(ScreenSize { cols: 8, rows: 2 }).unwrap();
    coordinator.handle_message(SessionMessage::Data(b"ab".to_vec()));
    coordinator.handle_message(SessionMessage::Data(b"\r\ncd".to_vec()));
    let chars = rendered(&coordinator);
    let row0: String = chars[0..8].iter().collect();
    let row1: String = chars[8..16].iter().collect();
    assert_eq!(row0.trim_end(), "ab");
    assert_eq!(row1.trim_end(), "cd");
    assert!(!coordinator.is_closed());
}

#[test]
fn closed_message_marks_exit_and_keeps_grid() {
    let mut coordinator = Coordinator::new(ScreenSize { cols: 8, rows: 2 }).unwrap();
    coordinator.handle_message(SessionMessage::Data(b"hi".to_vec()));
    coordinator.handle_message(SessionMessage::Closed);
    assert!(coordinator.is_closed());
    let chars = rendered(&coordinator);
    let row0: String = chars[0..8].iter().collect();
    assert_eq!(row0.trim_end(), "hi");
}

#[test]
fn probe_policy_runs_through_coordinator() {
    let mut coordinator = Coordinator::new(ScreenSize { cols: 4, rows: 2 }).unwrap();
    assert!(!coordinator.record_probe(ProbeOutcome::NotRunning));
    assert!(!coordinator.record_probe(ProbeOutcome::Running));
    assert!(!coordinator.record_probe(ProbeOutcome::NotRunning));
    assert!(!coordinator.record_probe(ProbeOutcome::ProbeFailed));
    assert!(coordinator.record_probe(ProbeOutcome::NotRunning));
    assert!(coordinator.is_closed());
}

#[test]
fn resize_for_current_size_is_idempotent() {
    let mut coordinator = Coordinator::new(ScreenSize { cols: 4, rows: 2 }).unwrap();
    coordinator.handle_message(SessionMessage::Data(b"hi".to_vec()));
    assert!(!coordinator.needs_resize(ScreenSize { cols: 4, rows: 2 }));
    coordinator.resize(ScreenSize { cols: 4, rows: 2 }).unwrap();
    let chars = rendered(&coordinator);
    let row0: String = chars[0..4].iter().collect();
    assert_eq!(row0, "hi  ");
}

#[test]
fn resize_to_new_size_reshapes_render() {
    let mut coordinator = Coordinator::new(ScreenSize { cols: 4, rows: 2 }).unwrap();
    assert!(coordinator.needs_resize(ScreenSize { cols: 3, rows: 3 }));
    coordinator.resize(ScreenSize { cols: 3, rows: 3 }).unwrap();
    assert_eq!(rendered(&coordinator).len(), 9);
    assert_eq!(coordinator.size(), ScreenSize { cols: 3, rows: 3 });
}

#[test]
fn input_returns_view_to_live_grid() {
    let mut coordinator = Coordinator::new(ScreenSize { cols: 2, rows: 2 }).unwrap();
    coordinator.handle_message(SessionMessage::Data(b"ABCD".to_vec()));
    assert!(coordinator.scroll_view(1));
    assert!(coordinator.is_scrolled());
    coordinator.scroll_to_bottom();
    assert!(!coordinator.is_scrolled());
}

#[test]
fn clear_shows_blank_live_view() {
    let mut coordinator = Coordinator::new(ScreenSize { cols: 4, rows: 2 }).unwrap();
    coordinator.handle_message(SessionMessage::Data(b"junk".to_vec()));
    coordinator.clear();
    assert!(rendered(&coordinator).iter().all(|c| *c == ' '));
    let cursor = coordinator.cursor();
    assert_eq!((cursor.col, cursor.row), (0, 0));
}

#[test]
fn cursor_is_drawn_only_on_the_live_open_view() {
    let mut coordinator = Coordinator::new(ScreenSize { cols: 2, rows: 2 }).unwrap();
    coordinator.handle_message(SessionMessage::Data(b"ABCD".to_vec()));
    let pos = coordinator.cursor_for_render().unwrap();
    assert_eq!((pos.col, pos.row), (0, 1));
    assert!(coordinator.scroll_view(1));
    assert!(coordinator.cursor_for_render().is_none());
    coordinator.scroll_to_bottom();
    coordinator.handle_message(SessionMessage::Closed);
    assert!(coordinator.cursor_for_render().is_none());
}
