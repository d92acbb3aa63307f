use zenith::snapshot::ProcessInfo;
use zenith::ui::{Click, Key, Signal, UiAction, UiEvent, UiState, STATUS_NS};

fn procs(n: i32) -> Vec<ProcessInfo> {
    (0..n).map(|i| ProcessInfo { pid: 100 + i, cmd: format!("p{}", i), rss_kb: 0 }).collect()
}

fn key(c: char) -> UiEvent {
    UiEvent::Key(Key::Char(c))
}

#[test]
fn starts_on_first_row_without_details() {
    let s = UiState::new();
    assert!(!s.show_details);
    assert!(!s.show_proc_details);
    assert_eq!(s.selected, 0);
    assert!(s.status_msg.is_none());
}

#[test]
fn q_quits_and_toggles_flip() {
    let ps = procs(3);
    let mut s = UiState::new();
    assert_eq!(s.handle_event(key('q'), &ps, 0), UiAction::Quit);
    assert_eq!(s.handle_event(key('Q'), &ps, 0), UiAction::Quit);
    assert_eq!(s.handle_event(key('d'), &ps, 0), UiAction::Continue);
    assert!(s.show_details);
    s.handle_event(UiEvent::Key(Key::F(4)), &ps, 0);
    assert!(!s.show_details);
    s.handle_event(key('D'), &ps, 0);
    assert!(s.show_details);
    s.handle_event(UiEvent::Key(Key::Enter), &ps, 0);
    assert!(s.show_proc_details);
    s.handle_event(key('\n'), &ps, 0);
    assert!(!s.show_proc_details);
    s.handle_event(UiEvent::Key(Key::F(5)), &ps, 0);
    assert!(s.show_details);
}

#[test]
fn arrows_move_within_the_list() {
    let ps = procs(3);
    let mut s = UiState::new();
    s.handle_event(UiEvent::Key(Key::Up), &ps, 0);
    assert_eq!(s.selected, 0);
    s.handle_event(UiEvent::Key(Key::Down), &ps, 0);
    s.handle_event(UiEvent::Key(Key::Down), &ps, 0);
    s.handle_event(UiEvent::Key(Key::Down), &ps, 0);
    assert_eq!(s.selected, 2);
    s.handle_event(UiEvent::Key(Key::Up), &ps, 0);
    assert_eq!(s.selected, 1);
    let mut empty = UiState::new();
    empty.handle_event(UiEvent::Key(Key::Down), &Vec::new(), 0);
    assert_eq!(empty.selected, 0);
}

#[test]
fn frame_clamps_selection_and_reports_highlight() {
    let ps = procs(5);
    let mut s = UiState::new();
    for _ in 0..4 {
        s.handle_event(UiEvent::Key(Key::Down), &ps, 0);
    }
    assert_eq!(s.selected, 4);
    assert_eq!(s.begin_frame(2, 0, 6), Some(1));
    assert_eq!(s.selected, 1);
    assert_eq!(s.table_top, Some(6));
    assert_eq!(s.begin_frame(0, 0, 6), None);
    assert_eq!(s.selected, 1);
}

#[test]
fn kill_keys_target_the_selected_process() {
    let ps = procs(3);
    let mut s = UiState::new();
    s.handle_event(UiEvent::Key(Key::Down), &ps, 0);
    assert_eq!(s.handle_event(key('k'), &ps, 0), UiAction::SendSignal { pid: 101, signal: Signal::Term });
    assert_eq!(s.handle_event(key('K'), &ps, 0), UiAction::SendSignal { pid: 101, signal: Signal::Kill });
    let mut none = UiState::new();
    assert_eq!(none.handle_event(key('k'), &Vec::new(), 0), UiAction::Continue);
}

#[test]
fn signal_outcome_becomes_a_transient_status() {
    let mut s = UiState::new();
    s.record_signal_result(Signal::Term, 101, None, 1_000);
    assert_eq!(s.status_msg.as_deref(), Some("SIGTERM sent to PID 101"));
    assert_eq!(s.status_expire_ns, Some(1_000 + STATUS_NS));
    s.begin_frame(3, 1_000 + STATUS_NS, 0);
    assert!(s.status_msg.is_some());
    s.begin_frame(3, 1_001 + STATUS_NS, 0);
    assert!(s.status_msg.is_none());
    assert!(s.status_expire_ns.is_none());
    s.record_signal_result(Signal::Kill, 7, Some("Operation not permitted (os error 1)"), 5);
    assert_eq!(s.status_msg.as_deref(), Some("SIGKILL failed: Operation not permitted (os error 1)"));
}

#[test]
fn clicks_select_rows_and_double_clicks_toggle_details() {
    let ps = procs(5);
    let mut s = UiState::new();
    // no table drawn yet: clicks do nothing
    s.handle_event(UiEvent::LeftClick { column: 3, row: 9 }, &ps, 0);
    assert_eq!(s.selected, 0);
    s.begin_frame(5, 0, 6);
    // rows 6 and 7 are the border and the header; row 10 is the third process
    s.handle_event(UiEvent::LeftClick { column: 3, row: 10 }, &ps, 1_000_000_000);
    assert_eq!(s.selected, 2);
    assert_eq!(s.last_click, Some(Click { at_ns: 1_000_000_000, column: 3, row: 10 }));
    assert!(!s.show_proc_details);
    s.handle_event(UiEvent::LeftClick { column: 3, row: 10 }, &ps, 1_300_999_999);
    assert!(s.show_proc_details);
    assert!(s.last_click.is_none());
    // too slow: no toggle
    s.handle_event(UiEvent::LeftClick { column: 3, row: 10 }, &ps, 2_000_000_000);
    s.handle_event(UiEvent::LeftClick { column: 3, row: 10 }, &ps, 2_301_000_000);
    assert!(s.show_proc_details);
    // a click on the header selects the first row
    s.handle_event(UiEvent::LeftClick { column: 0, row: 7 }, &ps, 3_000_000_000);
    assert_eq!(s.selected, 0);
    // below the list: ignored
    s.handle_event(UiEvent::LeftClick { column: 0, row: 20 }, &ps, 4_000_000_000);
    assert_eq!(s.selected, 0);
}

#[test]
fn clicks_on_a_scrolled_table_select_the_row_shown() {
    let ps = procs(20);
    let mut s = UiState::new();
    for _ in 0..19 {
        s.handle_event(UiEvent::Key(Key::Down), &ps, 0);
    }
    assert_eq!(s.begin_frame(20, 0, 6), Some(19));
    // the table scrolled so that its first visible row shows process 5
    s.set_table_offset(5);
    assert_eq!(s.table_offset, 5);
    // row 8 is the first process row on screen
    s.handle_event(UiEvent::LeftClick { column: 2, row: 8 }, &ps, 0);
    assert_eq!(s.selected, 5);
    assert_eq!(s.handle_event(UiEvent::Key(Key::Char('k')), &ps, 0), UiAction::SendSignal { pid: 105, signal: Signal::Term });
    // a click below the last process is ignored
    s.handle_event(UiEvent::LeftClick { column: 2, row: 23 }, &ps, 10_000_000_000);
    assert_eq!(s.selected, 5);
    s.handle_event(UiEvent::LeftClick { column: 2, row: 22 }, &ps, 20_000_000_000);
    assert_eq!(s.selected, 19);
}
