use execmon::app::{App, DispatchEvent, KeyCode, KeyInput};
use execmon::datetime::DateTime;
use execmon::textline::ProcessExecution;

fn entry(pid: u32) -> ProcessExecution {
    ProcessExecution {
        pid,
        ppid: 1,
        comm: "bash".to_string(),
        args: "ls".to_string(),
        timestamp: DateTime { year: 2025, month: 3, day: 16, hour: 13, minute: 42, second: 53 },
        username: None,
    }
}

fn key(code: KeyCode) -> DispatchEvent {
    DispatchEvent::Input(KeyInput { code, ctrl: false })
}

#[test]
fn ten_captures_and_ten_keys_interleaved_yield_ten_pushes_and_ten_transitions() {
    let mut app = App::new();
    let mut events: Vec<DispatchEvent> = Vec::new();
    for pid in 0..10 {
        events.push(DispatchEvent::CaptureEvent(entry(pid)));
        events.push(key(KeyCode::Down));
    }
    let emitted = app.run_events(events);
    assert!(emitted.is_empty());
    // Exactly ten store pushes, in arrival order, no loss or duplication.
    assert_eq!(app.processes.len(), 10);
    for i in 0..10 {
        assert_eq!(app.processes.get(i).pid, i as u32);
    }
    assert!(app.running);
}

#[test]
fn quit_keys_emit_quit_and_quit_stops_the_loop() {
    let mut app = App::new();
    let emitted = app.handle_events(key(KeyCode::Char('q')));
    assert!(matches!(emitted, Some(DispatchEvent::Quit)));
    assert!(app.running);
    let emitted = app.handle_events(DispatchEvent::Quit);
    assert!(emitted.is_none());
    assert!(!app.running);
}

#[test]
fn control_c_quits_but_plain_c_does_not() {
    let mut app = App::new();
    let e = app.handle_events(DispatchEvent::Input(KeyInput { code: KeyCode::Char('c'), ctrl: true }));
    assert!(matches!(e, Some(DispatchEvent::Quit)));
    let e = app.handle_events(DispatchEvent::Input(KeyInput { code: KeyCode::Char('c'), ctrl: false }));
    assert!(e.is_none());
    let e = app.handle_events(DispatchEvent::Input(KeyInput { code: KeyCode::Esc, ctrl: false }));
    assert!(matches!(e, Some(DispatchEvent::Quit)));
}

#[test]
fn ticks_mutate_nothing() {
    let mut app = App::new();
    app.handle_events(DispatchEvent::CaptureEvent(entry(1)));
    let len = app.processes.len();
    let sel = app.processes.selection();
    app.handle_events(DispatchEvent::Tick);
    app.handle_events(DispatchEvent::SelectionChanged);
    assert_eq!(app.processes.len(), len);
    assert_eq!(app.processes.selection(), sel);
    assert!(app.running);
}

#[test]
fn movement_keys_drive_the_cursor() {
    let mut app = App::new();
    for pid in 0..3 {
        app.handle_events(DispatchEvent::CaptureEvent(entry(pid)));
    }
    app.handle_events(key(KeyCode::Char('j')));
    assert_eq!(app.processes.selection(), Some(1));
    assert_eq!(app.scroll_position, 1);
    app.handle_events(key(KeyCode::Down));
    assert_eq!(app.processes.selection(), Some(2));
    app.handle_events(key(KeyCode::Down));
    assert_eq!(app.processes.selection(), Some(0));
    app.handle_events(key(KeyCode::Char('k')));
    assert_eq!(app.processes.selection(), Some(2));
    app.handle_events(key(KeyCode::Char('l')));
    assert_eq!(app.selected_column, 1);
    app.handle_events(key(KeyCode::Left));
    assert_eq!(app.selected_column, 0);
    app.handle_events(key(KeyCode::Char('h')));
    assert_eq!(app.selected_column, 0);
}

#[test]
fn capture_events_refresh_the_column_widths() {
    let mut app = App::new();
    app.handle_events(DispatchEvent::CaptureEvent(entry(7)));
    // "2025-03-16 13:42:53" is nineteen columns wide; "bash" four,
    // "ls" two; an unresolved username shows empty; pid and ppid use
    // fixed widths.
    assert_eq!(app.longest_item_lens.timestamp, 19);
    assert_eq!(app.longest_item_lens.comm, 4);
    assert_eq!(app.longest_item_lens.args, 2);
    assert_eq!(app.longest_item_lens.username, 0);
    assert_eq!(app.longest_item_lens.pid, 6);
    assert_eq!(app.longest_item_lens.ppid, 15);
}

#[test]
fn wide_characters_measure_by_display_width_not_length() {
    let mut app = App::new();
    let mut e = entry(1);
    // Two characters, six UTF-8 bytes, four terminal columns.
    e.args = "日本".to_string();
    app.handle_events(DispatchEvent::CaptureEvent(e));
    assert_eq!(app.longest_item_lens.args, 4);
}

#[test]
fn rows_render_their_cells() {
    let e = entry(3925);
    let cells = e.ref_array();
    assert_eq!(cells[0], "2025-03-16 13:42:53");
    assert_eq!(cells[1], "");
    assert_eq!(cells[2], "3925");
    assert_eq!(cells[3], "1");
    assert_eq!(cells[4], "bash");
    assert_eq!(cells[5], "ls");
    assert_eq!(e.render_text(), "2025-03-16 13:42:53  3925 1 bash ls");
}
