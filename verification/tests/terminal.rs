use tyclaw::channel::cli::{
    apply_scroll, cli_print, draw_fixed_top, draw_separator, read_input, redraw_scroll_region,
    redraw_status_separator, reset_input_area, restore_scroll_region, setup_scroll_region,
    snap_to_bottom, split_coloured, terminal_size, visible_rows, CliChannel, LineAction,
    ScrollCmd, ScrollState, HISTORY_CAP,
};
use tyclaw::orchestration::term::{
    install_hook, scroll_print, terminal_height, HookSlot, Printing,
};

#[test]
fn colours_go_on_in_the_next_line() {
    assert_eq!(split_coloured("plain"), vec!["plain".to_string()]);
    assert_eq!(split_coloured("a\nb"), vec!["a".to_string(), "b".to_string()]);
    let lines = split_coloured("\x1b[2ma\nb\x1b[0m");
    assert_eq!(lines.len(), 2);
    assert!(lines[1].starts_with("\x1b[2m") && lines[1].contains('b'));
}

#[test]
fn scrolling_stays_in_the_buffer() {
    let mut s = ScrollState::new();
    for i in 0..50 {
        s.push(&format!("line {i}"));
    }
    assert_eq!(s.buffer.len(), 50);
    let rows = visible_rows(20);
    assert!(apply_scroll(&mut s, ScrollCmd::Top, rows));
    let top = s.view_offset;
    assert!(top < 50);
    assert!(!apply_scroll(&mut s, ScrollCmd::PageUp, rows));
    assert_eq!(s.view_offset, top);
    assert!(apply_scroll(&mut s, ScrollCmd::LineDown, rows));
    assert_eq!(s.view_offset, top - 1);
    assert!(snap_to_bottom(&mut s));
    assert_eq!(s.view_offset, 0);
    assert!(!snap_to_bottom(&mut s));
}

#[test]
fn old_lines_are_forgotten() {
    let mut s = ScrollState::new();
    for i in 0..(HISTORY_CAP + 10) {
        s.push(&format!("{i}"));
    }
    assert_eq!(s.buffer.len(), HISTORY_CAP);
    assert_eq!(s.buffer[0], "10");
}

#[test]
fn lines_are_not_drawn_while_scrolled() {
    let mut s = ScrollState::new();
    for i in 0..50 {
        assert!(cli_print(&mut s, &format!("{i}"), 20).is_some());
    }
    apply_scroll(&mut s, ScrollCmd::PageUp, visible_rows(20));
    assert_eq!(cli_print(&mut s, "hidden", 20), None);
    assert_eq!(s.buffer.len(), 51);
    assert!(redraw_scroll_region(&s, 20).contains("\x1b["));
    assert!(redraw_status_separator(&s, 80).contains("history ↑"));
}

#[test]
fn the_screen_is_drawn() {
    assert!(draw_separator(10, None).contains("──────────"));
    assert!(draw_separator(40, Some("note")).contains(" note "));
    assert!(!draw_fixed_top(80).is_empty());
    assert!(setup_scroll_region(80, 24).contains("24r"));
    assert!(!restore_scroll_region(24).is_empty());
    assert!(!reset_input_area(80, 24).is_empty());
    assert_eq!(terminal_size(Some((100, 30)), None, None), (100, 30));
    assert_eq!(terminal_size(None, Some(90), Some(20)), (90, 20));
    assert_eq!(terminal_size(None, None, None), (80, 24));
    assert_eq!(terminal_height(Some(30), None), 30);
    assert_eq!(terminal_height(None, None), 24);
}

#[test]
fn typed_lines_are_read() {
    assert!(matches!(read_input("   "), LineAction::Ignore));
    assert!(matches!(read_input(" EXIT "), LineAction::Exit { .. }));
    match read_input(" hello ") {
        LineAction::Send { line, echo } => {
            assert_eq!(line, "hello");
            assert_eq!(echo, "\x1b[1;37mYou> hello\x1b[0m");
        }
        _ => panic!("not sent"),
    }
    let cli = CliChannel::new("u", "w").with_startup_lines(vec!["x".to_string()]);
    let m = cli.inbound("hi".into());
    assert_eq!(m.channel, "cli");
    assert_eq!(m.user_id, "u");
    assert!(!m.awaits_reply);
}

#[test]
fn hooks_are_installed_once() {
    let mut slot: HookSlot<u8> = HookSlot::new();
    install_hook(&mut slot, 1);
    install_hook(&mut slot, 2);
    assert_eq!(slot.hook, Some(1));
    match scroll_print(&slot, "text", 24) {
        Printing::Hook(hook, msg) => assert_eq!((*hook, msg.as_str()), (1, "text")),
        Printing::Terminal(_) => panic!("written to the terminal"),
    }
}

#[test]
fn lines_go_to_the_terminal_without_a_hook() {
    let slot: HookSlot<u8> = HookSlot::new();
    match scroll_print(&slot, "text", 24) {
        Printing::Terminal(t) => assert_eq!(t, "\x1b[24;1Htext\n\x1b[5;3H"),
        Printing::Hook(..) => panic!("there is no hook"),
    }
}
