use can_viewer::{Action, AppCore, FrameEvent, FrameRecord, KeyInput, KeySym};

fn frame(identifier: u32, length: usize, payload: Vec<u8>, extended: bool, err: bool) -> FrameRecord {
    FrameRecord { identifier, length, payload, extended, is_error_frame: err }
}

fn press(sym: KeySym) -> KeyInput {
    KeyInput { sym, ctrl: false, press: true }
}

#[test]
fn repeated_key_counts_and_times() {
    let mut core = AppCore::new();
    core.handle_frame_event(FrameEvent::Received(frame(0x100, 8, vec![1; 8], false, false)), 0);
    core.handle_frame_event(
        FrameEvent::Received(frame(0x100, 8, vec![2; 8], false, false)),
        500_000,
    );
    core.handle_frame_event(
        FrameEvent::Received(frame(0x100, 8, vec![3; 8], false, false)),
        1_200_000,
    );
    assert_eq!(core.table.len(), 1);
    let e = core.table.lookup(0x100, 8).unwrap();
    assert_eq!(e.count, 3);
    assert_eq!(e.last_seen_micros, 1_200_000);
    assert_eq!(e.interval_micros, 700_000);
    assert_eq!(e.last_frame.payload, vec![3; 8]);
}

#[test]
fn first_occurrence_has_zero_interval() {
    let mut core = AppCore::new();
    core.handle_frame_event(FrameEvent::Received(frame(0x42, 2, vec![9, 9], false, false)), 777);
    let e = core.table.lookup(0x42, 2).unwrap();
    assert_eq!(e.count, 1);
    assert_eq!(e.interval_micros, 0);
    assert_eq!(e.last_seen_micros, 777);
}

#[test]
fn distinct_keys_make_distinct_entries() {
    let mut core = AppCore::new();
    // Same identifier, different length: two distinct keys.
    core.handle_frame_event(FrameEvent::Received(frame(0x7F, 4, vec![0; 4], false, false)), 1);
    core.handle_frame_event(FrameEvent::Received(frame(0x7F, 2, vec![0; 2], false, false)), 2);
    assert_eq!(core.table.len(), 2);
    assert_eq!(core.table.lookup(0x7F, 4).unwrap().count, 1);
    assert_eq!(core.table.lookup(0x7F, 2).unwrap().count, 1);
}

#[test]
fn standard_and_extended_sort_by_raw_word() {
    let mut core = AppCore::new();
    // The raw identifier word of the extended frame carries the
    // addressing-mode flag bit, so it is numerically larger.
    let ext_word: u32 = 0x100123 | 0x8000_0000;
    core.handle_frame_event(FrameEvent::Received(frame(ext_word, 1, vec![0], true, false)), 1);
    core.handle_frame_event(FrameEvent::Received(frame(0x123, 1, vec![0], false, false)), 2);
    assert_eq!(core.table.len(), 2);
    // Insertion order first: the extended frame arrived first.
    assert_eq!(core.table.key_at(0), (ext_word, 1));
    let a = core.handle_key(press(KeySym::Printable('s')));
    assert!(a == Action::SortByKey);
    assert_eq!(core.table.key_at(0), (0x123, 1));
    assert_eq!(core.table.key_at(1), (ext_word, 1));
}

#[test]
fn sort_twice_is_sort_once() {
    let mut core = AppCore::new();
    core.handle_frame_event(FrameEvent::Received(frame(3, 1, vec![3], false, false)), 1);
    core.handle_frame_event(FrameEvent::Received(frame(1, 2, vec![1, 1], false, false)), 2);
    core.handle_frame_event(FrameEvent::Received(frame(2, 1, vec![2], false, false)), 3);
    core.handle_frame_event(FrameEvent::Received(frame(1, 1, vec![1], false, false)), 4);
    core.handle_key(press(KeySym::Printable('s')));
    let once: Vec<(u32, usize)> = (0..core.table.len()).map(|i| core.table.key_at(i)).collect();
    core.handle_key(press(KeySym::Printable('s')));
    let twice: Vec<(u32, usize)> = (0..core.table.len()).map(|i| core.table.key_at(i)).collect();
    assert_eq!(once, twice);
    // Ascending by identifier; the two identifier-1 entries keep arrival order.
    assert_eq!(once[0], (1, 2));
    assert_eq!(once[1], (1, 1));
    assert_eq!(once[2], (2, 1));
    assert_eq!(once[3], (3, 1));
    // Counts and timestamps survive the sort.
    assert_eq!(core.table.lookup(3, 1).unwrap().last_seen_micros, 1);
    assert_eq!(core.table.lookup(1, 2).unwrap().count, 1);
}

#[test]
fn clear_then_replay_rebuilds_the_same_state() {
    let arrivals: Vec<(u32, usize, u64)> = vec![(5, 1, 10), (6, 2, 20), (5, 1, 30), (7, 1, 40)];
    let mut core = AppCore::new();
    for &(id, len, t) in &arrivals {
        core.handle_frame_event(FrameEvent::Received(frame(id, len, vec![0; len], false, false)), t);
    }
    let a = core.handle_key(press(KeySym::Printable('c')));
    assert!(a == Action::Clear);
    assert_eq!(core.table.len(), 0);
    assert_eq!(core.scroll_offset, 0);
    for &(id, len, t) in &arrivals {
        core.handle_frame_event(FrameEvent::Received(frame(id, len, vec![0; len], false, false)), t);
    }
    let mut fresh = AppCore::new();
    for &(id, len, t) in &arrivals {
        fresh.handle_frame_event(FrameEvent::Received(frame(id, len, vec![0; len], false, false)), t);
    }
    assert_eq!(core.table.len(), fresh.table.len());
    for i in 0..core.table.len() {
        assert_eq!(core.table.key_at(i), fresh.table.key_at(i));
        let e1 = core.table.entry_at(i);
        let e2 = fresh.table.entry_at(i);
        assert_eq!(e1.count, e2.count);
        assert_eq!(e1.last_seen_micros, e2.last_seen_micros);
        assert_eq!(e1.interval_micros, e2.interval_micros);
    }
}

#[test]
fn paused_frames_are_dropped_for_good() {
    let mut core = AppCore::new();
    core.handle_frame_event(FrameEvent::Received(frame(0x10, 1, vec![0], false, false)), 1);
    let a = core.handle_key(press(KeySym::Printable('p')));
    assert!(a == Action::TogglePause);
    assert!(core.paused);
    for t in 2..7u64 {
        core.handle_frame_event(FrameEvent::Received(frame(0x10, 1, vec![0], false, false)), t);
    }
    assert_eq!(core.table.lookup(0x10, 1).unwrap().count, 1);
    core.handle_key(press(KeySym::Printable(' ')));
    assert!(!core.paused);
    assert_eq!(core.table.lookup(0x10, 1).unwrap().count, 1);
    core.handle_frame_event(FrameEvent::Received(frame(0x10, 1, vec![0], false, false)), 100);
    assert_eq!(core.table.lookup(0x10, 1).unwrap().count, 2);
}

#[test]
fn transport_failure_changes_nothing() {
    let mut core = AppCore::new();
    core.handle_frame_event(FrameEvent::Received(frame(0x10, 1, vec![0], false, false)), 1);
    core.handle_frame_event(FrameEvent::TransportFailure, 50);
    assert_eq!(core.table.len(), 1);
    assert_eq!(core.table.lookup(0x10, 1).unwrap().count, 1);
}

#[test]
fn key_actions_follow_the_action_table() {
    let mut core = AppCore::new();
    core.start();
    assert!(core.running);
    assert!(core.handle_key(press(KeySym::Down)) == Action::ScrollDown);
    assert_eq!(core.scroll_offset, 1);
    assert!(core.handle_key(press(KeySym::Up)) == Action::ScrollUp);
    assert_eq!(core.scroll_offset, 0);
    // Scrolling up at the top stays at the top.
    assert!(core.handle_key(press(KeySym::Up)) == Action::ScrollUp);
    assert_eq!(core.scroll_offset, 0);
    // Unmapped keys, and releases, do nothing.
    assert!(core.handle_key(press(KeySym::Printable('x'))) == Action::NoOp);
    assert!(
        core.handle_key(KeyInput { sym: KeySym::Printable('q'), ctrl: false, press: false })
            == Action::NoOp
    );
    assert!(core.running);
    // Upper-case Q is not a quit key; upper-case P pauses.
    assert!(core.handle_key(press(KeySym::Printable('Q'))) == Action::NoOp);
    assert!(core.handle_key(press(KeySym::Printable('P'))) == Action::TogglePause);
    assert!(core.handle_key(press(KeySym::Printable('P'))) == Action::TogglePause);
    // Plain c clears, control-c quits.
    assert!(core.handle_key(press(KeySym::Printable('c'))) == Action::Clear);
    assert!(core.running);
    assert!(
        core.handle_key(KeyInput { sym: KeySym::Printable('c'), ctrl: true, press: true })
            == Action::Quit
    );
    assert!(!core.running);
    core.start();
    assert!(core.handle_key(press(KeySym::Esc)) == Action::Quit);
    assert!(!core.running);
    core.start();
    assert!(core.handle_key(press(KeySym::Printable('q'))) == Action::Quit);
    assert!(!core.running);
    core.quit();
    assert!(!core.running);
}

#[test]
fn should_redraw_follows_the_interval() {
    assert!(can_viewer::should_redraw(None, 0, can_viewer::RENDER_INTERVAL_MICROS));
    assert!(!can_viewer::should_redraw(Some(100), 100 + 16_665, 16_666));
    assert!(can_viewer::should_redraw(Some(100), 100 + 16_666, 16_666));
}
