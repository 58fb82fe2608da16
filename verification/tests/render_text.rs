use can_viewer::{
    entry_line, fmt_byte_hex, fmt_fixed_micros, fmt_id_field, fmt_payload_hex, fmt_u32_hex,
    fmt_u64_dec, header_line, max_scroll, render_lines, AppCore, FrameEvent, FrameRecord,
};

fn frame(identifier: u32, length: usize, payload: Vec<u8>, extended: bool, err: bool) -> FrameRecord {
    FrameRecord { identifier, length, payload, extended, is_error_frame: err }
}

#[test]
fn decimal_formatting() {
    assert_eq!(fmt_u64_dec(0), "0");
    assert_eq!(fmt_u64_dec(7), "7");
    assert_eq!(fmt_u64_dec(1234), "1234");
    assert_eq!(fmt_u64_dec(1000000), "1000000");
}

#[test]
fn hexadecimal_formatting() {
    assert_eq!(fmt_u32_hex(0), "0");
    assert_eq!(fmt_u32_hex(0x1A2B), "1A2B");
    assert_eq!(fmt_u32_hex(0xFFFFFFFF), "FFFFFFFF");
    assert_eq!(fmt_byte_hex(0x0F), "0F");
    assert_eq!(fmt_byte_hex(0xA0), "A0");
    assert_eq!(fmt_byte_hex(0), "00");
}

#[test]
fn payload_as_spaced_hex_pairs() {
    assert_eq!(fmt_payload_hex(&vec![]), "");
    assert_eq!(fmt_payload_hex(&vec![0xAB]), "AB");
    assert_eq!(fmt_payload_hex(&vec![1, 2, 0xAB, 0xFF]), "01 02 AB FF");
}

#[test]
fn fixed_point_seconds_from_micros() {
    assert_eq!(fmt_fixed_micros(0), "0.000000");
    assert_eq!(fmt_fixed_micros(1_200_000), "1.200000");
    assert_eq!(fmt_fixed_micros(700_000), "0.700000");
    assert_eq!(fmt_fixed_micros(1_234_567), "1.234567");
    assert_eq!(fmt_fixed_micros(42), "0.000042");
}

#[test]
fn identifier_field_padding() {
    assert_eq!(fmt_id_field(0x123, false), "0x123");
    assert_eq!(fmt_id_field(0x5, false), "0x005");
    assert_eq!(fmt_id_field(0x1234, false), "0x1234");
    assert_eq!(fmt_id_field(0x80100123, true), "0x80100123");
    assert_eq!(fmt_id_field(0x1, true), "0x00000001");
}

#[test]
fn entry_line_matches_the_column_layout() {
    let mut core = AppCore::new();
    core.handle_frame_event(
        FrameEvent::Received(frame(0x100, 8, vec![1, 2, 3, 4, 5, 6, 7, 8], false, false)),
        0,
    );
    core.handle_frame_event(
        FrameEvent::Received(frame(0x100, 8, vec![1, 2, 3, 4, 5, 6, 7, 8], false, false)),
        500_000,
    );
    core.handle_frame_event(
        FrameEvent::Received(frame(0x100, 8, vec![1, 2, 3, 4, 5, 6, 7, 8], false, false)),
        1_200_000,
    );
    let e = core.table.lookup(0x100, 8).unwrap();
    let line = entry_line(e);
    let expected = format!(
        "{:<7} {:<14} {:<11} {:<11} {:<4} {}",
        "3", "1.200000", "0.700000", "0x100", "8", "01 02 03 04 05 06 07 08"
    );
    assert_eq!(line, expected);
}

#[test]
fn rendered_lines_and_highlighting() {
    let mut core = AppCore::new();
    core.handle_frame_event(FrameEvent::Received(frame(0x1, 1, vec![0xEE], false, false)), 10);
    core.handle_frame_event(FrameEvent::Received(frame(0x2, 1, vec![0xDD], false, true)), 20);
    let lines = render_lines(&core.table);
    assert_eq!(lines.len(), 3);
    assert_eq!(lines[0].text, header_line());
    assert_eq!(
        lines[0].text,
        "Count   Time           dt          ID          DLC  Data"
    );
    assert!(!lines[0].highlight);
    assert!(!lines[1].highlight);
    assert!(lines[2].highlight);
    assert!(lines[1].text.starts_with("1       0.000010"));
    assert!(lines[1].text.ends_with("EE"));
}

#[test]
fn scroll_clamping_in_a_viewport() {
    // 25 entries plus the header: 26 lines in a height-10 viewport.
    assert_eq!(max_scroll(26, 10), 17);
    assert_eq!(max_scroll(5, 10), 0);
    assert_eq!(max_scroll(26, 0), 27);
    let mut core = AppCore::new();
    for _ in 0..20 {
        let a = core.handle_key(can_viewer::KeyInput {
            sym: can_viewer::KeySym::Down,
            ctrl: false,
            press: true,
        });
        assert!(a == can_viewer::Action::ScrollDown);
    }
    assert_eq!(core.scroll_offset, 20);
    core.clamp_scroll(26, 10);
    assert_eq!(core.scroll_offset, 17);
    // Clamping never raises the offset.
    core.clamp_scroll(200, 10);
    assert_eq!(core.scroll_offset, 17);
}
