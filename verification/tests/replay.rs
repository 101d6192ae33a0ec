use agent_shell_core::recording::{make_event, make_header, resize_payload, RecordingEvent, RecordingHeader};
use agent_shell_core::replay::{
    dump_output, event_action, filter_query_sequences, has_resize_events, header_if_meta,
    heuristic_size, merge_group_end, normalize_crlf, parse_resize_payload, plan_replay_group,
    recording_uses_alt_screen, remap_coordinates, replay_size, replay_start_size, replay_stop_input,
    ReplayAction,
    ReplayStep, MERGE_THRESHOLD_MS,
};
use base64::Engine;

fn b64(bytes: &[u8]) -> String {
    base64::engine::general_purpose::STANDARD.encode(bytes)
}

fn event(ts: u64, dir: &str, bytes: &[u8]) -> RecordingEvent {
    RecordingEvent { ts, dir: dir.to_string(), data: b64(bytes) }
}

#[test]
fn filter_removes_dsr() {
    let input = b"before\x1b[6nafter";
    let out = filter_query_sequences(input);
    assert_eq!(out, b"beforeafter");
}

#[test]
fn filter_removes_multiple_dsr() {
    let input = b"\x1b[6n\x1b[6n";
    let out = filter_query_sequences(input);
    assert!(out.is_empty());
}

#[test]
fn filter_removes_dcs() {
    let input = b"before\x1bPzz\x1b\\after";
    let out = filter_query_sequences(input);
    assert_eq!(out, b"beforeafter");
}

#[test]
fn filter_keeps_osc_title() {
    let input = b"\x1b]0;my title\x07rest";
    let out = filter_query_sequences(input);
    assert_eq!(out, input);
}

#[test]
fn filter_keeps_normal_sgr() {
    let input = b"\x1b[38;5;130mhello\x1b[0m";
    let out = filter_query_sequences(input);
    assert_eq!(out, input);
}

#[test]
fn filter_malformed_dcs_does_not_drop_trailing_bytes() {
    let input = b"before\x1bPno-terminator-hereafter";
    let out = filter_query_sequences(input);
    assert!(out.starts_with(b"before"), "'before' must be kept");
    assert!(
        out.ends_with(b"no-terminator-hereafter"),
        "bytes after malformed DCS must not be silently dropped: got {:?}",
        String::from_utf8_lossy(&out)
    );
}

#[test]
fn filter_passes_text_without_escapes() {
    let input = b"plain text\r\nno escapes here";
    assert_eq!(filter_query_sequences(input), input);
}

#[test]
fn normalize_collapses_double_cr() {
    let input = b"line1\r\r\nline2\r\r\n";
    let out = normalize_crlf(input);
    assert_eq!(out, b"line1\r\nline2\r\n");
}

#[test]
fn normalize_preserves_single_crlf() {
    let input = b"hello\r\nworld\r\n";
    let out = normalize_crlf(input);
    assert_eq!(out, b"hello\r\nworld\r\n");
}

#[test]
fn normalize_preserves_standalone_cr() {
    let input = b"\rhello";
    let out = normalize_crlf(input);
    assert_eq!(out, b"\rhello");
}

#[test]
fn normalize_mixed() {
    let input = b"a\r\r\nb\r\nc\r\r\n";
    let out = normalize_crlf(input);
    assert_eq!(out, b"a\r\nb\r\nc\r\n");
}

#[test]
fn normalize_is_never_longer() {
    let input = b"\r\r\r\n\r\r\n\r";
    let out = normalize_crlf(input);
    assert_eq!(out, b"\r\r\n\r\n\r");
    assert!(out.len() <= input.len());
}

#[test]
fn detects_alt_screen_present() {
    let ev = event(0, "out", b"\x1b[?1049hsome content");
    assert!(recording_uses_alt_screen(&[ev]));
}

#[test]
fn detects_alt_screen_absent() {
    let ev = event(0, "out", b"\x1b[3A\r\x1b[2Kcontent\r\r\n");
    assert!(!recording_uses_alt_screen(&[ev]));
}

#[test]
fn detects_alt_screen_ignores_in_events() {
    let ev = event(0, "in", b"\x1b[?1049h");
    assert!(!recording_uses_alt_screen(&[ev]));
}

#[test]
fn heuristic_infers_rows_from_scroll_region() {
    let input = b"\x1b[1;24r";
    let (rows, _) = heuristic_size(input).expect("should infer size");
    assert_eq!(rows, 24);
}

#[test]
fn heuristic_infers_cols_from_cursor_position() {
    let input = b"\x1b[1;80H";
    let (_, cols) = heuristic_size(input).expect("should infer size");
    assert_eq!(cols, 80);
}

#[test]
fn heuristic_uses_max_col() {
    let input = b"\x1b[1;40H\x1b[5;120H\x1b[1;24r";
    let (rows, cols) = heuristic_size(input).expect("should infer size");
    assert_eq!(rows, 24);
    assert_eq!(cols, 120);
}

#[test]
fn heuristic_infers_cols_from_sgr_padded_run() {
    let mut input = Vec::new();
    input.extend_from_slice(b"\x1b[1;24r");
    input.extend_from_slice(b"\x1b[3;22H");
    input.extend_from_slice(b"\x1b[94m");
    input.push(b'~');
    input.extend(std::iter::repeat(b' ').take(79));
    input.extend_from_slice(b"\x1b[0m");

    let (rows, cols) = heuristic_size(&input).expect("should infer size");
    assert_eq!(rows, 24);
    assert_eq!(cols, 80, "cols must come from tilde padding, not cursor-H col 22");
}

#[test]
fn heuristic_returns_none_for_plain_text() {
    let input = b"hello world";
    assert!(heuristic_size(input).is_none());
}

#[test]
fn remap_noop_when_offset_is_1_1() {
    let input = b"\x1b[5;10Hhello\x1b[1;24r";
    assert_eq!(remap_coordinates(input, 1, 1), input);
}

#[test]
fn remap_cup_adds_offset() {
    let input = b"\x1b[5;10H";
    let out = remap_coordinates(input, 3, 5);
    assert_eq!(out, b"\x1b[7;14H");
}

#[test]
fn remap_hvp_adds_offset() {
    let input = b"\x1b[3;1f";
    let out = remap_coordinates(input, 2, 4);
    assert_eq!(out, b"\x1b[4;4f");
}

#[test]
fn remap_cup_bare_home_defaults_to_1_1() {
    let input = b"\x1b[H";
    let out = remap_coordinates(input, 3, 5);
    assert_eq!(out, b"\x1b[3;5H");
}

#[test]
fn remap_scroll_region_adjusts_rows() {
    let input = b"\x1b[1;24r";
    let out = remap_coordinates(input, 3, 1);
    assert_eq!(out, b"\x1b[3;26r");
}

#[test]
fn remap_sgr_and_text_unchanged() {
    let input = b"\x1b[38;5;130mhello\x1b[0m";
    let out = remap_coordinates(input, 5, 10);
    assert_eq!(out, input);
}

#[test]
fn remap_relative_cursor_unchanged() {
    let input = b"\x1b[3A\x1b[9C";
    let out = remap_coordinates(input, 5, 10);
    assert_eq!(out, input);
}

#[test]
fn remap_mixed_stream() {
    let input = b"\x1b[1;1H\x1b[38;5;130mline1\x1b[0m\x1b[24;1H\x1b[1;24r";
    let out = remap_coordinates(input, 4, 5);
    assert_eq!(out, b"\x1b[4;5H\x1b[38;5;130mline1\x1b[0m\x1b[27;5H\x1b[4;27r");
}

#[test]
fn remap_saturates_at_u16_max() {
    let out = remap_coordinates(b"\x1b[65535;2H", 3, 1);
    assert_eq!(out, b"\x1b[65535;2H");
}

#[test]
fn remap_keeps_truncated_sequence() {
    let out = remap_coordinates(b"ab\x1b[12;", 3, 3);
    assert_eq!(out, b"ab\x1b[12;");
}

#[test]
fn dump_output_concatenates_out_events() {
    let events = vec![
        event(0, "out", b"hello "),
        event(1, "in", b"ignored"),
        event(2, "out", b"world"),
        RecordingEvent { ts: 3, dir: "out".to_string(), data: "!!not base64!!".to_string() },
    ];
    assert_eq!(dump_output(&events), b"hello world");
}

#[test]
fn header_if_meta_recognises_meta() {
    let h = RecordingHeader { dir: "meta".to_string(), ts: 1000, rows: 24, cols: 80, program: "bash".to_string() };
    let got = header_if_meta(h).expect("meta header");
    assert_eq!(got.rows, 24);
    assert_eq!(got.program, "bash");
    let data = RecordingHeader { dir: "out".to_string(), ts: 1, rows: 0, cols: 0, program: String::new() };
    assert!(header_if_meta(data).is_none());
}

#[test]
fn merge_groups_events_within_threshold() {
    let events = vec![
        event(100, "out", b"a"),
        event(100 + MERGE_THRESHOLD_MS - 1, "out", b"b"),
        event(100 + 2 * MERGE_THRESHOLD_MS, "out", b"c"),
        event(90, "out", b"d"),
    ];
    assert_eq!(merge_group_end(&events, 0), 1);
    // A timestamp going backwards counts as no delay.
    assert_eq!(merge_group_end(&events, 2), 3);
    assert_eq!(merge_group_end(&events, 3), 3);
}

#[test]
fn replay_size_prefers_header_with_resize_events() {
    assert_eq!(replay_size(Some((30, 100)), true, Some((50, 200))), (30, 100));
    assert_eq!(replay_size(Some((30, 100)), false, Some((50, 90))), (50, 100));
    assert_eq!(replay_size(Some((30, 100)), false, None), (30, 100));
    assert_eq!(replay_size(None, false, Some((40, 120))), (40, 120));
    assert_eq!(replay_size(None, false, None), (24, 80));
}

#[test]
fn replay_start_size_uses_inferred_size() {
    let events = vec![event(0, "out", b"\x1b[1;40r\x1b[2;132H")];
    assert!(!has_resize_events(&events));
    let header = RecordingHeader { dir: "meta".to_string(), ts: 0, rows: 24, cols: 80, program: "vim".to_string() };
    assert_eq!(replay_start_size(Some(&header), &events), (40, 132));
    assert_eq!(replay_start_size(None, &events), (40, 132));
    let mut with_resize = events.clone();
    with_resize.push(event(5, "resize", b"30,90"));
    assert!(has_resize_events(&with_resize));
    assert_eq!(replay_start_size(Some(&header), &with_resize), (24, 80));
}

#[test]
fn resize_payload_round_trips() {
    let payload = resize_payload(40, 120);
    assert_eq!(payload, b"40,120");
    assert_eq!(parse_resize_payload(&payload), Some((40, 120)));
    assert_eq!(parse_resize_payload(b"40;120"), None);
    assert_eq!(parse_resize_payload(b"1,2,3"), None);
    assert_eq!(parse_resize_payload(b"70000,1"), None);
    assert_eq!(parse_resize_payload(b"+5,6"), Some((5, 6)));
}

#[test]
fn event_action_per_direction() {
    match event_action(&event(0, "out", b"xyz")) {
        ReplayAction::Output(b) => assert_eq!(b, b"xyz"),
        _ => panic!("expected output"),
    }
    match event_action(&event(0, "resize", b"10,20")) {
        ReplayAction::Resize(r, c) => assert_eq!((r, c), (10, 20)),
        _ => panic!("expected resize"),
    }
    assert!(matches!(event_action(&event(0, "in", b"q")), ReplayAction::Skip));
    assert!(matches!(event_action(&event(0, "resize", b"junk")), ReplayAction::Skip));
}

#[test]
fn group_plan_inline_filters_and_normalizes() {
    let events = vec![
        event(0, "out", b"a\r\r\n\x1b["),
        event(2, "out", b"6nb"),
        event(100, "out", b"later"),
    ];
    let (end, steps) = plan_replay_group(&events, 0, false);
    assert_eq!(end, 1);
    assert_eq!(steps.len(), 1);
    match &steps[0] {
        ReplayStep::Write(b) => assert_eq!(b, b"a\r\nb"),
        _ => panic!("expected a raw write"),
    }
}

#[test]
fn group_plan_alt_screen_renders_around_resize() {
    let events = vec![
        event(0, "out", b"one"),
        event(1, "resize", b"30,100"),
        event(2, "out", b"two"),
        event(3, "in", b"x"),
    ];
    let (end, steps) = plan_replay_group(&events, 0, true);
    assert_eq!(end, 3);
    assert_eq!(steps.len(), 3);
    match &steps[0] {
        ReplayStep::Render(b) => assert_eq!(b, b"one"),
        _ => panic!("expected render before resize"),
    }
    assert!(matches!(steps[1], ReplayStep::Resize(30, 100)));
    match &steps[2] {
        ReplayStep::Render(b) => assert_eq!(b, b"two"),
        _ => panic!("expected final render"),
    }
}

#[test]
fn group_plan_renders_every_output_byte_once() {
    let events = vec![
        event(0, "out", b"ab"),
        event(1, "resize", b"bad"),
        event(2, "out", b"cd"),
        event(3, "resize", b"5,5"),
        event(4, "out", b"ef"),
    ];
    let (_, steps) = plan_replay_group(&events, 0, true);
    let mut rendered = Vec::new();
    for s in &steps {
        if let ReplayStep::Render(b) = s {
            rendered.extend_from_slice(b);
        }
    }
    assert_eq!(rendered, b"abcdef");
}

#[test]
fn recorded_events_replay() {
    let out = make_event(7, "out", b"\x1b[1mhi");
    assert_eq!(out.ts, 7);
    assert_eq!(out.dir, "out");
    assert_eq!(out.data, b64(b"\x1b[1mhi"));
    match event_action(&out) {
        ReplayAction::Output(b) => assert_eq!(b, b"\x1b[1mhi"),
        _ => panic!("expected output"),
    }
    let resize = make_event(8, "resize", &resize_payload(33, 101));
    match event_action(&resize) {
        ReplayAction::Resize(r, c) => assert_eq!((r, c), (33, 101)),
        _ => panic!("expected resize"),
    }
    let h = make_header(9, 24, 80, "vim");
    assert_eq!(h.dir, "meta");
    let h = header_if_meta(h).expect("a written header reads back");
    assert_eq!((h.ts, h.rows, h.cols, h.program.as_str()), (9, 24, 80, "vim"));
}

#[test]
fn replay_stops_on_ctrl_d_or_q() {
    assert!(replay_stop_input(b"\x04"));
    assert!(replay_stop_input(b"xq"));
    assert!(!replay_stop_input(b"abc"));
}

#[test]
fn filter_agrees_with_strip_dsr_without_dcs() {
    let input = b"a\x1b[6nb\x1b[31mc\x1b[6";
    assert_eq!(filter_query_sequences(input), agent_shell_core::attach::strip_dsr(input));
}

#[test]
fn remap_offsets_compose() {
    let input: &[u8] = b"\x1b[H\x1b[5;10Hx\x1b[2;20r\x1b[3A\x1b\x1bq\x1b[65530;7f\x1b[12";
    let twice = remap_coordinates(&remap_coordinates(input, 3, 4), 5, 2);
    let once = remap_coordinates(input, 7, 5);
    assert_eq!(twice, once);
    assert_eq!(remap_coordinates(&remap_coordinates(input, 1, 1), 5, 2), remap_coordinates(input, 5, 2));
}
