use agent_shell_core::mouse::{
    encode_click, encode_drag, encode_move, encode_press, encode_release, encode_scroll,
    parse_button, parse_direction, plan_mouse, MouseButton, ScrollDirection,
};

#[test]
fn press_left() {
    assert_eq!(encode_press(MouseButton::Left, 10, 5), b"\x1b[<0;10;5M");
}

#[test]
fn press_middle() {
    assert_eq!(encode_press(MouseButton::Middle, 1, 1), b"\x1b[<1;1;1M");
}

#[test]
fn press_right() {
    assert_eq!(encode_press(MouseButton::Right, 80, 24), b"\x1b[<2;80;24M");
}

#[test]
fn release_left() {
    assert_eq!(encode_release(MouseButton::Left, 10, 5), b"\x1b[<0;10;5m");
}

#[test]
fn release_middle() {
    assert_eq!(encode_release(MouseButton::Middle, 3, 7), b"\x1b[<1;3;7m");
}

#[test]
fn release_right() {
    assert_eq!(encode_release(MouseButton::Right, 1, 1), b"\x1b[<2;1;1m");
}

#[test]
fn click_single() {
    let seqs = encode_click(MouseButton::Left, 10, 5, 1);
    assert_eq!(seqs.len(), 2);
    assert_eq!(seqs[0], b"\x1b[<0;10;5M");
    assert_eq!(seqs[1], b"\x1b[<0;10;5m");
}

#[test]
fn click_triple() {
    let seqs = encode_click(MouseButton::Left, 10, 5, 3);
    assert_eq!(seqs.len(), 6);
    for i in 0..3 {
        assert_eq!(seqs[i * 2], b"\x1b[<0;10;5M");
        assert_eq!(seqs[i * 2 + 1], b"\x1b[<0;10;5m");
    }
}

#[test]
fn scroll_up() {
    let seqs = encode_scroll(ScrollDirection::Up, 10, 5, 3);
    assert_eq!(seqs.len(), 3);
    for s in &seqs {
        assert_eq!(s, b"\x1b[<64;10;5M");
    }
}

#[test]
fn scroll_down() {
    let seqs = encode_scroll(ScrollDirection::Down, 10, 5, 1);
    assert_eq!(seqs.len(), 1);
    assert_eq!(seqs[0], b"\x1b[<65;10;5M");
}

#[test]
fn move_left_drag() {
    assert_eq!(encode_move(MouseButton::Left, 15, 10), b"\x1b[<32;15;10M");
}

#[test]
fn move_right_drag() {
    assert_eq!(encode_move(MouseButton::Right, 5, 3), b"\x1b[<34;5;3M");
}

#[test]
fn drag_basic() {
    let seqs = encode_drag(MouseButton::Left, 1, 1, 5, 5, 4);
    assert_eq!(seqs.len(), 6);
    assert_eq!(seqs[0], b"\x1b[<0;1;1M");
    assert_eq!(seqs[5], b"\x1b[<0;5;5m");
    for seq in &seqs[1..5] {
        assert!(seq.starts_with(b"\x1b[<32;"));
        assert!(seq.ends_with(b"M"));
    }
    assert_eq!(seqs[4], b"\x1b[<32;5;5M");
}

#[test]
fn drag_steps_clamped_to_one() {
    let seqs = encode_drag(MouseButton::Left, 1, 1, 10, 10, 0);
    assert_eq!(seqs.len(), 3);
    assert_eq!(seqs[0], b"\x1b[<0;1;1M");
    assert_eq!(seqs[1], b"\x1b[<32;10;10M");
    assert_eq!(seqs[2], b"\x1b[<0;10;10m");
}

#[test]
fn large_coordinates() {
    assert_eq!(encode_press(MouseButton::Left, 1000, 500), b"\x1b[<0;1000;500M");
}

#[test]
fn parse_button_valid() {
    assert_eq!(parse_button("left").unwrap(), MouseButton::Left);
    assert_eq!(parse_button("middle").unwrap(), MouseButton::Middle);
    assert_eq!(parse_button("right").unwrap(), MouseButton::Right);
}

#[test]
fn parse_button_invalid() {
    assert!(parse_button("unknown").is_err());
}

#[test]
fn parse_direction_valid() {
    assert_eq!(parse_direction("up").unwrap(), ScrollDirection::Up);
    assert_eq!(parse_direction("down").unwrap(), ScrollDirection::Down);
}

#[test]
fn parse_direction_invalid() {
    assert!(parse_direction("left").is_err());
}

#[test]
fn drag_documented_example() {
    // from (1,1) to (1,10) in 5 steps: motions at rows 1, 3, 5, 7, 10.
    let s = encode_drag(MouseButton::Left, 1, 1, 1, 10, 5);
    assert_eq!(s.len(), 7);
    assert_eq!(s[1], b"\x1b[<32;1;1M");
    assert_eq!(s[2], b"\x1b[<32;1;3M");
    assert_eq!(s[3], b"\x1b[<32;1;5M");
    assert_eq!(s[4], b"\x1b[<32;1;7M");
    assert_eq!(s[5], b"\x1b[<32;1;10M");
    assert_eq!(s[6], b"\x1b[<0;1;10m");
}

#[test]
fn drag_two_steps_hits_both_ends() {
    let seqs = encode_drag(MouseButton::Left, 1, 1, 10, 10, 2);
    assert_eq!(seqs.len(), 4);
    assert_eq!(seqs[1], b"\x1b[<32;1;1M");
    assert_eq!(seqs[2], b"\x1b[<32;10;10M");
}

#[test]
fn drag_backwards_reaches_target() {
    let seqs = encode_drag(MouseButton::Right, 9, 7, 3, 2, 3);
    assert_eq!(seqs.len(), 5);
    assert_eq!(seqs[0], b"\x1b[<2;9;7M");
    assert_eq!(seqs[1], b"\x1b[<34;9;7M");
    assert_eq!(seqs[2], b"\x1b[<34;6;4M");
    assert_eq!(seqs[3], b"\x1b[<34;3;2M");
    assert_eq!(seqs[4], b"\x1b[<2;3;2m");
}

#[test]
fn plan_mouse_click_in_bounds() {
    let seqs = plan_mouse("click", 3, 4, Some("middle"), None, Some(2), None, None, None, 24, 80)
        .unwrap();
    assert_eq!(seqs.len(), 4);
    assert_eq!(seqs[0], b"\x1b[<1;3;4M");
    assert_eq!(seqs[3], b"\x1b[<1;3;4m");
}

#[test]
fn plan_mouse_rejects_zero_coordinates() {
    let err = plan_mouse("click", 0, 4, None, None, None, None, None, None, 24, 80).unwrap_err();
    assert_eq!(err, "coordinates must be >= 1 (1-based)");
}

#[test]
fn plan_mouse_rejects_x_beyond_width() {
    let err = plan_mouse("click", 81, 4, None, None, None, None, None, None, 24, 80).unwrap_err();
    assert!(err.contains("x"));
    assert!(err.contains("80"));
}

#[test]
fn plan_mouse_scroll_needs_direction() {
    assert!(plan_mouse("scroll", 1, 1, None, None, None, None, None, None, 24, 80).is_err());
    let seqs = plan_mouse("scroll", 1, 1, None, Some("down"), Some(2), None, None, None, 24, 80)
        .unwrap();
    assert_eq!(seqs, vec![b"\x1b[<65;1;1M".to_vec(), b"\x1b[<65;1;1M".to_vec()]);
}

#[test]
fn plan_mouse_drag_needs_target() {
    let err = plan_mouse("drag", 1, 1, None, None, None, None, Some(2), None, 24, 80).unwrap_err();
    assert_eq!(err, "drag requires --to-x");
}

#[test]
fn plan_mouse_unknown_action() {
    assert!(plan_mouse("hover", 1, 1, None, None, None, None, None, None, 24, 80).is_err());
}
