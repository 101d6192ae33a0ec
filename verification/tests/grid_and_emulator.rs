use agent_shell_core::term_emulator::{term_size_ok, TermEmulator};
use agent_shell_core::vte_grid::VteGrid;

#[test]
fn vte_grid_basic_text() {
    let mut grid = VteGrid::new(24, 80);
    grid.process(b"hello\n");
    let screen = grid.screen();
    assert_eq!(screen[0], "hello");
}

#[test]
fn cursor_movement() {
    let mut grid = VteGrid::new(24, 80);
    grid.process(b"hello");
    assert_eq!(grid.cursor(), (0, 5));
}

#[test]
fn line_wrap() {
    let mut grid = VteGrid::new(24, 5);
    grid.process(b"123456");
    assert_eq!(grid.screen()[0], "12345");
    assert_eq!(grid.screen()[1], "6");
}

#[test]
fn scroll() {
    let mut grid = VteGrid::new(3, 80);
    grid.process(b"line1\r\nline2\r\nline3\r\nline4\r\n");
    let screen = grid.screen();
    assert_eq!(screen[0], "line3");
    assert_eq!(screen[1], "line4");
    assert_eq!(screen[2], "");
}

#[test]
fn full_redraw() {
    let mut grid = VteGrid::new(24, 80);
    grid.process(b"test");
    let bytes = grid.full_redraw_bytes();
    assert!(!bytes.is_empty());
    assert!(bytes.starts_with(b"\x1b[H\x1b[2J"));
}

#[test]
fn vte_grid_resize() {
    let mut grid = VteGrid::new(24, 80);
    grid.process(b"hello");
    grid.resize(40, 120);
    assert_eq!(grid.rows(), 40);
    assert_eq!(grid.cols(), 120);
}

#[test]
fn vte_grid_redraw_is_exact() {
    let mut grid = VteGrid::new(2, 10);
    grid.process(b"ab\r\ncd  ");
    let bytes = grid.full_redraw_bytes();
    assert_eq!(bytes, b"\x1b[H\x1b[2Jab\ncd\x1b[2;5H");
}

#[test]
fn vte_grid_csi_cursor_and_erase() {
    let mut grid = VteGrid::new(5, 10);
    grid.process(b"xxxxx\x1b[1;3Hyy\x1b[K");
    assert_eq!(grid.screen()[0], "xxyy");
    assert_eq!(grid.cursor(), (0, 4));
    grid.process(b"\x1b[2J");
    assert_eq!(grid.screen()[0], "");
}

#[test]
fn vte_grid_backspace_and_tab() {
    let mut grid = VteGrid::new(3, 20);
    grid.process(b"ab\x08c\tz");
    assert_eq!(grid.screen()[0], "ac      z");
}

#[test]
fn term_emulator_basic_text() {
    let mut emu = TermEmulator::new(24, 80);
    emu.process(b"hello\r\n");
    let screen = emu.screen();
    assert_eq!(screen[0], "hello");
}

#[test]
fn term_emulator_cursor_position() {
    let mut emu = TermEmulator::new(24, 80);
    emu.process(b"hello");
    assert_eq!(emu.cursor(), (0, 5));
}

#[test]
fn term_emulator_alternate_screen() {
    let mut emu = TermEmulator::new(24, 80);
    assert!(!emu.is_alt_screen());
    emu.process(b"\x1b[?1049h");
    assert!(emu.is_alt_screen());
    emu.process(b"\x1b[?1049l");
    assert!(!emu.is_alt_screen());
}

#[test]
fn sgr_colors_preserved() {
    let mut emu = TermEmulator::new(24, 80);
    emu.process(b"\x1b[31mRED\x1b[0m");
    let redraw = emu.full_redraw();
    let s = String::from_utf8_lossy(&redraw);
    assert!(s.contains("\x1b["), "redraw should contain escape sequences");
    assert!(s.contains("RED"), "redraw should contain the text");
}

#[test]
fn full_redraw_alt_screen() {
    let mut emu = TermEmulator::new(24, 80);
    emu.process(b"\x1b[?1049h");
    emu.process(b"ALT CONTENT");
    let redraw = emu.full_redraw();
    let s = String::from_utf8_lossy(&redraw);
    assert!(s.contains("\x1b[?1049h"), "redraw should enter alt screen");
    assert!(s.contains("ALT CONTENT"), "redraw should contain alt content");
}

#[test]
fn term_emulator_resize() {
    let mut emu = TermEmulator::new(24, 80);
    emu.process(b"hello");
    emu.resize(40, 120);
    let screen = emu.screen();
    assert_eq!(screen.len(), 40);
}

#[test]
fn term_emulator_redraw_places_cursor() {
    let mut emu = TermEmulator::new(10, 40);
    emu.process(b"abc\r\nde");
    let redraw = emu.full_redraw();
    let s = String::from_utf8_lossy(&redraw);
    assert!(s.contains("abc"));
    assert!(s.contains("\x1b[2;3H"), "cursor should be placed at row 2, col 3: {:?}", s);
}

#[test]
fn term_emulator_redraw_frame() {
    let mut emu = TermEmulator::new(24, 80);
    emu.process(b"\x1b[?1049h");
    emu.process(b"ALT CONTENT");
    let r = emu.full_redraw();
    assert!(r.starts_with(b"\x1b[?1049h\x1b[0m\x1b[H\x1b[2J"));
    assert!(r.ends_with(b"\x1b[0m\x1b[1;12H\x1b[?25h"));
    let plain = TermEmulator::new(5, 10);
    let r = plain.full_redraw();
    assert!(r.starts_with(b"\x1b[0m\x1b[H\x1b[2J"));
    assert!(r.ends_with(b"\x1b[0m\x1b[1;1H\x1b[?25h"));
}

#[test]
fn term_sizes() {
    assert!(term_size_ok(1, 2));
    assert!(!term_size_ok(0, 80));
    assert!(!term_size_ok(24, 1));
}

#[test]
fn vte_grid_keeps_shape_and_cursor() {
    let mut grid = VteGrid::new(3, 4);
    grid.process(b"abcdefghijklmnop\r\n\x1b[9;9H\tzz\x1b[2J");
    let screen = grid.screen();
    assert_eq!(screen.len(), 3);
    assert!(screen.iter().all(|l| l.chars().count() <= 4));
    let (r, c) = grid.cursor();
    assert!(r < 3 && c < 4);
}

#[test]
fn vte_grid_without_rows_or_columns() {
    let mut grid = VteGrid::new(0, 5);
    assert!(grid.try_process(b"hello\x1b[2A\x1b[3D\x1b[2J\x1b[31m"));
    assert!(grid.screen().is_empty());
    assert_eq!(grid.cursor(), (0, 0));
    assert!(!grid.try_process(b"a\nb"));
    assert!(!grid.try_process(b"\x1b[K"));

    let mut grid = VteGrid::new(3, 0);
    assert!(grid.try_process(b"x\n\x1b[2B\x1b[K\x1b[J"));
    assert_eq!(grid.screen(), vec!["", "", ""]);
    assert_eq!(grid.cursor(), (2, 0));
    assert!(!grid.try_process(b"\t"));
    assert!(!grid.try_process(b"\x1b[1;1H"));
    assert_eq!(grid.cursor(), (2, 0));

    let mut grid = VteGrid::new(0, 0);
    assert!(grid.try_process(b"\x1b[K\x1b[J\x1b[2K\r\x08"));
    assert!(!grid.try_process(b"\x1b[1K"));
}

#[test]
fn vte_grid_try_process_matches_process() {
    let mut a = VteGrid::new(4, 10);
    let mut b = VteGrid::new(4, 10);
    a.process(b"one\r\ntwo\x1b[1;5Hx");
    assert!(b.try_process(b"one\r\ntwo\x1b[1;5Hx"));
    assert_eq!(a.screen(), b.screen());
    assert_eq!(a.cursor(), b.cursor());
    assert_eq!(a.screen()[0], "one x");
}

#[test]
fn term_emulator_cursor_stays_on_screen() {
    let mut emu = TermEmulator::new(5, 10);
    emu.process(b"\x1b[99;99H");
    assert_eq!(emu.cursor(), (4, 9));
    emu.process(b"\x1b[99A");
    assert_eq!(emu.cursor(), (0, 9));
    emu.resize(3, 4);
    let (row, col) = emu.cursor();
    assert!(row < 3 && col < 4);
    let r = emu.full_redraw();
    let tail = format!("\x1b[0m\x1b[{};{}H\x1b[?25h", row + 1, col + 1);
    assert!(r.ends_with(tail.as_bytes()));
}
