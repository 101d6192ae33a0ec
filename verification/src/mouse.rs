//! SGR mouse event encoding for PTY input.
//!
//! All coordinates are 1-based (col, row) matching terminal convention.
//! Encodes events in SGR format: `\x1b[<{button};{col};{row}{M|m}`
use crate::text::{decimal, decimal_chars, push_decimal, push_decimal_str, str_eq, string_of};
use vstd::prelude::*;
use vstd::string::*;

verus! {

/// Mouse button identifier.
#[derive(Debug, Clone, Copy, PartialEq, Eq, Structural)]
pub enum MouseButton {
    Left,
    Middle,
    Right,
}

/// Scroll direction.
#[derive(Debug, Clone, Copy, PartialEq, Eq, Structural)]
pub enum ScrollDirection {
    Up,
    Down,
}

pub open spec fn press_code_of(b: MouseButton) -> nat {
    match b {
        MouseButton::Left => 0,
        MouseButton::Middle => 1,
        MouseButton::Right => 2,
    }
}

pub open spec fn motion_code_of(b: MouseButton) -> nat {
    press_code_of(b) + 32
}

pub open spec fn scroll_code_of(d: ScrollDirection) -> nat {
    match d {
        ScrollDirection::Up => 64,
        ScrollDirection::Down => 65,
    }
}

/// `ESC [ < code ; x ; y suffix`
pub open spec fn sgr_event(code: nat, x: nat, y: nat, suffix: u8) -> Seq<u8> {
    seq![0x1bu8, 0x5bu8, 0x3cu8] + decimal(code) + seq![0x3bu8] + decimal(x) + seq![0x3bu8]
        + decimal(y) + seq![suffix]
}

/// The suffix byte of press and motion events: `M`.
pub open spec fn suffix_press() -> u8 {
    0x4d
}

/// The suffix byte of release events: `m`.
pub open spec fn suffix_release() -> u8 {
    0x6d
}

pub open spec fn press_event(b: MouseButton, x: nat, y: nat) -> Seq<u8> {
    sgr_event(press_code_of(b), x, y, suffix_press())
}

pub open spec fn release_event(b: MouseButton, x: nat, y: nat) -> Seq<u8> {
    sgr_event(press_code_of(b), x, y, suffix_release())
}

pub open spec fn move_event(b: MouseButton, x: nat, y: nat) -> Seq<u8> {
    sgr_event(motion_code_of(b), x, y, suffix_press())
}

pub open spec fn scroll_event(d: ScrollDirection, x: nat, y: nat) -> Seq<u8> {
    sgr_event(scroll_code_of(d), x, y, suffix_press())
}

pub open spec fn click_events(b: MouseButton, x: nat, y: nat, count: nat) -> Seq<Seq<u8>> {
    Seq::new(
        2 * count,
        |i: int|
            if i % 2 == 0 {
                press_event(b, x, y)
            } else {
                release_event(b, x, y)
            },
    )
}

pub open spec fn scroll_events(d: ScrollDirection, x: nat, y: nat, count: nat) -> Seq<Seq<u8>> {
    Seq::new(count, |i: int| scroll_event(d, x, y))
}

/// The `k`-th (from 0) of `steps` points spaced evenly on the line from
/// `from` to `to`, both ends included: `from + (to - from) * k / (steps - 1)`
/// truncated to an integer (the target itself for a single step), and at
/// least 1.
pub open spec fn drag_point(from: nat, to: nat, k: nat, steps: nat) -> nat {
    let r: int = if steps <= 1 {
        to as int
    } else {
        (from * (steps - 1 - k) + to * k) / (steps - 1) as int
    };
    if r < 1 {
        1
    } else {
        r as nat
    }
}

pub open spec fn effective_steps(steps: nat) -> nat {
    if steps < 1 {
        1
    } else {
        steps
    }
}

/// press(from) → `steps` moves at evenly spaced points from the origin to
/// the target → release(to).
pub open spec fn drag_events(
    b: MouseButton,
    fx: nat,
    fy: nat,
    tx: nat,
    ty: nat,
    steps: nat,
) -> Seq<Seq<u8>> {
    let s = effective_steps(steps);
    Seq::new(
        s + 2,
        |i: int|
            if i == 0 {
                press_event(b, fx, fy)
            } else if i == s + 1 {
                release_event(b, tx, ty)
            } else {
                move_event(
                    b,
                    drag_point(fx, tx, (i - 1) as nat, s),
                    drag_point(fy, ty, (i - 1) as nat, s),
                )
            },
    )
}

/// The byte contents of a list of sequences.
pub open spec fn seqs_view(v: Seq<Vec<u8>>) -> Seq<Seq<u8>> {
    v.map_values(|s: Vec<u8>| s@)
}

pub proof fn lemma_seqs_view_push(s: Seq<Vec<u8>>, v: Vec<u8>)
    ensures
        seqs_view(s.push(v)) == seqs_view(s).push(v@),
{
    assert(seqs_view(s.push(v)) =~= seqs_view(s).push(v@));
}

impl MouseButton {
    /// SGR button code for press events.
    fn press_code(self) -> (c: u8)
        ensures
            c == press_code_of(self),
    {
        match self {
            MouseButton::Left => 0,
            MouseButton::Middle => 1,
            MouseButton::Right => 2,
        }
    }

    /// SGR button code for motion (drag) events = press_code + 32.
    fn motion_code(self) -> (c: u8)
        ensures
            c == motion_code_of(self),
    {
        self.press_code() + 32
    }
}

impl ScrollDirection {
    /// SGR button code for scroll events.
    fn code(self) -> (c: u8)
        ensures
            c == scroll_code_of(self),
    {
        match self {
            ScrollDirection::Up => 64,
            ScrollDirection::Down => 65,
        }
    }
}

pub open spec fn spec_parse_button(s: Seq<char>) -> Result<MouseButton, Seq<char>> {
    if s == "left"@ {
        Ok(MouseButton::Left)
    } else if s == "middle"@ {
        Ok(MouseButton::Middle)
    } else if s == "right"@ {
        Ok(MouseButton::Right)
    } else {
        Err("unknown button: '"@ + s + "' (expected left|middle|right)"@)
    }
}

pub open spec fn spec_parse_direction(s: Seq<char>) -> Result<ScrollDirection, Seq<char>> {
    if s == "up"@ {
        Ok(ScrollDirection::Up)
    } else if s == "down"@ {
        Ok(ScrollDirection::Down)
    } else {
        Err("unknown direction: '"@ + s + "' (expected up|down)"@)
    }
}

pub open spec fn result_view<T>(r: Result<T, String>) -> Result<T, Seq<char>> {
    match r {
        Ok(v) => Ok(v),
        Err(e) => Err(e@),
    }
}

/// Parse a button name string into MouseButton.
pub fn parse_button(s: &str) -> (r: Result<MouseButton, String>)
    ensures
        result_view(r) == spec_parse_button(s@),
{
    if str_eq(s, "left") {
        Ok(MouseButton::Left)
    } else if str_eq(s, "middle") {
        Ok(MouseButton::Middle)
    } else if str_eq(s, "right") {
        Ok(MouseButton::Right)
    } else {
        let mut msg = string_of("unknown button: '");
        msg.append(s);
        msg.append("' (expected left|middle|right)");
        Err(msg)
    }
}

/// Parse a direction string into ScrollDirection.
pub fn parse_direction(s: &str) -> (r: Result<ScrollDirection, String>)
    ensures
        result_view(r) == spec_parse_direction(s@),
{
    if str_eq(s, "up") {
        Ok(ScrollDirection::Up)
    } else if str_eq(s, "down") {
        Ok(ScrollDirection::Down)
    } else {
        let mut msg = string_of("unknown direction: '");
        msg.append(s);
        msg.append("' (expected up|down)");
        Err(msg)
    }
}

/// Encode a single SGR mouse event.
/// `suffix`: `M` for press/motion, `m` for release.
fn encode_sgr(button_code: u8, x: u16, y: u16, suffix: u8) -> (r: Vec<u8>)
    ensures
        r@ == sgr_event(button_code as nat, x as nat, y as nat, suffix),
{
    let mut out: Vec<u8> = Vec::new();
    out.push(0x1b);
    out.push(0x5b);
    out.push(0x3c);
    push_decimal(&mut out, button_code as u128);
    out.push(0x3b);
    push_decimal(&mut out, x as u128);
    out.push(0x3b);
    push_decimal(&mut out, y as u128);
    out.push(suffix);
    assert(out@ =~= sgr_event(button_code as nat, x as nat, y as nat, suffix));
    out
}

/// Encode a button press event.
pub fn encode_press(button: MouseButton, x: u16, y: u16) -> (r: Vec<u8>)
    ensures
        r@ == press_event(button, x as nat, y as nat),
{
    encode_sgr(button.press_code(), x, y, 0x4d)
}

/// Encode a button release event.
pub fn encode_release(button: MouseButton, x: u16, y: u16) -> (r: Vec<u8>)
    ensures
        r@ == release_event(button, x as nat, y as nat),
{
    encode_sgr(button.press_code(), x, y, 0x6d)
}

/// Encode a click (press + release), repeated `count` times.
pub fn encode_click(button: MouseButton, x: u16, y: u16, count: u16) -> (r: Vec<Vec<u8>>)
    ensures
        seqs_view(r@) == click_events(button, x as nat, y as nat, count as nat),
{
    let mut seqs: Vec<Vec<u8>> = Vec::with_capacity(count as usize * 2);
    let mut k: u16 = 0;
    while k < count
        invariant
            0 <= k <= count,
            seqs_view(seqs@) == click_events(button, x as nat, y as nat, k as nat),
        decreases count - k,
    {
        let p = encode_press(button, x, y);
        let r = encode_release(button, x, y);
        proof {
            lemma_seqs_view_push(seqs@, p);
            lemma_seqs_view_push(seqs@.push(p), r);
        }
        seqs.push(p);
        seqs.push(r);
        k = k + 1;
        assert forall|j: int| 0 <= j < 2 * k implies #[trigger] seqs_view(seqs@)[j] == click_events(
            button,
            x as nat,
            y as nat,
            k as nat,
        )[j] by {
            if j < 2 * k - 2 {
                assert(seqs_view(seqs@)[j] == click_events(button, x as nat, y as nat, (k - 1) as nat)[j]);
            } else if j == 2 * k - 2 {
                assert(j % 2 == 0);
            } else {
                assert(j % 2 == 1);
            }
        }
        assert(seqs_view(seqs@) =~= click_events(button, x as nat, y as nat, k as nat));
    }
    seqs
}

/// Encode scroll events, repeated `count` times.
/// Each scroll event is a press + release pair.
pub fn encode_scroll(direction: ScrollDirection, x: u16, y: u16, count: u16) -> (r: Vec<Vec<u8>>)
    ensures
        seqs_view(r@) == scroll_events(direction, x as nat, y as nat, count as nat),
{
    let mut seqs: Vec<Vec<u8>> = Vec::with_capacity(count as usize);
    let mut k: u16 = 0;
    while k < count
        invariant
            0 <= k <= count,
            seqs_view(seqs@) == scroll_events(direction, x as nat, y as nat, k as nat),
        decreases count - k,
    {
        let e = encode_sgr(direction.code(), x, y, 0x4d);
        proof {
            lemma_seqs_view_push(seqs@, e);
        }
        seqs.push(e);
        k = k + 1;
        assert(seqs_view(seqs@) =~= scroll_events(direction, x as nat, y as nat, k as nat));
    }
    seqs
}

/// Encode a motion (move) event with a button held.
pub fn encode_move(button: MouseButton, x: u16, y: u16) -> (r: Vec<u8>)
    ensures
        r@ == move_event(button, x as nat, y as nat),
{
    encode_sgr(button.motion_code(), x, y, 0x4d)
}

/// One coordinate of an interpolated drag point.
fn interpolate(from: u16, to: u16, k: u16, steps: u16) -> (r: u16)
    requires
        k < steps,
    ensures
        r == drag_point(from as nat, to as nat, k as nat, steps as nat),
{
    if steps <= 1 {
        return if to < 1 {
            1
        } else {
            to
        };
    }
    let f = from as u64;
    let t = to as u64;
    let kk = k as u64;
    let d = steps as u64 - 1;
    assert(f * (d - kk) <= 65535 * 65535) by (nonlinear_arith)
        requires
            f <= 65535,
            d - kk <= 65535,
    ;
    assert(t * kk <= 65535 * 65535) by (nonlinear_arith)
        requires
            t <= 65535,
            kk <= 65535,
    ;
    let num = f * (d - kk) + t * kk;
    let r = num / d;
    let m: u64 = if f > t {
        f
    } else {
        t
    };
    assert(r <= m) by (nonlinear_arith)
        requires
            num == f * (d - kk) + t * kk,
            r == num / d,
            f <= m,
            t <= m,
            kk <= d,
            d >= 1,
    {
        assert(num <= m * (d - kk) + m * kk);
        assert(num <= m * d);
    }
    let r16 = r as u16;
    if r16 < 1 {
        1
    } else {
        r16
    }
}

/// Encode a drag sequence: press(from) → interpolated moves → release(to).
///
/// `steps` controls the number of intermediate move events (clamped >= 1).
/// The interpolation is linear between from and to coordinates.
pub fn encode_drag(
    button: MouseButton,
    from_x: u16,
    from_y: u16,
    to_x: u16,
    to_y: u16,
    steps: u16,
) -> (r: Vec<Vec<u8>>)
    ensures
        seqs_view(r@) == drag_events(
            button,
            from_x as nat,
            from_y as nat,
            to_x as nat,
            to_y as nat,
            steps as nat,
        ),
{
    let steps = if steps < 1 {
        1
    } else {
        steps
    };
    let ghost spec_all = drag_events(
        button,
        from_x as nat,
        from_y as nat,
        to_x as nat,
        to_y as nat,
        steps as nat,
    );
    let mut seqs: Vec<Vec<u8>> = Vec::with_capacity(2 + steps as usize);
    let first = encode_press(button, from_x, from_y);
    proof {
        lemma_seqs_view_push(seqs@, first);
    }
    seqs.push(first);
    assert(seqs_view(seqs@) =~= spec_all.subrange(0, 1));
    let mut i: u32 = 1;
    while i <= steps as u32
        invariant
            1 <= i <= steps + 1,
            steps >= 1,
            spec_all == drag_events(
                button,
                from_x as nat,
                from_y as nat,
                to_x as nat,
                to_y as nat,
                steps as nat,
            ),
            seqs_view(seqs@) == spec_all.subrange(0, i as int),
        decreases steps + 1 - i,
    {
        let ix = interpolate(from_x, to_x, (i - 1) as u16, steps);
        let iy = interpolate(from_y, to_y, (i - 1) as u16, steps);
        let e = encode_move(button, ix, iy);
        proof {
            lemma_seqs_view_push(seqs@, e);
        }
        seqs.push(e);
        assert(seqs_view(seqs@) =~= spec_all.subrange(0, i + 1));
        i = i + 1;
    }
    let e = encode_release(button, to_x, to_y);
    proof {
        lemma_seqs_view_push(seqs@, e);
    }
    seqs.push(e);
    assert(seqs_view(seqs@) =~= spec_all);
    seqs
}

pub open spec fn opt_view(o: Option<&str>) -> Option<Seq<char>> {
    match o {
        Some(s) => Some(s@),
        None => None,
    }
}

pub open spec fn exceeds_msg(axis: Seq<char>, v: nat, what: Seq<char>, limit: nat) -> Seq<char> {
    axis + " coordinate "@ + decimal_chars(v) + " exceeds terminal "@ + what + " "@ + decimal_chars(
        limit,
    )
}

/// Checks a drag target coordinate against the terminal size.
pub open spec fn spec_drag_target(
    v: Option<u16>,
    axis: Seq<char>,
    what: Seq<char>,
    limit: nat,
) -> Result<nat, Seq<char>> {
    match v {
        Some(v) => if 1 <= v <= limit {
            Ok(v as nat)
        } else if v == 0 {
            Err("to_"@ + axis + " must be >= 1"@)
        } else {
            Err(exceeds_msg("to_"@ + axis, v as nat, what, limit))
        },
        None => Err("drag requires --to-"@ + axis),
    }
}

/// The byte sequences that a mouse request asks for on a terminal of
/// `rows` x `cols`, or the reason it is refused.
pub open spec fn spec_plan_mouse(
    action: Seq<char>,
    x: nat,
    y: nat,
    button: Option<Seq<char>>,
    direction: Option<Seq<char>>,
    count: Option<u16>,
    to_x: Option<u16>,
    to_y: Option<u16>,
    steps: Option<u16>,
    rows: nat,
    cols: nat,
) -> Result<Seq<Seq<u8>>, Seq<char>> {
    let button_name = match button {
        Some(b) => b,
        None => "left"@,
    };
    let count = match count {
        Some(c) => c as nat,
        None => 1,
    };
    if x == 0 || y == 0 {
        Err("coordinates must be >= 1 (1-based)"@)
    } else if x > cols {
        Err(exceeds_msg("x"@, x, "width"@, cols))
    } else if y > rows {
        Err(exceeds_msg("y"@, y, "height"@, rows))
    } else if spec_parse_button(button_name) is Err {
        Err(spec_parse_button(button_name)->Err_0)
    } else if count > 100 {
        Err("count must be <= 100"@)
    } else if count == 0 {
        Err("count must be >= 1"@)
    } else {
        let b = spec_parse_button(button_name)->Ok_0;
        if action == "click"@ {
            Ok(click_events(b, x, y, count))
        } else if action == "scroll"@ {
            match direction {
                None => Err("scroll requires --direction (up|down)"@),
                Some(d) => match spec_parse_direction(d) {
                    Ok(dir) => Ok(scroll_events(dir, x, y, count)),
                    Err(e) => Err(e),
                },
            }
        } else if action == "press"@ {
            Ok(seq![press_event(b, x, y)])
        } else if action == "release"@ {
            Ok(seq![release_event(b, x, y)])
        } else if action == "move"@ {
            Ok(seq![move_event(b, x, y)])
        } else if action == "drag"@ {
            match spec_drag_target(to_x, "x"@, "width"@, cols) {
                Err(e) => Err(e),
                Ok(tx) => match spec_drag_target(to_y, "y"@, "height"@, rows) {
                    Err(e) => Err(e),
                    Ok(ty) => {
                        let steps = match steps {
                            Some(s) => s as nat,
                            None => 5,
                        };
                        if steps > 100 {
                            Err("steps must be <= 100"@)
                        } else {
                            Ok(drag_events(b, x, y, tx, ty, steps))
                        }
                    },
                },
            }
        } else {
            Err("unknown mouse action: '"@ + action + "'"@)
        }
    }
}

pub open spec fn plan_view(r: Result<Vec<Vec<u8>>, String>) -> Result<Seq<Seq<u8>>, Seq<char>> {
    match r {
        Ok(v) => Ok(seqs_view(v@)),
        Err(e) => Err(e@),
    }
}

fn exceeds_message(axis: &str, v: u16, what: &str, limit: u16) -> (r: String)
    ensures
        r@ == exceeds_msg(axis@, v as nat, what@, limit as nat),
{
    let mut msg = string_of(axis);
    msg.append(" coordinate ");
    push_decimal_str(&mut msg, v as u64);
    msg.append(" exceeds terminal ");
    msg.append(what);
    msg.append(" ");
    push_decimal_str(&mut msg, limit as u64);
    msg
}

fn drag_target(v: Option<u16>, axis: &str, what: &str, limit: u16) -> (r: Result<u16, String>)
    ensures
        result_view(r) == (match spec_drag_target(v, axis@, what@, limit as nat) {
            Ok(t) => Ok(t as u16),
            Err(e) => Err(e),
        }),
        r is Ok ==> spec_drag_target(v, axis@, what@, limit as nat) == Ok::<nat, Seq<char>>(
            r->Ok_0 as nat,
        ),
{
    match v {
        Some(v) => if 1 <= v && v <= limit {
            Ok(v)
        } else if v == 0 {
            let mut msg = string_of("to_");
            msg.append(axis);
            msg.append(" must be >= 1");
            Err(msg)
        } else {
            let mut name = string_of("to_");
            name.append(axis);
            Err(exceeds_message(name.as_str(), v, what, limit))
        },
        None => {
            let mut msg = string_of("drag requires --to-");
            msg.append(axis);
            Err(msg)
        },
    }
}

/// Validates a mouse request against the terminal size and encodes it: the
/// decisions of the daemon's mouse handler, from the request's fields to the
/// sequences written to the PTY or the error answered.
pub fn plan_mouse(
    action: &str,
    x: u16,
    y: u16,
    button: Option<&str>,
    direction: Option<&str>,
    count: Option<u16>,
    to_x: Option<u16>,
    to_y: Option<u16>,
    steps: Option<u16>,
    rows: u16,
    cols: u16,
) -> (r: Result<Vec<Vec<u8>>, String>)
    ensures
        plan_view(r) == spec_plan_mouse(
            action@,
            x as nat,
            y as nat,
            opt_view(button),
            opt_view(direction),
            count,
            to_x,
            to_y,
            steps,
            rows as nat,
            cols as nat,
        ),
{
    if x == 0 || y == 0 {
        return Err(string_of("coordinates must be >= 1 (1-based)"));
    }
    if x > cols {
        return Err(exceeds_message("x", x, "width", cols));
    }
    if y > rows {
        return Err(exceeds_message("y", y, "height", rows));
    }
    let button_str = match button {
        Some(b) => b,
        None => "left",
    };
    let btn = match parse_button(button_str) {
        Ok(b) => b,
        Err(e) => return Err(e),
    };
    let count = match count {
        Some(c) => c,
        None => 1,
    };
    if count > 100 {
        return Err(string_of("count must be <= 100"));
    }
    if count == 0 {
        return Err(string_of("count must be >= 1"));
    }
    if str_eq(action, "click") {
        Ok(encode_click(btn, x, y, count))
    } else if str_eq(action, "scroll") {
        let dir_str = match direction {
            Some(d) => d,
            None => return Err(string_of("scroll requires --direction (up|down)")),
        };
        let dir = match parse_direction(dir_str) {
            Ok(d) => d,
            Err(e) => return Err(e),
        };
        Ok(encode_scroll(dir, x, y, count))
    } else if str_eq(action, "press") {
        let e = encode_press(btn, x, y);
        let mut v = Vec::new();
        v.push(e);
        assert(seqs_view(v@) =~= seq![press_event(btn, x as nat, y as nat)]);
        Ok(v)
    } else if str_eq(action, "release") {
        let e = encode_release(btn, x, y);
        let mut v = Vec::new();
        v.push(e);
        assert(seqs_view(v@) =~= seq![release_event(btn, x as nat, y as nat)]);
        Ok(v)
    } else if str_eq(action, "move") {
        let e = encode_move(btn, x, y);
        let mut v = Vec::new();
        v.push(e);
        assert(seqs_view(v@) =~= seq![move_event(btn, x as nat, y as nat)]);
        Ok(v)
    } else if str_eq(action, "drag") {
        let tx = match drag_target(to_x, "x", "width", cols) {
            Ok(v) => v,
            Err(e) => return Err(e),
        };
        let ty = match drag_target(to_y, "y", "height", rows) {
            Ok(v) => v,
            Err(e) => return Err(e),
        };
        let steps = match steps {
            Some(s) => s,
            None => 5,
        };
        if steps > 100 {
            return Err(string_of("steps must be <= 100"));
        }
        Ok(encode_drag(btn, x, y, tx, ty, steps))
    } else {
        let mut msg = string_of("unknown mouse action: '");
        msg.append(action);
        msg.append("'");
        Err(msg)
    }
}


proof fn lemma_drag_point_ends(from: nat, to: nat, s: nat)
    requires
        s >= 1,
    ensures
        to >= 1 ==> drag_point(from, to, (s - 1) as nat, s) == to,
        s >= 2 && from >= 1 ==> drag_point(from, to, 0, s) == from,
{
    if s >= 2 {
        let d: int = s - 1;
        assert((from * (s - 1 - (s - 1)) + to * (s - 1)) / d == to) by (nonlinear_arith)
            requires
                d == s - 1,
                d >= 1,
        {
            assert(from * (s - 1 - (s - 1)) + to * (s - 1) == to * d);
        }
        assert((from * (s - 1 - 0) + to * 0) / d == from) by (nonlinear_arith)
            requires
                d == s - 1,
                d >= 1,
        {
            assert(from * (s - 1 - 0) + to * 0 == from * d);
        }
    }
}

/// A drag starts with a press at its origin; with two or more steps its
/// first move is at the origin; its last move and its release are at its
/// target (coordinates are 1-based).
pub proof fn lemma_drag_reaches_target(
    b: MouseButton,
    fx: nat,
    fy: nat,
    tx: nat,
    ty: nat,
    steps: nat,
)
    requires
        tx >= 1,
        ty >= 1,
    ensures
        drag_events(b, fx, fy, tx, ty, steps)[0] == press_event(b, fx, fy),
        effective_steps(steps) >= 2 && fx >= 1 && fy >= 1 ==> drag_events(b, fx, fy, tx, ty, steps)[1]
            == move_event(b, fx, fy),
        drag_events(b, fx, fy, tx, ty, steps)[effective_steps(steps) as int] == move_event(b, tx, ty),
        drag_events(b, fx, fy, tx, ty, steps).last() == release_event(b, tx, ty),
{
    let s = effective_steps(steps);
    lemma_drag_point_ends(fx, tx, s);
    lemma_drag_point_ends(fy, ty, s);
}

} // verus!
