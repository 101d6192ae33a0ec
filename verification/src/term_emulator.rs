//! Full terminal emulator backed by `alacritty_terminal`, and the rendering
//! of its visible state as an ANSI redraw.
//!
//! The terminal state lives in `alacritty_terminal`; what the redraw reads of
//! it is copied into plain values (`ScreenSnapshot`), and the redraw is
//! computed from those.
use crate::text::{decimal, push_char, push_decimal};
use crate::vte_grid::{is_white, is_whitespace_char, lemma_trim_end_at, trim_end};
use alacritty_terminal::grid::Dimensions;
use alacritty_terminal::index::{Column, Line};
use vstd::prelude::*;
use vstd::utf8::encode_utf8;

verus! {

/// A color as the terminal reports it: a named color (by its number in
/// `NamedColor`: 0-15 the ANSI colors, 256 the default foreground, 257 the
/// default background, ...), an RGB color, or a 256-color index.
#[derive(Clone, Copy, Debug, PartialEq, Eq, Structural)]
pub enum TermColor {
    Named(u16),
    Spec(u8, u8, u8),
    Indexed(u8),
}

/// One cell of the visible grid.
pub struct CellSnapshot {
    pub ch: char,
    pub fg: TermColor,
    pub bg: TermColor,
    /// The cell's attribute flags (`Flags::bits`).
    pub flags: u16,
    /// Combining characters drawn on top of `ch`.
    pub zerowidth: Vec<char>,
}

/// What a redraw reads of the terminal.
pub struct ScreenSnapshot {
    /// The visible lines, top to bottom.
    pub lines: Vec<Vec<CellSnapshot>>,
    /// Cursor line (0-based, as the grid reports it) and column.
    pub cursor_line: i32,
    pub cursor_col: usize,
    pub alt_screen: bool,
    pub show_cursor: bool,
}

pub open spec fn named_foreground() -> u16 {
    256
}

pub open spec fn named_background() -> u16 {
    257
}

pub open spec fn flag_inverse() -> u16 {
    0x1
}

pub open spec fn flag_bold() -> u16 {
    0x2
}

pub open spec fn flag_italic() -> u16 {
    0x4
}

pub open spec fn flag_underline() -> u16 {
    0x8
}

pub open spec fn flag_wide_char_spacer() -> u16 {
    0x40
}

pub open spec fn flag_dim() -> u16 {
    0x80
}

pub open spec fn flag_hidden() -> u16 {
    0x100
}

pub open spec fn flag_strikeout() -> u16 {
    0x200
}

pub open spec fn flag_double_underline() -> u16 {
    0x800
}

/// The flags that SGR sequences express: bold, italic, every underline
/// style, dim, inverse, hidden, strikeout.
pub open spec fn sgr_mask() -> u16 {
    0x7b8f
}

pub open spec fn has(flags: u16, bit: u16) -> bool {
    flags & bit != 0
}

/// SGR foreground code of a named color.
pub open spec fn named_fg_code(n: u16) -> nat {
    if n < 8 {
        (30 + n) as nat
    } else if n < 16 {
        (90 + n - 8) as nat
    } else {
        39
    }
}

/// SGR background code of a named color.
pub open spec fn named_bg_code(n: u16) -> nat {
    if n < 8 {
        (40 + n) as nat
    } else if n < 16 {
        (100 + n - 8) as nat
    } else {
        49
    }
}

/// `38;2;r;g;b` or `48;2;r;g;b`.
pub open spec fn rgb_param(base: nat, r: u8, g: u8, b: u8) -> Seq<u8> {
    decimal(base) + seq![0x3bu8, 0x32u8, 0x3bu8] + decimal(r as nat) + seq![0x3bu8] + decimal(
        g as nat,
    ) + seq![0x3bu8] + decimal(b as nat)
}

/// `38;5;i` or `48;5;i`.
pub open spec fn indexed_param(base: nat, i: u8) -> Seq<u8> {
    decimal(base) + seq![0x3bu8, 0x35u8, 0x3bu8] + decimal(i as nat)
}

/// The SGR parameter that selects foreground `c` (`39` for the default).
pub open spec fn fg_param(c: TermColor) -> Seq<u8> {
    match c {
        TermColor::Named(n) => if n == named_foreground() {
            seq![0x33u8, 0x39u8]
        } else {
            decimal(named_fg_code(n))
        },
        TermColor::Spec(r, g, b) => rgb_param(38, r, g, b),
        TermColor::Indexed(i) => indexed_param(38, i),
    }
}

/// The SGR parameter that selects background `c` (`49` for the default).
pub open spec fn bg_param(c: TermColor) -> Seq<u8> {
    match c {
        TermColor::Named(n) => if n == named_background() {
            seq![0x34u8, 0x39u8]
        } else {
            decimal(named_bg_code(n))
        },
        TermColor::Spec(r, g, b) => rgb_param(48, r, g, b),
        TermColor::Indexed(i) => indexed_param(48, i),
    }
}

/// The `;param` that follows a reset for foreground `c`; nothing for the
/// default foreground.
pub open spec fn fg_after_reset(c: TermColor) -> Seq<u8> {
    if c == TermColor::Named(named_foreground()) {
        Seq::empty()
    } else {
        seq![0x3bu8] + fg_param(c)
    }
}

pub open spec fn bg_after_reset(c: TermColor) -> Seq<u8> {
    if c == TermColor::Named(named_background()) {
        Seq::empty()
    } else {
        seq![0x3bu8] + bg_param(c)
    }
}

/// The attributes currently in effect on the client terminal.
pub struct SgrState {
    pub fg: TermColor,
    pub bg: TermColor,
    pub flags: u16,
}

pub open spec fn initial_sgr_state() -> SgrState {
    SgrState {
        fg: TermColor::Named(named_foreground()),
        bg: TermColor::Named(named_background()),
        flags: 0,
    }
}

pub open spec fn item_if(cond: bool, item: Seq<u8>) -> Seq<Seq<u8>> {
    if cond {
        seq![item]
    } else {
        Seq::empty()
    }
}

pub open spec fn digit_item(d: u8) -> Seq<u8> {
    seq![d]
}

/// Parameters joined by `;`.
pub open spec fn join_params(items: Seq<Seq<u8>>) -> Seq<u8>
    decreases items.len(),
{
    if items.len() == 0 {
        Seq::empty()
    } else if items.len() == 1 {
        items[0]
    } else {
        join_params(items.drop_last()) + seq![0x3bu8] + items.last()
    }
}

pub open spec fn push_if(items: Seq<Seq<u8>>, cond: bool, item: Seq<u8>) -> Seq<Seq<u8>> {
    if cond {
        items.push(item)
    } else {
        items
    }
}

/// The parameters for the flags in `added`, in a fixed order: bold, dim,
/// italic, underline, inverse, hidden, strikeout.
pub open spec fn flag_items(added: u16) -> Seq<Seq<u8>> {
    let i1 = push_if(Seq::empty(), has(added, flag_bold()), digit_item(0x31));
    let i2 = push_if(i1, has(added, flag_dim()), digit_item(0x32));
    let i3 = push_if(i2, has(added, flag_italic()), digit_item(0x33));
    let i4 = push_if(i3, has(added, flag_underline()), digit_item(0x34));
    let i5 = push_if(i4, has(added, flag_inverse()), digit_item(0x37));
    let i6 = push_if(i5, has(added, flag_hidden()), digit_item(0x38));
    push_if(i6, has(added, flag_strikeout()), digit_item(0x39))
}

/// The parameters of an incremental SGR update: the flags that were added,
/// then the colors that changed.
pub open spec fn incremental_items(fg: TermColor, bg: TermColor, new_flags: u16, cur: SgrState) -> Seq<
    Seq<u8>,
> {
    let added = new_flags & !(cur.flags & sgr_mask());
    push_if(push_if(flag_items(added), fg != cur.fg, fg_param(fg)), bg != cur.bg, bg_param(bg))
}

pub open spec fn flag_param(flags: u16, bit: u16, text: Seq<u8>) -> Seq<u8> {
    if has(flags, bit) {
        seq![0x3bu8] + text
    } else {
        Seq::empty()
    }
}

/// Reset, then every attribute of the cell: the flags in a fixed order, the
/// foreground and the background (each omitted when it is the default).
pub open spec fn reset_sgr(fg: TermColor, bg: TermColor, new_flags: u16) -> Seq<u8> {
    seq![0x1bu8, 0x5bu8, 0x30u8] + reset_flag_params(new_flags) + fg_after_reset(fg)
        + bg_after_reset(bg) + seq![0x6du8]
}

/// `ESC [ items m`, or nothing when there are no items.
pub open spec fn incremental_sgr(items: Seq<Seq<u8>>) -> Seq<u8> {
    if items.len() == 0 {
        Seq::empty()
    } else {
        partial_sgr(items) + seq![0x6du8]
    }
}

/// `ESC [` and the parameters joined by `;` (nothing when there are none).
#[verifier::opaque]
pub open spec fn partial_sgr(items: Seq<Seq<u8>>) -> Seq<u8> {
    if items.len() == 0 {
        Seq::empty()
    } else {
        seq![0x1bu8, 0x5bu8] + join_params(items)
    }
}

/// The SGR sequence that takes the terminal from `cur` to the attributes of
/// a cell: a full reset and re-application when an attribute has to be
/// removed, otherwise only what was added or changed (nothing at all when
/// nothing was).
pub open spec fn sgr_bytes(fg: TermColor, bg: TermColor, flags: u16, cur: SgrState) -> Seq<u8> {
    let new_flags = flags & sgr_mask();
    let old_flags = cur.flags & sgr_mask();
    if old_flags & !new_flags != 0 {
        reset_sgr(fg, bg, new_flags)
    } else {
        incremental_sgr(incremental_items(fg, bg, new_flags, cur))
    }
}

pub open spec fn is_default_cell(c: CellSnapshot) -> bool {
    (c.ch == ' ' || c.ch == '\0') && c.fg == TermColor::Named(named_foreground()) && c.bg
        == TermColor::Named(named_background()) && c.flags & sgr_mask() == 0
}

/// One past the last cell of `line[..n]` that is not a default blank, or 0.
pub open spec fn content_end(line: Seq<CellSnapshot>, n: int) -> int
    decreases n,
{
    if n <= 0 {
        0
    } else if !is_default_cell(line[n - 1]) {
        n
    } else {
        content_end(line, n - 1)
    }
}

pub open spec fn char_bytes(c: char) -> Seq<u8> {
    if c == '\0' || c == ' ' {
        seq![0x20u8]
    } else {
        encode_utf8(seq![c])
    }
}

/// The bytes for one cell and the attributes in effect after it.
pub open spec fn render_cell(c: CellSnapshot, st: SgrState) -> (Seq<u8>, SgrState) {
    if has(c.flags, flag_wide_char_spacer()) {
        (Seq::empty(), st)
    } else {
        let needed = c.fg != st.fg || c.bg != st.bg || c.flags & sgr_mask() != st.flags
            & sgr_mask();
        let sgr = if needed {
            sgr_bytes(c.fg, c.bg, c.flags, st)
        } else {
            Seq::empty()
        };
        let st2 = if needed {
            SgrState { fg: c.fg, bg: c.bg, flags: c.flags & sgr_mask() }
        } else {
            st
        };
        (sgr + char_bytes(c.ch) + encode_utf8(c.zerowidth@), st2)
    }
}

/// The bytes for cells `line[..k]`, starting from attributes `st`.
pub open spec fn render_cells(line: Seq<CellSnapshot>, k: int, st: SgrState) -> (Seq<u8>, SgrState)
    decreases k,
{
    if k <= 0 {
        (Seq::empty(), st)
    } else {
        let (prev, st1) = render_cells(line, k - 1, st);
        let (cur, st2) = render_cell(line[k - 1], st1);
        (prev + cur, st2)
    }
}

/// `ESC [ n ; 1 H`
pub open spec fn line_start(n: nat) -> Seq<u8> {
    seq![0x1bu8, 0x5bu8] + decimal(n) + seq![0x3bu8, 0x31u8, 0x48u8]
}

/// A line: nothing when it holds only default blanks; otherwise a move to
/// its start (except for the first line) and its cells up to the last
/// non-blank one.
pub open spec fn render_line(line: Seq<CellSnapshot>, idx: nat, st: SgrState) -> (
    Seq<u8>,
    SgrState,
) {
    let end = content_end(line, line.len() as int);
    if end == 0 {
        (Seq::empty(), st)
    } else {
        let (cells, st2) = render_cells(line, end, st);
        let start = if idx > 0 {
            line_start(idx + 1)
        } else {
            Seq::empty()
        };
        (start + cells, st2)
    }
}

pub open spec fn lines_view(lines: Seq<Vec<CellSnapshot>>) -> Seq<Seq<CellSnapshot>> {
    lines.map_values(|l: Vec<CellSnapshot>| l@)
}

/// The bytes for lines `lines[..k]`.
pub open spec fn render_lines(lines: Seq<Seq<CellSnapshot>>, k: int, st: SgrState) -> (
    Seq<u8>,
    SgrState,
)
    decreases k,
{
    if k <= 0 {
        (Seq::empty(), st)
    } else {
        let (prev, st1) = render_lines(lines, k - 1, st);
        let (cur, st2) = render_line(lines[k - 1], (k - 1) as nat, st1);
        (prev + cur, st2)
    }
}

/// Decimal text of an integer, with a leading `-` when it is negative.
pub open spec fn signed_decimal(v: int) -> Seq<u8> {
    if v < 0 {
        seq![0x2du8] + decimal((-v) as nat)
    } else {
        decimal(v as nat)
    }
}

/// A full redraw: enter the alternate screen if the terminal is on it,
/// reset + home + clear, the lines, reset, the cursor position (1-based),
/// and the cursor's visibility.
pub open spec fn spec_redraw(s: ScreenSnapshot) -> Seq<u8> {
    let lines = lines_view(s.lines@);
    let alt = if s.alt_screen {
        seq![0x1bu8, 0x5bu8, 0x3fu8, 0x31u8, 0x30u8, 0x34u8, 0x39u8, 0x68u8]
    } else {
        Seq::empty()
    };
    let clear = seq![
        0x1bu8,
        0x5bu8,
        0x30u8,
        0x6du8,
        0x1bu8,
        0x5bu8,
        0x48u8,
        0x1bu8,
        0x5bu8,
        0x32u8,
        0x4au8,
    ];
    let body = render_lines(lines, lines.len() as int, initial_sgr_state()).0;
    let reset = seq![0x1bu8, 0x5bu8, 0x30u8, 0x6du8];
    alt + clear + body + reset + cursor_position(s) + cursor_visibility(s)
}

proof fn lemma_partial_sgr_push(items: Seq<Seq<u8>>, x: Seq<u8>)
    ensures
        partial_sgr(items.push(x)) == partial_sgr(items) + (if items.len() == 0 {
            seq![0x1bu8, 0x5bu8]
        } else {
            seq![0x3bu8]
        }) + x,
{
    reveal(partial_sgr);
    assert(items.push(x).drop_last() =~= items);
    if items.len() == 0 {
        assert(partial_sgr(items.push(x)) =~= seq![0x1bu8, 0x5bu8] + x);
        assert(Seq::<u8>::empty() + seq![0x1bu8, 0x5bu8] + x =~= seq![0x1bu8, 0x5bu8] + x);
    } else {
        assert(partial_sgr(items.push(x)) =~= partial_sgr(items) + seq![0x3bu8] + x);
    }
}

/// Map a named color to its ANSI foreground code.
fn named_color_to_fg(n: u16) -> (c: u8)
    ensures
        c == named_fg_code(n),
{
    if n < 8 {
        (30 + n) as u8
    } else if n < 16 {
        (90 + n - 8) as u8
    } else {
        39
    }
}

/// Map a named color to its ANSI background code.
fn named_color_to_bg(n: u16) -> (c: u8)
    ensures
        c == named_bg_code(n),
{
    if n < 8 {
        (40 + n) as u8
    } else if n < 16 {
        (100 + n - 8) as u8
    } else {
        49
    }
}

fn push_rgb_param(out: &mut Vec<u8>, base: u8, r: u8, g: u8, b: u8)
    ensures
        final(out)@ == old(out)@ + rgb_param(base as nat, r, g, b),
{
    push_decimal(out, base as u128);
    out.push(0x3b);
    out.push(0x32);
    out.push(0x3b);
    push_decimal(out, r as u128);
    out.push(0x3b);
    push_decimal(out, g as u128);
    out.push(0x3b);
    push_decimal(out, b as u128);
    assert(out@ =~= old(out)@ + rgb_param(base as nat, r, g, b));
}

fn push_indexed_param(out: &mut Vec<u8>, base: u8, i: u8)
    ensures
        final(out)@ == old(out)@ + indexed_param(base as nat, i),
{
    push_decimal(out, base as u128);
    out.push(0x3b);
    out.push(0x35);
    out.push(0x3b);
    push_decimal(out, i as u128);
    assert(out@ =~= old(out)@ + indexed_param(base as nat, i));
}

/// Append foreground color as raw SGR parameter (no leading semicolon).
fn append_fg_color_raw(out: &mut Vec<u8>, color: &TermColor)
    ensures
        final(out)@ == old(out)@ + fg_param(*color),
{
    match color {
        TermColor::Named(n) => {
            if *n == 256 {
                out.push(0x33);
                out.push(0x39);
                assert(out@ =~= old(out)@ + fg_param(*color));
            } else {
                push_decimal(out, named_color_to_fg(*n) as u128);
            }
        },
        TermColor::Spec(r, g, b) => push_rgb_param(out, 38, *r, *g, *b),
        TermColor::Indexed(i) => push_indexed_param(out, 38, *i),
    }
}

/// Append background color as raw SGR parameter (no leading semicolon).
fn append_bg_color_raw(out: &mut Vec<u8>, color: &TermColor)
    ensures
        final(out)@ == old(out)@ + bg_param(*color),
{
    match color {
        TermColor::Named(n) => {
            if *n == 257 {
                out.push(0x34);
                out.push(0x39);
                assert(out@ =~= old(out)@ + bg_param(*color));
            } else {
                push_decimal(out, named_color_to_bg(*n) as u128);
            }
        },
        TermColor::Spec(r, g, b) => push_rgb_param(out, 48, *r, *g, *b),
        TermColor::Indexed(i) => push_indexed_param(out, 48, *i),
    }
}

/// Append foreground color as SGR parameter (after a reset).
fn append_fg_color(params: &mut Vec<u8>, color: &TermColor)
    ensures
        final(params)@ == old(params)@ + fg_after_reset(*color),
{
    if *color == TermColor::Named(256) {
        assert(old(params)@ + Seq::<u8>::empty() =~= old(params)@);
        return;
    }
    params.push(0x3b);
    append_fg_color_raw(params, color);
    assert(params@ =~= old(params)@ + fg_after_reset(*color));
}

/// Append background color as SGR parameter (after a reset).
fn append_bg_color(params: &mut Vec<u8>, color: &TermColor)
    ensures
        final(params)@ == old(params)@ + bg_after_reset(*color),
{
    if *color == TermColor::Named(257) {
        assert(old(params)@ + Seq::<u8>::empty() =~= old(params)@);
        return;
    }
    params.push(0x3b);
    append_bg_color_raw(params, color);
    assert(params@ =~= old(params)@ + bg_after_reset(*color));
}

fn start_sgr(out: &mut Vec<u8>, started: &mut bool)
    ensures
        final(out)@ == old(out)@ + seq![0x1bu8, 0x5bu8],
        *final(started),
{
    out.push(0x1b);
    out.push(0x5b);
    *started = true;
    assert(out@ =~= old(out)@ + seq![0x1bu8, 0x5bu8]);
}

fn start_sgr_param(out: &mut Vec<u8>, started: &mut bool)
    ensures
        final(out)@ == old(out)@ + (if *old(started) {
            seq![0x3bu8]
        } else {
            seq![0x1bu8, 0x5bu8]
        }),
        *final(started),
{
    if !*started {
        out.push(0x1b);
        out.push(0x5b);
        *started = true;
        assert(out@ =~= old(out)@ + seq![0x1bu8, 0x5bu8]);
    } else {
        out.push(0x3b);
        assert(out@ =~= old(out)@ + seq![0x3bu8]);
    }
}

/// Appends `;text` when `flags` holds `bit`.
fn push_flag_param(out: &mut Vec<u8>, flags: u16, bit: u16, a: u8, b: Option<u8>)
    ensures
        final(out)@ == old(out)@ + flag_param(
            flags,
            bit,
            match b {
                Some(b) => seq![a, b],
                None => seq![a],
            },
        ),
{
    if flags & bit != 0 {
        out.push(0x3b);
        out.push(a);
        match b {
            Some(b) => out.push(b),
            None => {},
        }
    }
    assert(out@ =~= old(out)@ + flag_param(
        flags,
        bit,
        match b {
            Some(b) => seq![a, b],
            None => seq![a],
        },
    ));
}

/// Appends one flag parameter of an incremental update when `cond` holds.
fn push_digit_item_if(
    out: &mut Vec<u8>,
    started: &mut bool,
    cond: bool,
    d: u8,
    Ghost(base): Ghost<Seq<u8>>,
    Ghost(items): Ghost<Seq<Seq<u8>>>,
)
    requires
        *old(started) == (items.len() > 0),
        old(out)@ == base + partial_sgr(items),
    ensures
        final(out)@ == base + partial_sgr(push_if(items, cond, digit_item(d))),
        *final(started) == (push_if(items, cond, digit_item(d)).len() > 0),
{
    proof {
        lemma_partial_sgr_push(items, digit_item(d));
    }
    if cond {
        start_sgr_param(out, started);
        out.push(d);
        assert(out@ =~= base + partial_sgr(items.push(digit_item(d))));
    }
}

/// Appends a color parameter of an incremental update when `cond` holds.
fn push_color_item_if(
    out: &mut Vec<u8>,
    started: &mut bool,
    cond: bool,
    color: &TermColor,
    foreground: bool,
    Ghost(base): Ghost<Seq<u8>>,
    Ghost(items): Ghost<Seq<Seq<u8>>>,
)
    requires
        *old(started) == (items.len() > 0),
        old(out)@ == base + partial_sgr(items),
    ensures
        final(out)@ == base + partial_sgr(
            push_if(
                items,
                cond,
                if foreground {
                    fg_param(*color)
                } else {
                    bg_param(*color)
                },
            ),
        ),
        *final(started) == (push_if(
            items,
            cond,
            if foreground {
                fg_param(*color)
            } else {
                bg_param(*color)
            },
        ).len() > 0),
{
    let ghost x = if foreground {
        fg_param(*color)
    } else {
        bg_param(*color)
    };
    proof {
        lemma_partial_sgr_push(items, x);
    }
    if cond {
        start_sgr_param(out, started);
        if foreground {
            append_fg_color_raw(out, color);
        } else {
            append_bg_color_raw(out, color);
        }
        assert(out@ =~= base + partial_sgr(items.push(x)));
    }
}

proof fn lemma_append_assoc(a: Seq<u8>, b: Seq<u8>, c: Seq<u8>)
    ensures
        a + b + c == a + (b + c),
{
    assert(a + b + c =~= a + (b + c));
}

/// `;1`, `;2`, ... for the flags of a reset, in their fixed order.
pub open spec fn reset_flag_params(new_flags: u16) -> Seq<u8> {
    flag_param(new_flags, flag_bold(), seq![0x31u8]) + flag_param(
        new_flags,
        flag_dim(),
        seq![0x32u8],
    ) + flag_param(new_flags, flag_italic(), seq![0x33u8]) + flag_param(
        new_flags,
        flag_underline(),
        seq![0x34u8],
    ) + flag_param(new_flags, flag_inverse(), seq![0x37u8]) + flag_param(
        new_flags,
        flag_hidden(),
        seq![0x38u8],
    ) + flag_param(new_flags, flag_strikeout(), seq![0x39u8]) + flag_param(
        new_flags,
        flag_double_underline(),
        seq![0x32u8, 0x31u8],
    )
}

fn push_reset_flags(out: &mut Vec<u8>, new_flags: u16)
    ensures
        final(out)@ == old(out)@ + reset_flag_params(new_flags),
{
    let ghost base = out@;
    let ghost mut acc = Seq::<u8>::empty();
    assert(out@ =~= base + acc);
    push_flag_param(out, new_flags, 0x2, 0x31, None);
    proof { lemma_append_assoc(base, acc, flag_param(new_flags, flag_bold(), seq![0x31u8])); acc = acc + flag_param(new_flags, flag_bold(), seq![0x31u8]); }
    push_flag_param(out, new_flags, 0x80, 0x32, None);
    proof { lemma_append_assoc(base, acc, flag_param(new_flags, flag_dim(), seq![0x32u8])); acc = acc + flag_param(new_flags, flag_dim(), seq![0x32u8]); }
    push_flag_param(out, new_flags, 0x4, 0x33, None);
    proof { lemma_append_assoc(base, acc, flag_param(new_flags, flag_italic(), seq![0x33u8])); acc = acc + flag_param(new_flags, flag_italic(), seq![0x33u8]); }
    push_flag_param(out, new_flags, 0x8, 0x34, None);
    proof { lemma_append_assoc(base, acc, flag_param(new_flags, flag_underline(), seq![0x34u8])); acc = acc + flag_param(new_flags, flag_underline(), seq![0x34u8]); }
    push_flag_param(out, new_flags, 0x1, 0x37, None);
    proof { lemma_append_assoc(base, acc, flag_param(new_flags, flag_inverse(), seq![0x37u8])); acc = acc + flag_param(new_flags, flag_inverse(), seq![0x37u8]); }
    push_flag_param(out, new_flags, 0x100, 0x38, None);
    proof { lemma_append_assoc(base, acc, flag_param(new_flags, flag_hidden(), seq![0x38u8])); acc = acc + flag_param(new_flags, flag_hidden(), seq![0x38u8]); }
    push_flag_param(out, new_flags, 0x200, 0x39, None);
    proof { lemma_append_assoc(base, acc, flag_param(new_flags, flag_strikeout(), seq![0x39u8])); acc = acc + flag_param(new_flags, flag_strikeout(), seq![0x39u8]); }
    push_flag_param(out, new_flags, 0x800, 0x32, Some(0x31));
    proof { lemma_append_assoc(base, acc, flag_param(new_flags, flag_double_underline(), seq![0x32u8, 0x31u8])); acc = acc + flag_param(new_flags, flag_double_underline(), seq![0x32u8, 0x31u8]); }
    assert(acc =~= reset_flag_params(new_flags));
}

fn emit_sgr_reset(out: &mut Vec<u8>, cell: &CellSnapshot, new_flags: u16)
    ensures
        final(out)@ == old(out)@ + reset_sgr(cell.fg, cell.bg, new_flags),
{
    let ghost base = out@;
    out.push(0x1b);
    out.push(0x5b);
    out.push(0x30);
    let ghost p0 = out@;
    push_reset_flags(out, new_flags);
    let ghost p1 = out@;
    append_fg_color(out, &cell.fg);
    let ghost p2 = out@;
    append_bg_color(out, &cell.bg);
    let ghost p3 = out@;
    out.push(0x6d);
    proof {
        assert(p0 =~= base + seq![0x1bu8, 0x5bu8, 0x30u8]);
        assert(out@ =~= base + (seq![0x1bu8, 0x5bu8, 0x30u8] + reset_flag_params(new_flags)
            + fg_after_reset(cell.fg) + bg_after_reset(cell.bg) + seq![0x6du8]));
    }
}

fn push_flag_items(out: &mut Vec<u8>, started: &mut bool, added: u16, Ghost(base): Ghost<Seq<u8>>)
    requires
        !*old(started),
        old(out)@ == base,
    ensures
        final(out)@ == base + partial_sgr(flag_items(added)),
        *final(started) == (flag_items(added).len() > 0),
{
    let ghost i0: Seq<Seq<u8>> = Seq::empty();
    assert(out@ =~= base + partial_sgr(i0)) by {
        reveal(partial_sgr);
    }
    push_digit_item_if(out, started, added & 0x2 != 0, 0x31, Ghost(base), Ghost(i0));
    let ghost i1 = push_if(i0, added & 0x2 != 0, digit_item(0x31));
    push_digit_item_if(out, started, added & 0x80 != 0, 0x32, Ghost(base), Ghost(i1));
    let ghost i2 = push_if(i1, added & 0x80 != 0, digit_item(0x32));
    push_digit_item_if(out, started, added & 0x4 != 0, 0x33, Ghost(base), Ghost(i2));
    let ghost i3 = push_if(i2, added & 0x4 != 0, digit_item(0x33));
    push_digit_item_if(out, started, added & 0x8 != 0, 0x34, Ghost(base), Ghost(i3));
    let ghost i4 = push_if(i3, added & 0x8 != 0, digit_item(0x34));
    push_digit_item_if(out, started, added & 0x1 != 0, 0x37, Ghost(base), Ghost(i4));
    let ghost i5 = push_if(i4, added & 0x1 != 0, digit_item(0x37));
    push_digit_item_if(out, started, added & 0x100 != 0, 0x38, Ghost(base), Ghost(i5));
    let ghost i6 = push_if(i5, added & 0x100 != 0, digit_item(0x38));
    push_digit_item_if(out, started, added & 0x200 != 0, 0x39, Ghost(base), Ghost(i6));
}

fn emit_sgr_incremental(
    out: &mut Vec<u8>,
    cell: &CellSnapshot,
    new_flags: u16,
    cur_fg: &TermColor,
    cur_bg: &TermColor,
    old_flags: u16,
)
    ensures
        final(out)@ == old(out)@ + incremental_sgr(
            incremental_items(
                cell.fg,
                cell.bg,
                new_flags,
                SgrState { fg: *cur_fg, bg: *cur_bg, flags: old_flags },
            ),
        ),
{
    let ghost cur = SgrState { fg: *cur_fg, bg: *cur_bg, flags: old_flags };
    let ghost base = out@;
    let mut started = false;
    let added = new_flags & !(old_flags & 0x7b8f);
    push_flag_items(out, &mut started, added, Ghost(base));
    let ghost i7 = flag_items(added);
    push_color_item_if(out, &mut started, cell.fg != *cur_fg, &cell.fg, true, Ghost(base), Ghost(i7));
    let ghost i8 = push_if(i7, cell.fg != cur.fg, fg_param(cell.fg));
    push_color_item_if(out, &mut started, cell.bg != *cur_bg, &cell.bg, false, Ghost(base), Ghost(i8));
    let ghost i9 = push_if(i8, cell.bg != cur.bg, bg_param(cell.bg));
    if started {
        out.push(0x6d);
        assert(out@ =~= base + incremental_sgr(i9));
    } else {
        assert(out@ =~= base + incremental_sgr(i9)) by {
            reveal(partial_sgr);
        }
    }
    assert(i9 == incremental_items(cell.fg, cell.bg, new_flags, cur));
}

/// Emit the SGR escape sequence that gives the following output the
/// attributes of `cell`, and record them as current.
fn emit_sgr(
    out: &mut Vec<u8>,
    cell: &CellSnapshot,
    cur_fg: &mut TermColor,
    cur_bg: &mut TermColor,
    cur_flags: &mut u16,
)
    ensures
        final(out)@ == old(out)@ + sgr_bytes(
            cell.fg,
            cell.bg,
            cell.flags,
            SgrState { fg: *old(cur_fg), bg: *old(cur_bg), flags: *old(cur_flags) },
        ),
        *final(cur_fg) == cell.fg,
        *final(cur_bg) == cell.bg,
        *final(cur_flags) == cell.flags & sgr_mask(),
{
    let new_flags = cell.flags & 0x7b8f;
    let old_flags = *cur_flags & 0x7b8f;
    if old_flags & !new_flags != 0 {
        emit_sgr_reset(out, cell, new_flags);
    } else {
        emit_sgr_incremental(out, cell, new_flags, cur_fg, cur_bg, *cur_flags);
        assert(cell.flags & sgr_mask() == new_flags);
    }
    *cur_fg = cell.fg;
    *cur_bg = cell.bg;
    *cur_flags = new_flags;
}

pub proof fn lemma_encode_utf8_concat(a: Seq<char>, b: Seq<char>)
    ensures
        encode_utf8(a + b) == encode_utf8(a) + encode_utf8(b),
    decreases a.len(),
{
    if a.len() == 0 {
        assert(a + b =~= b);
        assert(Seq::<u8>::empty() + encode_utf8(b) =~= encode_utf8(b));
    } else {
        assert((a + b).drop_first() =~= a.drop_first() + b);
        lemma_encode_utf8_concat(a.drop_first(), b);
        assert(encode_utf8(a + b) =~= encode_utf8(a) + encode_utf8(b));
    }
}

/// Appends the UTF-8 encoding of `c`.
fn push_char_utf8(out: &mut Vec<u8>, c: char)
    ensures
        final(out)@ == old(out)@ + encode_utf8(seq![c]),
{
    let mut s = String::new();
    push_char(&mut s, c);
    assert(s@ =~= seq![c]);
    let bytes = s.as_str().as_bytes();
    let ghost base = out@;
    let mut k: usize = 0;
    while k < bytes.len()
        invariant
            0 <= k <= bytes@.len(),
            bytes@ == encode_utf8(seq![c]),
            out@ == base + bytes@.subrange(0, k as int),
        decreases bytes@.len() - k,
    {
        out.push(bytes[k]);
        k = k + 1;
        assert(out@ =~= base + bytes@.subrange(0, k as int));
    }
    assert(bytes@.subrange(0, k as int) =~= bytes@);
}

fn is_default_cell_exec(cell: &CellSnapshot) -> (r: bool)
    ensures
        r == is_default_cell(*cell),
{
    (cell.ch == ' ' || cell.ch == '\0') && cell.fg == TermColor::Named(256) && cell.bg
        == TermColor::Named(257) && cell.flags & 0x7b8f == 0
}

/// Emits one cell: the SGR change it needs, its character (a space for an
/// empty cell) and its combining characters; wide-character spacers emit
/// nothing.
fn render_cell_into(
    out: &mut Vec<u8>,
    cell: &CellSnapshot,
    cur_fg: &mut TermColor,
    cur_bg: &mut TermColor,
    cur_flags: &mut u16,
)
    ensures
        ({
            let (bytes, st) = render_cell(
                *cell,
                SgrState { fg: *old(cur_fg), bg: *old(cur_bg), flags: *old(cur_flags) },
            );
            &&& final(out)@ == old(out)@ + bytes
            &&& st == (SgrState { fg: *final(cur_fg), bg: *final(cur_bg), flags: *final(cur_flags) })
        }),
{
    if cell.flags & 0x40 != 0 {
        assert(old(out)@ + Seq::<u8>::empty() =~= old(out)@);
        return;
    }
    let ghost base = out@;
    let needed = cell.fg != *cur_fg || cell.bg != *cur_bg || cell.flags & 0x7b8f != *cur_flags
        & 0x7b8f;
    if needed {
        emit_sgr(out, cell, cur_fg, cur_bg, cur_flags);
    }
    let ghost after_sgr = out@;
    if cell.ch == '\0' || cell.ch == ' ' {
        out.push(0x20);
    } else {
        push_char_utf8(out, cell.ch);
    }
    let ghost after_char = out@;
    let mut k: usize = 0;
    assert(cell.zerowidth@.take(0) =~= Seq::<char>::empty());
    while k < cell.zerowidth.len()
        invariant
            0 <= k <= cell.zerowidth@.len(),
            out@ == after_char + encode_utf8(cell.zerowidth@.take(k as int)),
        decreases cell.zerowidth@.len() - k,
    {
        push_char_utf8(out, cell.zerowidth[k]);
        proof {
            lemma_encode_utf8_concat(cell.zerowidth@.take(k as int), seq![cell.zerowidth@[k as int]]);
            assert(cell.zerowidth@.take(k as int) + seq![cell.zerowidth@[k as int]]
                =~= cell.zerowidth@.take(k + 1));
        }
        k = k + 1;
    }
    assert(cell.zerowidth@.take(k as int) =~= cell.zerowidth@);
    proof {
        let cb = if cell.ch == '\0' || cell.ch == ' ' {
            seq![0x20u8]
        } else {
            encode_utf8(seq![cell.ch])
        };
        assert(after_char =~= after_sgr + cb);
    }
    assert(out@ =~= base + render_cell(
        *cell,
        SgrState { fg: *old(cur_fg), bg: *old(cur_bg), flags: *old(cur_flags) },
    ).0);
}

proof fn lemma_content_end_bounds(line: Seq<CellSnapshot>, n: int)
    ensures
        n >= 0 ==> 0 <= content_end(line, n) <= n,
    decreases n,
{
    if n > 0 && is_default_cell(line[n - 1]) {
        lemma_content_end_bounds(line, n - 1);
    }
}

/// One past the last non-default cell of `line`, or 0.
fn line_content_end(line: &Vec<CellSnapshot>) -> (n: usize)
    ensures
        n == content_end(line@, line@.len() as int),
{
    let mut n = line.len();
    while n > 0 && is_default_cell_exec(&line[n - 1])
        invariant
            0 <= n <= line@.len(),
            content_end(line@, n as int) == content_end(line@, line@.len() as int),
        decreases n,
    {
        n = n - 1;
    }
    n
}

/// Emits one line of the redraw.
fn render_line_into(
    out: &mut Vec<u8>,
    line: &Vec<CellSnapshot>,
    idx: usize,
    cur_fg: &mut TermColor,
    cur_bg: &mut TermColor,
    cur_flags: &mut u16,
)
    ensures
        ({
            let (bytes, st) = render_line(
                line@,
                idx as nat,
                SgrState { fg: *old(cur_fg), bg: *old(cur_bg), flags: *old(cur_flags) },
            );
            &&& final(out)@ == old(out)@ + bytes
            &&& st == (SgrState { fg: *final(cur_fg), bg: *final(cur_bg), flags: *final(cur_flags) })
        }),
{
    let ghost st0 = SgrState { fg: *cur_fg, bg: *cur_bg, flags: *cur_flags };
    let end = line_content_end(line);
    proof {
        lemma_content_end_bounds(line@, line@.len() as int);
    }
    if end == 0 {
        assert(old(out)@ + Seq::<u8>::empty() =~= old(out)@);
        return;
    }
    let ghost base = out@;
    if idx > 0 {
        out.push(0x1b);
        out.push(0x5b);
        push_decimal(out, (idx as u128) + 1);
        out.push(0x3b);
        out.push(0x31);
        out.push(0x48);
    }
    let ghost start = out@;
    assert(start =~= base + (if idx > 0 {
        line_start((idx + 1) as nat)
    } else {
        Seq::<u8>::empty()
    }));
    let mut k: usize = 0;
    while k < end
        invariant
            0 <= k <= end <= line@.len(),
            ({
                let (bytes, st) = render_cells(line@, k as int, st0);
                &&& out@ == start + bytes
                &&& st == (SgrState { fg: *cur_fg, bg: *cur_bg, flags: *cur_flags })
            }),
        decreases end - k,
    {
        let ghost before = out@;
        render_cell_into(out, &line[k], cur_fg, cur_bg, cur_flags);
        k = k + 1;
        assert(out@ =~= start + render_cells(line@, k as int, st0).0);
    }
    assert(out@ =~= base + render_line(line@, idx as nat, st0).0);
}

/// The cells of all lines, starting from the default attributes.
fn render_body(out: &mut Vec<u8>, screen: &ScreenSnapshot)
    ensures
        final(out)@ == old(out)@ + render_lines(
            lines_view(screen.lines@),
            screen.lines@.len() as int,
            initial_sgr_state(),
        ).0,
{
    let ghost lines = lines_view(screen.lines@);
    let ghost head = out@;
    let mut cur_fg = TermColor::Named(256);
    let mut cur_bg = TermColor::Named(257);
    let mut cur_flags: u16 = 0;
    let mut i: usize = 0;
    assert(out@ =~= head + render_lines(lines, 0, initial_sgr_state()).0);
    while i < screen.lines.len()
        invariant
            0 <= i <= screen.lines@.len(),
            lines == lines_view(screen.lines@),
            ({
                let (bytes, st) = render_lines(lines, i as int, initial_sgr_state());
                &&& out@ == head + bytes
                &&& st == (SgrState { fg: cur_fg, bg: cur_bg, flags: cur_flags })
            }),
        decreases screen.lines@.len() - i,
    {
        render_line_into(out, &screen.lines[i], i, &mut cur_fg, &mut cur_bg, &mut cur_flags);
        i = i + 1;
        assert(lines[i - 1] == screen.lines@[i - 1]@);
        assert(out@ =~= head + render_lines(lines, i as int, initial_sgr_state()).0);
    }
}

pub open spec fn cursor_position(s: ScreenSnapshot) -> Seq<u8> {
    seq![0x1bu8, 0x5bu8] + signed_decimal(s.cursor_line + 1) + seq![0x3bu8] + decimal(
        (s.cursor_col + 1) as nat,
    ) + seq![0x48u8]
}

pub open spec fn cursor_visibility(s: ScreenSnapshot) -> Seq<u8> {
    if s.show_cursor {
        seq![0x1bu8, 0x5bu8, 0x3fu8, 0x32u8, 0x35u8, 0x68u8]
    } else {
        seq![0x1bu8, 0x5bu8, 0x3fu8, 0x32u8, 0x35u8, 0x6cu8]
    }
}

fn push_cursor_position(out: &mut Vec<u8>, screen: &ScreenSnapshot)
    ensures
        final(out)@ == old(out)@ + cursor_position(*screen),
{
    let ghost base = out@;
    out.push(0x1b);
    out.push(0x5b);
    let line1 = (screen.cursor_line as i64) + 1;
    if line1 < 0 {
        out.push(0x2d);
        push_decimal(out, (-line1) as u128);
    } else {
        push_decimal(out, line1 as u128);
    }
    let ghost mid = out@;
    assert(mid =~= base + seq![0x1bu8, 0x5bu8] + signed_decimal(screen.cursor_line + 1));
    out.push(0x3b);
    push_decimal(out, (screen.cursor_col as u128) + 1);
    out.push(0x48);
    assert(out@ =~= base + cursor_position(*screen));
}

fn push_cursor_visibility(out: &mut Vec<u8>, screen: &ScreenSnapshot)
    ensures
        final(out)@ == old(out)@ + cursor_visibility(*screen),
{
    out.push(0x1b);
    out.push(0x5b);
    out.push(0x3f);
    out.push(0x32);
    out.push(0x35);
    if screen.show_cursor {
        out.push(0x68);
    } else {
        out.push(0x6c);
    }
    assert(out@ =~= old(out)@ + cursor_visibility(*screen));
}

/// The full ANSI redraw of a screen: what `TermEmulator::full_redraw`
/// emits for the state it reads.
pub fn render_redraw(screen: &ScreenSnapshot) -> (out: Vec<u8>)
    ensures
        out@ == spec_redraw(*screen),
{
    let mut out: Vec<u8> = Vec::new();
    if screen.alt_screen {
        out.push(0x1b);
        out.push(0x5b);
        out.push(0x3f);
        out.push(0x31);
        out.push(0x30);
        out.push(0x34);
        out.push(0x39);
        out.push(0x68);
    }
    out.push(0x1b);
    out.push(0x5b);
    out.push(0x30);
    out.push(0x6d);
    out.push(0x1b);
    out.push(0x5b);
    out.push(0x48);
    out.push(0x1b);
    out.push(0x5b);
    out.push(0x32);
    out.push(0x4a);
    let ghost head = out@;
    render_body(&mut out, screen);
    let ghost mid = out@;
    out.push(0x1b);
    out.push(0x5b);
    out.push(0x30);
    out.push(0x6d);
    push_cursor_position(&mut out, screen);
    push_cursor_visibility(&mut out, screen);
    assert(out@ =~= spec_redraw(*screen));
    out
}

/// A line's characters as text: empty cells read as spaces, and trailing
/// whitespace is dropped.
pub open spec fn line_text(line: Seq<CellSnapshot>) -> Seq<char> {
    trim_end(line.map_values(|c: CellSnapshot| shown_char(c.ch)))
}

/// An empty cell (`'\0'`) reads as a space.
pub open spec fn shown_char(c: char) -> char {
    if c == '\0' {
        ' '
    } else {
        c
    }
}

fn shown_char_exec(c: char) -> (r: char)
    ensures
        r == shown_char(c),
{
    if c == '\0' {
        ' '
    } else {
        c
    }
}

pub open spec fn screen_text_spec(s: ScreenSnapshot) -> Seq<Seq<char>> {
    lines_view(s.lines@).map_values(|line: Seq<CellSnapshot>| line_text(line))
}

fn line_string(line: &Vec<CellSnapshot>) -> (s: String)
    ensures
        s@ == line_text(line@),
{
    let ghost chars = line@.map_values(|c: CellSnapshot| shown_char(c.ch));
    let mut e = line.len();
    while e > 0 && is_whitespace_char(shown_char_exec(line[e - 1].ch))
        invariant
            0 <= e <= line@.len(),
            chars == line@.map_values(|c: CellSnapshot| shown_char(c.ch)),
            forall|k: int| e <= k < chars.len() ==> is_white(#[trigger] chars[k]),
        decreases e,
    {
        e = e - 1;
    }
    proof {
        lemma_trim_end_at(chars, e as int);
    }
    let mut out = String::new();
    let mut k: usize = 0;
    while k < e
        invariant
            0 <= k <= e <= line@.len(),
            chars == line@.map_values(|c: CellSnapshot| shown_char(c.ch)),
            out@ == chars.subrange(0, k as int),
        decreases e - k,
    {
        let c = shown_char_exec(line[k].ch);
        push_char(&mut out, c);
        k = k + 1;
        assert(out@ =~= chars.subrange(0, k as int));
    }
    out
}

/// The visible lines as text, trailing spaces removed.
pub fn screen_text(screen: &ScreenSnapshot) -> (lines: Vec<String>)
    ensures
        lines@.map_values(|s: String| s@) == screen_text_spec(*screen),
{
    let mut lines: Vec<String> = Vec::new();
    let mut r: usize = 0;
    while r < screen.lines.len()
        invariant
            0 <= r <= screen.lines@.len(),
            lines@.map_values(|s: String| s@) == screen_text_spec(*screen).take(r as int),
        decreases screen.lines@.len() - r,
    {
        let t = line_string(&screen.lines[r]);
        let ghost prev = lines@;
        lines.push(t);
        r = r + 1;
        assert(lines@.map_values(|s: String| s@) =~= prev.map_values(|s: String| s@).push(t@));
        assert(screen_text_spec(*screen).take(r as int) =~= screen_text_spec(*screen).take(
            (r - 1) as int,
        ).push(t@));
    }
    assert(screen_text_spec(*screen).take(r as int) =~= screen_text_spec(*screen));
    lines
}

// ---- The terminal state, held by `alacritty_terminal`. ----

#[verifier::external_type_specification]
#[verifier::external_body]
#[verifier::reject_recursive_types(T)]
pub struct ExTerm<T>(alacritty_terminal::term::Term<T>);

#[verifier::external_type_specification]
#[verifier::external_body]
pub struct ExVoidListener(alacritty_terminal::event::VoidListener);

/// The escape-sequence parser that drives the terminal. Verus refuses a
/// declaration of `vte::ansi::Processor` (its parameter is bound by a trait
/// of `vte`), so it is held here, opaque.
#[verifier::external_body]
struct AnsiProcessor {
    processor: alacritty_terminal::vte::ansi::Processor,
}

#[verifier::external_type_specification]
#[verifier::external_body]
pub struct ExAnsiColor(alacritty_terminal::vte::ansi::Color);

type AlacrittyTerm = alacritty_terminal::term::Term<alacritty_terminal::event::VoidListener>;

/// `Term::new` with `scrollback` lines of history, `rows` screen lines and
/// `cols` columns, and no event listener. The size is at least alacritty's
/// minimum (one line, two columns); below it the terminal's own cursor
/// arithmetic fails on the first printable byte.
#[verifier::external_body]
fn new_term(rows: u16, cols: u16, scrollback: usize) -> AlacrittyTerm
    requires
        rows >= 1,
        cols >= 2,
{
    let config = alacritty_terminal::term::Config { scrolling_history: scrollback, ..Default::default() };
    let size = alacritty_terminal::term::test::TermSize::new(cols as usize, rows as usize);
    alacritty_terminal::term::Term::new(config, &size, alacritty_terminal::event::VoidListener)
}

/// `Processor::new`: a parser in its initial state.
#[verifier::external_body]
fn new_processor() -> AnsiProcessor {
    AnsiProcessor { processor: alacritty_terminal::vte::ansi::Processor::new() }
}

/// `Processor::advance`: feeds `bytes` to the emulator's terminal. The
/// contract records the feed in the emulator's history, the model that the
/// names below read. The terminal is at least alacritty's minimum size, on
/// which printing does not fail.
#[verifier::external_body]
fn advance_term(emu: &mut TermEmulator, bytes: &[u8])
    requires
        size_ok(old(emu)@),
    ensures
        final(emu)@ == (TermHistory { ops: old(emu)@.ops.push(TermOp::Feed(bytes@)), ..old(emu)@ }),
{
    emu.parser.processor.advance(&mut emu.term, bytes);
}

/// `Term::resize` of the emulator's terminal to `rows` screen lines and
/// `cols` columns, at least alacritty's minimum size (`Term::resize` does not
/// clamp). The contract records the resize in the emulator's history.
#[verifier::external_body]
fn resize_term(emu: &mut TermEmulator, rows: u16, cols: u16)
    requires
        spec_term_size_ok(rows, cols),
    ensures
        final(emu)@ == (TermHistory {
            ops: old(emu)@.ops.push(TermOp::Resize(rows, cols)),
            ..old(emu)@
        }),
{
    emu.term.resize(alacritty_terminal::term::test::TermSize::new(cols as usize, rows as usize));
}

/// A `vte::ansi::Color` as plain values: `NamedColor` by its number.
#[verifier::external_body]
fn color_snapshot(c: alacritty_terminal::vte::ansi::Color) -> TermColor {
    match c {
        alacritty_terminal::vte::ansi::Color::Named(n) => TermColor::Named(n as u16),
        alacritty_terminal::vte::ansi::Color::Spec(rgb) => TermColor::Spec(rgb.r, rgb.g, rgb.b),
        alacritty_terminal::vte::ansi::Color::Indexed(i) => TermColor::Indexed(i),
    }
}

/// One cell as values.
pub struct CellView {
    pub ch: char,
    pub fg: TermColor,
    pub bg: TermColor,
    pub flags: u16,
    pub zerowidth: Seq<char>,
}

pub open spec fn cell_view(c: CellSnapshot) -> CellView {
    CellView { ch: c.ch, fg: c.fg, bg: c.bg, flags: c.flags, zerowidth: c.zerowidth@ }
}

pub open spec fn grid_view(lines: Seq<Vec<CellSnapshot>>) -> Seq<Seq<CellView>> {
    lines.map_values(|l: Vec<CellSnapshot>| l@.map_values(|c: CellSnapshot| cell_view(c)))
}

/// What was done to a terminal after it was created.
pub enum TermOp {
    /// Output bytes fed to it.
    Feed(Seq<u8>),
    /// A resize to rows x columns.
    Resize(u16, u16),
}

/// A terminal's history: the size it was created with and what was done
/// to it since, in order.
pub struct TermHistory {
    pub rows: u16,
    pub cols: u16,
    pub ops: Seq<TermOp>,
}

/// The size (rows, columns) after these operations, from a terminal created
/// with `rows` x `cols`: that of the last resize, if any.
pub open spec fn size_after(rows: u16, cols: u16, ops: Seq<TermOp>) -> (u16, u16)
    decreases ops.len(),
{
    if ops.len() == 0 {
        (rows, cols)
    } else {
        match ops.last() {
            TermOp::Resize(r, c) => (r, c),
            TermOp::Feed(_) => size_after(rows, cols, ops.drop_last()),
        }
    }
}

/// The current size (rows, columns) of a terminal with this history.
pub open spec fn term_size(h: TermHistory) -> (u16, u16) {
    size_after(h.rows, h.cols, h.ops)
}

/// Whether a terminal with this history has a size that can be emulated.
pub open spec fn size_ok(h: TermHistory) -> bool {
    spec_term_size_ok(term_size(h).0, term_size(h).1)
}

/// The visible cells of an `alacritty_terminal` terminal with this history.
pub uninterp spec fn emulated_lines(h: TermHistory) -> Seq<Seq<CellView>>;

/// The cursor point (line, column) of a terminal with this history.
pub uninterp spec fn emulated_cursor(h: TermHistory) -> (i32, usize);

/// Whether a terminal with this history is on the alternate screen and
/// shows its cursor.
pub uninterp spec fn emulated_modes(h: TermHistory) -> (bool, bool);

/// The visible lines of `Term::grid`, top to bottom, each cell as plain
/// values (`Cell::zerowidth` for the combining characters, `Flags::bits`
/// for the flags): those of a terminal with the emulator's history.
#[verifier::external_body]
fn screen_cells(emu: &TermEmulator) -> (r: Vec<Vec<CellSnapshot>>)
    ensures
        grid_view(r@) == emulated_lines(emu@),
        r@.len() == term_size(emu@).0,
        forall|i: int| 0 <= i < r@.len() ==> (#[trigger] r@[i])@.len() == term_size(emu@).1,
{
    let grid = emu.term.grid();
    (0..grid.screen_lines()).map(|l| {
        let row = &grid[Line(l as i32)];
        (0..grid.columns()).map(|c| {
            let cell = &row[Column(c)];
            let zerowidth = cell.zerowidth().map(|z| z.to_vec()).unwrap_or_default();
            let (fg, bg) = (color_snapshot(cell.fg), color_snapshot(cell.bg));
            CellSnapshot { ch: cell.c, fg, bg, flags: cell.flags.bits(), zerowidth }
        }).collect()
    }).collect()
}

/// The cursor point of `Term::grid`: its line and column. The terminal
/// keeps its cursor on the screen: the line is one of the screen lines
/// (`0..rows`) and the column one of the columns.
#[verifier::external_body]
fn term_cursor(emu: &TermEmulator) -> (r: (i32, usize))
    ensures
        r == emulated_cursor(emu@),
        0 <= r.0 < term_size(emu@).0,
        r.1 < term_size(emu@).1,
{
    let point = emu.term.grid().cursor.point;
    (point.line.0, point.column.0)
}

/// Whether `Term::mode` holds `ALT_SCREEN` and `SHOW_CURSOR`.
#[verifier::external_body]
fn term_modes(emu: &TermEmulator) -> (r: (bool, bool))
    ensures
        r == emulated_modes(emu@),
{
    let mode = emu.term.mode();
    (
        mode.contains(alacritty_terminal::term::TermMode::ALT_SCREEN),
        mode.contains(alacritty_terminal::term::TermMode::SHOW_CURSOR),
    )
}

/// Whether a snapshot holds what a terminal with this history shows.
pub open spec fn shows(s: ScreenSnapshot, h: TermHistory) -> bool {
    &&& grid_view(s.lines@) == emulated_lines(h)
    &&& (s.cursor_line, s.cursor_col) == emulated_cursor(h)
    &&& (s.alt_screen, s.show_cursor) == emulated_modes(h)
}

/// A line of cells as text: empty cells read as spaces, trailing
/// whitespace dropped.
pub open spec fn cells_text(line: Seq<CellView>) -> Seq<char> {
    trim_end(line.map_values(|c: CellView| shown_char(c.ch)))
}

proof fn lemma_screen_text_of_view(s: ScreenSnapshot, lines: Seq<Seq<CellView>>)
    requires
        grid_view(s.lines@) == lines,
    ensures
        screen_text_spec(s) == lines.map_values(|l: Seq<CellView>| cells_text(l)),
{
    let a = screen_text_spec(s);
    let b = lines.map_values(|l: Seq<CellView>| cells_text(l));
    assert forall|i: int| 0 <= i < a.len() implies a[i] == b[i] by {
        let row = s.lines@[i]@;
        assert(lines[i] == row.map_values(|c: CellSnapshot| cell_view(c)));
        assert(row.map_values(|c: CellSnapshot| shown_char(c.ch)) =~= lines[i].map_values(
            |c: CellView| shown_char(c.ch),
        ));
    }
    assert(a =~= b);
}

pub open spec fn line_cells_view(line: Seq<CellSnapshot>) -> Seq<CellView> {
    line.map_values(|c: CellSnapshot| cell_view(c))
}

proof fn lemma_content_end_view(a: Seq<CellSnapshot>, b: Seq<CellSnapshot>, n: int)
    requires
        line_cells_view(a) == line_cells_view(b),
        n <= a.len(),
    ensures
        content_end(a, n) == content_end(b, n),
    decreases n,
{
    assert(a.len() == b.len()) by {
        assert(line_cells_view(a).len() == a.len());
        assert(line_cells_view(b).len() == b.len());
    }
    if n > 0 {
        assert(cell_view(a[n - 1]) == line_cells_view(a)[n - 1]);
        assert(cell_view(b[n - 1]) == line_cells_view(b)[n - 1]);
        lemma_content_end_view(a, b, n - 1);
    }
}

proof fn lemma_render_cells_view(a: Seq<CellSnapshot>, b: Seq<CellSnapshot>, k: int, st: SgrState)
    requires
        line_cells_view(a) == line_cells_view(b),
        k <= a.len(),
    ensures
        render_cells(a, k, st) == render_cells(b, k, st),
    decreases k,
{
    assert(a.len() == b.len()) by {
        assert(line_cells_view(a).len() == a.len());
        assert(line_cells_view(b).len() == b.len());
    }
    if k > 0 {
        lemma_render_cells_view(a, b, k - 1, st);
        assert(cell_view(a[k - 1]) == line_cells_view(a)[k - 1]);
        assert(cell_view(b[k - 1]) == line_cells_view(b)[k - 1]);
        let st1 = render_cells(a, k - 1, st).1;
        assert(render_cell(a[k - 1], st1) == render_cell(b[k - 1], st1));
    }
}

proof fn lemma_render_lines_view(
    a: Seq<Seq<CellSnapshot>>,
    b: Seq<Seq<CellSnapshot>>,
    k: int,
    st: SgrState,
)
    requires
        a.len() == b.len(),
        forall|i: int| 0 <= i < a.len() ==> line_cells_view(#[trigger] a[i]) == line_cells_view(b[i]),
        k <= a.len(),
    ensures
        render_lines(a, k, st) == render_lines(b, k, st),
    decreases k,
{
    if k > 0 {
        lemma_render_lines_view(a, b, k - 1, st);
        let st1 = render_lines(a, k - 1, st).1;
        let la = a[k - 1];
        let lb = b[k - 1];
        assert(line_cells_view(la) == line_cells_view(lb));
        assert(la.len() == lb.len()) by {
            assert(line_cells_view(la).len() == la.len());
            assert(line_cells_view(lb).len() == lb.len());
        }
        lemma_content_end_view(la, lb, la.len() as int);
        let end = content_end(la, la.len() as int);
        if end != 0 {
            lemma_content_end_bound(la, la.len() as int);
            lemma_render_cells_view(la, lb, end, st1);
        }
    }
}

proof fn lemma_content_end_bound(line: Seq<CellSnapshot>, n: int)
    ensures
        content_end(line, n) <= (if n > 0 {
            n
        } else {
            0
        }),
    decreases n,
{
    if n > 0 {
        lemma_content_end_bound(line, n - 1);
    }
}

/// Two snapshots that show the same cells, cursor and modes give the same
/// redraw.
pub proof fn lemma_redraw_determined(s1: ScreenSnapshot, s2: ScreenSnapshot)
    requires
        grid_view(s1.lines@) == grid_view(s2.lines@),
        (s1.cursor_line, s1.cursor_col) == (s2.cursor_line, s2.cursor_col),
        (s1.alt_screen, s1.show_cursor) == (s2.alt_screen, s2.show_cursor),
    ensures
        spec_redraw(s1) == spec_redraw(s2),
{
    let a = lines_view(s1.lines@);
    let b = lines_view(s2.lines@);
    assert(a.len() == b.len()) by {
        assert(grid_view(s1.lines@).len() == s1.lines@.len());
        assert(grid_view(s2.lines@).len() == s2.lines@.len());
    }
    assert forall|i: int| 0 <= i < a.len() implies line_cells_view(#[trigger] a[i])
        == line_cells_view(b[i]) by {
        assert(grid_view(s1.lines@)[i] == line_cells_view(a[i]));
        assert(grid_view(s2.lines@)[i] == line_cells_view(b[i]));
    }
    lemma_render_lines_view(a, b, a.len() as int, initial_sgr_state());
}

/// A redraw is framed by its prefix and suffix.
proof fn lemma_redraw_frame(s: ScreenSnapshot)
    requires
        s.cursor_line >= 0,
    ensures
        ({
            let p = redraw_prefix(s.alt_screen);
            let q = redraw_suffix(s.cursor_line as nat, s.cursor_col as nat, s.show_cursor);
            let r = spec_redraw(s);
            &&& r.len() >= p.len() + q.len()
            &&& r.subrange(0, p.len() as int) == p
            &&& r.subrange(r.len() - q.len(), r.len() as int) == q
        }),
{
    let lines = lines_view(s.lines@);
    let body = render_lines(lines, lines.len() as int, initial_sgr_state()).0;
    let p = redraw_prefix(s.alt_screen);
    let q = redraw_suffix(s.cursor_line as nat, s.cursor_col as nat, s.show_cursor);
    assert(signed_decimal(s.cursor_line + 1) == decimal((s.cursor_line + 1) as nat));
    assert(spec_redraw(s) =~= p + body + q);
    assert((p + body + q).subrange(0, p.len() as int) =~= p);
    assert((p + body + q).subrange((p + body + q).len() - q.len(), (p + body + q).len() as int)
        =~= q);
}

/// The redraw of what a terminal with this history shows.
pub open spec fn redraw_of(h: TermHistory) -> Seq<u8> {
    spec_redraw(choose|s: ScreenSnapshot| shows(s, h))
}

/// Lines of scrollback history the emulator keeps.
pub const SCROLLBACK_LINES: usize = 10000;

/// Whether a terminal of this size can be emulated: at least one line and
/// two columns.
pub open spec fn spec_term_size_ok(rows: u16, cols: u16) -> bool {
    rows >= 1 && cols >= 2
}

/// Whether a terminal of this size can be emulated.
pub fn term_size_ok(rows: u16, cols: u16) -> (r: bool)
    ensures
        r == spec_term_size_ok(rows, cols),
{
    rows >= 1 && cols >= 2
}

/// The bytes a redraw starts with: enter the alternate screen when the
/// terminal is on it, then reset, home and clear.
pub open spec fn redraw_prefix(alt: bool) -> Seq<u8> {
    (if alt {
        seq![0x1bu8, 0x5bu8, 0x3fu8, 0x31u8, 0x30u8, 0x34u8, 0x39u8, 0x68u8]
    } else {
        Seq::empty()
    }) + seq![
        0x1bu8,
        0x5bu8,
        0x30u8,
        0x6du8,
        0x1bu8,
        0x5bu8,
        0x48u8,
        0x1bu8,
        0x5bu8,
        0x32u8,
        0x4au8,
    ]
}

/// The bytes a redraw ends with: reset, the cursor position (`row`, `col`,
/// 0-based, written 1-based) and the cursor's visibility.
pub open spec fn redraw_suffix(row: nat, col: nat, show: bool) -> Seq<u8> {
    seq![0x1bu8, 0x5bu8, 0x30u8, 0x6du8] + seq![0x1bu8, 0x5bu8] + decimal(row + 1) + seq![0x3bu8]
        + decimal(col + 1) + seq![0x48u8] + if show {
        seq![0x1bu8, 0x5bu8, 0x3fu8, 0x32u8, 0x35u8, 0x68u8]
    } else {
        seq![0x1bu8, 0x5bu8, 0x3fu8, 0x32u8, 0x35u8, 0x6cu8]
    }
}

/// The cursor position (row, column), 0-based, of a terminal with this
/// history.
pub open spec fn cursor_of(h: TermHistory) -> (nat, nat) {
    (emulated_cursor(h).0 as nat, emulated_cursor(h).1 as nat)
}

/// A full terminal emulator wrapping `alacritty_terminal`.
pub struct TermEmulator {
    term: AlacrittyTerm,
    parser: AnsiProcessor,
    history: Ghost<TermHistory>,
}

impl View for TermEmulator {
    type V = TermHistory;

    closed spec fn view(&self) -> TermHistory {
        self.history@
    }
}

impl TermEmulator {
    /// The terminal's size never drops below what can be emulated.
    #[verifier::type_invariant]
    spec fn size_stays_ok(self) -> bool {
        size_ok(self.history@)
    }

    /// Create a new terminal emulator with the given dimensions.
    pub fn new(rows: u16, cols: u16) -> (t: Self)
        requires
            spec_term_size_ok(rows, cols),
        ensures
            t@ == (TermHistory { rows, cols, ops: Seq::empty() }),
            term_size(t@) == (rows, cols),
    {
        TermEmulator {
            term: new_term(rows, cols, SCROLLBACK_LINES),
            parser: new_processor(),
            history: Ghost(TermHistory { rows, cols, ops: Seq::empty() }),
        }
    }

    /// Feed raw PTY output bytes into the terminal emulator.
    pub fn process(&mut self, bytes: &[u8])
        ensures
            final(self)@ == (TermHistory {
                ops: old(self)@.ops.push(TermOp::Feed(bytes@)),
                ..old(self)@
            }),
            term_size(final(self)@) == term_size(old(self)@),
    {
        proof {
            use_type_invariant(&*self);
        }
        advance_term(self, bytes);
        proof {
            let ops = old(self)@.ops.push(TermOp::Feed(bytes@));
            assert(ops.drop_last() =~= old(self)@.ops);
        }
    }

    /// Resize the terminal.
    pub fn resize(&mut self, rows: u16, cols: u16)
        requires
            spec_term_size_ok(rows, cols),
        ensures
            final(self)@ == (TermHistory {
                ops: old(self)@.ops.push(TermOp::Resize(rows, cols)),
                ..old(self)@
            }),
            term_size(final(self)@) == (rows, cols),
    {
        resize_term(self, rows, cols);
    }

    /// What a redraw reads of the terminal.
    pub fn snapshot(&self) -> (s: ScreenSnapshot)
        ensures
            shows(s, self@),
            0 <= s.cursor_line,
            s.lines@.len() == term_size(self@).0,
    {
        let (cursor_line, cursor_col) = term_cursor(self);
        let (alt_screen, show_cursor) = term_modes(self);
        ScreenSnapshot { lines: screen_cells(self), cursor_line, cursor_col, alt_screen, show_cursor }
    }

    /// Return the current visible screen lines (trimmed trailing spaces).
    pub fn screen(&self) -> (lines: Vec<String>)
        ensures
            lines@.map_values(|t: String| t@) == emulated_lines(self@).map_values(
                |l: Seq<CellView>| cells_text(l),
            ),
            lines@.len() == term_size(self@).0,
    {
        let s = self.snapshot();
        proof {
            lemma_screen_text_of_view(s, emulated_lines(self@));
        }
        let lines = screen_text(&s);
        proof {
            assert(lines@.map_values(|t: String| t@).len() == lines@.len());
        }
        lines
    }

    /// Return cursor position (row, col), 0-based: a point on the screen.
    pub fn cursor(&self) -> (r: (usize, usize))
        ensures
            (r.0 as nat, r.1 as nat) == cursor_of(self@),
            r.0 < term_size(self@).0,
            r.1 < term_size(self@).1,
    {
        let (line, col) = term_cursor(self);
        (line as usize, col)
    }

    /// Whether the terminal is currently in alternate screen mode.
    pub fn is_alt_screen(&self) -> (r: bool)
        ensures
            r == emulated_modes(self@).0,
    {
        let (alt, _) = term_modes(self);
        alt
    }

    /// Generate a full ANSI redraw of the current terminal state: written to
    /// a client terminal of the same size, it reproduces the visible state,
    /// colors, attributes and cursor included. It starts by entering the
    /// alternate screen (when the terminal is on it), resetting, homing and
    /// clearing, and ends by resetting, placing the cursor where `cursor`
    /// says and showing or hiding it.
    pub fn full_redraw(&self) -> (out: Vec<u8>)
        ensures
            out@ == redraw_of(self@),
            ({
                let p = redraw_prefix(emulated_modes(self@).0);
                let q = redraw_suffix(cursor_of(self@).0, cursor_of(self@).1, emulated_modes(self@).1);
                &&& out@.len() >= p.len() + q.len()
                &&& out@.subrange(0, p.len() as int) == p
                &&& out@.subrange(out@.len() - q.len(), out@.len() as int) == q
            }),
    {
        let s = self.snapshot();
        proof {
            let c = choose|c: ScreenSnapshot| shows(c, self@);
            lemma_redraw_determined(s, c);
            lemma_redraw_frame(s);
        }
        render_redraw(&s)
    }
}

} // verus!
